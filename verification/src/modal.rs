//! The label palette: choosing the active label, adding and deleting
//! labels, hiding them, and giving them another color.

use vstd::prelude::*;
use crate::app::{
    document_wf, palette, palette_color, same_rows, tag_table, App, Color, Label, Line, Mode, Tag,
    CHANGE_MODAL, CHANGE_OFFSET, CHANGE_ROW, CHANGE_STATUS, LABELS_MAX, PALETTE_LEN,
};
use crate::chain::{
    first_prev, has_next, joint_ok, lemma_next_at, lemma_next_index, lemma_no_next, linked,
    next_index, next_tag, row_ok,
};

verus! {

/// The tag after the label at `k` is gone: labels behind `k` move up by one.
pub open spec fn lowered(tag: Tag, k: int) -> Tag {
    if tag.label > k {
        Tag { label: (tag.label - 1) as usize, ..tag }
    } else {
        tag
    }
}

/// The tag after a label has come in at `at`: the labels from `at` on move
/// down by one.
pub open spec fn raised(tag: Tag, at: int) -> Tag {
    if tag.label >= at {
        Tag { label: (tag.label + 1) as usize, ..tag }
    } else {
        tag
    }
}

/// The first `n` tags of a list after the label at `k` is gone: the tags of
/// that label are dropped, the others keep their order.
pub open spec fn relabeled(tags: Seq<Tag>, k: int, n: int) -> Seq<Tag>
    decreases n,
{
    if n <= 0 {
        Seq::empty()
    } else if tags[n - 1].label == k {
        relabeled(tags, k, n - 1)
    } else {
        relabeled(tags, k, n - 1).push(lowered(tags[n - 1], k))
    }
}

/// The table after the label at `k` is gone.
pub open spec fn reindexed(t: Seq<Seq<Tag>>, k: int) -> Seq<Seq<Tag>> {
    Seq::new(t.len(), |i: int| relabeled(t[i], k, t[i].len() as int))
}

/// The table after a label has come in at `at`.
pub open spec fn shifted(t: Seq<Seq<Tag>>, at: int) -> Seq<Seq<Tag>> {
    Seq::new(t.len(), |i: int| Seq::new(t[i].len(), |j: int| raised(t[i][j], at)))
}

/// Place of a color in the palette, looking from `from` on; the length of
/// the palette where the color is not in it.
pub open spec fn palette_find(color: Color, from: int) -> int
    decreases PALETTE_LEN - from,
{
    if from >= PALETTE_LEN {
        PALETTE_LEN as int
    } else if palette_color(from) == color {
        from
    } else {
        palette_find(color, from + 1)
    }
}

/// The color one step further in the palette, going round. A color that is
/// not in the palette is followed by the first.
pub open spec fn color_behind(color: Color) -> Color {
    let at = palette_find(color, 0);
    if 0 <= at && at + 1 < PALETTE_LEN {
        palette_color(at + 1)
    } else {
        palette_color(0)
    }
}

/// The color one step back in the palette, going round. A color that is not
/// in the palette is preceded by the last.
pub open spec fn color_before(color: Color) -> Color {
    let at = palette_find(color, 0);
    if 0 < at < PALETTE_LEN {
        palette_color(at - 1)
    } else {
        palette_color(PALETTE_LEN - 1)
    }
}

/// What holds of a list once the tags of one label are dropped.
pub proof fn lemma_relabeled(tags: Seq<Tag>, k: int, n: int)
    requires
        0 <= n <= tags.len(),
        row_ok(tags),
    ensures
        ({
            let r = relabeled(tags, k, n);
            &&& r.len() <= n
            &&& forall|j: int|
                0 <= j < r.len() ==> exists|m: int|
                    0 <= m < n && tags[m].label != k && #[trigger] r[j] == lowered(
                        #[trigger] tags[m],
                        k,
                    )
            &&& forall|m: int|
                0 <= m < n && (#[trigger] tags[m]).label != k ==> r.contains(lowered(tags[m], k))
            &&& forall|j: int| 0 <= j < r.len() && (#[trigger] r[j]).has_line_prev ==> j == 0
            &&& forall|a: int, b: int|
                0 <= a < r.len() && 0 <= b < r.len() && (#[trigger] r[a]).has_line_next && (
                #[trigger] r[b]).has_line_next ==> a == b
            &&& forall|j: int|
                0 <= j < r.len() && (#[trigger] r[j]).has_line_next ==> has_next(tags) && next_index(
                    tags,
                    0,
                ) < n && next_tag(tags).label != k && r[j] == lowered(next_tag(tags), k)
            &&& has_next(tags) && next_index(tags, 0) < n && next_tag(tags).label != k
                ==> exists|j: int| 0 <= j < r.len() && (#[trigger] r[j]).has_line_next
            &&& n >= 1 && tags[0].label != k ==> r.len() >= 1 && r[0] == lowered(tags[0], k)
            &&& first_prev(r) ==> n >= 1 && tags[0].label != k && tags[0].has_line_prev
        }),
    decreases n,
{
    lemma_next_index(tags, 0);
    if n > 0 {
        lemma_relabeled(tags, k, n - 1);
        let before = relabeled(tags, k, n - 1);
        let r = relabeled(tags, k, n);
        let t = tags[n - 1];
        if t.has_line_next {
            lemma_next_at(tags, n - 1);
        }
        if t.label != k {
            assert(r == before.push(lowered(t, k)));
            assert forall|j: int| 0 <= j < r.len() implies exists|m: int|
                0 <= m < n && tags[m].label != k && #[trigger] r[j] == lowered(
                    #[trigger] tags[m],
                    k,
                ) by {
                if j < before.len() {
                    assert(r[j] == before[j]);
                    let m = choose|m: int|
                        0 <= m < n - 1 && tags[m].label != k && before[j] == lowered(
                            #[trigger] tags[m],
                            k,
                        );
                    assert(0 <= m < n && tags[m].label != k && r[j] == lowered(tags[m], k));
                } else {
                    assert(r[j] == lowered(tags[n - 1], k));
                }
            }
            assert forall|m: int| 0 <= m < n && (#[trigger] tags[m]).label != k implies r.contains(
                lowered(tags[m], k),
            ) by {
                if m < n - 1 {
                    assert(before.contains(lowered(tags[m], k)));
                    let j = choose|j: int| 0 <= j < before.len() && before[j] == lowered(tags[m], k);
                    assert(r[j] == before[j]);
                } else {
                    assert(r[r.len() - 1] == lowered(tags[m], k));
                }
            }
            assert forall|j: int| 0 <= j < r.len() && (#[trigger] r[j]).has_line_prev implies j
                == 0 by {
                if j < before.len() {
                    assert(r[j] == before[j]);
                } else {
                    assert(tags[n - 1].has_line_prev);
                }
            }
            assert forall|j: int| 0 <= j < r.len() && (#[trigger] r[j]).has_line_next implies has_next(
                tags,
            ) && next_index(tags, 0) < n && next_tag(tags).label != k && r[j] == lowered(
                next_tag(tags),
                k,
            ) by {
                if j < before.len() {
                    assert(r[j] == before[j]);
                } else {
                    assert(tags[n - 1].has_line_next);
                }
            }
            assert forall|a: int, b: int|
                0 <= a < r.len() && 0 <= b < r.len() && (#[trigger] r[a]).has_line_next && (
                #[trigger] r[b]).has_line_next implies a == b by {
                if a < before.len() {
                    assert(r[a] == before[a]);
                }
                if b < before.len() {
                    assert(r[b] == before[b]);
                }
                if a < before.len() && b == before.len() {
                    assert(before[a].has_line_next);
                    assert(next_index(tags, 0) < n - 1);
                    assert(tags[n - 1].has_line_next);
                }
                if b < before.len() && a == before.len() {
                    assert(before[b].has_line_next);
                    assert(next_index(tags, 0) < n - 1);
                    assert(tags[n - 1].has_line_next);
                }
            }
            if has_next(tags) && next_index(tags, 0) < n && next_tag(tags).label != k {
                if next_index(tags, 0) < n - 1 {
                    let j = choose|j: int| 0 <= j < before.len() && (#[trigger] before[j]).has_line_next;
                    assert(r[j] == before[j]);
                } else {
                    assert(r[r.len() - 1].has_line_next);
                }
            }
            if n >= 2 && tags[0].label != k {
                assert(r[0] == before[0]);
            }
        } else {
            assert(r == before);
            assert forall|j: int| 0 <= j < r.len() implies exists|m: int|
                0 <= m < n && tags[m].label != k && #[trigger] r[j] == lowered(
                    #[trigger] tags[m],
                    k,
                ) by {
                let m = choose|m: int|
                    0 <= m < n - 1 && tags[m].label != k && before[j] == lowered(
                        #[trigger] tags[m],
                        k,
                    );
                assert(0 <= m < n && tags[m].label != k && r[j] == lowered(tags[m], k));
            }
        }
        if first_prev(r) {
            let m = choose|m: int|
                0 <= m < n && tags[m].label != k && r[0] == lowered(#[trigger] tags[m], k);
            assert(tags[m].has_line_prev);
        }
    }
}

/// A list without the tags of one label is in order if it was; it starts
/// with a continued tag, or holds a continuing one, where the list did and
/// that tag is of another label.
pub proof fn lemma_relabeled_row(tags: Seq<Tag>, k: int)
    requires
        row_ok(tags),
    ensures
        ({
            let r = relabeled(tags, k, tags.len() as int);
            &&& row_ok(r)
            &&& first_prev(r) == (first_prev(tags) && tags[0].label != k)
            &&& has_next(r) == (has_next(tags) && next_tag(tags).label != k)
            &&& first_prev(r) ==> r[0] == lowered(tags[0], k)
            &&& has_next(r) ==> next_tag(r) == lowered(next_tag(tags), k)
        }),
{
    let r = relabeled(tags, k, tags.len() as int);
    lemma_relabeled(tags, k, tags.len() as int);
    lemma_next_index(tags, 0);
    lemma_next_index(r, 0);
    if has_next(tags) && next_tag(tags).label != k {
        let j = choose|j: int| 0 <= j < r.len() && (#[trigger] r[j]).has_line_next;
        lemma_next_at(r, j);
    } else {
        assert forall|j: int| 0 <= j < r.len() implies !(#[trigger] r[j]).has_line_next by {}
        lemma_no_next(r);
    }
}

/// Dropping a label keeps the table linked.
pub proof fn lemma_reindexed_linked(t: Seq<Seq<Tag>>, k: int)
    requires
        linked(t),
    ensures
        linked(reindexed(t, k)),
{
    let n = reindexed(t, k);
    assert forall|i: int| 0 <= i < n.len() implies row_ok(#[trigger] n[i]) by {
        assert(row_ok(t[i]));
        lemma_relabeled_row(t[i], k);
    }
    assert forall|b: int| -1 <= b < n.len() implies #[trigger] joint_ok(n, b) by {
        assert(joint_ok(t, b));
        if b >= 0 {
            assert(row_ok(t[b]));
            lemma_relabeled_row(t[b], k);
        }
        if b + 1 < n.len() {
            assert(row_ok(t[b + 1]));
            lemma_relabeled_row(t[b + 1], k);
        }
    }
}

/// Deleting the label at `k` leaves no tag of that label, and every tag of a
/// label behind `k` now names the label one place before. Tags are neither
/// added nor reordered: each tag left stands for a tag of another label that
/// was there, and each such tag is still there.
pub proof fn lemma_label_deleted(t: Seq<Seq<Tag>>, k: int, i: int)
    requires
        linked(t),
        0 <= k,
        0 <= i < t.len(),
    ensures
        forall|j: int|
            0 <= j < reindexed(t, k)[i].len() ==> exists|m: int|
                0 <= m < t[i].len() && t[i][m].label != k && #[trigger] reindexed(t, k)[i][j]
                    == lowered(#[trigger] t[i][m], k),
        forall|m: int|
            0 <= m < t[i].len() && (#[trigger] t[i][m]).label != k ==> reindexed(t, k)[i].contains(
                lowered(t[i][m], k),
            ),
        forall|x: Tag| x.label != k ==> lowered(x, k).label == if x.label > k {
            x.label - 1
        } else {
            x.label as int
        },
{
    assert(row_ok(t[i]));
    lemma_relabeled(t[i], k, t[i].len() as int);
}

/// A list whose labels make room for a new one is in order if it was, and
/// its continued and continuing tags are the old ones with their new label.
pub proof fn lemma_raised_row(tags: Seq<Tag>, at: int)
    requires
        row_ok(tags),
    ensures
        ({
            let r = Seq::new(tags.len(), |j: int| raised(tags[j], at));
            &&& row_ok(r)
            &&& first_prev(r) == first_prev(tags)
            &&& has_next(r) == has_next(tags)
            &&& first_prev(r) ==> r[0] == raised(tags[0], at)
            &&& has_next(r) ==> next_tag(r) == raised(next_tag(tags), at)
        }),
{
    let r = Seq::new(tags.len(), |j: int| raised(tags[j], at));
    lemma_next_index(tags, 0);
    lemma_next_index(r, 0);
    assert forall|j: int| 0 <= j < r.len() && (#[trigger] r[j]).has_line_prev implies j == 0 by {
        assert(r[j] == raised(tags[j], at));
    }
    assert forall|a: int, b: int|
        0 <= a < r.len() && 0 <= b < r.len() && (#[trigger] r[a]).has_line_next && (
        #[trigger] r[b]).has_line_next implies a == b by {
        assert(r[a] == raised(tags[a], at));
        assert(r[b] == raised(tags[b], at));
    }
    if has_next(tags) {
        let m = next_index(tags, 0);
        assert(r[m] == raised(tags[m], at));
        lemma_next_at(r, m);
    } else {
        assert forall|j: int| 0 <= j < r.len() implies !(#[trigger] r[j]).has_line_next by {
            assert(r[j] == raised(tags[j], at));
        }
        lemma_no_next(r);
    }
}

/// Making room for a label keeps the table linked.
pub proof fn lemma_shifted_linked(t: Seq<Seq<Tag>>, at: int)
    requires
        linked(t),
    ensures
        linked(shifted(t, at)),
{
    let n = shifted(t, at);
    assert forall|i: int| 0 <= i < n.len() implies row_ok(#[trigger] n[i]) by {
        assert(row_ok(t[i]));
        lemma_raised_row(t[i], at);
    }
    assert forall|b: int| -1 <= b < n.len() implies #[trigger] joint_ok(n, b) by {
        assert(joint_ok(t, b));
        if b >= 0 {
            assert(row_ok(t[b]));
            lemma_raised_row(t[b], at);
        }
        if b + 1 < n.len() {
            assert(row_ok(t[b + 1]));
            lemma_raised_row(t[b + 1], at);
        }
    }
}

/// Drops every tag of the label at `deleted` and lets the tags of the labels
/// behind it name the label one place before.
pub fn reindex_on_label_delete(lines: &mut Vec<Line>, deleted: usize)
    ensures
        same_rows(final(lines)@, old(lines)@),
        tag_table(final(lines)@) == reindexed(tag_table(old(lines)@), deleted as int),
{
    let mut i: usize = 0;
    while i < lines.len()
        invariant
            i <= lines@.len(),
            same_rows(lines@, old(lines)@),
            forall|r: int|
                0 <= r < i ==> (#[trigger] lines@[r]).tags@ == relabeled(
                    old(lines)@[r].tags@,
                    deleted as int,
                    old(lines)@[r].tags@.len() as int,
                ),
            forall|r: int| i <= r < lines@.len()
                ==> (#[trigger] lines@[r]).tags@ == old(lines)@[r].tags@,
        decreases lines@.len() - i,
    {
        let ghost before = lines@;
        let mut kept: Vec<Tag> = Vec::new();
        let count: usize = lines[i].tags.len();
        let mut j: usize = 0;
        while j < count
            invariant
                j <= count,
                i < lines@.len(),
                lines@ == before,
                count == lines@[i as int].tags@.len(),
                kept@ == relabeled(lines@[i as int].tags@, deleted as int, j as int),
            decreases count - j,
        {
            let tag = lines[i].tags[j];
            if tag.label != deleted {
                if tag.label > deleted {
                    kept.push(
                        Tag {
                            start: tag.start,
                            end: tag.end,
                            label: tag.label - 1,
                            has_line_prev: tag.has_line_prev,
                            has_line_next: tag.has_line_next,
                        },
                    );
                } else {
                    kept.push(tag);
                }
            }
            j += 1;
        }
        lines[i].tags = kept;
        proof {
            assert forall|r: int| 0 <= r < lines@.len() implies (#[trigger] lines@[r]).same_row(
                old(lines)@[r],
            ) by {
                assert(before[r].same_row(old(lines)@[r]));
            }
            assert forall|r: int| 0 <= r < i + 1 implies (#[trigger] lines@[r]).tags@ == relabeled(
                old(lines)@[r].tags@,
                deleted as int,
                old(lines)@[r].tags@.len() as int,
            ) by {
                if r < i {
                    assert(lines@[r] == before[r]);
                }
            }
            assert forall|r: int| i + 1 <= r < lines@.len() implies (#[trigger] lines@[r]).tags@
                == old(lines)@[r].tags@ by {
                assert(lines@[r] == before[r]);
            }
        }
        i += 1;
    }
    assert(tag_table(lines@) =~= reindexed(tag_table(old(lines)@), deleted as int));
}

/// Lets the tags of the labels from `at` on name the label one place
/// further.
fn shift_labels(lines: &mut Vec<Line>, at: usize)
    requires
        forall|r: int, j: int|
            0 <= r < old(lines)@.len() && 0 <= j < old(lines)@[r].tags@.len() ==> (
            #[trigger] old(lines)@[r].tags@[j]).label < usize::MAX,
    ensures
        same_rows(final(lines)@, old(lines)@),
        tag_table(final(lines)@) == shifted(tag_table(old(lines)@), at as int),
{
    let mut i: usize = 0;
    while i < lines.len()
        invariant
            i <= lines@.len(),
            same_rows(lines@, old(lines)@),
            forall|r: int, j: int|
                0 <= r < old(lines)@.len() && 0 <= j < old(lines)@[r].tags@.len() ==> (
                #[trigger] old(lines)@[r].tags@[j]).label < usize::MAX,
            forall|r: int|
                0 <= r < i ==> (#[trigger] lines@[r]).tags@ == Seq::new(
                    old(lines)@[r].tags@.len(),
                    |j: int| raised(old(lines)@[r].tags@[j], at as int),
                ),
            forall|r: int| i <= r < lines@.len()
                ==> (#[trigger] lines@[r]).tags@ == old(lines)@[r].tags@,
        decreases lines@.len() - i,
    {
        let ghost before = lines@;
        let mut moved: Vec<Tag> = Vec::new();
        let count: usize = lines[i].tags.len();
        let mut j: usize = 0;
        while j < count
            invariant
                j <= count,
                i < lines@.len(),
                lines@ == before,
                count == lines@[i as int].tags@.len(),
                forall|m: int| 0 <= m < count
                    ==> (#[trigger] lines@[i as int].tags@[m]).label < usize::MAX,
                moved@ == Seq::new(j as nat, |m: int| raised(lines@[i as int].tags@[m], at as int)),
            decreases count - j,
        {
            let tag = lines[i].tags[j];
            if tag.label >= at {
                moved.push(
                    Tag {
                        start: tag.start,
                        end: tag.end,
                        label: tag.label + 1,
                        has_line_prev: tag.has_line_prev,
                        has_line_next: tag.has_line_next,
                    },
                );
            } else {
                moved.push(tag);
            }
            assert(moved@ =~= Seq::new(
                (j + 1) as nat,
                |m: int| raised(lines@[i as int].tags@[m], at as int),
            ));
            j += 1;
        }
        lines[i].tags = moved;
        proof {
            assert forall|r: int| 0 <= r < lines@.len() implies (#[trigger] lines@[r]).same_row(
                old(lines)@[r],
            ) by {
                assert(before[r].same_row(old(lines)@[r]));
            }
            assert forall|r: int| 0 <= r < i + 1 implies (#[trigger] lines@[r]).tags@ == Seq::new(
                old(lines)@[r].tags@.len(),
                |j: int| raised(old(lines)@[r].tags@[j], at as int),
            ) by {
                if r < i {
                    assert(lines@[r] == before[r]);
                }
            }
            assert forall|r: int| i + 1 <= r < lines@.len() implies (#[trigger] lines@[r]).tags@
                == old(lines)@[r].tags@ by {
                assert(lines@[r] == before[r]);
            }
        }
        i += 1;
    }
    assert(tag_table(lines@) =~= shifted(tag_table(old(lines)@), at as int));
}

/// Finds the place of a color in the palette.
fn palette_position(color: Color) -> (at: usize)
    ensures
        at == palette_find(color, 0),
        at <= PALETTE_LEN,
{
    let mut i: usize = 0;
    while i < PALETTE_LEN && palette(i) != color
        invariant
            i <= PALETTE_LEN,
            palette_find(color, 0) == palette_find(color, i as int),
        decreases PALETTE_LEN - i,
    {
        i += 1;
    }
    i
}

/// The labels with the one at `to` active in place of the one at `from`.
pub open spec fn activated(labels: Seq<Label>, from: int, to: int) -> Seq<Label> {
    let cleared = labels.update(from, Label { is_active: false, ..labels[from] });
    cleared.update(to, Label { is_active: true, ..cleared[to] })
}

/// The labels with the visibility of each turned over.
pub open spec fn all_toggled(labels: Seq<Label>) -> Seq<Label> {
    Seq::new(labels.len(), |i: int| Label { is_visible: !labels[i].is_visible, ..labels[i] })
}

/// The label that `modal_a` adds.
pub open spec fn is_new_label(label: Label, color: Color, active: bool) -> bool {
    &&& label.name@ == "new_label"@
    &&& label.color == color
    &&& label.is_active == active
    &&& label.is_visible
}

/// The lines stay well formed when the label at `k` goes.
pub proof fn lemma_reindexed_document(
    now: Seq<Line>,
    then: Seq<Line>,
    labels_now: Seq<Label>,
    labels_then: Seq<Label>,
    k: int,
)
    requires
        document_wf(then, labels_then),
        same_rows(now, then),
        0 <= k < labels_then.len(),
        labels_now.len() == labels_then.len() - 1,
        forall|i: int| 0 <= i < labels_now.len() ==> (#[trigger] labels_now[i]).wf(),
        tag_table(now) == reindexed(tag_table(then), k),
    ensures
        document_wf(now, labels_now),
{
    lemma_reindexed_linked(tag_table(then), k);
    assert forall|i: int| 0 <= i < now.len() implies (#[trigger] now[i]).wf(
        labels_now.len() as int,
    ) by {
        assert(now[i].same_row(then[i]));
        assert(then[i].wf(labels_then.len() as int));
        assert(tag_table(now)[i] == now[i].tags@);
        assert(tag_table(then)[i] == then[i].tags@);
        assert(row_ok(tag_table(then)[i]));
        lemma_relabeled(then[i].tags@, k, then[i].tags@.len() as int);
        assert forall|j: int| 0 <= j < now[i].tags@.len() implies (#[trigger] now[i].tags@[j]).fits(
            now[i].width as int,
            labels_now.len() as int,
        ) by {
            let m = choose|m: int|
                0 <= m < then[i].tags@.len() && then[i].tags@[m].label != k && now[i].tags@[j]
                    == lowered(#[trigger] then[i].tags@[m], k);
            assert(then[i].tags@[m].fits(then[i].width as int, labels_then.len() as int));
        }
    }
}

/// The lines stay well formed when a label comes in at `at`.
pub proof fn lemma_shifted_document(
    now: Seq<Line>,
    then: Seq<Line>,
    labels_now: Seq<Label>,
    labels_then: Seq<Label>,
    at: int,
)
    requires
        document_wf(then, labels_then),
        same_rows(now, then),
        labels_now.len() == labels_then.len() + 1,
        forall|i: int| 0 <= i < labels_now.len() ==> (#[trigger] labels_now[i]).wf(),
        tag_table(now) == shifted(tag_table(then), at),
    ensures
        document_wf(now, labels_now),
{
    lemma_shifted_linked(tag_table(then), at);
    assert forall|i: int| 0 <= i < now.len() implies (#[trigger] now[i]).wf(
        labels_now.len() as int,
    ) by {
        assert(now[i].same_row(then[i]));
        assert(then[i].wf(labels_then.len() as int));
        assert(tag_table(now)[i] == now[i].tags@);
        assert(tag_table(then)[i] == then[i].tags@);
        assert forall|j: int| 0 <= j < now[i].tags@.len() implies (#[trigger] now[i].tags@[j]).fits(
            now[i].width as int,
            labels_now.len() as int,
        ) by {
            assert(now[i].tags@[j] == raised(then[i].tags@[j], at));
            assert(then[i].tags@[j].fits(then[i].width as int, labels_then.len() as int));
        }
    }
}

impl App {
    pub fn is_modal_mode(&self) -> (b: bool)
        ensures
            b == (self.mode == Mode::Modal),
    {
        self.mode == Mode::Modal
    }

    pub fn set_modal_mode(&mut self)
        ensures
            *final(self) == (App { mode: Mode::Modal, ..*old(self) }),
    {
        self.mode = Mode::Modal;
    }

    /// Makes the label of the palette row the active one.
    fn activate(&mut self)
        requires
            old(self).wf(),
        ensures
            *final(self) == (App {
                labels: final(self).labels,
                modal_active: final(self).modal_active,
                ..*old(self)
            }),
            old(self).labels@.len() == 0
                ==> final(self).labels@ == old(self).labels@ && final(self).modal_active
                    == old(self).modal_active,
            old(self).labels@.len() > 0 ==> final(self).labels@ == activated(
                old(self).labels@,
                old(self).modal_active as int,
                old(self).modal_row as int,
            ) && final(self).modal_active == old(self).modal_row,
            final(self).wf(),
    {
        if self.labels.len() > 0 {
            let ghost before = self.labels@;
            let from: usize = self.modal_active;
            let to: usize = self.modal_row;
            self.labels[from].is_active = false;
            self.labels[to].is_active = true;
            self.modal_active = to;
            proof {
                assert(self.labels@ =~= activated(before, from as int, to as int));
                assert forall|i: int| 0 <= i < self.labels@.len() implies (
                #[trigger] self.labels@[i]).wf() by {
                    assert(before[i].wf());
                }
                assert forall|i: int| 0 <= i < self.lines@.len() implies (
                #[trigger] self.lines@[i]).wf(self.labels@.len() as int) by {}
            }
        }
    }

    /// What closing the palette leaves.
    pub open spec fn modal_m_gives(self, now: App) -> bool {
        &&& now == (App {
            labels: now.labels,
            modal_active: now.modal_active,
            mode: Mode::Normal,
            change: self.change | CHANGE_STATUS | CHANGE_OFFSET,
            ..self
        })
        &&& self.labels@.len() == 0
            ==> now.labels@ == self.labels@ && now.modal_active == self.modal_active
        &&& self.labels@.len() > 0 ==> now.labels@ == activated(
            self.labels@,
            self.modal_active as int,
            self.modal_row as int,
        ) && now.modal_active == self.modal_row
        &&& now.wf()
    }

    /// Closes the palette; the label of the palette row becomes the active
    /// one.
    pub fn modal_m(&mut self)
        requires
            old(self).wf(),
        ensures
            old(self).modal_m_gives(*final(self)),
    {
        self.activate();
        self.set_normal_mode();
        self.change = self.change | CHANGE_STATUS | CHANGE_OFFSET;
    }

    /// What choosing the label of the palette row leaves.
    pub open spec fn modal_return_gives(self, now: App) -> bool {
        &&& now == (App {
            labels: now.labels,
            modal_active: now.modal_active,
            change: self.change | CHANGE_MODAL | CHANGE_ROW,
            ..self
        })
        &&& self.labels@.len() == 0
            ==> now.labels@ == self.labels@ && now.modal_active == self.modal_active
        &&& self.labels@.len() > 0 ==> now.labels@ == activated(
            self.labels@,
            self.modal_active as int,
            self.modal_row as int,
        ) && now.modal_active == self.modal_row
        &&& now.wf()
    }

    /// Makes the label of the palette row the active one; the palette stays
    /// open.
    pub fn modal_return(&mut self)
        requires
            old(self).wf(),
        ensures
            old(self).modal_return_gives(*final(self)),
    {
        self.activate();
        self.change = self.change | CHANGE_MODAL | CHANGE_ROW;
    }

    /// Gives the label of the palette row another color.
    fn recolor(&mut self, color: Color)
        requires
            old(self).wf(),
            old(self).modal_row < old(self).labels@.len(),
        ensures
            *final(self) == (App { labels: final(self).labels, ..*old(self) }),
            final(self).labels@ == old(self).labels@.update(
                old(self).modal_row as int,
                Label { color, ..old(self).labels@[old(self).modal_row as int] },
            ),
            final(self).wf(),
    {
        let ghost before = self.labels@;
        let row: usize = self.modal_row;
        self.labels[row].color = color;
        proof {
            assert forall|i: int| 0 <= i < self.labels@.len() implies (#[trigger] self.labels@[i]).wf() by {
                assert(before[i].wf());
            }
            assert forall|i: int| 0 <= i < self.labels@.len() implies ((
            #[trigger] self.labels@[i]).is_active <==> i == self.modal_active) by {
                assert(before[i].is_active <==> i == self.modal_active);
            }
            assert forall|i: int| 0 <= i < self.lines@.len() implies (#[trigger] self.lines@[i]).wf(
                self.labels@.len() as int,
            ) by {}
        }
    }

    /// What stepping the color of a label back leaves.
    pub open spec fn modal_h_gives(self, now: App) -> bool {
        &&& now == (App {
            labels: now.labels,
            change: now.change,
            ..self
        })
        &&& self.labels@.len() == 0 ==> now.labels@ == self.labels@ && now.change == self.change
        &&& self.labels@.len() > 0 ==> {
            let row = self.modal_row as int;
            &&& now.labels@ == self.labels@.update(
                row,
                Label { color: color_before(self.labels@[row].color), ..self.labels@[row] },
            )
            &&& now.change == self.change | CHANGE_MODAL | CHANGE_OFFSET
                | CHANGE_STATUS
        }
        &&& now.wf()
    }

    /// Gives the label of the palette row the color before its own in the
    /// palette.
    pub fn modal_h(&mut self)
        requires
            old(self).wf(),
        ensures
            old(self).modal_h_gives(*final(self)),
    {
        if self.labels.len() > 0 {
            let at: usize = palette_position(self.labels[self.modal_row].color);
            let color = if 0 < at && at < PALETTE_LEN {
                palette(at - 1)
            } else {
                palette(PALETTE_LEN - 1)
            };
            self.recolor(color);
            self.change = self.change | CHANGE_MODAL | CHANGE_OFFSET | CHANGE_STATUS;
        }
    }

    /// What stepping the color of a label on leaves.
    pub open spec fn modal_l_gives(self, now: App) -> bool {
        &&& now == (App {
            labels: now.labels,
            change: now.change,
            ..self
        })
        &&& self.labels@.len() == 0 ==> now.labels@ == self.labels@ && now.change == self.change
        &&& self.labels@.len() > 0 ==> {
            let row = self.modal_row as int;
            &&& now.labels@ == self.labels@.update(
                row,
                Label { color: color_behind(self.labels@[row].color), ..self.labels@[row] },
            )
            &&& now.change == self.change | CHANGE_MODAL | CHANGE_OFFSET
                | CHANGE_STATUS
        }
        &&& now.wf()
    }

    /// Gives the label of the palette row the color behind its own in the
    /// palette.
    pub fn modal_l(&mut self)
        requires
            old(self).wf(),
        ensures
            old(self).modal_l_gives(*final(self)),
    {
        if self.labels.len() > 0 {
            let at: usize = palette_position(self.labels[self.modal_row].color);
            let color = if at + 1 < PALETTE_LEN {
                palette(at + 1)
            } else {
                palette(0)
            };
            self.recolor(color);
            self.change = self.change | CHANGE_MODAL | CHANGE_OFFSET | CHANGE_STATUS;
        }
    }

    /// What moving the palette row down leaves.
    pub open spec fn modal_j_gives(self, now: App) -> bool {
        &&& now == (App {
            modal_row: if self.modal_row + 1 < self.labels@.len() {
                (self.modal_row + 1) as usize
            } else {
                0
            },
            change: self.change | CHANGE_MODAL | CHANGE_ROW,
            ..self
        })
        &&& now.wf()
    }

    /// Moves the palette row down by one, from the last row to the first.
    pub fn modal_j(&mut self)
        requires
            old(self).wf(),
        ensures
            old(self).modal_j_gives(*final(self)),
    {
        self.modal_row = if self.modal_row < self.labels.len() && self.modal_row + 1
            < self.labels.len() {
            self.modal_row + 1
        } else {
            0
        };
        self.change = self.change | CHANGE_MODAL | CHANGE_ROW;
    }

    /// What moving the palette row up leaves.
    pub open spec fn modal_k_gives(self, now: App) -> bool {
        &&& now == (App {
            modal_row: if self.modal_row > 0 {
                (self.modal_row - 1) as usize
            } else if self.labels@.len() > 0 {
                (self.labels@.len() - 1) as usize
            } else {
                0
            },
            change: self.change | CHANGE_MODAL | CHANGE_ROW,
            ..self
        })
        &&& now.wf()
    }

    /// Moves the palette row up by one, from the first row to the last.
    pub fn modal_k(&mut self)
        requires
            old(self).wf(),
        ensures
            old(self).modal_k_gives(*final(self)),
    {
        if self.modal_row > 0 {
            self.modal_row = self.modal_row - 1;
        } else {
            self.modal_row = self.labels.len().saturating_sub(1);
        }
        self.change = self.change | CHANGE_MODAL | CHANGE_ROW;
    }

    /// What hiding or showing the label of the palette row leaves.
    pub open spec fn modal_v_gives(self, now: App) -> bool {
        &&& now == (App {
            labels: now.labels,
            change: self.change | CHANGE_MODAL | CHANGE_OFFSET | CHANGE_STATUS,
            ..self
        })
        &&& self.labels@.len() == 0 ==> now.labels@ == self.labels@
        &&& self.labels@.len() > 0 ==> {
            let row = self.modal_row as int;
            now.labels@ == self.labels@.update(
                row,
                Label { is_visible: !self.labels@[row].is_visible, ..self.labels@[row] },
            )
        }
        &&& now.wf()
    }

    /// Hides the label of the palette row, or shows it again.
    pub fn modal_v(&mut self)
        requires
            old(self).wf(),
        ensures
            old(self).modal_v_gives(*final(self)),
    {
        if self.labels.len() > 0 {
            let ghost before = self.labels@;
            let row: usize = self.modal_row;
            let shown: bool = self.labels[row].is_visible;
            self.labels[row].is_visible = !shown;
            proof {
                assert forall|i: int| 0 <= i < self.labels@.len() implies (
                #[trigger] self.labels@[i]).wf() by {
                    assert(before[i].wf());
                }
                assert forall|i: int| 0 <= i < self.labels@.len() implies ((
                #[trigger] self.labels@[i]).is_active <==> i == self.modal_active) by {
                    assert(before[i].is_active <==> i == self.modal_active);
                }
                assert forall|i: int| 0 <= i < self.lines@.len() implies (
                #[trigger] self.lines@[i]).wf(self.labels@.len() as int) by {}
            }
        }
        self.change = self.change | CHANGE_MODAL | CHANGE_OFFSET | CHANGE_STATUS;
    }

    /// What turning the visibility of all labels over leaves.
    pub open spec fn modal_big_v_gives(self, now: App) -> bool {
        &&& now == (App {
            labels: now.labels,
            change: self.change | CHANGE_MODAL | CHANGE_OFFSET | CHANGE_STATUS,
            ..self
        })
        &&& now.labels@ == all_toggled(self.labels@)
        &&& now.wf()
    }

    /// Turns the visibility of every label over.
    #[allow(non_snake_case)]
    pub fn modal_V(&mut self)
        requires
            old(self).wf(),
        ensures
            old(self).modal_big_v_gives(*final(self)),
    {
        let ghost before = self.labels@;
        let mut i: usize = 0;
        while i < self.labels.len()
            invariant
                i <= self.labels@.len(),
                self.labels@.len() == before.len(),
                *self == (App { labels: self.labels, ..*old(self) }),
                forall|j: int|
                    0 <= j < i ==> #[trigger] self.labels@[j] == (Label {
                        is_visible: !before[j].is_visible,
                        ..before[j]
                    }),
                forall|j: int| i <= j < before.len() ==> #[trigger] self.labels@[j] == before[j],
            decreases self.labels@.len() - i,
        {
            let ghost had = self.labels@;
            let shown: bool = self.labels[i].is_visible;
            self.labels[i].is_visible = !shown;
            proof {
                assert forall|j: int| 0 <= j < i + 1 implies #[trigger] self.labels@[j] == (Label {
                    is_visible: !before[j].is_visible,
                    ..before[j]
                }) by {
                    if j < i {
                        assert(self.labels@[j] == had[j]);
                    }
                }
                assert forall|j: int| i + 1 <= j < before.len() implies #[trigger] self.labels@[j]
                    == before[j] by {
                    assert(self.labels@[j] == had[j]);
                }
            }
            i += 1;
        }
        self.change = self.change | CHANGE_MODAL | CHANGE_OFFSET | CHANGE_STATUS;
        proof {
            assert(self.labels@ =~= all_toggled(before));
            assert forall|i: int| 0 <= i < self.labels@.len() implies (#[trigger] self.labels@[i]).wf() by {
                assert(before[i].wf());
            }
            assert forall|i: int| 0 <= i < self.labels@.len() implies ((
            #[trigger] self.labels@[i]).is_active <==> i == self.modal_active) by {
                assert(before[i].is_active <==> i == self.modal_active);
            }
            assert forall|i: int| 0 <= i < self.lines@.len() implies (#[trigger] self.lines@[i]).wf(
                self.labels@.len() as int,
            ) by {}
        }
    }

    /// Where `modal_a` puts the new label: behind the palette row.
    pub open spec fn new_label_place(self) -> int {
        if self.modal_row + 1 <= self.labels@.len() {
            self.modal_row + 1
        } else {
            self.labels@.len() as int
        }
    }

    /// What adding a label leaves.
    pub open spec fn modal_a_gives(self, now: App) -> bool {
        &&& self.labels@.len() >= LABELS_MAX ==> now == self
        &&& self.labels@.len() < LABELS_MAX ==> {
            let at = self.new_label_place();
            &&& now == (App {
                labels: now.labels,
                lines: now.lines,
                modal_active: if self.labels@.len() > 0 && self.modal_active >= at {
                    (self.modal_active + 1) as usize
                } else {
                    self.modal_active
                },
                rng: if self.rng + 1 < PALETTE_LEN {
                    (self.rng + 1) as usize
                } else {
                    0
                },
                change: self.change | CHANGE_MODAL | CHANGE_OFFSET | CHANGE_STATUS,
                ..self
            })
            &&& now.labels@.len() == self.labels@.len() + 1
            &&& is_new_label(
                now.labels@[at],
                palette_color(self.rng as int),
                self.labels@.len() == 0,
            )
            &&& now.labels@.remove(at) == self.labels@
            &&& same_rows(now.lines@, self.lines@)
            &&& now.table() == shifted(self.table(), at)
        }
        &&& now.wf()
    }

    /// Adds a label behind the palette row, with the next color of the
    /// palette. The tags go on naming the labels they named. Nothing is
    /// added once the palette is full.
    pub fn modal_a(&mut self)
        requires
            old(self).wf(),
        ensures
            old(self).modal_a_gives(*final(self)),
    {
        let count: usize = self.labels.len();
        if count < LABELS_MAX {
            let at: usize = if self.modal_row < count {
                self.modal_row + 1
            } else {
                count
            };
            let ghost labels_then = self.labels@;
            let ghost lines_then = self.lines@;
            let label = Label {
                name: "new_label".to_owned(),
                color: palette(self.rng),
                is_active: count == 0,
                is_visible: true,
            };
            proof {
                reveal_strlit("new_label");
                assert(label.wf());
                assert forall|r: int, j: int|
                    0 <= r < self.lines@.len() && 0 <= j < self.lines@[r].tags@.len() implies (
                #[trigger] self.lines@[r].tags@[j]).label < usize::MAX by {
                    assert(self.lines@[r].wf(self.labels@.len() as int));
                }
            }
            self.labels.insert(at, label);
            shift_labels(&mut self.lines, at);
            if count > 0 && self.modal_active >= at {
                self.modal_active += 1;
            }
            self.rng = if self.rng + 1 < PALETTE_LEN {
                self.rng + 1
            } else {
                0
            };
            self.change = self.change | CHANGE_MODAL | CHANGE_OFFSET | CHANGE_STATUS;
            proof {
                assert(self.labels@.remove(at as int) =~= labels_then);
                assert forall|i: int| 0 <= i < self.labels@.len() implies (
                #[trigger] self.labels@[i]).wf() by {
                    if i < at {
                        assert(self.labels@[i] == labels_then[i]);
                    } else if i > at {
                        assert(self.labels@[i] == labels_then[i - 1]);
                    }
                }
                lemma_shifted_document(self.lines@, lines_then, self.labels@, labels_then, at as int);
                assert forall|i: int| 0 <= i < self.labels@.len() implies ((
                #[trigger] self.labels@[i]).is_active <==> i == self.modal_active) by {
                    if i < at {
                        assert(self.labels@[i] == labels_then[i]);
                    } else if i > at {
                        assert(self.labels@[i] == labels_then[i - 1]);
                    }
                }
                assert forall|i: int| 0 <= i < self.visual@.len() implies {
                    &&& (#[trigger] self.visual@[i]).row < self.lines@.len()
                    &&& self.visual@[i].start < crate::text::max(
                        1,
                        self.lines@[self.visual@[i].row as int].width as int,
                    )
                    &&& self.visual@[i].end < crate::text::max(
                        1,
                        self.lines@[self.visual@[i].row as int].width as int,
                    )
                } by {
                    let r = self.visual@[i].row as int;
                    assert(self.lines@[r].same_row(lines_then[r]));
                }
                if self.lines@.len() > 0 {
                    assert(self.lines@[self.current_row()].same_row(lines_then[self.current_row()]));
                }
            }
        }
    }

    /// The place of the active label once the label at `k` is gone: the
    /// label that comes to stand at `k`, or the first where `k` was the last,
    /// if the active label is the one that goes.
    pub open spec fn active_after_delete(self, k: int) -> int {
        if self.modal_active == k {
            if k < self.labels@.len() - 1 {
                k
            } else {
                0
            }
        } else if self.modal_active > k {
            self.modal_active - 1
        } else {
            self.modal_active as int
        }
    }

    /// What deleting the label of the palette row leaves.
    pub open spec fn modal_d_gives(self, now: App) -> bool {
        &&& self.labels@.len() <= 1 ==> now == self
        &&& self.labels@.len() > 1 ==> {
            let k = self.modal_row as int;
            let active = self.active_after_delete(k);
            let rest = self.labels@.remove(k);
            &&& now == (App {
                labels: now.labels,
                lines: now.lines,
                modal_active: active as usize,
                modal_row: if k > 0 {
                    (k - 1) as usize
                } else {
                    0
                },
                change: self.change | CHANGE_MODAL | CHANGE_OFFSET | CHANGE_STATUS,
                ..self
            })
            &&& now.labels@ == rest.update(
                active,
                Label { is_active: true, ..rest[active] },
            )
            &&& same_rows(now.lines@, self.lines@)
            &&& now.table() == reindexed(self.table(), k)
        }
        &&& now.wf()
    }

    /// Deletes the label of the palette row with all its tags. The tags of
    /// the other labels go on naming the labels they named. Where the active
    /// label goes, the label that takes its place becomes active. The last
    /// label is never deleted.
    pub fn modal_d(&mut self)
        requires
            old(self).wf(),
        ensures
            old(self).modal_d_gives(*final(self)),
    {
        if self.labels.len() > 1 {
            let k: usize = self.modal_row;
            let ghost labels_then = self.labels@;
            let ghost lines_then = self.lines@;
            reindex_on_label_delete(&mut self.lines, k);
            self.labels.remove(k);
            let ghost rest = self.labels@;
            self.modal_row = k.saturating_sub(1);
            if self.modal_active == k {
                self.modal_active = if k < self.labels.len() {
                    k
                } else {
                    0
                };
            } else if self.modal_active > k {
                self.modal_active -= 1;
            }
            let active: usize = self.modal_active;
            self.labels[active].is_active = true;
            self.change = self.change | CHANGE_MODAL | CHANGE_OFFSET | CHANGE_STATUS;
            proof {
                assert(self.labels@ =~= rest.update(
                    active as int,
                    Label { is_active: true, ..rest[active as int] },
                ));
                assert forall|i: int| 0 <= i < self.labels@.len() implies (
                #[trigger] self.labels@[i]).wf() by {
                    if i < k {
                        assert(rest[i] == labels_then[i]);
                    } else {
                        assert(rest[i] == labels_then[i + 1]);
                    }
                    assert(labels_then[i].wf());
                    assert(labels_then[i + 1].wf());
                }
                lemma_reindexed_document(
                    self.lines@,
                    lines_then,
                    self.labels@,
                    labels_then,
                    k as int,
                );
                assert forall|i: int| 0 <= i < self.labels@.len() implies ((
                #[trigger] self.labels@[i]).is_active <==> i == self.modal_active) by {
                    if i < k {
                        assert(rest[i] == labels_then[i]);
                        assert(labels_then[i].is_active <==> i == old(self).modal_active);
                    } else {
                        assert(rest[i] == labels_then[i + 1]);
                        assert(labels_then[i + 1].is_active <==> i + 1 == old(self).modal_active);
                    }
                }
                assert forall|i: int| 0 <= i < self.visual@.len() implies {
                    &&& (#[trigger] self.visual@[i]).row < self.lines@.len()
                    &&& self.visual@[i].start < crate::text::max(
                        1,
                        self.lines@[self.visual@[i].row as int].width as int,
                    )
                    &&& self.visual@[i].end < crate::text::max(
                        1,
                        self.lines@[self.visual@[i].row as int].width as int,
                    )
                } by {
                    let r = self.visual@[i].row as int;
                    assert(self.lines@[r].same_row(lines_then[r]));
                }
                if self.lines@.len() > 0 {
                    assert(self.lines@[self.current_row()].same_row(lines_then[self.current_row()]));
                }
            }
        }
    }

    /// What starting to edit a name leaves.
    pub open spec fn modal_i_gives(self, now: App) -> bool {
        &&& self.labels@.len() == 0 ==> now == self
        &&& self.labels@.len() > 0 ==> now == (App {
            mode: Mode::Name,
            modal_column: (self.modal_start_column + self.labels@[self.modal_row as int].name@.len() + 19) as usize,
            change: self.change | CHANGE_ROW,
            ..self
        })
        &&& now.wf()
    }

    /// Starts editing the name of the label of the palette row.
    pub fn modal_i(&mut self)
        requires
            old(self).wf(),
        ensures
            old(self).modal_i_gives(*final(self)),
    {
        if self.labels.len() > 0 {
            self.set_name_mode();
            self.change = self.change | CHANGE_ROW;
        }
    }

    /// What opening the color picker leaves.
    pub open spec fn modal_c_gives(self, now: App) -> bool {
        &&& self.labels@.len() == 0 ==> now == self
        &&& self.labels@.len() > 0 ==> now == (App {
            mode: Mode::Color,
            color_column: if palette_find(
                self.labels@[self.modal_row as int].color,
                0,
            ) < PALETTE_LEN {
                palette_find(self.labels@[self.modal_row as int].color, 0) as usize
            } else {
                0
            },
            change: self.change | CHANGE_MODAL,
            ..self
        })
        &&& now.wf()
    }

    /// Opens the color picker for the label of the palette row, on the
    /// label's color where the palette has it, else on the first color.
    pub fn modal_c(&mut self)
        requires
            old(self).wf(),
        ensures
            old(self).modal_c_gives(*final(self)),
    {
        if self.labels.len() > 0 {
            let at: usize = palette_position(self.labels[self.modal_row].color);
            self.color_column = if at < PALETTE_LEN {
                at
            } else {
                0
            };
            self.mode = Mode::Color;
            self.change = self.change | CHANGE_MODAL;
        }
    }
}

} // verus!
