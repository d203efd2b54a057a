//! Spans that continue across wrapped rows.
//!
//! The tags of a document form a table, one list per line. A tag that
//! continues from the line before is the first of its list; a list holds at
//! most one tag that continues on the line after, and that tag is matched by
//! the first tag of the next list. Removing a tag removes the chain it
//! belongs to.

use vstd::prelude::*;
use crate::app::Tag;

verus! {

/// The list starts with a tag that continues from the previous line.
pub open spec fn first_prev(tags: Seq<Tag>) -> bool {
    tags.len() > 0 && tags[0].has_line_prev
}

/// Index of the first tag from `from` on that continues on the next line;
/// the length of the list where none does.
pub open spec fn next_index(tags: Seq<Tag>, from: int) -> int
    decreases tags.len() - from,
{
    if from >= tags.len() {
        tags.len() as int
    } else if tags[from].has_line_next {
        from
    } else {
        next_index(tags, from + 1)
    }
}

/// The list holds a tag that continues on the next line.
pub open spec fn has_next(tags: Seq<Tag>) -> bool {
    next_index(tags, 0) < tags.len()
}

/// The tag of the list that continues on the next line.
pub open spec fn next_tag(tags: Seq<Tag>) -> Tag {
    tags[next_index(tags, 0)]
}

/// Within one list only the first tag may continue from the line before, and
/// at most one tag continues on the line after.
pub open spec fn row_ok(tags: Seq<Tag>) -> bool {
    &&& forall|j: int| 0 <= j < tags.len() && (#[trigger] tags[j]).has_line_prev ==> j == 0
    &&& forall|j: int, k: int|
        0 <= j < tags.len() && 0 <= k < tags.len() && (#[trigger] tags[j]).has_line_next && (
        #[trigger] tags[k]).has_line_next ==> j == k
}

/// The joint between line `b` and line `b + 1` is sound: the upper list holds
/// a continuing tag exactly when the lower list starts with a continued one,
/// and then the two carry the same label. The joints above the first line
/// (`b == -1`) and below the last have nothing on their far side.
pub open spec fn joint_ok(t: Seq<Seq<Tag>>, b: int) -> bool {
    let up = 0 <= b < t.len() && has_next(t[b]);
    let down = 0 <= b + 1 < t.len() && first_prev(t[b + 1]);
    &&& up == down
    &&& up ==> next_tag(t[b]).label == t[b + 1][0].label
}

pub open spec fn rows_ok(t: Seq<Seq<Tag>>) -> bool {
    forall|i: int| 0 <= i < t.len() ==> row_ok(#[trigger] t[i])
}

/// Every continuation in the table has its sibling.
pub open spec fn linked(t: Seq<Seq<Tag>>) -> bool {
    &&& rows_ok(t)
    &&& forall|b: int| -1 <= b < t.len() ==> #[trigger] joint_ok(t, b)
}

/// The table without tag `j` of line `i`.
pub open spec fn without(t: Seq<Seq<Tag>>, i: int, j: int) -> Seq<Seq<Tag>> {
    t.update(i, t[i].remove(j))
}

/// Follows a chain downwards: while `go`, takes the first tag off line
/// `row` and goes on below if that tag continues.
pub open spec fn strip_down(t: Seq<Seq<Tag>>, row: int, go: bool) -> Seq<Seq<Tag>>
    decreases t.len() - row,
{
    if !go || row < 0 || row >= t.len() || t[row].len() == 0 {
        t
    } else {
        strip_down(without(t, row, 0), row + 1, t[row][0].has_line_next)
    }
}

/// Follows a chain upwards: while `go`, takes the continuing tag off line
/// `row` and goes on above if that tag is continued.
pub open spec fn strip_up(t: Seq<Seq<Tag>>, row: int, go: bool) -> Seq<Seq<Tag>>
    decreases row + 1,
{
    if !go || row < 0 || row >= t.len() || !has_next(t[row]) {
        t
    } else {
        strip_up(without(t, row, next_index(t[row], 0)), row - 1, next_tag(t[row]).has_line_prev)
    }
}

/// The table without tag `j` of line `row` and without the rest of its
/// chain.
pub open spec fn unchained(t: Seq<Seq<Tag>>, row: int, j: int) -> Seq<Seq<Tag>> {
    let tag = t[row][j];
    strip_up(
        strip_down(without(t, row, j), row + 1, tag.has_line_next),
        row - 1,
        tag.has_line_prev,
    )
}

/// Where the search for a continuing tag ends.
pub proof fn lemma_next_index(tags: Seq<Tag>, from: int)
    requires
        0 <= from <= tags.len(),
    ensures
        from <= next_index(tags, from) <= tags.len(),
        next_index(tags, from) < tags.len() ==> tags[next_index(tags, from)].has_line_next,
        forall|j: int| from <= j < next_index(tags, from) ==> !(#[trigger] tags[j]).has_line_next,
    decreases tags.len() - from,
{
    if from < tags.len() && !tags[from].has_line_next {
        lemma_next_index(tags, from + 1);
    }
}

/// In a list in order the one continuing tag is the one that is found.
pub proof fn lemma_next_at(tags: Seq<Tag>, k: int)
    requires
        row_ok(tags),
        0 <= k < tags.len(),
        tags[k].has_line_next,
    ensures
        next_index(tags, 0) == k,
        has_next(tags),
{
    lemma_next_index(tags, 0);
    let r = next_index(tags, 0);
    if r > k {
        assert(!tags[k].has_line_next);
    }
}

/// A list without a continuing tag has none to be found.
pub proof fn lemma_no_next(tags: Seq<Tag>)
    requires
        forall|j: int| 0 <= j < tags.len() ==> !(#[trigger] tags[j]).has_line_next,
    ensures
        !has_next(tags),
{
    lemma_next_index(tags, 0);
}

/// Every tag of `now` is a tag of `then`, line by line.
pub open spec fn thinned(now: Seq<Seq<Tag>>, then: Seq<Seq<Tag>>) -> bool {
    &&& now.len() == then.len()
    &&& forall|i: int, j: int|
        0 <= i < now.len() && 0 <= j < now[i].len() ==> then[i].contains(#[trigger] now[i][j])
}

/// What is left of a list in order when one tag goes: the list stays in
/// order, it starts with a continued tag if it did and that tag stays, and
/// it holds a continuing tag if it did and that tag stays.
pub proof fn lemma_remove_thins(tags: Seq<Tag>, j: int)
    requires
        0 <= j < tags.len(),
    ensures
        forall|k: int| 0 <= k < tags.remove(j).len()
            ==> tags.contains(#[trigger] tags.remove(j)[k]),
        row_ok(tags) ==> {
            let r = tags.remove(j);
            &&& row_ok(r)
            &&& first_prev(r) == (first_prev(tags) && !tags[j].has_line_prev)
            &&& has_next(r) == (has_next(tags) && !tags[j].has_line_next)
            &&& first_prev(r) ==> r[0] == tags[0]
            &&& has_next(r) ==> next_tag(r) == next_tag(tags)
        },
{
    let r = tags.remove(j);
    assert forall|k: int| 0 <= k < r.len() implies tags.contains(#[trigger] r[k]) by {
        if k < j {
            assert(r[k] == tags[k]);
        } else {
            assert(r[k] == tags[k + 1]);
        }
    }
    if row_ok(tags) {
        assert forall|k: int| 0 <= k < r.len() && (#[trigger] r[k]).has_line_prev implies k == 0 by {
            if k < j {
                assert(r[k] == tags[k]);
            } else {
                assert(r[k] == tags[k + 1]);
            }
        }
        assert forall|a: int, b: int|
            0 <= a < r.len() && 0 <= b < r.len() && (#[trigger] r[a]).has_line_next && (
            #[trigger] r[b]).has_line_next implies a == b by {
            let a2 = if a < j {
                a
            } else {
                a + 1
            };
            let b2 = if b < j {
                b
            } else {
                b + 1
            };
            assert(r[a] == tags[a2]);
            assert(r[b] == tags[b2]);
        }
        if r.len() > 0 {
            if j == 0 {
                assert(r[0] == tags[1]);
            } else {
                assert(r[0] == tags[0]);
            }
        }
        lemma_next_index(tags, 0);
        lemma_next_index(r, 0);
        let n = next_index(tags, 0);
        if has_next(tags) && !tags[j].has_line_next {
            let m = if n < j {
                n
            } else {
                n - 1
            };
            assert(r[m] == tags[n]);
            lemma_next_at(r, m);
        } else {
            assert forall|k: int| 0 <= k < r.len() implies !(#[trigger] r[k]).has_line_next by {
                let k2 = if k < j {
                    k
                } else {
                    k + 1
                };
                assert(r[k] == tags[k2]);
                if tags[k2].has_line_next {
                    lemma_next_at(tags, k2);
                    if tags[j].has_line_next {
                        lemma_next_at(tags, j);
                    }
                }
            }
            lemma_no_next(r);
        }
    }
}

pub proof fn lemma_thinned_trans(a: Seq<Seq<Tag>>, b: Seq<Seq<Tag>>, c: Seq<Seq<Tag>>)
    requires
        thinned(a, b),
        thinned(b, c),
    ensures
        thinned(a, c),
{
    assert forall|i: int, j: int| 0 <= i < a.len() && 0 <= j < a[i].len() implies c[i].contains(
        #[trigger] a[i][j],
    ) by {
        assert(b[i].contains(a[i][j]));
        let k = choose|k: int| 0 <= k < b[i].len() && b[i][k] == a[i][j];
        assert(c[i].contains(b[i][k]));
    }
}

pub proof fn lemma_without_thins(t: Seq<Seq<Tag>>, i: int, j: int)
    requires
        0 <= i < t.len(),
        0 <= j < t[i].len(),
    ensures
        thinned(without(t, i, j), t),
        rows_ok(t) ==> rows_ok(without(t, i, j)),
{
    lemma_remove_thins(t[i], j);
    let w = without(t, i, j);
    assert forall|a: int, b: int| 0 <= a < w.len() && 0 <= b < w[a].len() implies t[a].contains(
        #[trigger] w[a][b],
    ) by {
        if a != i {
            assert(w[a][b] == t[a][b]);
        }
    }
    if rows_ok(t) {
        assert forall|a: int| 0 <= a < w.len() implies row_ok(#[trigger] w[a]) by {
            if a != i {
                assert(w[a] == t[a]);
                assert(row_ok(t[a]));
            } else {
                assert(row_ok(t[i]));
            }
        }
    }
}

/// Stripping downwards from `row` leaves the lines above `row` as they are.
pub proof fn lemma_strip_down_frame(t: Seq<Seq<Tag>>, row: int, go: bool)
    requires
        0 <= row,
    ensures
        strip_down(t, row, go).len() == t.len(),
        forall|k: int| 0 <= k < row && k < t.len() ==> #[trigger] strip_down(t, row, go)[k] == t[k],
        thinned(strip_down(t, row, go), t),
        rows_ok(t) ==> rows_ok(strip_down(t, row, go)),
    decreases t.len() - row,
{
    if !(!go || row < 0 || row >= t.len() || t[row].len() == 0) {
        let t2 = without(t, row, 0);
        lemma_without_thins(t, row, 0);
        lemma_strip_down_frame(t2, row + 1, t[row][0].has_line_next);
        lemma_thinned_trans(strip_down(t, row, go), t2, t);
    } else {
        assert forall|i: int, j: int| 0 <= i < t.len() && 0 <= j < t[i].len() implies t[i].contains(
            #[trigger] t[i][j],
        ) by {}
    }
}

/// Stripping upwards from `row` leaves the lines below `row` as they are.
pub proof fn lemma_strip_up_frame(t: Seq<Seq<Tag>>, row: int, go: bool)
    ensures
        strip_up(t, row, go).len() == t.len(),
        forall|k: int| row < k < t.len() && 0 <= k ==> #[trigger] strip_up(t, row, go)[k] == t[k],
        thinned(strip_up(t, row, go), t),
        rows_ok(t) ==> rows_ok(strip_up(t, row, go)),
    decreases row + 1,
{
    if !(!go || row < 0 || row >= t.len() || !has_next(t[row])) {
        let k = next_index(t[row], 0);
        lemma_next_index(t[row], 0);
        let t2 = without(t, row, k);
        lemma_without_thins(t, row, k);
        lemma_strip_up_frame(t2, row - 1, t[row][k].has_line_prev);
        lemma_thinned_trans(strip_up(t, row, go), t2, t);
    } else {
        assert forall|i: int, j: int| 0 <= i < t.len() && 0 <= j < t[i].len() implies t[i].contains(
            #[trigger] t[i][j],
        ) by {}
    }
}

/// A change to a line above `row` and stripping downwards from `row` can be
/// made in either order.
pub proof fn lemma_strip_down_commutes(t: Seq<Seq<Tag>>, row: int, go: bool, k: int, x: Seq<Tag>)
    requires
        0 <= k < row,
        k < t.len(),
    ensures
        strip_down(t.update(k, x), row, go) == strip_down(t, row, go).update(k, x),
    decreases t.len() - row,
{
    let u = t.update(k, x);
    if !(!go || row < 0 || row >= t.len() || t[row].len() == 0) {
        assert(u[row] == t[row]);
        assert(without(u, row, 0) =~= without(t, row, 0).update(k, x));
        lemma_strip_down_commutes(without(t, row, 0), row + 1, t[row][0].has_line_next, k, x);
    }
}

/// What is left to repair below line `row - 1` while a chain is stripped
/// downwards: all joints are sound but the one above `row`, and, if any, the
/// joint `keep` further up. Where `go` holds, line `row` still starts with
/// the continued tag whose sibling is gone.
pub open spec fn pending_down(t: Seq<Seq<Tag>>, row: int, go: bool, keep: int) -> bool {
    &&& rows_ok(t)
    &&& 0 <= row <= t.len()
    &&& keep < row - 1
    &&& forall|b: int| -1 <= b < t.len() && b != row - 1 && b != keep ==> #[trigger] joint_ok(t, b)
    &&& if go {
        row < t.len() && first_prev(t[row]) && !(0 <= row - 1 && has_next(t[row - 1]))
    } else {
        joint_ok(t, row - 1)
    }
}

pub proof fn lemma_strip_down_repairs(t: Seq<Seq<Tag>>, row: int, go: bool, keep: int)
    requires
        pending_down(t, row, go, keep),
    ensures
        rows_ok(strip_down(t, row, go)),
        forall|b: int|
            -1 <= b < t.len() && b != keep ==> #[trigger] joint_ok(strip_down(t, row, go), b),
    decreases t.len() - row,
{
    if go {
        let g = t[row][0];
        let t2 = without(t, row, 0);
        lemma_without_thins(t, row, 0);
        assert(row_ok(t[row]));
        lemma_remove_thins(t[row], 0);
        assert(t2[row] == t[row].remove(0));
        assert(!first_prev(t2[row]));
        assert(joint_ok(t, row));
        assert forall|b: int| -1 <= b < t2.len() && b != row && b != keep implies #[trigger] joint_ok(
            t2,
            b,
        ) by {
            if b != row - 1 {
                assert(joint_ok(t, b));
                if b + 1 < t.len() {
                    assert(t2[b + 1] == t[b + 1]);
                }
                if b >= 0 {
                    assert(t2[b] == t[b]);
                }
            } else if b >= 0 {
                assert(t2[b] == t[b]);
            }
        }
        if g.has_line_next {
            lemma_next_at(t[row], 0);
            assert(!has_next(t2[row]));
            assert(t2[row + 1] == t[row + 1]);
        } else {
            if row + 1 < t.len() {
                assert(t2[row + 1] == t[row + 1]);
            }
            assert(has_next(t2[row]) == has_next(t[row]));
            assert(joint_ok(t2, row));
        }
        assert(pending_down(t2, row + 1, g.has_line_next, keep));
        lemma_strip_down_repairs(t2, row + 1, g.has_line_next, keep);
    }
}

/// What is left to repair above line `row + 1` while a chain is stripped
/// upwards: all joints are sound but the one below `row`. Where `go` holds,
/// line `row` still holds the continuing tag whose sibling is gone.
pub open spec fn pending_up(t: Seq<Seq<Tag>>, row: int, go: bool) -> bool {
    &&& rows_ok(t)
    &&& -1 <= row < t.len()
    &&& forall|b: int| -1 <= b < t.len() && b != row ==> #[trigger] joint_ok(t, b)
    &&& if go {
        0 <= row && has_next(t[row]) && !(row + 1 < t.len() && first_prev(t[row + 1]))
    } else {
        joint_ok(t, row)
    }
}

pub proof fn lemma_strip_up_repairs(t: Seq<Seq<Tag>>, row: int, go: bool)
    requires
        pending_up(t, row, go),
    ensures
        linked(strip_up(t, row, go)),
    decreases row + 1,
{
    if go {
        let k = next_index(t[row], 0);
        lemma_next_index(t[row], 0);
        let g = t[row][k];
        let t2 = without(t, row, k);
        lemma_without_thins(t, row, k);
        assert(row_ok(t[row]));
        lemma_remove_thins(t[row], k);
        assert(t2[row] == t[row].remove(k));
        assert(!has_next(t2[row]));
        assert(joint_ok(t, row - 1));
        assert forall|b: int| -1 <= b < t2.len() && b != row - 1 implies #[trigger] joint_ok(t2, b) by {
            if b != row {
                assert(joint_ok(t, b));
                if b + 1 < t.len() {
                    assert(t2[b + 1] == t[b + 1]);
                }
                if b >= 0 {
                    assert(t2[b] == t[b]);
                }
            } else if b + 1 < t.len() {
                assert(t2[b + 1] == t[b + 1]);
            }
        }
        if g.has_line_prev {
            assert(k == 0);
            assert(first_prev(t[row]));
            assert(!first_prev(t2[row]));
            assert(row >= 1);
            assert(t2[row - 1] == t[row - 1]);
        } else {
            if row >= 1 {
                assert(t2[row - 1] == t[row - 1]);
            }
            assert(first_prev(t2[row]) == first_prev(t[row]));
            assert(joint_ok(t2, row - 1));
        }
        assert(pending_up(t2, row - 1, g.has_line_prev));
        lemma_strip_up_repairs(t2, row - 1, g.has_line_prev);
    } else {
        assert(strip_up(t, row, go) == t);
    }
}

/// Removing a tag with its chain keeps the table linked and adds no tag.
pub proof fn lemma_unchained_linked(t: Seq<Seq<Tag>>, row: int, j: int)
    requires
        linked(t),
        0 <= row < t.len(),
        0 <= j < t[row].len(),
    ensures
        linked(unchained(t, row, j)),
        thinned(unchained(t, row, j), t),
{
    let tag = t[row][j];
    let t1 = without(t, row, j);
    lemma_without_thins(t, row, j);
    assert(row_ok(t[row]));
    lemma_remove_thins(t[row], j);
    assert(t1[row] == t[row].remove(j));
    assert(joint_ok(t, row));
    assert(joint_ok(t, row - 1));
    assert forall|b: int| -1 <= b < t1.len() && b != row && b != row - 1 implies #[trigger] joint_ok(
        t1,
        b,
    ) by {
        assert(joint_ok(t, b));
        if b + 1 < t.len() {
            assert(t1[b + 1] == t[b + 1]);
        }
        if b >= 0 {
            assert(t1[b] == t[b]);
        }
    }
    if row + 1 < t.len() {
        assert(t1[row + 1] == t[row + 1]);
    }
    if row >= 1 {
        assert(t1[row - 1] == t[row - 1]);
    }
    if tag.has_line_next {
        lemma_next_at(t[row], j);
    }
    assert(pending_down(t1, row + 1, tag.has_line_next, row - 1));
    lemma_strip_down_repairs(t1, row + 1, tag.has_line_next, row - 1);
    lemma_strip_down_frame(t1, row + 1, tag.has_line_next);
    let t2 = strip_down(t1, row + 1, tag.has_line_next);
    assert(t2[row] == t1[row]);
    if row >= 1 {
        assert(t2[row - 1] == t1[row - 1]);
    }
    assert(pending_up(t2, row - 1, tag.has_line_prev));
    lemma_strip_up_repairs(t2, row - 1, tag.has_line_prev);
    lemma_strip_up_frame(t2, row - 1, tag.has_line_prev);
    lemma_thinned_trans(t2, t1, t);
    lemma_thinned_trans(unchained(t, row, j), t2, t);
}

/// In a linked table a tag that continues on the next line is matched: the
/// next line exists and its first tag continues from this one.
pub proof fn lemma_continuation_matched(t: Seq<Seq<Tag>>, i: int, j: int)
    requires
        linked(t),
        0 <= i < t.len(),
        0 <= j < t[i].len(),
        t[i][j].has_line_next,
    ensures
        i + 1 < t.len(),
        t[i + 1].len() > 0,
        t[i + 1][0].has_line_prev,
        t[i + 1][0].label == t[i][j].label,
{
    assert(row_ok(t[i]));
    lemma_next_at(t[i], j);
    assert(joint_ok(t, i));
}

/// In a linked table a tag that continues from the line before is matched:
/// it is the first of its line, and the line before holds the one tag that
/// continues on it.
pub proof fn lemma_continued_matched(t: Seq<Seq<Tag>>, i: int, j: int)
    requires
        linked(t),
        0 <= i < t.len(),
        0 <= j < t[i].len(),
        t[i][j].has_line_prev,
    ensures
        j == 0,
        i >= 1,
        has_next(t[i - 1]),
        next_tag(t[i - 1]).has_line_next,
        next_tag(t[i - 1]).label == t[i][j].label,
{
    assert(row_ok(t[i]));
    assert(joint_ok(t, i - 1));
    lemma_next_index(t[i - 1], 0);
}

/// Removing a tag that continues on the next line takes its sibling along:
/// the line loses that tag and the next line its first.
pub proof fn lemma_unchained_siblings(t: Seq<Seq<Tag>>, i: int, j: int)
    requires
        linked(t),
        0 <= i < t.len(),
        0 <= j < t[i].len(),
        t[i][j].has_line_next,
    ensures
        i + 1 < t.len(),
        first_prev(t[i + 1]),
        unchained(t, i, j)[i] == t[i].remove(j),
        unchained(t, i, j)[i + 1] == t[i + 1].drop_first(),
{
    assert(row_ok(t[i]));
    lemma_next_at(t[i], j);
    assert(joint_ok(t, i));
    let a = t[i][j];
    let b = t[i + 1][0];
    let t1 = without(t, i, j);
    assert(t1[i + 1] == t[i + 1]);
    let t2 = without(t1, i + 1, 0);
    assert(strip_down(t1, i + 1, true) == strip_down(t2, i + 2, b.has_line_next));
    lemma_strip_down_frame(t2, i + 2, b.has_line_next);
    let s = strip_down(t2, i + 2, b.has_line_next);
    assert(s[i] == t2[i]);
    assert(s[i + 1] == t2[i + 1]);
    lemma_strip_up_frame(s, i - 1, a.has_line_prev);
    assert(t[i + 1].remove(0) =~= t[i + 1].drop_first());
}

/// Removing either of two siblings removes both, and with them the whole
/// chain: the table that is left is the same.
pub proof fn lemma_unchain_either(t: Seq<Seq<Tag>>, i: int, j: int)
    requires
        linked(t),
        0 <= i < t.len(),
        0 <= j < t[i].len(),
        t[i][j].has_line_next,
    ensures
        i + 1 < t.len(),
        first_prev(t[i + 1]),
        unchained(t, i, j) == unchained(t, i + 1, 0),
{
    assert(row_ok(t[i]));
    lemma_next_at(t[i], j);
    assert(joint_ok(t, i));
    let a = t[i][j];
    let b = t[i + 1][0];
    let x = t[i].remove(j);
    let t1 = without(t, i, j);
    let u1 = without(t, i + 1, 0);
    assert(t1[i + 1] == t[i + 1]);
    let t2 = without(t1, i + 1, 0);
    assert(t2 =~= u1.update(i, x));
    assert(strip_down(t1, i + 1, true) == strip_down(t2, i + 2, b.has_line_next));
    lemma_strip_down_commutes(u1, i + 2, b.has_line_next, i, x);
    let s2 = strip_down(u1, i + 2, b.has_line_next);
    lemma_strip_down_frame(u1, i + 2, b.has_line_next);
    assert(s2[i] == u1[i]);
    assert(u1[i] == t[i]);
    assert(without(s2, i, j) == s2.update(i, x));
    assert(strip_up(s2, i, true) == strip_up(s2.update(i, x), i - 1, a.has_line_prev));
}

/// Where a tag with the given continuation flags goes in a list so that the
/// list stays in order: a continued tag first, any other tag behind the
/// rest. `None` where the list already starts with a continued tag, or
/// already holds a continuing one, and the new tag is another.
pub open spec fn slot(tags: Seq<Tag>, prev: bool, next: bool) -> Option<int> {
    if (prev && first_prev(tags)) || (next && has_next(tags)) {
        None
    } else if prev {
        Some(0)
    } else {
        Some(tags.len() as int)
    }
}

/// Putting a tag into its slot keeps the list in order; the list then starts
/// with a continued tag if the new tag is one or the list did before, and it
/// holds a continuing tag likewise.
pub proof fn lemma_place(tags: Seq<Tag>, tag: Tag, k: int)
    requires
        row_ok(tags),
        slot(tags, tag.has_line_prev, tag.has_line_next) == Some(k),
    ensures
        0 <= k <= tags.len(),
        row_ok(tags.insert(k, tag)),
        first_prev(tags.insert(k, tag)) == (tag.has_line_prev || first_prev(tags)),
        has_next(tags.insert(k, tag)) == (tag.has_line_next || has_next(tags)),
        tag.has_line_prev ==> tags.insert(k, tag)[0] == tag,
        tag.has_line_next ==> next_tag(tags.insert(k, tag)) == tag,
        first_prev(tags) ==> tags.insert(k, tag)[0] == tags[0],
        has_next(tags) ==> next_tag(tags.insert(k, tag)) == next_tag(tags),
{
    let n = tags.insert(k, tag);
    lemma_next_index(tags, 0);
    assert forall|j: int| 0 <= j < n.len() && (#[trigger] n[j]).has_line_prev implies j == 0 by {
        if j < k {
            assert(n[j] == tags[j]);
        } else if j > k {
            assert(n[j] == tags[j - 1]);
        }
    }
    assert forall|a: int, b: int|
        0 <= a < n.len() && 0 <= b < n.len() && (#[trigger] n[a]).has_line_next && (
        #[trigger] n[b]).has_line_next implies a == b by {
        if a != k {
            let a2 = if a < k {
                a
            } else {
                a - 1
            };
            assert(n[a] == tags[a2]);
            lemma_next_at(tags, a2);
        }
        if b != k {
            let b2 = if b < k {
                b
            } else {
                b - 1
            };
            assert(n[b] == tags[b2]);
            lemma_next_at(tags, b2);
        }
    }
    if tags.len() > 0 && k != 0 {
        assert(n[0] == tags[0]);
    }
    if tag.has_line_next {
        assert(n[k] == tag);
        lemma_next_at(n, k);
    } else if has_next(tags) {
        let m = next_index(tags, 0);
        let m2 = if m < k {
            m
        } else {
            m + 1
        };
        assert(n[m2] == tags[m]);
        lemma_next_at(n, m2);
    } else {
        assert forall|j: int| 0 <= j < n.len() implies !(#[trigger] n[j]).has_line_next by {
            if j < k {
                assert(n[j] == tags[j]);
            } else if j > k {
                assert(n[j] == tags[j - 1]);
            }
        }
        lemma_no_next(n);
    }
}

/// A tag that continues nowhere can be added to any line of a linked table,
/// and the table stays linked.
pub proof fn lemma_push_plain_linked(t: Seq<Seq<Tag>>, row: int, tag: Tag)
    requires
        linked(t),
        0 <= row < t.len(),
        !tag.has_line_prev && !tag.has_line_next,
    ensures
        linked(t.update(row, t[row].push(tag))),
{
    let n = t.update(row, t[row].push(tag));
    assert(row_ok(t[row]));
    assert(t[row].push(tag) =~= t[row].insert(t[row].len() as int, tag));
    lemma_place(t[row], tag, t[row].len() as int);
    assert forall|i: int| 0 <= i < n.len() implies row_ok(#[trigger] n[i]) by {
        if i != row {
            assert(n[i] == t[i]);
            assert(row_ok(t[i]));
        }
    }
    assert forall|b: int| -1 <= b < n.len() implies #[trigger] joint_ok(n, b) by {
        assert(joint_ok(t, b));
        if b >= 0 && b != row {
            assert(n[b] == t[b]);
        }
        if b + 1 < t.len() && b + 1 != row {
            assert(n[b + 1] == t[b + 1]);
        }
    }
}

/// Finds the tag of a list that continues on the next line.
pub fn find_next(tags: &Vec<Tag>) -> (k: usize)
    ensures
        k == next_index(tags@, 0),
        k <= tags@.len(),
{
    let mut k: usize = 0;
    while k < tags.len() && !tags[k].has_line_next
        invariant
            k <= tags@.len(),
            next_index(tags@, 0) == next_index(tags@, k as int),
        decreases tags@.len() - k,
    {
        k += 1;
    }
    k
}

/// Finds the place of a tag with the given continuation flags in a list.
pub fn find_slot(tags: &Vec<Tag>, prev: bool, next: bool) -> (k: Option<usize>)
    ensures
        match k {
            Some(x) => slot(tags@, prev, next) == Some(x as int),
            None => slot(tags@, prev, next) is None,
        },
{
    let count: usize = tags.len();
    let starts: bool = count > 0 && tags[0].has_line_prev;
    if (prev && starts) || (next && find_next(tags) < count) {
        None
    } else if prev {
        Some(0)
    } else {
        Some(count)
    }
}

} // verus!
