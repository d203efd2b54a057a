//! Bringing in spans that are given in document offsets: which labels they
//! name, and where they fall on the wrapped lines.

use itertools::Itertools;
use vstd::prelude::*;
use crate::app::{
    document_wf, one_active, palette, palette_color, same_rows, tag_table, Label, Line, Tag, NAME_MAX,
    PALETTE_LEN,
};
use crate::chain::{
    find_slot, first_prev, has_next, joint_ok, lemma_place, linked, next_tag, row_ok, slot,
};
use crate::text::{max, min, min_usize, prefix_of};

verus! {

/// A span of the document with the name of its label, in document offsets.
#[derive(Clone, Debug)]
pub struct Ent {
    pub end: usize,
    pub label: String,
    pub start: usize,
}

/// Whether a span and a line touch, both given as `(start, end)` in document
/// offsets: exactly one of "the span ends after the line starts" and "the
/// span starts after the line ends" holds.
pub open spec fn touches(tag: (int, int), line: (int, int)) -> bool {
    (tag.1 > line.0) != (tag.0 > line.1)
}

pub fn has_interval_overlap(tag: (usize, usize), line: (usize, usize)) -> (hit: bool)
    ensures
        hit == touches((tag.0 as int, tag.1 as int), (line.0 as int, line.1 as int)),
{
    let (tag_start, tag_end) = tag;
    let (line_start, line_end) = line;
    (tag_end > line_start) != (tag_start > line_end)
}

/// The part of a span that falls on a line, in the columns of the line. The
/// span is `(start, end)` in document offsets, the line `(offset, width)`.
pub open spec fn clip(tag: (int, int), line: (int, int)) -> (int, int) {
    (max(0, tag.0 - line.0), min(line.1, max(0, tag.1 - line.0)))
}

pub fn calculate_tag_bounds(tag: (usize, usize), line: (usize, usize)) -> (bounds: (usize, usize))
    ensures
        (bounds.0 as int, bounds.1 as int) == clip(
            (tag.0 as int, tag.1 as int),
            (line.0 as int, line.1 as int),
        ),
{
    let (tag_start, tag_end) = tag;
    let (line_offset, line_width) = line;
    let left: usize = tag_start.saturating_sub(line_offset);
    let right: usize = min_usize(line_width, tag_end.saturating_sub(line_offset));
    (left, right)
}

/// Where each line lies in the document: its offset and its width.
pub open spec fn extents(lines: Seq<Line>) -> Seq<(int, int)> {
    Seq::new(lines.len(), |i: int| (lines[i].absolute_offset as int, lines[i].width as int))
}

/// The span reaches the line: the two touch, and the part of the span on the
/// line is not empty.
pub open spec fn reaches(span: (int, int), line: (int, int)) -> bool {
    &&& touches(span, (line.0, line.0 + line.1))
    &&& clip(span, line).0 < clip(span, line).1
}

/// The tag that a span leaves on line `i`, if it reaches the line. The tag
/// continues from the line before, or on the line after, where the span
/// reaches that line too.
pub open spec fn span_piece(ext: Seq<(int, int)>, span: (int, int), label: usize, i: int) -> Option<
    Tag,
> {
    if 0 <= i < ext.len() && reaches(span, ext[i]) {
        Some(
            Tag {
                start: clip(span, ext[i]).0 as usize,
                end: clip(span, ext[i]).1 as usize,
                label,
                has_line_prev: i > 0 && reaches(span, ext[i - 1]),
                has_line_next: i + 1 < ext.len() && reaches(span, ext[i + 1]),
            },
        )
    } else {
        None
    }
}

/// Every tag of the span has a place in the list of its line.
pub open spec fn span_fits(t: Seq<Seq<Tag>>, ext: Seq<(int, int)>, span: (int, int)) -> bool {
    forall|i: int|
        0 <= i < ext.len() ==> match #[trigger] span_piece(ext, span, 0, i) {
            Some(p) => slot(t[i], p.has_line_prev, p.has_line_next) is Some,
            None => true,
        }
}

/// The list of line `i` once the span has left its tag there.
pub open spec fn placed(t: Seq<Seq<Tag>>, ext: Seq<(int, int)>, span: (int, int), label: usize, i: int) -> Seq<
    Tag,
> {
    match span_piece(ext, span, label, i) {
        Some(p) => match slot(t[i], p.has_line_prev, p.has_line_next) {
            Some(k) => t[i].insert(k, p),
            None => t[i],
        },
        None => t[i],
    }
}

/// The table with the tags of one more span. A span whose tags do not all
/// have a place is left out whole.
pub open spec fn with_span(t: Seq<Seq<Tag>>, ext: Seq<(int, int)>, span: (int, int), label: usize) -> Seq<
    Seq<Tag>,
> {
    if span_fits(t, ext, span) {
        Seq::new(t.len(), |i: int| placed(t, ext, span, label, i))
    } else {
        t
    }
}

/// The name under which a label is kept: the first characters of the name
/// given, as many as a label's name may have.
pub open spec fn label_key(name: Seq<char>) -> Seq<char> {
    name.take(min(NAME_MAX as int, name.len() as int))
}

/// Index of the first label with the given name, looking from `from` on; the
/// number of labels where none has it.
pub open spec fn label_index(labels: Seq<Label>, name: Seq<char>, from: int) -> int
    decreases labels.len() - from,
{
    if from >= labels.len() {
        labels.len() as int
    } else if labels[from].name@ == name {
        from
    } else {
        label_index(labels, name, from + 1)
    }
}

/// The table with the tags of the first `n` spans, brought in one after the
/// other. A span whose label is not among `labels` leaves nothing.
pub open spec fn with_ents(
    t: Seq<Seq<Tag>>,
    ext: Seq<(int, int)>,
    ents: Seq<Ent>,
    labels: Seq<Label>,
    n: int,
) -> Seq<Seq<Tag>>
    decreases n,
{
    if n <= 0 {
        t
    } else {
        let before = with_ents(t, ext, ents, labels, n - 1);
        let e = ents[n - 1];
        let l = label_index(labels, label_key(e.label@), 0);
        if l < labels.len() {
            with_span(before, ext, (e.start as int, e.end as int), l as usize)
        } else {
            before
        }
    }
}

/// Which of the first `n` spans are left out when they are brought in one
/// after the other: those whose label is not among `labels`, and those whose
/// tags do not all find a place on the lines as the spans before have left
/// them.
pub open spec fn left_out(
    t: Seq<Seq<Tag>>,
    ext: Seq<(int, int)>,
    ents: Seq<Ent>,
    labels: Seq<Label>,
    n: int,
) -> Seq<usize>
    decreases n,
{
    if n <= 0 {
        Seq::empty()
    } else {
        let before = left_out(t, ext, ents, labels, n - 1);
        let e = ents[n - 1];
        let l = label_index(labels, label_key(e.label@), 0);
        if l < labels.len() && span_fits(
            with_ents(t, ext, ents, labels, n - 1),
            ext,
            (e.start as int, e.end as int),
        ) {
            before
        } else {
            before.push((n - 1) as usize)
        }
    }
}

/// The names of the labels that the first `n` spans ask for, each once, in
/// the order in which they first occur.
pub open spec fn seen_names(ents: Seq<Ent>, n: int) -> Seq<Seq<char>>
    decreases n,
{
    if n <= 0 {
        Seq::empty()
    } else {
        let before = seen_names(ents, n - 1);
        let key = label_key(ents[n - 1].label@);
        if before.contains(key) {
            before
        } else {
            before.push(key)
        }
    }
}

/// Some label carries exactly the given name.
pub open spec fn has_name(labels: Seq<Label>, name: Seq<char>) -> bool {
    exists|i: int| 0 <= i < labels.len() && labels[i].name@ == name
}

/// Calls `Itertools::contains` on the names of the labels. It answers
/// whether some label carries exactly the given name.
#[verifier::external_body]
fn names_contain(labels: &Vec<Label>, name: &String) -> (found: bool)
    ensures
        found == has_name(labels@, name@),
{
    labels.iter().map(|x| &x.name).contains(name)
}

/// The labels that a list of spans asks for: one for each distinct name, in
/// the order of first occurrence, colored from the palette in turn. The
/// first label is the active one; all are visible.
pub fn parse_labels(ents: &Vec<Ent>) -> (labels: Vec<Label>)
    ensures
        labels@.len() == seen_names(ents@, ents@.len() as int).len(),
        forall|i: int|
            0 <= i < labels@.len() ==> {
                &&& (#[trigger] labels@[i]).name@ == seen_names(ents@, ents@.len() as int)[i]
                &&& labels@[i].color == palette_color(i % (PALETTE_LEN as int))
                &&& labels@[i].is_active == (i == 0)
                &&& labels@[i].is_visible
                &&& labels@[i].wf()
            },
        one_active(labels@, 0),
{
    let mut labels: Vec<Label> = Vec::new();
    let mut next_color: usize = 0;
    let mut n: usize = 0;
    while n < ents.len()
        invariant
            n <= ents@.len(),
            next_color < PALETTE_LEN,
            next_color == (labels@.len() as int) % (PALETTE_LEN as int),
            labels@.len() == seen_names(ents@, n as int).len(),
            forall|i: int|
                0 <= i < labels@.len() ==> {
                    &&& (#[trigger] labels@[i]).name@ == seen_names(ents@, n as int)[i]
                    &&& labels@[i].color == palette_color(i % (PALETTE_LEN as int))
                    &&& labels@[i].is_active == (i == 0)
                    &&& labels@[i].is_visible
                    &&& labels@[i].wf()
                },
        decreases ents@.len() - n,
    {
        let ghost before = seen_names(ents@, n as int);
        let ghost had = labels@;
        let key = prefix_of(ents[n].label.as_str(), NAME_MAX);
        let found = names_contain(&labels, &key);
        proof {
            if found {
                let i = choose|i: int| 0 <= i < labels@.len() && labels@[i].name@ == key@;
                assert(before[i] == key@);
            }
            if before.contains(key@) {
                let i = choose|i: int| 0 <= i < before.len() && before[i] == key@;
                assert(labels@[i].name@ == key@);
            }
        }
        if !found {
            let label = Label {
                name: key,
                color: palette(next_color),
                is_active: labels.len() == 0,
                is_visible: true,
            };
            labels.push(label);
            next_color = if next_color + 1 == PALETTE_LEN {
                0
            } else {
                next_color + 1
            };
            proof {
                assert forall|i: int| 0 <= i < labels@.len() implies {
                    &&& (#[trigger] labels@[i]).name@ == seen_names(ents@, n as int + 1)[i]
                    &&& labels@[i].color == palette_color(i % (PALETTE_LEN as int))
                    &&& labels@[i].is_active == (i == 0)
                    &&& labels@[i].is_visible
                    &&& labels@[i].wf()
                } by {
                    if i < had.len() {
                        assert(labels@[i] == had[i]);
                    }
                }
            }
        }
        n += 1;
    }
    labels
}

/// Bringing in a span keeps a linked table linked.
pub proof fn lemma_with_span_linked(t: Seq<Seq<Tag>>, ext: Seq<(int, int)>, span: (int, int), label: usize)
    requires
        linked(t),
        t.len() == ext.len(),
    ensures
        linked(with_span(t, ext, span, label)),
        with_span(t, ext, span, label).len() == t.len(),
{
    if span_fits(t, ext, span) {
        let n = with_span(t, ext, span, label);
        assert forall|i: int| 0 <= i < n.len() implies row_ok(#[trigger] n[i]) by {
            lemma_placed(t, ext, span, label, i);
        }
        assert forall|b: int| -1 <= b < n.len() implies #[trigger] joint_ok(n, b) by {
            assert(joint_ok(t, b));
            if b >= 0 {
                lemma_placed(t, ext, span, label, b);
            }
            if b + 1 < n.len() {
                lemma_placed(t, ext, span, label, b + 1);
            }
        }
    }
}

/// What the list of one line looks like once a span that fits has left its
/// tag there.
pub proof fn lemma_placed(t: Seq<Seq<Tag>>, ext: Seq<(int, int)>, span: (int, int), label: usize, i: int)
    requires
        linked(t),
        t.len() == ext.len(),
        span_fits(t, ext, span),
        0 <= i < t.len(),
    ensures
        ({
            let n = placed(t, ext, span, label, i);
            let here = reaches(span, ext[i]);
            let above = here && i > 0 && reaches(span, ext[i - 1]);
            let below = here && i + 1 < ext.len() && reaches(span, ext[i + 1]);
            &&& row_ok(n)
            &&& first_prev(n) == (above || first_prev(t[i]))
            &&& has_next(n) == (below || has_next(t[i]))
            &&& above ==> n[0].label == label && !first_prev(t[i])
            &&& below ==> next_tag(n).label == label && !has_next(t[i])
            &&& first_prev(t[i]) ==> n[0] == t[i][0]
            &&& has_next(t[i]) ==> next_tag(n) == next_tag(t[i])
        }),
{
    assert(row_ok(t[i]));
    match span_piece(ext, span, label, i) {
        Some(p) => {
            let q = span_piece(ext, span, 0, i);
            assert(q is Some);
            assert(q->0.has_line_prev == p.has_line_prev && q->0.has_line_next == p.has_line_next);
            let k = slot(t[i], p.has_line_prev, p.has_line_next)->0;
            lemma_place(t[i], p, k);
        },
        None => {},
    }
}

/// The tags that a span leaves fit their lines.
pub proof fn lemma_with_span_fits(
    now: Seq<Line>,
    then: Seq<Line>,
    labels: Seq<Label>,
    span: (int, int),
    label: usize,
)
    requires
        document_wf(then, labels),
        same_rows(now, then),
        label < labels.len(),
        span.0 >= 0,
        tag_table(now) == with_span(tag_table(then), extents(then), span, label),
    ensures
        document_wf(now, labels),
{
    let t = tag_table(then);
    let ext = extents(then);
    lemma_with_span_linked(t, ext, span, label);
    assert forall|i: int| 0 <= i < now.len() implies (#[trigger] now[i]).wf(labels.len() as int) by {
        assert(now[i].same_row(then[i]));
        assert(then[i].wf(labels.len() as int));
        assert(tag_table(now)[i] == now[i].tags@);
        assert(t[i] == then[i].tags@);
        assert forall|j: int| 0 <= j < now[i].tags@.len() implies (#[trigger] now[i].tags@[j]).fits(
            now[i].width as int,
            labels.len() as int,
        ) by {
            if span_fits(t, ext, span) {
                assert(now[i].tags@ == placed(t, ext, span, label, i));
                match span_piece(ext, span, label, i) {
                    Some(p) => {
                        let q = span_piece(ext, span, 0, i);
                        assert(q is Some);
                        assert(q->0.has_line_prev == p.has_line_prev && q->0.has_line_next
                            == p.has_line_next);
                        let k = slot(t[i], p.has_line_prev, p.has_line_next)->0;
                        assert(row_ok(t[i]));
                        lemma_place(t[i], p, k);
                        if j < k {
                            assert(now[i].tags@[j] == then[i].tags@[j]);
                        } else if j > k {
                            assert(now[i].tags@[j] == then[i].tags@[j - 1]);
                        }
                    },
                    None => {},
                }
            }
        }
    }
}

/// The lines lie within what document offsets can express.
pub open spec fn offsets_fit(lines: Seq<Line>) -> bool {
    forall|i: int|
        0 <= i < lines.len()
            ==> (#[trigger] lines[i]).absolute_offset + lines[i].width <= usize::MAX
}

/// The part of a span on one line, where the span reaches the line.
fn reach(line: &Line, span: (usize, usize)) -> (part: Option<(usize, usize)>)
    requires
        line.absolute_offset + line.width <= usize::MAX,
    ensures
        match part {
            Some(bounds) => {
                &&& reaches(
                    (span.0 as int, span.1 as int),
                    (line.absolute_offset as int, line.width as int),
                )
                &&& (bounds.0 as int, bounds.1 as int) == clip(
                    (span.0 as int, span.1 as int),
                    (line.absolute_offset as int, line.width as int),
                )
            },
            None => !reaches(
                (span.0 as int, span.1 as int),
                (line.absolute_offset as int, line.width as int),
            ),
        },
{
    if has_interval_overlap(span, (line.absolute_offset, line.absolute_offset + line.width)) {
        let bounds = calculate_tag_bounds(span, (line.absolute_offset, line.width));
        if bounds.0 < bounds.1 {
            Some(bounds)
        } else {
            None
        }
    } else {
        None
    }
}

/// The tag that a span leaves on line `i`, if any.
fn piece_at(lines: &Vec<Line>, span: (usize, usize), label: usize, i: usize) -> (piece: Option<Tag>)
    requires
        i < lines@.len(),
        offsets_fit(lines@),
    ensures
        piece == span_piece(extents(lines@), (span.0 as int, span.1 as int), label, i as int),
{
    let count: usize = lines.len();
    match reach(&lines[i], span) {
        Some(part) => {
            let prev: bool = i > 0 && reach(&lines[i - 1], span).is_some();
            let next: bool = i + 1 < count && reach(&lines[i + 1], span).is_some();
            Some(
                Tag { start: part.0, end: part.1, label, has_line_prev: prev, has_line_next: next },
            )
        },
        None => None,
    }
}

/// Puts the tags of one span on the lines it reaches, or none of them where
/// one has no place.
fn place_span(lines: &mut Vec<Line>, span: (usize, usize), label: usize)
    requires
        offsets_fit(old(lines)@),
    ensures
        same_rows(final(lines)@, old(lines)@),
        tag_table(final(lines)@) == with_span(
            tag_table(old(lines)@),
            extents(old(lines)@),
            (span.0 as int, span.1 as int),
            label,
        ),
{
    let ghost t = tag_table(lines@);
    let ghost ext = extents(lines@);
    let ghost sp = (span.0 as int, span.1 as int);
    let fits: bool = span_has_place(lines, span);
    if !fits {
        return ;
    }
    assert(span_fits(t, ext, sp));
    let mut i: usize = 0;
    while i < lines.len()
        invariant
            i <= lines@.len(),
            lines@.len() == t.len(),
            same_rows(lines@, old(lines)@),
            offsets_fit(lines@),
            t == tag_table(old(lines)@),
            ext == extents(old(lines)@),
            ext == extents(lines@),
            sp == (span.0 as int, span.1 as int),
            span_fits(t, ext, sp),
            forall|j: int| 0 <= j < i
                ==> (#[trigger] lines@[j]).tags@ == placed(t, ext, sp, label, j),
            forall|j: int| i <= j < lines@.len() ==> (#[trigger] lines@[j]).tags@ == t[j],
        decreases lines@.len() - i,
    {
        let ghost before = lines@;
        assert(before[i as int].tags@ == t[i as int]);
        match piece_at(lines, span, label, i) {
            Some(p) => {
                proof {
                    let q = span_piece(ext, sp, 0, i as int);
                    assert(q is Some);
                    assert(q->0.has_line_prev == p.has_line_prev && q->0.has_line_next
                        == p.has_line_next);
                }
                match find_slot(&lines[i].tags, p.has_line_prev, p.has_line_next) {
                    Some(k) => {
                        lines[i].tags.insert(k, p);
                    },
                    None => {},
                }
            },
            None => {},
        }
        proof {
            assert forall|j: int| 0 <= j < lines@.len() implies (#[trigger] lines@[j]).same_row(
                old(lines)@[j],
            ) by {
                assert(before[j].same_row(old(lines)@[j]));
            }
            assert(extents(lines@) =~= ext);
            assert forall|j: int| 0 <= j < lines@.len() implies (#[trigger] lines@[j]).absolute_offset
                + lines@[j].width <= usize::MAX by {
                assert(before[j].absolute_offset + before[j].width <= usize::MAX);
            }
            assert(lines@[i as int].tags@ == placed(t, ext, sp, label, i as int));
            assert forall|j: int| 0 <= j < i + 1 implies (#[trigger] lines@[j]).tags@ == placed(
                t,
                ext,
                sp,
                label,
                j,
            ) by {
                if j < i {
                    assert(lines@[j] == before[j]);
                }
            }
            assert forall|j: int| i + 1 <= j < lines@.len() implies (#[trigger] lines@[j]).tags@
                == t[j] by {
                assert(lines@[j] == before[j]);
            }
        }
        i += 1;
    }
    assert(tag_table(lines@) =~= with_span(t, ext, sp, label));
}

/// Whether a span would find a place on the lines as they are: whether
/// bringing it in would leave its tags, or leave it out.
pub fn span_has_place(lines: &Vec<Line>, span: (usize, usize)) -> (fits: bool)
    requires
        offsets_fit(lines@),
    ensures
        fits == span_fits(tag_table(lines@), extents(lines@), (span.0 as int, span.1 as int)),
{
    let ghost t = tag_table(lines@);
    let ghost ext = extents(lines@);
    let ghost sp = (span.0 as int, span.1 as int);
    let mut fits: bool = true;
    let mut i: usize = 0;
    while i < lines.len()
        invariant
            i <= lines@.len(),
            offsets_fit(lines@),
            t == tag_table(lines@),
            ext == extents(lines@),
            sp == (span.0 as int, span.1 as int),
            fits == forall|j: int|
                0 <= j < i ==> match #[trigger] span_piece(ext, sp, 0, j) {
                    Some(p) => slot(t[j], p.has_line_prev, p.has_line_next) is Some,
                    None => true,
                },
        decreases lines@.len() - i,
    {
        match piece_at(lines, span, 0, i) {
            Some(p) => {
                if find_slot(&lines[i].tags, p.has_line_prev, p.has_line_next).is_none() {
                    fits = false;
                }
            },
            None => {},
        }
        i += 1;
    }
    fits
}

/// Finds the first label with the given name.
fn find_label(labels: &Vec<Label>, name: &String) -> (l: usize)
    ensures
        l == label_index(labels@, name@, 0),
{
    let mut i: usize = 0;
    while i < labels.len() && !(labels[i].name == *name)
        invariant
            i <= labels@.len(),
            label_index(labels@, name@, 0) == label_index(labels@, name@, i as int),
        decreases labels@.len() - i,
    {
        i += 1;
    }
    i
}

/// Projects spans given in document offsets onto wrapped lines, and says
/// which spans it left out. Each span that is brought in leaves one tag on
/// every line it reaches; where it crosses from one line to the next, the two
/// tags are marked as continuing.
pub fn assign_labels_noting(lines: Vec<Line>, ents: &Vec<Ent>, labels: &Vec<Label>) -> (out: (
    Vec<Line>,
    Vec<usize>,
))
    requires
        offsets_fit(lines@),
    ensures
        same_rows(out.0@, lines@),
        tag_table(out.0@) == with_ents(
            tag_table(lines@),
            extents(lines@),
            ents@,
            labels@,
            ents@.len() as int,
        ),
        out.1@ == left_out(
            tag_table(lines@),
            extents(lines@),
            ents@,
            labels@,
            ents@.len() as int,
        ),
        document_wf(lines@, labels@) ==> document_wf(out.0@, labels@),
{
    let ghost t = tag_table(lines@);
    let ghost ext = extents(lines@);
    let ghost given = lines@;
    let mut lines = lines;
    let mut skipped: Vec<usize> = Vec::new();
    let mut n: usize = 0;
    while n < ents.len()
        invariant
            n <= ents@.len(),
            t == tag_table(given),
            ext == extents(given),
            ext == extents(lines@),
            same_rows(lines@, given),
            offsets_fit(lines@),
            tag_table(lines@) == with_ents(t, ext, ents@, labels@, n as int),
            skipped@ == left_out(t, ext, ents@, labels@, n as int),
            document_wf(given, labels@) ==> document_wf(lines@, labels@),
        decreases ents@.len() - n,
    {
        let ghost before = lines@;
        let key = prefix_of(ents[n].label.as_str(), NAME_MAX);
        let l = find_label(labels, &key);
        if l < labels.len() {
            if !span_has_place(&lines, (ents[n].start, ents[n].end)) {
                skipped.push(n);
            }
            place_span(&mut lines, (ents[n].start, ents[n].end), l);
            proof {
                assert forall|j: int| 0 <= j < lines@.len() implies (#[trigger] lines@[j]).same_row(
                    given[j],
                ) by {
                    assert(lines@[j].same_row(before[j]));
                    assert(before[j].same_row(given[j]));
                }
                assert(extents(lines@) =~= ext);
                assert forall|j: int| 0 <= j < lines@.len() implies (
                #[trigger] lines@[j]).absolute_offset + lines@[j].width <= usize::MAX by {
                    assert(lines@[j].same_row(before[j]));
                    assert(before[j].absolute_offset + before[j].width <= usize::MAX);
                }
                if document_wf(given, labels@) {
                    lemma_with_span_fits(
                        lines@,
                        before,
                        labels@,
                        (ents[n as int].start as int, ents[n as int].end as int),
                        l,
                    );
                }
            }
        } else {
            skipped.push(n);
        }
        n += 1;
    }
    (lines, skipped)
}

/// Projects spans given in document offsets onto wrapped lines. Each span
/// leaves one tag on every line it reaches; where it crosses from one line to
/// the next, the two tags are marked as continuing. A span whose label is not
/// among `labels`, or whose tags do not all find a place, leaves nothing.
pub fn assign_labels(lines: Vec<Line>, ents: &Vec<Ent>, labels: &Vec<Label>) -> (out: Vec<Line>)
    requires
        offsets_fit(lines@),
    ensures
        same_rows(out@, lines@),
        tag_table(out@) == with_ents(
            tag_table(lines@),
            extents(lines@),
            ents@,
            labels@,
            ents@.len() as int,
        ),
        document_wf(lines@, labels@) ==> document_wf(out@, labels@),
{
    assign_labels_noting(lines, ents, labels).0
}

/// Brings spans into a freshly wrapped document: the lines with the tags of
/// the spans, the labels they ask for, and which spans were left out.
pub fn import_spans(lines: Vec<Line>, ents: &Vec<Ent>) -> (out: (Vec<Line>, Vec<Label>, Vec<usize>))
    requires
        offsets_fit(lines@),
    ensures
        out.1@.len() == seen_names(ents@, ents@.len() as int).len(),
        forall|i: int|
            0 <= i < out.1@.len() ==> {
                &&& (#[trigger] out.1@[i]).name@ == seen_names(ents@, ents@.len() as int)[i]
                &&& out.1@[i].color == palette_color(i % (PALETTE_LEN as int))
                &&& out.1@[i].is_active == (i == 0)
                &&& out.1@[i].is_visible
                &&& out.1@[i].wf()
            },
        same_rows(out.0@, lines@),
        tag_table(out.0@) == with_ents(
            tag_table(lines@),
            extents(lines@),
            ents@,
            out.1@,
            ents@.len() as int,
        ),
        out.2@ == left_out(tag_table(lines@), extents(lines@), ents@, out.1@, ents@.len() as int),
        one_active(out.1@, 0),
        document_wf(lines@, out.1@) ==> document_wf(out.0@, out.1@),
{
    let labels = parse_labels(ents);
    let (lines, skipped) = assign_labels_noting(lines, ents, &labels);
    (lines, labels, skipped)
}

} // verus!
