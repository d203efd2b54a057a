//! Soft wrapping: cutting each source line into display rows that fit the
//! viewport, at white space wherever a word would otherwise be split.

use vstd::prelude::*;
use crate::app::Line;
use crate::text::{blanks, capped, chars_of, classify, single_line, text_of, whitespace};

verus! {

/// Walks back from `k` to just behind the last blank in columns `off..k`;
/// `off` where there is none. `blank` says of each column whether it holds
/// white space.
pub open spec fn cut_back(blank: Seq<bool>, off: int, k: int) -> int
    decreases k - off,
{
    if k <= off {
        off
    } else if blank[k - 1] {
        k
    } else {
        cut_back(blank, off, k - 1)
    }
}

/// Where the row that starts at `off` ends. What is left of the line is taken
/// whole if it fits in `w` columns. Otherwise the row is cut after `w`
/// columns, unless that would split a word: then it ends just behind the last
/// blank in those columns, if they hold any.
pub open spec fn cut(blank: Seq<bool>, off: int, w: int) -> int {
    if blank.len() - off <= w {
        blank.len() as int
    } else if blank[off + w] {
        off + w
    } else {
        let p = cut_back(blank, off, off + w);
        if p > off {
            p
        } else {
            off + w
        }
    }
}

/// The rows of a line from `off` on, each as `(start, end)` in the columns
/// of the line.
pub open spec fn cuts_from(blank: Seq<bool>, off: int, w: int) -> Seq<(int, int)>
    decreases blank.len() - off,
{
    let c = cut(blank, off, w);
    if w < 1 || c >= blank.len() {
        seq![(off, c)]
    } else {
        seq![(off, c)] + cuts_from(blank, c, w)
    }
}

/// The rows of `text` from `off` on.
pub open spec fn rows_from(text: Seq<char>, off: int, w: int) -> Seq<(int, int)> {
    cuts_from(blanks(text), off, w)
}

/// The rows that a source line is wrapped into. An empty line gives one
/// empty row.
pub open spec fn rows(text: Seq<char>, w: int) -> Seq<(int, int)> {
    rows_from(text, 0, w)
}

/// The text of the rows, one after the other.
pub open spec fn joined(text: Seq<char>, spans: Seq<(int, int)>) -> Seq<char>
    decreases spans.len(),
{
    if spans.len() == 0 {
        Seq::empty()
    } else {
        text.subrange(spans[0].0, spans[0].1) + joined(text, spans.drop_first())
    }
}

/// `line` is the display row that shows `text[span.0..span.1]` of source line
/// `absolute_row`, which starts at document offset `base`; it is row `index`
/// of the document and carries no tag. An offset beyond what the machine can
/// count stops at the largest number there is.
pub open spec fn is_row(
    line: Line,
    text: Seq<char>,
    span: (int, int),
    absolute_row: int,
    base: int,
    index: int,
) -> bool {
    &&& line.text@ == text.subrange(span.0, span.1)
    &&& line.width == span.1 - span.0
    &&& line.absolute_offset == capped(base + span.0)
    &&& line.absolute_row == absolute_row
    &&& line.is_virtual == (span.0 > 0)
    &&& line.virtual_offset == span.0
    &&& line.virtual_row == index
    &&& line.tags@.len() == 0
}

pub proof fn lemma_cut_back_bounds(blank: Seq<bool>, off: int, k: int)
    requires
        0 <= off <= k <= blank.len(),
    ensures
        off <= cut_back(blank, off, k) <= k,
        cut_back(blank, off, k) > off ==> blank[cut_back(blank, off, k) - 1],
        forall|j: int| cut_back(blank, off, k) <= j < k ==> !(#[trigger] blank[j]),
    decreases k - off,
{
    if k > off && !blank[k - 1] {
        lemma_cut_back_bounds(blank, off, k - 1);
    }
}

pub proof fn lemma_cut_bounds(blank: Seq<bool>, off: int, w: int)
    requires
        0 <= off <= blank.len(),
        w >= 1,
    ensures
        off <= cut(blank, off, w) <= blank.len(),
        cut(blank, off, w) - off <= w,
        off < blank.len() ==> off < cut(blank, off, w),
{
    if blank.len() - off > w {
        lemma_cut_back_bounds(blank, off, off + w);
    }
}

/// The rows lie end to end from `off` to the end of the line, none is wider
/// than the viewport, and only an empty line gives an empty row.
pub proof fn lemma_cuts_from(blank: Seq<bool>, off: int, w: int)
    requires
        0 <= off <= blank.len(),
        w >= 1,
    ensures
        cuts_from(blank, off, w).len() >= 1,
        cuts_from(blank, off, w)[0].0 == off,
        cuts_from(blank, off, w).last().1 == blank.len(),
        forall|i: int|
            0 <= i < cuts_from(blank, off, w).len() ==> {
                let r = #[trigger] cuts_from(blank, off, w)[i];
                &&& off <= r.0 <= r.1 <= blank.len()
                &&& r.1 - r.0 <= w
                &&& (r.0 < r.1 || off == blank.len())
            },
        forall|i: int|
            0 <= i < cuts_from(blank, off, w).len() - 1 ==> (#[trigger] cuts_from(blank, off, w)[i]).1
                == cuts_from(blank, off, w)[i + 1].0,
    decreases blank.len() - off,
{
    lemma_cut_bounds(blank, off, w);
    let c = cut(blank, off, w);
    if c < blank.len() {
        lemma_cuts_from(blank, c, w);
        let rest = cuts_from(blank, c, w);
        let all = cuts_from(blank, off, w);
        assert(all == seq![(off, c)] + rest);
        assert forall|i: int| 0 <= i < all.len() implies {
            let r = #[trigger] all[i];
            &&& off <= r.0 <= r.1 <= blank.len()
            &&& r.1 - r.0 <= w
            &&& (r.0 < r.1 || off == blank.len())
        } by {
            if i > 0 {
                assert(all[i] == rest[i - 1]);
            }
        }
        assert forall|i: int| 0 <= i < all.len() - 1 implies (#[trigger] all[i]).1 == all[i + 1].0 by {
            assert(all[i + 1] == rest[i]);
            if i > 0 {
                assert(all[i] == rest[i - 1]);
            }
        }
    }
}

/// The rows of a text lie end to end from `off` to the end of the line, none
/// is wider than the viewport, and only an empty line gives an empty row.
pub proof fn lemma_rows_from(text: Seq<char>, off: int, w: int)
    requires
        0 <= off <= text.len(),
        w >= 1,
    ensures
        rows_from(text, off, w).len() >= 1,
        rows_from(text, off, w)[0].0 == off,
        rows_from(text, off, w).last().1 == text.len(),
        forall|i: int|
            0 <= i < rows_from(text, off, w).len() ==> {
                let r = #[trigger] rows_from(text, off, w)[i];
                &&& off <= r.0 <= r.1 <= text.len()
                &&& r.1 - r.0 <= w
                &&& (r.0 < r.1 || off == text.len())
            },
        forall|i: int|
            0 <= i < rows_from(text, off, w).len() - 1 ==> (#[trigger] rows_from(text, off, w)[i]).1
                == rows_from(text, off, w)[i + 1].0,
{
    lemma_cuts_from(blanks(text), off, w);
}

pub proof fn lemma_joined_from(text: Seq<char>, blank: Seq<bool>, off: int, w: int)
    requires
        blank.len() == text.len(),
        0 <= off <= text.len(),
        w >= 1,
    ensures
        joined(text, cuts_from(blank, off, w)) == text.subrange(off, text.len() as int),
    decreases text.len() - off,
{
    lemma_cut_bounds(blank, off, w);
    let c = cut(blank, off, w);
    let all = cuts_from(blank, off, w);
    if c < text.len() {
        lemma_joined_from(text, blank, c, w);
        let rest = cuts_from(blank, c, w);
        assert(all.drop_first() =~= rest);
        assert(joined(text, all) == text.subrange(off, c) + joined(text, rest));
        assert(text.subrange(off, c) + text.subrange(c, text.len() as int) =~= text.subrange(
            off,
            text.len() as int,
        ));
    } else {
        assert(all.drop_first() =~= Seq::<(int, int)>::empty());
        assert(joined(text, all.drop_first()) =~= Seq::<char>::empty());
        assert(joined(text, all) =~= text.subrange(off, text.len() as int));
    }
}

/// Wrapping keeps the content: the rows of a line, put one after the other,
/// are the line, for every viewport of at least one column.
pub proof fn lemma_wrap_preserves_content(text: Seq<char>, w: int)
    requires
        w >= 1,
    ensures
        joined(text, rows(text, w)) == text,
{
    lemma_joined_from(text, blanks(text), 0, w);
    assert(text.subrange(0, text.len() as int) =~= text);
}

/// Where a row ends between two columns that are not blank, the row is `w`
/// columns without a blank, and the column behind it is not blank either.
pub proof fn lemma_cut_between(blank: Seq<bool>, off: int, w: int, i: int)
    requires
        0 <= off <= blank.len(),
        w >= 1,
        0 <= i < cuts_from(blank, off, w).len() - 1,
    ensures
        ({
            let r = cuts_from(blank, off, w)[i];
            &&& 0 < r.1 < blank.len()
            &&& !blank[r.1 - 1] && !blank[r.1] ==> {
                &&& r.1 - r.0 == w
                &&& forall|j: int| r.0 <= j <= r.1 ==> !(#[trigger] blank[j])
            }
        }),
    decreases blank.len() - off,
{
    lemma_cut_bounds(blank, off, w);
    let c = cut(blank, off, w);
    let all = cuts_from(blank, off, w);
    if c < blank.len() {
        let rest = cuts_from(blank, c, w);
        assert(all == seq![(off, c)] + rest);
        if i == 0 {
            lemma_cut_back_bounds(blank, off, off + w);
        } else {
            assert(all[i] == rest[i - 1]);
            lemma_cut_between(blank, c, w, i - 1);
        }
    }
}

/// No word is split unless it is wider than the viewport: where a row ends
/// between two characters that are not white space, the row is `w` columns
/// of one word, which goes on in the next row.
pub proof fn lemma_no_mid_word_cut(text: Seq<char>, w: int, i: int)
    requires
        w >= 1,
        0 <= i < rows(text, w).len() - 1,
    ensures
        ({
            let r = rows(text, w)[i];
            &&& 0 < r.1 < text.len()
            &&& !whitespace(text[r.1 - 1]) && !whitespace(text[r.1]) ==> {
                &&& r.1 - r.0 == w
                &&& forall|j: int| r.0 <= j <= r.1 ==> !whitespace(#[trigger] text[j])
            }
        }),
{
    let blank = blanks(text);
    lemma_cut_between(blank, 0, w, i);
    let r = rows(text, w)[i];
    assert(blank[r.1 - 1] == whitespace(text[r.1 - 1]));
    assert(blank[r.1] == whitespace(text[r.1]));
    if !whitespace(text[r.1 - 1]) && !whitespace(text[r.1]) {
        assert forall|j: int| r.0 <= j <= r.1 implies !whitespace(#[trigger] text[j]) by {
            lemma_cuts_from(blank, 0, w);
            assert(!blank[j]);
        }
    }
}

/// The text of the lines, one after the other.
pub open spec fn content(lines: Seq<Line>) -> Seq<char>
    decreases lines.len(),
{
    if lines.len() == 0 {
        Seq::empty()
    } else {
        lines[0].text@ + content(lines.drop_first())
    }
}

pub proof fn lemma_content_of_spans(lines: Seq<Line>, text: Seq<char>, spans: Seq<(int, int)>)
    requires
        lines.len() == spans.len(),
        forall|i: int|
            0 <= i < lines.len() ==> (#[trigger] lines[i]).text@ == text.subrange(
                spans[i].0,
                spans[i].1,
            ),
    ensures
        content(lines) == joined(text, spans),
    decreases lines.len(),
{
    if lines.len() > 0 {
        let rest = lines.drop_first();
        let tail = spans.drop_first();
        assert forall|i: int| 0 <= i < rest.len() implies (#[trigger] rest[i]).text@
            == text.subrange(
            tail[i].0,
            tail[i].1,
        ) by {
            assert(rest[i] == lines[i + 1]);
            assert(tail[i] == spans[i + 1]);
        }
        lemma_content_of_spans(rest, text, tail);
    }
}

/// The display rows of a source line hold its text: put one after the other
/// they give the line back, for every viewport of at least one column.
pub proof fn lemma_lines_keep_content(
    lines: Seq<Line>,
    text: Seq<char>,
    w: int,
    absolute_row: int,
    base: int,
    first: int,
)
    requires
        w >= 1,
        lines.len() == rows(text, w).len(),
        forall|i: int|
            0 <= i < lines.len() ==> is_row(
                #[trigger] lines[i],
                text,
                rows(text, w)[i],
                absolute_row,
                base,
                first + i,
            ),
    ensures
        content(lines) == text,
{
    lemma_content_of_spans(lines, text, rows(text, w));
    lemma_wrap_preserves_content(text, w);
}

/// The pairs of a list of rows as numbers without bound.
pub open spec fn spans_of(rows: Seq<(usize, usize)>) -> Seq<(int, int)> {
    Seq::new(rows.len(), |i: int| (rows[i].0 as int, rows[i].1 as int))
}

/// Cuts a line into rows of at most `width` columns, given of each column
/// whether it holds white space: at a blank wherever a word would otherwise
/// be split, and through a word only where the word alone is wider than the
/// row. Each row comes as `(start, end)` in the columns of the line.
pub fn cut_rows(blank: &Vec<bool>, width: usize) -> (rows: Vec<(usize, usize)>)
    requires
        width >= 1,
    ensures
        spans_of(rows@) == cuts_from(blank@, 0, width as int),
{
    let len: usize = blank.len();
    let mut rows: Vec<(usize, usize)> = Vec::new();
    let mut off: usize = 0;
    loop
        invariant_except_break
            cuts_from(blank@, 0, width as int) == spans_of(rows@) + cuts_from(
                blank@,
                off as int,
                width as int,
            ),
        invariant
            len == blank@.len(),
            width >= 1,
            off <= len,
        ensures
            cuts_from(blank@, 0, width as int) == spans_of(rows@),
        decreases len - off,
    {
        proof {
            lemma_cut_bounds(blank@, off as int, width as int);
        }
        let end: usize = if len - off <= width {
            len
        } else {
            let k: usize = off + width;
            if blank[k] {
                k
            } else {
                let mut p: usize = k;
                while p > off && !blank[p - 1]
                    invariant
                        off <= p <= k <= blank@.len(),
                        cut_back(blank@, off as int, k as int) == cut_back(
                            blank@,
                            off as int,
                            p as int,
                        ),
                    decreases p,
                {
                    p -= 1;
                }
                if p > off {
                    p
                } else {
                    k
                }
            }
        };
        assert(end == cut(blank@, off as int, width as int));
        let ghost had = rows@;
        rows.push((off, end));
        proof {
            assert(spans_of(rows@) =~= spans_of(had).push((off as int, end as int)));
            if end < len {
                assert(spans_of(had) + cuts_from(blank@, off as int, width as int) =~= spans_of(
                    rows@,
                ) + cuts_from(blank@, end as int, width as int));
            } else {
                assert(spans_of(had) + cuts_from(blank@, off as int, width as int) =~= spans_of(
                    rows@,
                ));
            }
        }
        off = end;
        if off == len {
            break ;
        }
    }
    rows
}

/// Adds the display rows of one source line to a document in the making.
///
/// `acc` holds the rows so far, the document offset at which the source line
/// starts, and the viewport width; `item` holds the number of the source line
/// and its text. The offset that comes back is that of the next source line:
/// one past the line break. Offsets beyond what the machine can count stop at
/// the largest number there is.
pub fn virtualize_line(acc: (Vec<Line>, usize, usize), item: (usize, String)) -> (out: (
    Vec<Line>,
    usize,
    usize,
))
    requires
        acc.2 >= 1,
    ensures
        out.2 == acc.2,
        out.1 == capped(acc.1 + item.1@.len() + 1),
        out.0@.len() == acc.0@.len() + rows(item.1@, acc.2 as int).len(),
        forall|i: int| 0 <= i < acc.0@.len() ==> out.0@[i] == acc.0@[i],
        forall|i: int|
            0 <= i < rows(item.1@, acc.2 as int).len() ==> is_row(
                #[trigger] out.0@[acc.0@.len() + i],
                item.1@,
                rows(item.1@, acc.2 as int)[i],
                item.0 as int,
                acc.1 as int,
                acc.0@.len() + i,
            ),
{
    let (mut lines, absolute_offset, window_width) = acc;
    let (absolute_row, text) = item;
    let chars = chars_of(text.as_str());
    let len: usize = chars.len();
    let blank = classify(&chars);
    let spans = cut_rows(&blank, window_width);
    let ghost before = lines@;
    let ghost all = rows(text@, window_width as int);
    proof {
        lemma_rows_from(text@, 0, window_width as int);
        assert(spans_of(spans@) == all);
    }
    let mut i: usize = 0;
    while i < spans.len()
        invariant
            i <= spans@.len(),
            chars@ == text@,
            len == chars@.len(),
            all == rows(text@, window_width as int),
            spans_of(spans@) == all,
            forall|k: int|
                0 <= k < all.len() ==> 0 <= (#[trigger] all[k]).0 <= all[k].1 <= text@.len(),
            lines@.len() == before.len() + i,
            forall|k: int| 0 <= k < before.len() ==> lines@[k] == before[k],
            forall|k: int|
                0 <= k < i ==> is_row(
                    #[trigger] lines@[before.len() + k],
                    text@,
                    all[k],
                    absolute_row as int,
                    absolute_offset as int,
                    before.len() + k,
                ),
        decreases spans@.len() - i,
    {
        let (start, end) = spans[i];
        proof {
            assert(spans_of(spans@)[i as int] == (start as int, end as int));
            assert(0 <= all[i as int].0 <= all[i as int].1 <= text@.len());
        }
        let index: usize = lines.len();
        let ghost had = lines@;
        let line = Line {
            absolute_offset: absolute_offset.saturating_add(start),
            absolute_row,
            is_virtual: start > 0,
            tags: Vec::new(),
            text: text_of(&chars, start, end),
            virtual_offset: start,
            virtual_row: index,
            width: end - start,
        };
        lines.push(line);
        proof {
            assert forall|k: int| 0 <= k < i + 1 implies is_row(
                #[trigger] lines@[before.len() + k],
                text@,
                all[k],
                absolute_row as int,
                absolute_offset as int,
                before.len() + k,
            ) by {
                if k < i {
                    assert(lines@[before.len() + k] == had[before.len() + k]);
                }
            }
        }
        i += 1;
    }
    (lines, absolute_offset.saturating_add(len).saturating_add(1), window_width)
}

/// The text of each source line.
pub open spec fn texts_of(source: Seq<String>) -> Seq<Seq<char>> {
    Seq::new(source.len(), |i: int| source[i]@)
}

/// The document offset at which source line `n` starts: each line before it
/// takes its characters and one line break.
pub open spec fn offset_of(texts: Seq<Seq<char>>, n: int) -> int
    decreases n,
{
    if n <= 0 {
        0
    } else {
        offset_of(texts, n - 1) + texts[n - 1].len() + 1
    }
}

/// How many display rows the first `n` source lines take.
pub open spec fn rows_before(texts: Seq<Seq<char>>, w: int, n: int) -> int
    decreases n,
{
    if n <= 0 {
        0
    } else {
        rows_before(texts, w, n - 1) + rows(texts[n - 1], w).len()
    }
}

/// `lines` are the display rows of the first `n` source lines, in order.
pub open spec fn wrapped(lines: Seq<Line>, texts: Seq<Seq<char>>, w: int, n: int) -> bool {
    &&& lines.len() == rows_before(texts, w, n)
    &&& forall|r: int, i: int|
        #![trigger rows(texts[r], w)[i]]
        0 <= r < n && 0 <= i < rows(texts[r], w).len() ==> is_row(
            lines[rows_before(texts, w, r) + i],
            texts[r],
            rows(texts[r], w)[i],
            r,
            offset_of(texts, r),
            rows_before(texts, w, r) + i,
        )
}

pub proof fn lemma_offset_monotone(texts: Seq<Seq<char>>, a: int, b: int)
    requires
        0 <= a <= b,
    ensures
        0 <= offset_of(texts, a) <= offset_of(texts, b),
    decreases b,
{
    if a < b {
        lemma_offset_monotone(texts, a, b - 1);
    } else if a > 0 {
        lemma_offset_monotone(texts, 0, a - 1);
    }
}

pub proof fn lemma_rows_before_monotone(texts: Seq<Seq<char>>, w: int, a: int, b: int)
    requires
        0 <= a <= b,
    ensures
        0 <= rows_before(texts, w, a) <= rows_before(texts, w, b),
    decreases b,
{
    if a < b {
        lemma_rows_before_monotone(texts, w, a, b - 1);
    } else if a > 0 {
        lemma_rows_before_monotone(texts, w, 0, a - 1);
    }
}

/// A row as wrapping leaves it: it carries no tag and knows its width and
/// its place in the document.
pub open spec fn bare_row(line: Line, index: int) -> bool {
    &&& line.tags@.len() == 0
    &&& line.width == line.text@.len()
    &&& line.virtual_row == index
}

/// A row as wrapping leaves it that ends within what document offsets can
/// express.
pub open spec fn plain_row(line: Line, index: int) -> bool {
    &&& bare_row(line, index)
    &&& line.absolute_offset + line.width <= usize::MAX
}

/// Wraps a document to a viewport of `viewport_width` columns. Every source
/// line gives at least one row; the first row of a line is not virtual, the
/// others are. No row carries a tag. Where the document is no larger than
/// offsets can count, every row ends within them.
pub fn wrap(source: &Vec<String>, viewport_width: usize) -> (lines: Vec<Line>)
    requires
        viewport_width >= 1,
    ensures
        wrapped(lines@, texts_of(source@), viewport_width as int, source@.len() as int),
        forall|i: int| 0 <= i < lines@.len() ==> bare_row(#[trigger] lines@[i], i),
        offset_of(texts_of(source@), source@.len() as int) <= usize::MAX ==> forall|i: int|
            0 <= i < lines@.len() ==> plain_row(#[trigger] lines@[i], i),
        lines@.len() >= source@.len(),
        (forall|r: int| 0 <= r < source@.len() ==> single_line(#[trigger] source@[r]@)) ==> (forall|
            i: int,
        | 0 <= i < lines@.len() ==> single_line((#[trigger] lines@[i]).text@)),
{
    let ghost texts = texts_of(source@);
    let ghost w = viewport_width as int;
    let mut acc: (Vec<Line>, usize, usize) = (Vec::new(), 0, viewport_width);
    let mut r: usize = 0;
    while r < source.len()
        invariant
            texts == texts_of(source@),
            w == viewport_width as int,
            viewport_width >= 1,
            r <= source@.len(),
            acc.2 == viewport_width,
            acc.1 == capped(offset_of(texts, r as int)),
            wrapped(acc.0@, texts, w, r as int),
            forall|i: int| 0 <= i < acc.0@.len() ==> bare_row(#[trigger] acc.0@[i], i),
            offset_of(texts, source@.len() as int) <= usize::MAX ==> forall|i: int|
                0 <= i < acc.0@.len() ==> plain_row(#[trigger] acc.0@[i], i),
            acc.0@.len() >= r,
            (forall|q: int| 0 <= q < source@.len() ==> single_line(#[trigger] source@[q]@)) ==> (
            forall|i: int| 0 <= i < acc.0@.len() ==> single_line((#[trigger] acc.0@[i]).text@)),
        decreases source@.len() - r,
    {
        let ghost before = acc.0@;
        let text = source[r].clone();
        proof {
            assert(text@ == texts[r as int]);
            lemma_offset_monotone(texts, r as int + 1, source@.len() as int);
            lemma_offset_monotone(texts, 0, r as int);
            lemma_rows_from(text@, 0, w);
        }
        acc = virtualize_line(acc, (r, text));
        proof {
            let n = r as int;
            let got = acc.0@;
            assert(rows_before(texts, w, n + 1)
                == rows_before(texts, w, n) + rows(texts[n], w).len());
            assert forall|q: int, i: int|
                #![trigger rows(texts[q], w)[i]]
                0 <= q < n + 1 && 0 <= i < rows(texts[q], w).len() implies is_row(
                got[rows_before(texts, w, q) + i],
                texts[q],
                rows(texts[q], w)[i],
                q,
                offset_of(texts, q),
                rows_before(texts, w, q) + i,
            ) by {
                if q < n {
                    lemma_rows_before_monotone(texts, w, q + 1, n);
                    lemma_rows_before_monotone(texts, w, 0, q);
                    assert(rows_before(texts, w, q + 1) == rows_before(texts, w, q) + rows(
                        texts[q],
                        w,
                    ).len());
                    assert(got[rows_before(texts, w, q) + i]
                        == before[rows_before(texts, w, q) + i]);
                } else {
                    assert(is_row(
                        got[before.len() + i],
                        texts[n],
                        rows(texts[n], w)[i],
                        n,
                        offset_of(texts, n),
                        before.len() + i,
                    ));
                }
            }
            if forall|q: int| 0 <= q < source@.len() ==> single_line(#[trigger] source@[q]@) {
                assert(single_line(source@[n]@));
                assert forall|i: int| 0 <= i < got.len() implies single_line(
                    (#[trigger] got[i]).text@,
                ) by {
                    if i < before.len() {
                        assert(got[i] == before[i]);
                    } else {
                        let k = i - before.len();
                        assert(is_row(
                            got[before.len() + k],
                            texts[n],
                            rows(texts[n], w)[k],
                            n,
                            offset_of(texts, n),
                            before.len() + k,
                        ));
                        let span = rows(texts[n], w)[k];
                        assert(0 <= span.0 <= span.1 <= texts[n].len());
                        assert forall|j: int| 0 <= j < got[i].text@.len() implies #[trigger] got[i].text@[j]
                            != '\n' by {
                            assert(got[i].text@[j] == texts[n][span.0 + j]);
                        }
                    }
                }
            }
            assert forall|i: int| 0 <= i < got.len() implies bare_row(#[trigger] got[i], i) by {
                if i < before.len() {
                    assert(got[i] == before[i]);
                } else {
                    let k = i - before.len();
                    assert(is_row(
                        got[before.len() + k],
                        texts[n],
                        rows(texts[n], w)[k],
                        n,
                        offset_of(texts, n),
                        before.len() + k,
                    ));
                }
            }
            if offset_of(texts, source@.len() as int) <= usize::MAX {
                assert forall|i: int| 0 <= i < got.len() implies plain_row(#[trigger] got[i], i) by {
                    if i < before.len() {
                        assert(got[i] == before[i]);
                    } else {
                        let k = i - before.len();
                        assert(is_row(
                            got[before.len() + k],
                            texts[n],
                            rows(texts[n], w)[k],
                            n,
                            offset_of(texts, n),
                            before.len() + k,
                        ));
                    }
                }
            }
        }
        r += 1;
    }
    acc.0
}

} // verus!
