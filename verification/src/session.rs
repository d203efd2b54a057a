//! Opening a document and keeping a session: which kind of file a name
//! stands for, the state that a document starts with, and what is fixed
//! before a snapshot of the state is written.

use vstd::prelude::*;
use crate::app::{
    document_wf, one_active, tag_table, App, Color, FType, Label, Line, Mode, MARKER_WIDTH,
};
use crate::chain::{joint_ok, row_ok};
use crate::span::{import_spans, offsets_fit, Ent};
use crate::text::{
    chars_of, ends_with, is_single_line, is_suffix, max, push_char, push_text, single_line,
};
use crate::wrap::{offset_of, plain_row, texts_of, wrap, wrapped};

verus! {

/// The kind of a file: the kind given, or else what the end of its name
/// says, a plain text where it says nothing.
pub open spec fn format_of(name: Seq<char>, given: Option<FType>) -> FType {
    match given {
        Some(format) => format,
        None => if is_suffix(name, ".tan"@) {
            FType::Tan
        } else if is_suffix(name, ".json"@) {
            FType::Spacy
        } else {
            FType::Plain
        },
    }
}

pub fn detect_format(name: &str, given: Option<FType>) -> (format: FType)
    ensures
        format == format_of(name@, given),
{
    match given {
        Some(format) => format,
        None => if ends_with(name, ".tan") {
            FType::Tan
        } else if ends_with(name, ".json") {
            FType::Spacy
        } else {
            FType::Plain
        },
    }
}

/// The name under which a session is written: the name of the document,
/// ending in `.tan`.
pub open spec fn snapshot_name(name: Seq<char>) -> Seq<char> {
    if is_suffix(name, ".tan"@) {
        name
    } else {
        name + ".tan"@
    }
}

/// Makes the state ready to be written: a snapshot is always taken in normal
/// mode and under the name of the session. Hands back the mode and the name
/// as they were, to be given to `end_save`.
pub fn begin_save(app: &mut App) -> (before: (Mode, String))
    ensures
        before.0 == old(app).mode,
        before.1 == old(app).filename,
        *final(app) == (App { mode: Mode::Normal, filename: final(app).filename, ..*old(app) }),
        final(app).filename@ == snapshot_name(old(app).filename@),
{
    let before = (app.mode, app.filename.clone());
    app.set_normal_mode();
    if !ends_with(app.filename.as_str(), ".tan") {
        push_text(&mut app.filename, ".tan");
    }
    before
}

/// Ends a save, given what `begin_save` handed back and whether the
/// snapshot was written. The mode is the one in which the writing began. The
/// name is that of the session once the snapshot is written; after a failure
/// it is the name as it was, so that nothing is changed and the save can be
/// tried again.
pub fn end_save(app: &mut App, before: (Mode, String), written: bool)
    ensures
        written ==> *final(app) == (App { mode: before.0, ..*old(app) }),
        !written ==> *final(app) == (App { mode: before.0, filename: before.1, ..*old(app) }),
{
    app.mode = before.0;
    if !written {
        app.filename = before.1;
    }
}

/// A save that fails leaves the state as it was: what `end_save` leaves
/// after a failed write is the state in which `begin_save` was called.
pub proof fn lemma_failed_save_changes_nothing(then: App, during: App, after: App)
    requires
        during == (App { mode: Mode::Normal, filename: during.filename, ..then }),
        after == (App { mode: then.mode, filename: then.filename, ..during }),
    ensures
        after == then,
{
}

/// A save that succeeds changes nothing but the name, which becomes the
/// name of the session.
pub proof fn lemma_save_changes_the_name_only(then: App, during: App, after: App)
    requires
        during == (App { mode: Mode::Normal, filename: during.filename, ..then }),
        during.filename@ == snapshot_name(then.filename@),
        after == (App { mode: then.mode, ..during }),
    ensures
        after == (App { filename: after.filename, ..then }),
        after.filename@ == snapshot_name(then.filename@),
{
}

/// The lines of a text: what stands between its line breaks. A text with
/// `n` line breaks has `n + 1` lines. `start` is where the line being read
/// begins, `i` how far it has been read.
pub open spec fn split_from(text: Seq<char>, start: int, i: int) -> Seq<Seq<char>>
    decreases text.len() - i,
{
    if i >= text.len() {
        seq![text.subrange(start, text.len() as int)]
    } else if text[i] == '\n' {
        seq![text.subrange(start, i)] + split_from(text, i + 1, i + 1)
    } else {
        split_from(text, start, i + 1)
    }
}

pub open spec fn lines_of(text: Seq<char>) -> Seq<Seq<char>> {
    split_from(text, 0, 0)
}

pub fn split_lines(text: &str) -> (lines: Vec<String>)
    ensures
        texts_of(lines@) == lines_of(text@),
        forall|r: int| 0 <= r < lines@.len() ==> single_line(#[trigger] lines@[r]@),
{
    let chars = chars_of(text);
    let mut lines: Vec<String> = Vec::new();
    let mut line = String::new();
    let mut start: usize = 0;
    let mut i: usize = 0;
    while i < chars.len()
        invariant
            start <= i <= chars@.len(),
            chars@ == text@,
            line@ == chars@.subrange(start as int, i as int),
            lines_of(text@) == texts_of(lines@) + split_from(text@, start as int, i as int),
            single_line(line@),
            forall|r: int| 0 <= r < lines@.len() ==> single_line(#[trigger] lines@[r]@),
        decreases chars@.len() - i,
    {
        let c = chars[i];
        if c == '\n' {
            let ghost had = lines@;
            lines.push(line);
            line = String::new();
            assert(texts_of(lines@) =~= texts_of(had).push(chars@.subrange(start as int, i as int)));
            assert(texts_of(had) + (seq![text@.subrange(start as int, i as int)] + split_from(
                text@,
                i + 1,
                i + 1,
            )) =~= texts_of(lines@) + split_from(text@, i + 1, i + 1));
            start = i + 1;
            assert(line@ =~= chars@.subrange(start as int, i + 1));
        } else {
            push_char(&mut line, c);
            assert(line@ =~= chars@.subrange(start as int, i + 1));
        }
        i += 1;
    }
    let ghost had = lines@;
    lines.push(line);
    assert(texts_of(lines@) =~= texts_of(had).push(chars@.subrange(start as int, i as int)));
    assert(texts_of(lines@) =~= lines_of(text@));
    lines
}

/// Whether the document offsets of a text fit the machine's numbers.
pub fn offsets_in_range(source: &Vec<String>) -> (fits: bool)
    ensures
        fits == (offset_of(texts_of(source@), source@.len() as int) <= usize::MAX),
{
    let ghost texts = texts_of(source@);
    let mut total: usize = 0;
    let mut r: usize = 0;
    while r < source.len()
        invariant
            r <= source@.len(),
            texts == texts_of(source@),
            total == offset_of(texts, r as int),
        decreases source@.len() - r,
    {
        let len: usize = source[r].as_str().unicode_len();
        proof {
            assert(texts[r as int] == source@[r as int]@);
            crate::wrap::lemma_offset_monotone(texts, r as int + 1, source@.len() as int);
        }
        match total.checked_add(len) {
            Some(sum) => match sum.checked_add(1) {
                Some(next) => {
                    total = next;
                },
                None => {
                    return false;
                },
            },
            None => {
                return false;
            },
        }
        r += 1;
    }
    true
}

/// The columns that the text has in a window of `columns` columns: the
/// marker of continuation rows takes its share, and one column is always
/// left.
pub open spec fn text_width(columns: int) -> int {
    max(1, columns - MARKER_WIDTH)
}

/// Width to which the text is wrapped in a window of `columns` columns.
pub fn wrap_width(columns: u16) -> (width: usize)
    ensures
        width == text_width(columns as int),
{
    let most: usize = columns as usize;
    if most > MARKER_WIDTH {
        most - MARKER_WIDTH
    } else {
        1
    }
}

/// The labels that a plain document starts with: one red label, active and
/// visible.
pub fn default_labels() -> (labels: Vec<Label>)
    ensures
        labels@.len() == 1,
        labels@[0].name@ == "label1"@,
        labels@[0].color == Color::Red,
        labels@[0].is_active && labels@[0].is_visible,
        labels@[0].wf(),
        one_active(labels@, 0),
{
    let mut labels: Vec<Label> = Vec::new();
    proof {
        reveal_strlit("label1");
    }
    labels.push(
        Label { name: "label1".to_owned(), color: Color::Red, is_active: true, is_visible: true },
    );
    labels
}

/// Rows that wrapping has left of single lines are a well-formed document,
/// whatever the labels.
pub proof fn lemma_plain_document(lines: Seq<Line>, labels: Seq<Label>)
    requires
        forall|i: int| 0 <= i < lines.len() ==> plain_row(#[trigger] lines[i], i),
        forall|i: int| 0 <= i < lines.len() ==> single_line((#[trigger] lines[i]).text@),
        forall|i: int| 0 <= i < labels.len() ==> (#[trigger] labels[i]).wf(),
    ensures
        document_wf(lines, labels),
        offsets_fit(lines),
{
    let t = tag_table(lines);
    assert forall|i: int| 0 <= i < lines.len() implies (#[trigger] lines[i]).wf(labels.len() as int) by {
        assert(plain_row(lines[i], i));
    }
    assert forall|i: int| 0 <= i < lines.len() implies (#[trigger] lines[i]).virtual_row == i by {
        assert(plain_row(lines[i], i));
    }
    assert forall|i: int| 0 <= i < t.len() implies row_ok(#[trigger] t[i]) by {
        assert(plain_row(lines[i], i));
    }
    assert forall|b: int| -1 <= b < t.len() implies #[trigger] joint_ok(t, b) by {
        if b >= 0 {
            assert(plain_row(lines[b], b));
        }
        if b + 1 < t.len() {
            assert(plain_row(lines[b + 1], b + 1));
        }
    }
    assert forall|i: int| 0 <= i < lines.len() implies (#[trigger] lines[i]).absolute_offset
        + lines[i].width <= usize::MAX by {
        assert(plain_row(lines[i], i));
    }
}

/// Whether each text is a single line.
pub fn are_single_lines(source: &Vec<String>) -> (all: bool)
    ensures
        all == forall|r: int| 0 <= r < source@.len() ==> single_line(#[trigger] source@[r]@),
{
    let mut r: usize = 0;
    while r < source.len()
        invariant
            r <= source@.len(),
            forall|q: int| 0 <= q < r ==> single_line(#[trigger] source@[q]@),
        decreases source@.len() - r,
    {
        if !is_single_line(source[r].as_str()) {
            return false;
        }
        r += 1;
    }
    true
}

/// The state in which a plain text is opened: the text wrapped to the
/// window, no tags, and the one default label. `None` where a line of the
/// text holds a line break, or where the text is too large for its offsets
/// to be counted.
pub fn open_plain(filename: &str, source: &Vec<String>, rows: u16, columns: u16) -> (opened: Option<App>)
    ensures
        opened is Some == ((forall|r: int| 0 <= r < source@.len()
            ==> single_line(#[trigger] source@[r]@))
            && offset_of(texts_of(source@), source@.len() as int) <= usize::MAX),
        match opened {
            Some(app) => {
                &&& app.wf()
                &&& wrapped(
                    app.lines@,
                    texts_of(source@),
                    text_width(columns as int),
                    source@.len() as int,
                )
                &&& forall|i: int| 0 <= i < app.lines@.len()
                    ==> plain_row(#[trigger] app.lines@[i], i)
                &&& app.labels@.len() == 1
                &&& app.labels@[0].name@ == "label1"@
                &&& app.labels@[0].color == Color::Red
                &&& app.filename@ == filename@
                &&& app.mode == Mode::Normal
                &&& app.window_height == rows
                &&& app.window_width == columns
                &&& app.cursor_row == 0 && app.cursor_column == 0 && app.offset_row == 0
            },
            None => true,
        },
{
    if !are_single_lines(source) || !offsets_in_range(source) {
        return None;
    }
    let width: usize = wrap_width(columns);
    let lines = wrap(source, width);
    let labels = default_labels();
    proof {
        lemma_plain_document(lines@, labels@);
    }
    Some(App::new(filename, lines, labels, rows, columns))
}

/// `lines` are the rows of `text` wrapped to `width` columns, with the tags
/// that `ents` leave on them, given `labels`: they are `bare` rows, as
/// wrapping gives them, with those tags.
pub open spec fn tagged_rows(
    lines: Seq<Line>,
    bare: Seq<Line>,
    text: Seq<char>,
    width: int,
    ents: Seq<Ent>,
    labels: Seq<Label>,
) -> bool {
    &&& wrapped(bare, lines_of(text), width, lines_of(text).len() as int)
    &&& crate::app::same_rows(lines, bare)
    &&& tag_table(lines) == crate::span::with_ents(
        tag_table(bare),
        crate::span::extents(bare),
        ents,
        labels,
        ents.len() as int,
    )
}

/// The state in which a text with spans is opened: the lines of the text
/// wrapped to the window, the labels that the spans name, and the tags that
/// the spans leave on the lines. With it comes the list of the spans that
/// were left out. `None` where the text is too large for its offsets to be
/// counted.
pub fn open_spacy(filename: &str, text: &str, ents: &Vec<Ent>, rows: u16, columns: u16) -> (opened: Option<
    (App, Vec<usize>),
>)
    ensures
        opened is Some == (offset_of(lines_of(text@), lines_of(text@).len() as int) <= usize::MAX),
        match opened {
            Some((app, skipped)) => {
                &&& app.wf()
                &&& exists|bare: Seq<Line>|
                    tagged_rows(
                        app.lines@,
                        bare,
                        text@,
                        text_width(columns as int),
                        ents@,
                        app.labels@,
                    ) && skipped@ == crate::span::left_out(
                        tag_table(bare),
                        crate::span::extents(bare),
                        ents@,
                        app.labels@,
                        ents@.len() as int,
                    )
                &&& app.labels@.len() == crate::span::seen_names(ents@, ents@.len() as int).len()
                &&& forall|i: int|
                    0 <= i < app.labels@.len() ==> {
                        &&& (#[trigger] app.labels@[i]).name@ == crate::span::seen_names(
                            ents@,
                            ents@.len() as int,
                        )[i]
                        &&& app.labels@[i].color == crate::app::palette_color(
                            i % (crate::app::PALETTE_LEN as int),
                        )
                        &&& app.labels@[i].is_active == (i == 0)
                        &&& app.labels@[i].is_visible
                    }
                &&& app.filename@ == filename@
                &&& app.mode == Mode::Normal
                &&& app.window_height == rows
                &&& app.window_width == columns
                &&& app.cursor_row == 0 && app.cursor_column == 0 && app.offset_row == 0
            },
            None => true,
        },
{
    let source = split_lines(text);
    if !offsets_in_range(&source) {
        return None;
    }
    let width: usize = wrap_width(columns);
    let bare = wrap(&source, width);
    let ghost bare_lines = bare@;
    proof {
        lemma_plain_document(bare@, Seq::<Label>::empty());
    }
    let (lines, labels, skipped) = import_spans(bare, ents);
    proof {
        lemma_plain_document(bare_lines, labels@);
        assert(tagged_rows(
            lines@,
            bare_lines,
            text@,
            text_width(columns as int),
            ents@,
            labels@,
        ));
    }
    Some((App::new(filename, lines, labels, rows, columns), skipped))
}

} // verus!
