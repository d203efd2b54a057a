//! What is drawn: the colored runs of each line, the rows of the label
//! palette, the status, and where the cursor is shown.

use vstd::prelude::*;
use crate::app::{
    palette, palette_color, App, Color, Label, Line, Mode, Tag, CHANGE_COLUMN, CHANGE_COMMAND,
    CHANGE_MODAL, CHANGE_OFFSET, CHANGE_ROW, CHANGE_STATUS, MARKER_WIDTH, NAME_MAX, OVERLAP_CODE,
    PALETTE_LEN, SELECTION_CODE,
};
use crate::text::{
    capped, max, min, min_usize, push_char, push_repeated, push_text, repeated,
};

verus! {

/// A run of columns of one line that is drawn in one color.
#[derive(Clone, Copy, Debug, PartialEq, Eq, Structural)]
pub struct OffsetChunk {
    pub start: usize,
    pub end: usize,
    pub color: Color,
}

/// The tag is drawn: its label exists and is not hidden.
pub open spec fn visible(tag: Tag, labels: Seq<Label>) -> bool {
    tag.label < labels.len() && labels[tag.label as int].is_visible
}

/// Column `p` is one where the color of the line may change: an end of the
/// line, an end of the selection, or an end of a visible tag.
pub open spec fn is_point(line: Line, labels: Seq<Label>, sel: (int, int), p: int) -> bool {
    &&& 0 <= p <= line.width
    &&& {
        ||| p == 0
        ||| p == line.width
        ||| p == sel.0
        ||| p == sel.1
        ||| exists|j: int|
            0 <= j < line.tags@.len() && visible(#[trigger] line.tags@[j], labels) && (
            line.tags@[j].start == p || line.tags@[j].end == p)
    }
}

/// The tag is visible and lies over all of `[s, e)`.
pub open spec fn spans(tag: Tag, labels: Seq<Label>, s: int, e: int) -> bool {
    visible(tag, labels) && tag.start <= s && e <= tag.end
}

/// How many of the first `n` tags lie over `[s, e)`.
pub open spec fn covering(tags: Seq<Tag>, labels: Seq<Label>, s: int, e: int, n: int) -> int
    decreases n,
{
    if n <= 0 {
        0
    } else {
        covering(tags, labels, s, e, n - 1) + if spans(tags[n - 1], labels, s, e) {
            1int
        } else {
            0int
        }
    }
}

/// Index of the first tag from `from` on that lies over `[s, e)`; the length
/// of the list where none does.
pub open spec fn first_spanning(tags: Seq<Tag>, labels: Seq<Label>, s: int, e: int, from: int) -> int
    decreases tags.len() - from,
{
    if from >= tags.len() {
        tags.len() as int
    } else if spans(tags[from], labels, s, e) {
        from
    } else {
        first_spanning(tags, labels, s, e, from + 1)
    }
}

/// The color of the run `[s, e)`. The selection comes first; then the mark
/// of several tags lying over one another; then the color of the one tag
/// that covers the run; and with no tag the default.
pub open spec fn chunk_color(line: Line, labels: Seq<Label>, sel: (int, int), s: int, e: int) -> Color {
    let n = covering(line.tags@, labels, s, e, line.tags@.len() as int);
    if sel.0 <= s && e <= sel.1 {
        Color::AnsiValue(SELECTION_CODE)
    } else if n > 1 {
        Color::AnsiValue(OVERLAP_CODE)
    } else if n == 1 {
        labels[line.tags@[first_spanning(line.tags@, labels, s, e, 0)].label as int].color
    } else {
        Color::Reset
    }
}

/// The runs lie end to end from column 0 to column `width`, and none is
/// empty.
pub open spec fn partition(chunks: Seq<OffsetChunk>, width: int) -> bool {
    &&& (chunks.len() == 0) == (width == 0)
    &&& chunks.len() > 0 ==> chunks[0].start == 0 && chunks.last().end == width
    &&& forall|i: int| 0 <= i < chunks.len() ==> (#[trigger] chunks[i]).start < chunks[i].end
    &&& forall|i: int| 0 <= i < chunks.len() - 1
        ==> (#[trigger] chunks[i]).end == chunks[i + 1].start
}

/// The runs of a line: they partition its columns, each run stretches from
/// one point of change to the next, and each has the color that the rule of
/// precedence gives it.
pub open spec fn chunked(chunks: Seq<OffsetChunk>, line: Line, labels: Seq<Label>, sel: (int, int)) -> bool {
    &&& partition(chunks, line.width as int)
    &&& forall|i: int|
        0 <= i < chunks.len() ==> {
            let c = #[trigger] chunks[i];
            &&& is_point(line, labels, sel, c.start as int)
            &&& is_point(line, labels, sel, c.end as int)
            &&& forall|p: int| c.start < p < c.end ==> !is_point(line, labels, sel, p)
            &&& c.color == chunk_color(line, labels, sel, c.start as int, c.end as int)
        }
}

pub proof fn lemma_partition_ordered(chunks: Seq<OffsetChunk>, width: int, i: int, j: int)
    requires
        partition(chunks, width),
        0 <= i < j < chunks.len(),
    ensures
        chunks[i].end <= chunks[j].start,
    decreases j - i,
{
    if i + 1 < j {
        lemma_partition_ordered(chunks, width, i, j - 1);
        assert(chunks[j - 1].end == chunks[j].start);
        assert(chunks[j - 1].start < chunks[j - 1].end);
    } else {
        assert(chunks[i].end == chunks[i + 1].start);
    }
}

pub proof fn lemma_partition_reaches(chunks: Seq<OffsetChunk>, width: int, c: int, n: int)
    requires
        partition(chunks, width),
        0 <= n < chunks.len(),
        0 <= c < chunks[n].end,
    ensures
        exists|i: int| 0 <= i <= n && (#[trigger] chunks[i]).start <= c < chunks[i].end,
    decreases n,
{
    if c < chunks[n].start {
        assert(n > 0);
        assert(chunks[n - 1].end == chunks[n].start);
        lemma_partition_reaches(chunks, width, c, n - 1);
    } else {
        assert(chunks[n].start <= c < chunks[n].end);
    }
}

/// The runs cover the line exactly: every column of the line lies in one
/// run and in no other, and no run leaves the line.
pub proof fn lemma_chunks_cover(chunks: Seq<OffsetChunk>, width: int, c: int)
    requires
        partition(chunks, width),
    ensures
        0 <= c < width ==> exists|i: int|
            0 <= i < chunks.len() && (#[trigger] chunks[i]).start <= c < chunks[i].end,
        forall|i: int, j: int|
            0 <= i < chunks.len() && 0 <= j < chunks.len() && (#[trigger] chunks[i]).start <= c
                < chunks[i].end && (#[trigger] chunks[j]).start <= c < chunks[j].end ==> i == j,
        forall|i: int| 0 <= i < chunks.len() ==> (#[trigger] chunks[i]).end <= width,
{
    if 0 <= c < width {
        lemma_partition_reaches(chunks, width, c, chunks.len() - 1);
    }
    assert forall|i: int, j: int|
        0 <= i < chunks.len() && 0 <= j < chunks.len() && (#[trigger] chunks[i]).start <= c
            < chunks[i].end && (#[trigger] chunks[j]).start <= c < chunks[j].end implies i == j by {
        if i < j {
            lemma_partition_ordered(chunks, width, i, j);
        } else if j < i {
            lemma_partition_ordered(chunks, width, j, i);
        }
    }
    assert forall|i: int| 0 <= i < chunks.len() implies (#[trigger] chunks[i]).end <= width by {
        if i < chunks.len() - 1 {
            lemma_partition_ordered(chunks, width, i, chunks.len() - 1);
            assert(chunks[chunks.len() - 1].start < chunks[chunks.len() - 1].end);
        }
    }
}

fn is_visible(tag: &Tag, labels: &Vec<Label>) -> (shown: bool)
    ensures
        shown == visible(*tag, labels@),
{
    tag.label < labels.len() && labels[tag.label].is_visible
}

/// The next point of change behind column `s`.
fn next_point(line: &Line, labels: &Vec<Label>, sel: (usize, usize), s: usize) -> (e: usize)
    requires
        s < line.width,
    ensures
        s < e <= line.width,
        is_point(*line, labels@, (sel.0 as int, sel.1 as int), e as int),
        forall|p: int| s < p < e ==> !is_point(*line, labels@, (sel.0 as int, sel.1 as int), p),
{
    let mut e: usize = line.width;
    if s < sel.0 && sel.0 < e {
        e = sel.0;
    }
    if s < sel.1 && sel.1 < e {
        e = sel.1;
    }
    let ghost sl = (sel.0 as int, sel.1 as int);
    let mut j: usize = 0;
    while j < line.tags.len()
        invariant
            j <= line.tags@.len(),
            s < e <= line.width,
            sl == (sel.0 as int, sel.1 as int),
            is_point(*line, labels@, sl, e as int),
            !(s < sel.0 < e) && !(s < sel.1 < e),
            forall|k: int|
                0 <= k < j && visible(#[trigger] line.tags@[k], labels@)
                    ==> !(s < line.tags@[k].start
                    < e) && !(s < line.tags@[k].end < e),
        decreases line.tags@.len() - j,
    {
        let tag = line.tags[j];
        if is_visible(&tag, labels) {
            if s < tag.start && tag.start < e {
                e = tag.start;
            }
            if s < tag.end && tag.end < e {
                e = tag.end;
            }
        }
        j += 1;
    }
    e
}

/// The color of the run `[s, e)`.
fn color_of(line: &Line, labels: &Vec<Label>, sel: (usize, usize), s: usize, e: usize) -> (color: Color)
    ensures
        color == chunk_color(*line, labels@, (sel.0 as int, sel.1 as int), s as int, e as int),
{
    let mut count: usize = 0;
    let mut first: usize = line.tags.len();
    let mut j: usize = 0;
    while j < line.tags.len()
        invariant
            j <= line.tags@.len(),
            count <= j,
            count == covering(line.tags@, labels@, s as int, e as int, j as int),
            first <= line.tags@.len(),
            count == 0 ==> first == line.tags@.len(),
            count > 0 ==> first < j && spans(line.tags@[first as int], labels@, s as int, e as int),
            first_spanning(line.tags@, labels@, s as int, e as int, 0) == if count > 0 {
                first as int
            } else {
                first_spanning(line.tags@, labels@, s as int, e as int, j as int)
            },
        decreases line.tags@.len() - j,
    {
        let tag = line.tags[j];
        if is_visible(&tag, labels) && tag.start <= s && e <= tag.end {
            if count == 0 {
                first = j;
            }
            count += 1;
        }
        j += 1;
    }
    if sel.0 <= s && e <= sel.1 {
        Color::AnsiValue(SELECTION_CODE)
    } else if count > 1 {
        Color::AnsiValue(OVERLAP_CODE)
    } else if count == 1 {
        labels[line.tags[first].label].color
    } else {
        Color::Reset
    }
}

/// Cuts a line into the runs that are drawn in one color each.
pub fn chunk_line(line: &Line, app: &App) -> (chunks: Vec<OffsetChunk>)
    requires
        app.visual_wf(),
    ensures
        chunked(chunks@, *line, app.labels@, app.visual_bounds(line.virtual_row as int)),
{
    let sel = app.get_visual_bounds(line.virtual_row);
    let ghost sl = (sel.0 as int, sel.1 as int);
    let mut chunks: Vec<OffsetChunk> = Vec::new();
    let mut s: usize = 0;
    while s < line.width
        invariant
            s <= line.width,
            sl == (sel.0 as int, sel.1 as int),
            (chunks@.len() == 0) == (s == 0),
            chunks@.len() > 0 ==> chunks@[0].start == 0 && chunks@.last().end == s,
            forall|i: int| 0 <= i < chunks@.len()
                ==> (#[trigger] chunks@[i]).start < chunks@[i].end,
            forall|i: int|
                0 <= i < chunks@.len() - 1 ==> (#[trigger] chunks@[i]).end == chunks@[i + 1].start,
            forall|i: int|
                0 <= i < chunks@.len() ==> {
                    let c = #[trigger] chunks@[i];
                    &&& is_point(*line, app.labels@, sl, c.start as int)
                    &&& is_point(*line, app.labels@, sl, c.end as int)
                    &&& forall|p: int| c.start < p < c.end ==> !is_point(*line, app.labels@, sl, p)
                    &&& c.color == chunk_color(*line, app.labels@, sl, c.start as int, c.end as int)
                },
        decreases line.width - s,
    {
        let e = next_point(line, &app.labels, sel, s);
        let color = color_of(line, &app.labels, sel, s, e);
        let ghost had = chunks@;
        chunks.push(OffsetChunk { start: s, end: e, color });
        proof {
            assert forall|i: int| 0 <= i < chunks@.len() - 1 implies (#[trigger] chunks@[i]).end
                == chunks@[i + 1].start by {
                if i < had.len() - 1 {
                    assert(chunks@[i] == had[i]);
                    assert(chunks@[i + 1] == had[i + 1]);
                }
            }
        }
        s = e;
    }
    chunks
}

/// A part of the screen that has to be drawn anew.
#[derive(Clone, Copy, Debug, PartialEq, Eq, Structural)]
pub enum Change {
    Command,
    Cursor,
    Offset,
    Status,
    Modal,
}

/// The parts that a set of change flags asks for, in the order in which
/// they are drawn: the text, the palette, the status, the command line, and
/// last the cursor.
pub open spec fn change_flags(change: u8) -> Seq<Change> {
    (if change & CHANGE_OFFSET > 0 {
        seq![Change::Offset]
    } else {
        Seq::empty()
    }) + (if change & CHANGE_MODAL > 0 {
        seq![Change::Modal]
    } else {
        Seq::empty()
    }) + (if change & CHANGE_STATUS > 0 {
        seq![Change::Status]
    } else {
        Seq::empty()
    }) + (if change & CHANGE_COMMAND > 0 {
        seq![Change::Command]
    } else {
        Seq::empty()
    }) + (if change & (CHANGE_COLUMN | CHANGE_ROW) > 0 {
        seq![Change::Cursor]
    } else {
        Seq::empty()
    })
}

pub fn get_change_flags(app: &App) -> (flags: Vec<Change>)
    ensures
        flags@ == change_flags(app.change),
{
    let mut flags: Vec<Change> = Vec::new();
    if app.change & CHANGE_OFFSET > 0 {
        flags.push(Change::Offset);
    }
    if app.change & CHANGE_MODAL > 0 {
        flags.push(Change::Modal);
    }
    if app.change & CHANGE_STATUS > 0 {
        flags.push(Change::Status);
    }
    if app.change & CHANGE_COMMAND > 0 {
        flags.push(Change::Command);
    }
    if app.change & (CHANGE_COLUMN | CHANGE_ROW) > 0 {
        flags.push(Change::Cursor);
    }
    assert(flags@ =~= change_flags(app.change));
    flags
}

/// Says what has to be drawn after an event, and takes the flags down.
pub fn render_event(app: &mut App) -> (flags: Vec<Change>)
    ensures
        flags@ == change_flags(old(app).change),
        *final(app) == (App { change: 0, ..*old(app) }),
{
    let flags = get_change_flags(app);
    app.change = 0;
    flags
}

/// Column of the screen at which column `column` of a line is drawn: a
/// continuation row stands behind its marker.
pub open spec fn screen_column(line: Line, column: int) -> int {
    if line.is_virtual {
        capped(column + MARKER_WIDTH)
    } else {
        column
    }
}

/// Where the cursor is shown, as `(column, row)` of the screen: behind the
/// name while a name is edited, else on its cell of the text.
pub open spec fn cursor_place(app: App) -> (int, int) {
    if app.mode == Mode::Name {
        (app.modal_column as int, capped(capped(app.modal_start_row + app.modal_row) + 1))
    } else if app.current_row() < app.lines@.len() {
        (
            screen_column(app.lines@[app.current_row()], app.cursor_column as int),
            app.cursor_row as int,
        )
    } else {
        (app.cursor_column as int, app.cursor_row as int)
    }
}

pub fn render_cursor(app: &App) -> (place: (usize, usize))
    ensures
        (place.0 as int, place.1 as int) == cursor_place(*app),
{
    if app.is_name_mode() {
        (app.modal_column, app.modal_start_row.saturating_add(app.modal_row).saturating_add(1))
    } else {
        let len: usize = app.lines.len();
        if app.cursor_row < len && app.offset_row < len - app.cursor_row {
            let line = app.get_current_line();
            if line.is_virtual {
                (app.cursor_column.saturating_add(MARKER_WIDTH), app.cursor_row)
            } else {
                (app.cursor_column, app.cursor_row)
            }
        } else {
            (app.cursor_column, app.cursor_row)
        }
    }
}

/// One line of text as it is drawn: the row of the screen, how far a marker
/// pushes the text to the right, and the runs of the line.
#[derive(Clone, Debug)]
pub struct Row {
    pub row: usize,
    pub shift: usize,
    pub chunks: Vec<OffsetChunk>,
}

/// Index behind the last line that the window shows: the window has one row
/// less for text than it is high.
pub open spec fn window_end(app: App) -> int {
    min(app.offset_row + max(0, app.window_height - 1), app.lines@.len() as int)
}

/// The lines that the window shows, from the scroll offset on, each with its
/// runs.
pub fn render_offset(app: &App) -> (rows: Vec<Row>)
    requires
        app.wf(),
    ensures
        rows@.len() == max(0, window_end(*app) - app.offset_row),
        forall|k: int|
            0 <= k < rows@.len() ==> {
                let line = app.lines@[app.offset_row + k];
                &&& (#[trigger] rows@[k]).row == k
                &&& rows@[k].shift == if line.is_virtual {
                    MARKER_WIDTH
                } else {
                    0
                }
                &&& chunked(
                    rows@[k].chunks@,
                    line,
                    app.labels@,
                    app.visual_bounds(line.virtual_row as int),
                )
            },
{
    let len: usize = app.lines.len();
    let start: usize = app.offset_row;
    let mut rows: Vec<Row> = Vec::new();
    if start >= len {
        return rows;
    }
    let count: usize = min_usize(app.window_height.saturating_sub(1), len - start);
    let mut k: usize = 0;
    while k < count
        invariant
            k <= count,
            app.wf(),
            len == app.lines@.len(),
            start == app.offset_row,
            start + count <= len,
            rows@.len() == k,
            forall|j: int|
                0 <= j < k ==> {
                    let line = app.lines@[start + j];
                    &&& (#[trigger] rows@[j]).row == j
                    &&& rows@[j].shift == if line.is_virtual {
                        MARKER_WIDTH
                    } else {
                        0
                    }
                    &&& chunked(
                        rows@[j].chunks@,
                        line,
                        app.labels@,
                        app.visual_bounds(line.virtual_row as int),
                    )
                },
        decreases count - k,
    {
        let line = &app.lines[start + k];
        let chunks = chunk_line(line, app);
        let shift: usize = if line.is_virtual {
            MARKER_WIDTH
        } else {
            0
        };
        rows.push(Row { row: k, shift, chunks });
        k += 1;
    }
    rows
}

/// What the status line shows of the place of the cursor.
#[derive(Clone, Debug)]
pub struct Status {
    /// Color of the block at the left, if there is one.
    pub block: Option<Color>,
    /// Index of the label that is named behind the block, if any.
    pub label: Option<usize>,
    /// How far down the document the cursor is, in hundredths.
    pub percent: usize,
    pub row: usize,
    pub column: usize,
}

/// The block of the status line. While a selection is made it has the color
/// of the selection. Else it tells of the visible tags under the cursor:
/// with one tag it has the color of the tag's label, with several the color
/// that marks an overlap, and with none there is no block.
pub open spec fn status_block(app: App) -> Option<Color> {
    if app.mode == Mode::Visual {
        Some(Color::AnsiValue(SELECTION_CODE))
    } else {
        match status_label(app) {
            Some(l) => Some(app.labels@[l].color),
            None => if tags_under_cursor(app) > 1 {
                Some(Color::AnsiValue(OVERLAP_CODE))
            } else {
                None
            },
        }
    }
}

/// How many visible tags of the current line cover the cursor.
pub open spec fn tags_under_cursor(app: App) -> int {
    if app.current_row() < app.lines@.len() {
        let tags = app.lines@[app.current_row()].tags@;
        covering(tags, app.labels@, app.cursor_column as int, app.cursor_column + 1, tags.len() as int)
    } else {
        0
    }
}

/// The label that the status line names: that of the one visible tag under
/// the cursor, outside visual mode.
pub open spec fn status_label(app: App) -> Option<int> {
    if app.mode != Mode::Visual && tags_under_cursor(app) == 1 {
        let tags = app.lines@[app.current_row()].tags@;
        Some(
            tags[first_spanning(tags, app.labels@, app.cursor_column as int, app.cursor_column + 1, 0)].label as int,
        )
    } else {
        None
    }
}

/// How far down the document line `row` is, in hundredths; 0 in an empty
/// document.
pub open spec fn percent(row: int, lines: int) -> int {
    if lines > 0 {
        row * 100 / lines
    } else {
        0
    }
}

pub fn render_status(app: &App) -> (status: Status)
    requires
        app.wf(),
    ensures
        status.block == status_block(*app),
        match status_label(*app) {
            Some(l) => status.label == Some(l as usize),
            None => status.label is None,
        },
        status.percent == percent(app.current_row(), app.lines@.len() as int),
        status.row == app.current_row(),
        status.column == app.cursor_column,
{
    let len: usize = app.lines.len();
    let mut count: usize = 0;
    let mut first: usize = 0;
    let mut row: usize = 0;
    let mut hundredths: usize = 0;
    if app.cursor_row < len && app.offset_row < len - app.cursor_row {
        row = app.cursor_row + app.offset_row;
        let line = &app.lines[row];
        let s: usize = app.cursor_column;
        assert(line.wf(app.labels@.len() as int));
        let e: usize = s + 1;
        first = line.tags.len();
        let mut j: usize = 0;
        while j < line.tags.len()
            invariant
                j <= line.tags@.len(),
                count <= j,
                count == covering(line.tags@, app.labels@, s as int, e as int, j as int),
                first <= line.tags@.len(),
                count > 0 ==> first < j
                    && spans(line.tags@[first as int], app.labels@, s as int, e as int),
                first_spanning(line.tags@, app.labels@, s as int, e as int, 0) == if count > 0 {
                    first as int
                } else {
                    first_spanning(line.tags@, app.labels@, s as int, e as int, j as int)
                },
            decreases line.tags@.len() - j,
        {
            let tag = line.tags[j];
            if is_visible(&tag, &app.labels) && tag.start <= s && e <= tag.end {
                if count == 0 {
                    first = j;
                }
                count += 1;
            }
            j += 1;
        }
        hundredths = hundredths_of(row, len);
    }
    let label: Option<usize> = if !app.is_visual_mode() && count == 1 {
        Some(app.lines[row].tags[first].label)
    } else {
        None
    };
    let block: Option<Color> = if app.is_visual_mode() {
        Some(Color::AnsiValue(SELECTION_CODE))
    } else {
        match label {
            Some(l) => Some(app.labels[l].color),
            None => if count > 1 {
                Some(Color::AnsiValue(OVERLAP_CODE))
            } else {
                None
            },
        }
    };
    Status { block, label, percent: hundredths, row, column: app.cursor_column }
}

fn hundredths_of(row: usize, lines: usize) -> (p: usize)
    requires
        row < lines,
    ensures
        p == percent(row as int, lines as int),
{
    let wide: u128 = (row as u128) * 100;
    let p: u128 = wide / (lines as u128);
    assert(p <= 100) by (nonlinear_arith)
        requires
            p == (row * 100) / (lines as int),
            0 <= row < lines,
    ;
    p as usize
}

/// The text of the command line as it is shown: a colon and the buffer.
pub fn render_command(app: &App) -> (line: String)
    ensures
        line@ == seq![':'] + app.command@,
{
    let mut line = String::new();
    push_char(&mut line, ':');
    push_text(&mut line, app.command.as_str());
    line
}

/// The blank line that wipes the status line: all columns of the window but
/// the last.
pub fn clear_status(app: &App) -> (line: String)
    ensures
        line@ == repeated(' ', app.window_width - 1),
{
    let mut line = String::new();
    push_repeated(&mut line, ' ', app.window_width.saturating_sub(1));
    line
}

/// A terminal position from a position of the library, as the terminal
/// takes it: in 16 bits, what is above them cut off.
pub fn move_to(col: usize, row: usize) -> (place: (u16, u16))
    ensures
        place.0 == col % 0x10000,
        place.1 == row % 0x10000,
{
    (move_to_column(col), move_to_column(row))
}

pub fn move_to_column(col: usize) -> (place: u16)
    ensures
        place == col % 0x10000,
{
    (col % 0x10000) as u16
}

/// A piece of a row of the label palette.
#[derive(Clone, Debug)]
pub struct ModalChunk {
    pub text: String,
    pub color: Color,
    pub is_name: bool,
}

/// What a piece of the palette shows: its text, its background, and whether
/// it is a label's name.
pub type Cell = (Seq<char>, Color, bool);

impl ModalChunk {
    pub open spec fn cell(self) -> Cell {
        (self.text@, self.color, self.is_name)
    }
}

/// What each piece of a row shows.
pub open spec fn cells(row: Seq<ModalChunk>) -> Seq<Cell> {
    Seq::new(row.len(), |i: int| row[i].cell())
}

/// What each piece of each row shows.
pub open spec fn all_cells(rows: Seq<Vec<ModalChunk>>) -> Seq<Seq<Cell>> {
    Seq::new(rows.len(), |i: int| cells(rows[i]@))
}

/// Width of the palette between its borders.
pub const MODAL_WIDTH: usize = 38;

/// Rows of the palette between the top border and the row of colors.
pub const MODAL_ROWS: usize = 25;

/// A text filled up with blanks to `width` characters; a longer text stays
/// as it is.
pub open spec fn padded(text: Seq<char>, width: int) -> Seq<char> {
    text + repeated(' ', width - text.len())
}

/// A plain piece: text on the default background.
pub open spec fn plain(text: Seq<char>) -> Cell {
    (text, Color::Reset, false)
}

/// The row of the palette that shows a label: between the borders a mark for
/// the active label, a mark for a hidden one, a block in the label's color,
/// and the name.
pub open spec fn label_cells(label: Label) -> Seq<Cell> {
    seq![
        plain(" \u{2502} "@),
        plain(
            if label.is_active {
                "A"@
            } else {
                " "@
            },
        ),
        plain(
            if label.is_visible {
                " "@
            } else {
                "H"@
            },
        ),
        plain("  "@),
        ("        "@, label.color, false),
        plain("    "@),
        (padded(label.name@, NAME_MAX as int), Color::Reset, true),
        plain(" \u{2502} "@),
    ]
}

fn plain_chunk(text: &str) -> (chunk: ModalChunk)
    ensures
        chunk.cell() == plain(text@),
{
    ModalChunk { text: text.to_owned(), color: Color::Reset, is_name: false }
}

pub fn chunk_label(label: &Label) -> (chunks: Vec<ModalChunk>)
    ensures
        cells(chunks@) == label_cells(*label),
{
    let mut chunks: Vec<ModalChunk> = Vec::new();
    chunks.push(plain_chunk(" \u{2502} "));
    chunks.push(
        plain_chunk(
            if label.is_active {
                "A"
            } else {
                " "
            },
        ),
    );
    chunks.push(
        plain_chunk(
            if label.is_visible {
                " "
            } else {
                "H"
            },
        ),
    );
    chunks.push(plain_chunk("  "));
    chunks.push(ModalChunk { text: "        ".to_owned(), color: label.color, is_name: false });
    chunks.push(plain_chunk("    "));
    let mut name = String::new();
    push_text(&mut name, label.name.as_str());
    let len: usize = label.name.as_str().unicode_len();
    push_repeated(&mut name, ' ', NAME_MAX.saturating_sub(len));
    assert(name@ =~= padded(label.name@, NAME_MAX as int));
    chunks.push(ModalChunk { text: name, color: Color::Reset, is_name: true });
    chunks.push(plain_chunk(" \u{2502} "));
    assert(cells(chunks@) =~= label_cells(*label));
    chunks
}

/// A line of the palette's frame: `fill` between two ends.
pub open spec fn frame_line(left: Seq<char>, fill: char, right: Seq<char>) -> Seq<char> {
    left + repeated(fill, MODAL_WIDTH as int) + right
}

fn frame_chunk(left: &str, fill: char, right: &str) -> (chunk: ModalChunk)
    ensures
        chunk.cell() == plain(frame_line(left@, fill, right@)),
{
    let mut text = String::new();
    push_text(&mut text, left);
    push_repeated(&mut text, fill, MODAL_WIDTH);
    push_text(&mut text, right);
    ModalChunk { text, color: Color::Reset, is_name: false }
}

/// The row of the palette that shows the colors to choose from: between the
/// borders one piece for each color of the palette, with a mark on the color
/// of the label of the palette row.
pub open spec fn color_cells(app: App) -> Seq<Cell> {
    seq![plain(" \u{2502} "@)] + Seq::new(
        PALETTE_LEN as nat,
        |i: int|
            (
                if app.modal_row < app.labels@.len() && palette_color(i)
                    == app.labels@[app.modal_row as int].color {
                    "\u{25c4}\u{25ba}"@
                } else {
                    "  "@
                },
                palette_color(i),
                false,
            ),
    ) + seq![plain(" \u{2502} "@)]
}

/// The rows of the palette from top to bottom: the top border, one row for
/// each label, blank rows to fill the palette up, the row of colors, and the
/// bottom border.
pub open spec fn modal_cells(app: App) -> Seq<Seq<Cell>> {
    seq![seq![plain(frame_line(" \u{250c}"@, '\u{2500}', "\u{2510} "@))]] + Seq::new(
        app.labels@.len(),
        |i: int| label_cells(app.labels@[i]),
    ) + Seq::new(
        max(0, MODAL_ROWS - 1 - app.labels@.len()) as nat,
        |i: int| seq![plain(frame_line(" \u{2502}"@, ' ', "\u{2502} "@))],
    ) + seq![color_cells(app)] + seq![
        seq![plain(frame_line(" \u{2514}"@, '\u{2500}', "\u{2518} "@))],
    ]
}

fn color_row(app: &App) -> (chunks: Vec<ModalChunk>)
    ensures
        cells(chunks@) == color_cells(*app),
{
    let mut chunks: Vec<ModalChunk> = Vec::new();
    chunks.push(plain_chunk(" \u{2502} "));
    let mut i: usize = 0;
    while i < PALETTE_LEN
        invariant
            i <= PALETTE_LEN,
            chunks@.len() == i + 1,
            chunks@[0].cell() == plain(" \u{2502} "@),
            forall|j: int|
                0 <= j < i ==> (#[trigger] chunks@[j + 1]).cell() == (
                    if app.modal_row < app.labels@.len() && palette_color(j)
                        == app.labels@[app.modal_row as int].color {
                        "\u{25c4}\u{25ba}"@
                    } else {
                        "  "@
                    },
                    palette_color(j),
                    false,
                ),
        decreases PALETTE_LEN - i,
    {
        let color = palette(i);
        let marked: bool = app.modal_row < app.labels.len() && color
            == app.labels[app.modal_row].color;
        let ghost had = chunks@;
        chunks.push(
            ModalChunk {
                text: if marked {
                    "\u{25c4}\u{25ba}".to_owned()
                } else {
                    "  ".to_owned()
                },
                color,
                is_name: false,
            },
        );
        proof {
            assert forall|j: int| 0 <= j < i + 1 implies (#[trigger] chunks@[j + 1]).cell() == (
                if app.modal_row < app.labels@.len() && palette_color(j)
                    == app.labels@[app.modal_row as int].color {
                    "\u{25c4}\u{25ba}"@
                } else {
                    "  "@
                },
                palette_color(j),
                false,
            ) by {
                if j < i {
                    assert(chunks@[j + 1] == had[j + 1]);
                }
            }
        }
        i += 1;
    }
    let ghost had = chunks@;
    chunks.push(plain_chunk(" \u{2502} "));
    proof {
        let got = cells(chunks@);
        let want = color_cells(*app);
        assert(got.len() == want.len());
        assert forall|j: int| 0 <= j < got.len() implies got[j] == want[j] by {
            if j == 0 {
                assert(chunks@[0] == had[0]);
            } else if j < PALETTE_LEN + 1 {
                assert(chunks@[(j - 1) + 1] == had[(j - 1) + 1]);
            }
        }
        assert(got =~= want);
    }
    chunks
}

pub fn chunk_modal_lines(app: &App) -> (lines: Vec<Vec<ModalChunk>>)
    ensures
        all_cells(lines@) == modal_cells(*app),
{
    let mut lines: Vec<Vec<ModalChunk>> = Vec::new();
    let mut top: Vec<ModalChunk> = Vec::new();
    top.push(frame_chunk(" \u{250c}", '\u{2500}', "\u{2510} "));
    assert(cells(top@) =~= seq![plain(frame_line(" \u{250c}"@, '\u{2500}', "\u{2510} "@))]);
    lines.push(top);
    let count: usize = app.labels.len();
    let mut i: usize = 0;
    while i < count
        invariant
            i <= count,
            count == app.labels@.len(),
            lines@.len() == i + 1,
            cells(lines@[0]@) == seq![plain(frame_line(" \u{250c}"@, '\u{2500}', "\u{2510} "@))],
            forall|j: int| 0 <= j < i
                ==> cells((#[trigger] lines@[j + 1])@) == label_cells(app.labels@[j]),
        decreases count - i,
    {
        let ghost had = lines@;
        lines.push(chunk_label(&app.labels[i]));
        proof {
            assert forall|j: int| 0 <= j < i + 1 implies cells((#[trigger] lines@[j + 1])@)
                == label_cells(app.labels@[j]) by {
                if j < i {
                    assert(lines@[j + 1] == had[j + 1]);
                }
            }
        }
        i += 1;
    }
    let blanks: usize = (MODAL_ROWS - 1).saturating_sub(count);
    let mut k: usize = 0;
    while k < blanks
        invariant
            k <= blanks,
            count == app.labels@.len(),
            blanks == max(0, MODAL_ROWS - 1 - count),
            lines@.len() == count + 1 + k,
            cells(lines@[0]@) == seq![plain(frame_line(" \u{250c}"@, '\u{2500}', "\u{2510} "@))],
            forall|j: int|
                0 <= j < count
                    ==> cells((#[trigger] lines@[j + 1])@) == label_cells(app.labels@[j]),
            forall|j: int|
                0 <= j < k ==> cells((#[trigger] lines@[count + 1 + j])@) == seq![
                    plain(frame_line(" \u{2502}"@, ' ', "\u{2502} "@)),
                ],
        decreases blanks - k,
    {
        let ghost had = lines@;
        let mut blank: Vec<ModalChunk> = Vec::new();
        blank.push(frame_chunk(" \u{2502}", ' ', "\u{2502} "));
        assert(cells(blank@) =~= seq![plain(frame_line(" \u{2502}"@, ' ', "\u{2502} "@))]);
        lines.push(blank);
        proof {
            assert forall|j: int| 0 <= j < count implies cells((#[trigger] lines@[j + 1])@)
                == label_cells(app.labels@[j]) by {
                assert(lines@[j + 1] == had[j + 1]);
            }
            assert forall|j: int| 0 <= j < k + 1 implies cells((#[trigger] lines@[count + 1 + j])@)
                == seq![plain(frame_line(" \u{2502}"@, ' ', "\u{2502} "@))] by {
                if j < k {
                    assert(lines@[count + 1 + j] == had[count + 1 + j]);
                }
            }
        }
        k += 1;
    }
    let ghost had = lines@;
    lines.push(color_row(app));
    let mut bottom: Vec<ModalChunk> = Vec::new();
    bottom.push(frame_chunk(" \u{2514}", '\u{2500}', "\u{2518} "));
    assert(cells(bottom@) =~= seq![plain(frame_line(" \u{2514}"@, '\u{2500}', "\u{2518} "@))]);
    lines.push(bottom);
    proof {
        let got = all_cells(lines@);
        let want = modal_cells(*app);
        assert(got.len() == want.len());
        assert forall|j: int| 0 <= j < got.len() implies got[j] == want[j] by {
            if j < count + 1 + blanks {
                assert(lines@[j] == had[j]);
                if 1 <= j && j < count + 1 {
                    assert(cells(lines@[(j - 1) + 1]@) == label_cells(app.labels@[j - 1]));
                } else if j >= count + 1 {
                    assert(cells(lines@[count + 1 + (j - count - 1)]@) == seq![
                        plain(frame_line(" \u{2502}"@, ' ', "\u{2502} "@)),
                    ]);
                }
            }
        }
        assert(got =~= want);
    }
    lines
}

/// The color in which a piece of row `i` of the palette is written: the name
/// of the label of the palette row stands out.
pub fn modal_foreground(app: &App, i: usize, chunk: &ModalChunk) -> (color: Color)
    ensures
        color == if i == app.modal_row + 1 && chunk.is_name {
            Color::Yellow
        } else {
            Color::White
        },
{
    if i > 0 && i - 1 == app.modal_row && chunk.is_name {
        Color::Yellow
    } else {
        Color::White
    }
}

} // verus!
