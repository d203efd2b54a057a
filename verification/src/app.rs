//! The editor's state: the wrapped document with its tags, the labels, the
//! cursor and viewport, and what each mode keeps while it is active.

use vstd::prelude::*;
use crate::chain::{
    find_next, lemma_push_plain_linked, lemma_unchained_linked, linked, strip_down,
    strip_up, thinned, unchained, without,
};
use crate::text::{max, single_line};

verus! {

/// Codes of the colors that labels are drawn from, in palette order.
pub const PALETTE: [u8; 18] = [
    98,
    176,
    206,
    102,
    212,
    30,
    66,
    60,
    170,
    138,
    24,
    68,
    134,
    168,
    204,
    26,
    32,
    104,
];

pub const PALETTE_LEN: usize = 18;

/// Longest name a label may carry, in characters.
pub const NAME_MAX: usize = 20;

/// Most labels the palette holds.
pub const LABELS_MAX: usize = 24;

/// Columns taken by the marker drawn in front of a continuation row.
pub const MARKER_WIDTH: usize = 1;

/// Color code of the cells under the selection.
pub const SELECTION_CODE: u8 = 172;

/// Color code of the cells that more than one visible tag covers.
pub const OVERLAP_CODE: u8 = 160;

pub const CHANGE_STATUS: u8 = 0b0000_0001;

pub const CHANGE_OFFSET: u8 = 0b0000_0010;

pub const CHANGE_COLUMN: u8 = 0b0000_0100;

pub const CHANGE_ROW: u8 = 0b0000_1000;

pub const CHANGE_MODAL: u8 = 0b0001_0000;

pub const CHANGE_COMMAND: u8 = 0b0010_0000;

#[derive(Clone, Copy, Debug, PartialEq, Eq, Structural)]
pub enum Color {
    Reset,
    Black,
    DarkGrey,
    Red,
    DarkRed,
    Green,
    DarkGreen,
    Yellow,
    DarkYellow,
    Blue,
    DarkBlue,
    Magenta,
    DarkMagenta,
    Cyan,
    DarkCyan,
    White,
    Grey,
    Rgb { r: u8, g: u8, b: u8 },
    AnsiValue(u8),
}

#[derive(Clone, Copy, Debug, PartialEq, Eq, Structural)]
pub enum FType {
    Plain,
    Spacy,
    Tan,
}

#[derive(Clone, Copy, Debug, PartialEq, Eq, Structural)]
pub enum Mode {
    Command,
    Modal,
    Name,
    Normal,
    Visual,
    Color,
}

/// A labeled span `[start, end)` in the columns of one line.
#[derive(Clone, Copy, Debug, PartialEq, Eq, Structural)]
pub struct Tag {
    pub start: usize,
    pub end: usize,
    pub label: usize,
    pub has_line_prev: bool,
    pub has_line_next: bool,
}

/// The selected cells of one row: from the column where the selection
/// entered the row to the column where the cursor is or left it, both
/// included, in either order.
#[derive(Clone, Copy, Debug, PartialEq, Eq, Structural)]
pub struct Visual {
    pub row: usize,
    pub start: usize,
    pub end: usize,
}

#[derive(Clone, Debug)]
pub struct Label {
    pub name: String,
    pub color: Color,
    pub is_active: bool,
    pub is_visible: bool,
}

/// One display row of the document.
#[derive(Clone, Debug)]
pub struct Line {
    pub absolute_offset: usize,
    pub absolute_row: usize,
    pub is_virtual: bool,
    pub tags: Vec<Tag>,
    pub text: String,
    pub virtual_offset: usize,
    pub virtual_row: usize,
    pub width: usize,
}

#[derive(Clone, Debug)]
pub struct App {
    pub filename: String,
    pub change: u8,
    pub color_column: usize,
    pub command: String,
    pub cursor_column: usize,
    pub cursor_row: usize,
    pub labels: Vec<Label>,
    pub lines: Vec<Line>,
    pub modal_active: usize,
    pub modal_column: usize,
    pub modal_row: usize,
    pub modal_start_column: usize,
    pub modal_start_row: usize,
    pub mode: Mode,
    pub nlines: usize,
    pub offset_row: usize,
    pub rng: usize,
    pub visual: Vec<Visual>,
    pub window_height: usize,
    pub window_width: usize,
}

/// The color at a place of the palette.
pub open spec fn palette_color(i: int) -> Color {
    Color::AnsiValue(PALETTE[i])
}

pub fn palette(i: usize) -> (c: Color)
    requires
        i < PALETTE_LEN,
    ensures
        c == palette_color(i as int),
{
    Color::AnsiValue(PALETTE[i])
}

impl Tag {
    /// The span is not empty, lies within a line of `width` columns and names
    /// one of `nlabels` labels.
    pub open spec fn fits(self, width: int, nlabels: int) -> bool {
        self.start < self.end <= width && self.label < nlabels
    }

    pub open spec fn covers(self, column: int) -> bool {
        self.start <= column < self.end
    }
}

impl Label {
    pub open spec fn wf(self) -> bool {
        self.name@.len() <= NAME_MAX
    }
}

impl Line {
    /// The text is one line, the recorded width is the number of its
    /// characters, and every tag fits the line.
    pub open spec fn wf(self, nlabels: int) -> bool {
        &&& single_line(self.text@)
        &&& self.width == self.text@.len()
        &&& forall|j: int|
            0 <= j < self.tags@.len()
                ==> (#[trigger] self.tags@[j]).fits(self.width as int, nlabels)
    }

    /// Everything but the tags is the same in both lines.
    pub open spec fn same_row(self, other: Line) -> bool {
        &&& self.absolute_offset == other.absolute_offset
        &&& self.absolute_row == other.absolute_row
        &&& self.is_virtual == other.is_virtual
        &&& self.text@ == other.text@
        &&& self.virtual_offset == other.virtual_offset
        &&& self.virtual_row == other.virtual_row
        &&& self.width == other.width
    }
}

/// The tags of a document, one list per line.
pub open spec fn tag_table(lines: Seq<Line>) -> Seq<Seq<Tag>> {
    Seq::new(lines.len(), |i: int| lines[i].tags@)
}

/// Lines and labels that belong together: every line is well formed and
/// knows its place, every tag names an existing label, and continuations are
/// matched.
pub open spec fn document_wf(lines: Seq<Line>, labels: Seq<Label>) -> bool {
    &&& forall|i: int| 0 <= i < lines.len() ==> (#[trigger] lines[i]).wf(labels.len() as int)
    &&& forall|i: int| 0 <= i < lines.len() ==> (#[trigger] lines[i]).virtual_row == i
    &&& forall|i: int| 0 <= i < labels.len() ==> (#[trigger] labels[i]).wf()
    &&& linked(tag_table(lines))
}

/// Exactly the label at `active` is marked active; with no labels `active` is 0.
pub open spec fn one_active(labels: Seq<Label>, active: int) -> bool {
    if labels.len() == 0 {
        active == 0
    } else {
        &&& 0 <= active < labels.len()
        &&& forall|i: int| 0 <= i < labels.len()
            ==> ((#[trigger] labels[i]).is_active <==> i == active)
    }
}

/// Index of the first region on `row`, looking from `from` on; the number
/// of regions where none lies on it.
pub open spec fn find_region(visual: Seq<Visual>, row: int, from: int) -> int
    decreases visual.len() - from,
{
    if from >= visual.len() {
        visual.len() as int
    } else if visual[from].row == row {
        from
    } else {
        find_region(visual, row, from + 1)
    }
}

/// The first region of a selection on `row`, if it has one.
pub open spec fn region_at(visual: Seq<Visual>, row: int) -> Option<Visual> {
    let i = find_region(visual, row, 0);
    if i < visual.len() {
        Some(visual[i])
    } else {
        None
    }
}

pub proof fn lemma_find_region_bounds(visual: Seq<Visual>, row: int, from: int)
    requires
        0 <= from <= visual.len(),
    ensures
        from <= find_region(visual, row, from) <= visual.len(),
        find_region(visual, row, from) < visual.len() ==> visual[find_region(visual, row, from)].row
            == row,
        forall|j: int| from <= j < find_region(visual, row, from)
            ==> (#[trigger] visual[j]).row != row,
    decreases visual.len() - from,
{
    if from < visual.len() && visual[from].row != row {
        lemma_find_region_bounds(visual, row, from + 1);
    }
}

/// The half-open range of columns that a region selects.
pub open spec fn region_bounds(region: Option<Visual>) -> (int, int) {
    match region {
        Some(v) => if v.start <= v.end {
            (v.start as int, v.end + 1)
        } else {
            (v.end as int, v.start + 1)
        },
        None => (0, 0),
    }
}

impl App {
    /// Width of the line under the cursor; 0 in an empty document.
    pub open spec fn current_width(self) -> int {
        if self.cursor_row + self.offset_row < self.lines@.len() {
            self.lines@[self.cursor_row + self.offset_row].width as int
        } else {
            0
        }
    }

    /// Index of the line under the cursor.
    pub open spec fn current_row(self) -> int {
        self.cursor_row + self.offset_row
    }

    pub open spec fn document_wf(self) -> bool {
        &&& self.nlines == self.lines@.len()
        &&& document_wf(self.lines@, self.labels@)
    }

    /// The cursor is on a line of the document and on one of its cells: on
    /// column 0 where the line is empty. In an empty document it rests at the
    /// origin.
    pub open spec fn cursor_wf(self) -> bool {
        if self.lines@.len() == 0 {
            self.cursor_row == 0 && self.offset_row == 0 && self.cursor_column == 0
        } else {
            &&& self.cursor_row + self.offset_row < self.lines@.len()
            &&& self.cursor_column < max(1, self.current_width())
        }
    }

    pub open spec fn modal_wf(self) -> bool {
        &&& self.rng < PALETTE_LEN
        &&& self.color_column < PALETTE_LEN
        &&& one_active(self.labels@, self.modal_active as int)
        &&& self.modal_row < max(1, self.labels@.len() as int)
        &&& self.modal_start_column <= u16::MAX
        &&& self.modal_start_row <= u16::MAX
    }

    /// Every region of the selection lies on a line and on its cells.
    pub open spec fn visual_wf(self) -> bool {
        forall|i: int|
            0 <= i < self.visual@.len() ==> {
                &&& (#[trigger] self.visual@[i]).row < self.lines@.len()
                &&& self.visual@[i].start < max(1, self.lines@[self.visual@[i].row as int].width as int)
                &&& self.visual@[i].end < max(1, self.lines@[self.visual@[i].row as int].width as int)
            }
    }

    /// The state is one that the editor can be in.
    pub open spec fn wf(self) -> bool {
        &&& self.document_wf()
        &&& self.cursor_wf()
        &&& self.modal_wf()
        &&& self.visual_wf()
    }

    /// The selected columns of `row` as a half-open range; `(0, 0)` where the
    /// selection does not reach the row.
    pub open spec fn visual_bounds(self, row: int) -> (int, int) {
        region_bounds(region_at(self.visual@, row))
    }

    /// A fresh editor over a wrapped document, in a window of `rows` by
    /// `columns` cells.
    pub fn new(filename: &str, lines: Vec<Line>, labels: Vec<Label>, rows: u16, columns: u16) -> (app: App)
        ensures
            app.filename@ == filename@,
            app.lines == lines,
            app.labels == labels,
            app.nlines == lines@.len(),
            app.window_height == rows,
            app.window_width == columns,
            app.modal_start_column == max(0, columns / 2 - 20),
            app.modal_start_row == max(0, rows / 2 - 12),
            app.mode == Mode::Normal,
            app.change == 0,
            app.command@.len() == 0,
            app.visual@.len() == 0,
            app.cursor_column == 0 && app.cursor_row == 0 && app.offset_row == 0,
            app.modal_active == 0 && app.modal_column == 0 && app.modal_row == 0,
            app.rng == 0 && app.color_column == 0,
            document_wf(lines@, labels@) && one_active(labels@, 0) ==> app.wf(),
    {
        let window_height: usize = rows as usize;
        let window_width: usize = columns as usize;
        let nlines: usize = lines.len();
        App {
            filename: filename.to_owned(),
            change: 0,
            color_column: 0,
            command: String::new(),
            cursor_column: 0,
            cursor_row: 0,
            labels,
            lines,
            modal_active: 0,
            modal_column: 0,
            modal_row: 0,
            modal_start_column: (window_width / 2).saturating_sub(20),
            modal_start_row: (window_height / 2).saturating_sub(12),
            mode: Mode::Normal,
            nlines,
            offset_row: 0,
            rng: 0,
            visual: Vec::new(),
            window_height,
            window_width,
        }
    }

    /// Finds the first region of the selection on `row`.
    pub fn find_visual(&self, row: usize) -> (i: usize)
        ensures
            i == find_region(self.visual@, row as int, 0),
            i <= self.visual@.len(),
    {
        let mut i: usize = 0;
        while i < self.visual.len() && self.visual[i].row != row
            invariant
                i <= self.visual@.len(),
                find_region(self.visual@, row as int, 0) == find_region(
                    self.visual@,
                    row as int,
                    i as int,
                ),
            decreases self.visual@.len() - i,
        {
            i += 1;
        }
        i
    }

    pub fn get_visual_bounds(&self, row: usize) -> (bounds: (usize, usize))
        requires
            self.visual_wf(),
        ensures
            (bounds.0 as int, bounds.1 as int) == self.visual_bounds(row as int),
    {
        let i: usize = self.find_visual(row);
        if i < self.visual.len() {
            let v = self.visual[i];
            if v.start <= v.end {
                (v.start, v.end + 1)
            } else {
                (v.end, v.start + 1)
            }
        } else {
            (0, 0)
        }
    }

    pub fn get_current_line(&self) -> (line: &Line)
        requires
            self.cursor_row + self.offset_row < self.lines@.len(),
        ensures
            *line == self.lines@[self.current_row()],
    {
        let len: usize = self.lines.len();
        &self.lines[self.cursor_row + self.offset_row]
    }

    /// Width of the line under the cursor; 0 where the document is empty.
    pub fn get_current_line_width(&self) -> (width: usize)
        ensures
            width == self.current_width(),
    {
        let len: usize = self.lines.len();
        if self.cursor_row < len && self.offset_row < len - self.cursor_row {
            self.lines[self.cursor_row + self.offset_row].width
        } else {
            0
        }
    }
}

/// Two documents with the same rows; their tags may differ.
pub open spec fn same_rows(a: Seq<Line>, b: Seq<Line>) -> bool {
    &&& a.len() == b.len()
    &&& forall|i: int| 0 <= i < a.len() ==> (#[trigger] a[i]).same_row(b[i])
}

/// Index of the first tag that covers `column`, looking from `from` on; the
/// length of the list where none does.
pub open spec fn first_covering(tags: Seq<Tag>, column: int, from: int) -> int
    decreases tags.len() - from,
{
    if from >= tags.len() {
        tags.len() as int
    } else if tags[from].covers(column) {
        from
    } else {
        first_covering(tags, column, from + 1)
    }
}

/// Takes the first tag off line `row` while `go`, and goes on with the line
/// below as long as the tag taken continues there.
fn untag_next(lines: &mut Vec<Line>, go: bool, row: usize)
    ensures
        same_rows(final(lines)@, old(lines)@),
        tag_table(final(lines)@) == strip_down(tag_table(old(lines)@), row as int, go),
{
    let mut more = go;
    let mut r: usize = row;
    while more && r < lines.len() && lines[r].tags.len() > 0
        invariant
            row <= r,
            same_rows(lines@, old(lines)@),
            strip_down(tag_table(lines@), r as int, more) == strip_down(
                tag_table(old(lines)@),
                row as int,
                go,
            ),
        decreases lines@.len() - r,
    {
        let ghost before = lines@;
        let first = lines[r].tags.remove(0);
        proof {
            assert(tag_table(lines@) =~= without(tag_table(before), r as int, 0));
            assert forall|i: int| 0 <= i < lines@.len() implies (#[trigger] lines@[i]).same_row(
                old(lines)@[i],
            ) by {
                assert(before[i].same_row(old(lines)@[i]));
            }
        }
        more = first.has_line_next;
        r += 1;
    }
}

/// Takes the continuing tag off line `row - 1` while `go`, and goes on with
/// the line above as long as the tag taken is continued from there.
fn untag_prev(lines: &mut Vec<Line>, go: bool, row: usize)
    ensures
        same_rows(final(lines)@, old(lines)@),
        tag_table(final(lines)@) == strip_up(tag_table(old(lines)@), row as int - 1, go),
{
    let mut more = go;
    let mut r: usize = row;
    while more && 0 < r && r <= lines.len() && find_next(&lines[r - 1].tags) < lines[r
        - 1].tags.len()
        invariant
            r <= row,
            same_rows(lines@, old(lines)@),
            strip_up(tag_table(lines@), r as int - 1, more) == strip_up(
                tag_table(old(lines)@),
                row as int - 1,
                go,
            ),
        decreases r,
    {
        let ghost before = lines@;
        let k: usize = find_next(&lines[r - 1].tags);
        let tag = lines[r - 1].tags.remove(k);
        proof {
            assert(tag_table(lines@) =~= without(tag_table(before), r as int - 1, k as int));
            assert forall|i: int| 0 <= i < lines@.len() implies (#[trigger] lines@[i]).same_row(
                old(lines)@[i],
            ) by {
                assert(before[i].same_row(old(lines)@[i]));
            }
        }
        more = tag.has_line_prev;
        r -= 1;
    }
}

/// Lines whose rows are unchanged and whose tags were only thinned out stay
/// well formed.
pub proof fn lemma_thinned_document(now: Seq<Line>, then: Seq<Line>, labels: Seq<Label>)
    requires
        document_wf(then, labels),
        same_rows(now, then),
        thinned(tag_table(now), tag_table(then)),
        linked(tag_table(now)),
    ensures
        document_wf(now, labels),
{
    assert forall|i: int| 0 <= i < now.len() implies (#[trigger] now[i]).wf(labels.len() as int) by {
        assert(now[i].same_row(then[i]));
        assert(then[i].wf(labels.len() as int));
        assert forall|j: int| 0 <= j < now[i].tags@.len() implies (#[trigger] now[i].tags@[j]).fits(
            now[i].width as int,
            labels.len() as int,
        ) by {
            assert(tag_table(now)[i][j] == now[i].tags@[j]);
            assert(tag_table(then)[i].contains(tag_table(now)[i][j]));
            let k = choose|k: int|
                0 <= k < tag_table(then)[i].len() && tag_table(then)[i][k] == now[i].tags@[j];
            assert(then[i].tags@[k].fits(then[i].width as int, labels.len() as int));
        }
    }
}

impl App {
    /// The tags of the document, one list per line.
    pub open spec fn table(self) -> Seq<Seq<Tag>> {
        tag_table(self.lines@)
    }

    /// A span of line `row` can be added: the line exists, the span is not
    /// empty and lies within the line, and the label exists.
    pub open spec fn can_add(self, row: int, start: int, end: int, label: int) -> bool {
        &&& 0 <= row < self.lines@.len()
        &&& 0 <= start < end <= self.lines@[row].width
        &&& 0 <= label < self.labels@.len()
    }

    /// The tag that the selection of the current line asks for: the selected
    /// columns with the active label. `None` where nothing of the line is
    /// selected, where the line is empty, or where there is no label.
    pub open spec fn selection_tag(self) -> Option<Tag> {
        let row = self.current_row();
        let b = self.visual_bounds(row);
        if self.can_add(row, b.0, b.1, self.modal_active as int) {
            Some(
                Tag {
                    start: b.0 as usize,
                    end: b.1 as usize,
                    label: self.modal_active,
                    has_line_prev: false,
                    has_line_next: false,
                },
            )
        } else {
            None
        }
    }

    /// Index of the first tag of line `row` that covers `column`.
    pub open spec fn tag_at(self, row: int, column: int) -> Option<int> {
        if 0 <= row < self.lines@.len() {
            let j = first_covering(self.lines@[row].tags@, column, 0);
            if j < self.lines@[row].tags@.len() {
                Some(j)
            } else {
                None
            }
        } else {
            None
        }
    }

    /// Index of the tag under the cursor: the first tag of the current line
    /// that covers the cursor's column.
    pub open spec fn tag_under_cursor(self) -> Option<int> {
        self.tag_at(self.current_row(), self.cursor_column as int)
    }

    /// Adds a span `[start, end)` of line `row` with the given label behind
    /// the tags that the line has, and says whether it did. Only a span that
    /// is empty, leaves the line or names no label is not added.
    pub fn add_span(&mut self, row: usize, start: usize, end: usize, label: usize) -> (added: bool)
        requires
            old(self).wf(),
        ensures
            final(self).wf(),
            *final(self) == (App { lines: final(self).lines, ..*old(self) }),
            same_rows(final(self).lines@, old(self).lines@),
            added == old(self).can_add(row as int, start as int, end as int, label as int),
            added ==> final(self).table() == old(self).table().update(
                row as int,
                old(self).table()[row as int].push(
                    Tag { start, end, label, has_line_prev: false, has_line_next: false },
                ),
            ),
            !added ==> final(self).table() == old(self).table(),
    {
        if row < self.lines.len() && start < end && end <= self.lines[row].width && label
            < self.labels.len() {
            let tag = Tag { start, end, label, has_line_prev: false, has_line_next: false };
            let ghost before = self.lines@;
            self.lines[row].tags.push(tag);
            proof {
                let t = tag_table(before);
                assert(tag_table(self.lines@) =~= t.update(row as int, t[row as int].push(tag)));
                lemma_push_plain_linked(t, row as int, tag);
                assert forall|i: int| 0 <= i < self.lines@.len() implies (
                #[trigger] self.lines@[i]).wf(self.labels@.len() as int) by {
                    assert(before[i].wf(self.labels@.len() as int));
                    if i == row {
                        let now = self.lines@[i].tags@;
                        assert forall|j: int| 0 <= j < now.len() implies (#[trigger] now[j]).fits(
                            self.lines@[i].width as int,
                            self.labels@.len() as int,
                        ) by {
                            if j < before[i].tags@.len() {
                                assert(now[j] == before[i].tags@[j]);
                            }
                        }
                    }
                }
            }
            true
        } else {
            false
        }
    }

    /// Removes the first tag of line `row` that covers `column`, and with it
    /// every part of the span on the lines before and after. Says whether
    /// there was such a tag.
    pub fn remove_span_at(&mut self, row: usize, column: usize) -> (removed: bool)
        requires
            old(self).wf(),
        ensures
            final(self).wf(),
            *final(self) == (App { lines: final(self).lines, ..*old(self) }),
            same_rows(final(self).lines@, old(self).lines@),
            removed == old(self).tag_at(row as int, column as int) is Some,
            match old(self).tag_at(row as int, column as int) {
                Some(j) => final(self).table() == unchained(old(self).table(), row as int, j),
                None => final(self).table() == old(self).table(),
            },
    {
        if row >= self.lines.len() {
            return false;
        }
        let count: usize = self.lines[row].tags.len();
        let mut j: usize = 0;
        while j < count && !(self.lines[row].tags[j].start <= column && column
            < self.lines[row].tags[j].end)
            invariant
                j <= count,
                row < self.lines@.len(),
                count == self.lines@[row as int].tags@.len(),
                first_covering(self.lines@[row as int].tags@, column as int, 0) == first_covering(
                    self.lines@[row as int].tags@,
                    column as int,
                    j as int,
                ),
            decreases count - j,
        {
            j += 1;
        }
        if j >= count {
            return false;
        }
        let ghost before = self.lines@;
        let ghost t = tag_table(before);
        let tag = self.lines[row].tags.remove(j);
        proof {
            assert(tag_table(self.lines@) =~= without(t, row as int, j as int));
        }
        untag_next(&mut self.lines, tag.has_line_next, row + 1);
        untag_prev(&mut self.lines, tag.has_line_prev, row);
        proof {
            assert(tag_table(self.lines@) == unchained(t, row as int, j as int));
            lemma_unchained_linked(t, row as int, j as int);
            assert forall|i: int| 0 <= i < self.lines@.len() implies (
            #[trigger] self.lines@[i]).same_row(before[i]) by {}
            lemma_thinned_document(self.lines@, before, self.labels@);
        }
        true
    }

    /// What tagging leaves: the selection is gone; where it asked for a tag,
    /// the tag stands behind the other tags of the current line, and text and
    /// status are to be drawn anew. Nothing else changes.
    pub open spec fn tag_gives(self, now: App) -> bool {
        &&& now.wf()
        &&& now == (App { lines: now.lines, visual: now.visual, change: now.change, ..self })
        &&& now.visual@.len() == 0
        &&& same_rows(now.lines@, self.lines@)
        &&& match self.selection_tag() {
            Some(tag) => {
                &&& now.table() == self.table().update(
                    self.current_row(),
                    self.table()[self.current_row()].push(tag),
                )
                &&& now.change == CHANGE_STATUS | CHANGE_OFFSET
            },
            None => now.table() == self.table() && now.change == self.change,
        }
    }

    /// Turns the selection of the current line into a tag with the active
    /// label, and drops the selection.
    pub fn tag(&mut self)
        requires
            old(self).wf(),
        ensures
            old(self).tag_gives(*final(self)),
    {
        let len: usize = self.lines.len();
        if self.cursor_row < len && self.offset_row < len - self.cursor_row {
            let row: usize = self.cursor_row + self.offset_row;
            let (s, e) = self.get_visual_bounds(row);
            if self.add_span(row, s, e, self.modal_active) {
                self.change = CHANGE_STATUS | CHANGE_OFFSET;
            }
        }
        self.visual.clear();
    }

    /// What removing the tag under the cursor leaves: the table without that
    /// tag and the rest of its chain, with text and status to be drawn anew; or
    /// the state as it was, where no tag is under the cursor.
    pub open spec fn untag_gives(self, now: App) -> bool {
        &&& now.wf()
        &&& now == (App {
            lines: now.lines,
            change: now.change,
            ..self
        })
        &&& same_rows(now.lines@, self.lines@)
        &&& match self.tag_under_cursor() {
            Some(j) => {
                &&& now.table() == unchained(
                    self.table(),
                    self.current_row(),
                    j,
                )
                &&& now.change == CHANGE_STATUS | CHANGE_OFFSET
            },
            None => now.table() == self.table() && now.change == self.change,
        }
    }

    /// Removes the tag under the cursor, and with it every part of the span
    /// on the lines before and after.
    pub fn untag(&mut self)
        requires
            old(self).wf(),
        ensures
            old(self).untag_gives(*final(self)),
    {
        let len: usize = self.lines.len();
        if self.cursor_row < len && self.offset_row < len - self.cursor_row {
            let row: usize = self.cursor_row + self.offset_row;
            if self.remove_span_at(row, self.cursor_column) {
                self.change = CHANGE_STATUS | CHANGE_OFFSET;
            }
        }
    }
}

} // verus!
