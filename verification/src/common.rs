//! Moving the cursor and the viewport. Every motion keeps the cursor on a
//! cell of a line of the document.

use vstd::prelude::*;
use crate::app::{
    same_rows, App, Mode, CHANGE_COLUMN, CHANGE_MODAL, CHANGE_OFFSET, CHANGE_ROW, CHANGE_STATUS,
    MARKER_WIDTH,
};
use crate::modal::activated;
use crate::text::{blanks, chars_of, classify, max, min, min_usize};

verus! {

/// Length of the run of columns from `from` onwards that are blank (`ws`) or
/// are not (`!ws`). `blank` says of each column whether it holds white space.
pub open spec fn run_len(blank: Seq<bool>, from: int, ws: bool) -> int
    decreases blank.len() - from,
{
    if from < 0 || from >= blank.len() || blank[from] != ws {
        0
    } else {
        1 + run_len(blank, from + 1, ws)
    }
}

/// Length of the run of columns from `from` backwards that are blank (`ws`)
/// or are not (`!ws`).
pub open spec fn run_len_back(blank: Seq<bool>, from: int, ws: bool) -> int
    decreases from + 1,
{
    if from < 0 || from >= blank.len() || blank[from] != ws {
        0
    } else {
        1 + run_len_back(blank, from - 1, ws)
    }
}

/// Where a step forward by a word leads from `column`: over the blanks
/// behind the column onto the start of the next word, or, from inside a word,
/// onto its end; never past the last column. `None` where the column is the
/// last of the line or lies behind it.
pub open spec fn forward_target(blank: Seq<bool>, column: int) -> Option<int> {
    if 0 <= column && column + 1 < blank.len() {
        let next = column + 1;
        let step = if blank[next] {
            run_len(blank, next, true) + 1
        } else {
            run_len(blank, next, false)
        };
        Some(min(column + step, blank.len() - 1))
    } else {
        None
    }
}

/// Where a step back by a word leads from `column`: over the blanks before
/// the column onto the end of the word before, or, from inside a word, onto
/// its start; never before the first column. `None` where the column is the
/// first of the line or lies behind the line.
pub open spec fn back_target(blank: Seq<bool>, column: int) -> Option<int> {
    if 0 < column <= blank.len() {
        let prev = column - 1;
        let step = if blank[prev] {
            run_len_back(blank, prev, true) + 1
        } else {
            run_len_back(blank, prev, false)
        };
        Some(max(0, column - step))
    } else {
        None
    }
}

pub proof fn lemma_run_len_bounds(blank: Seq<bool>, from: int, ws: bool)
    requires
        0 <= from,
    ensures
        0 <= run_len(blank, from, ws) <= max(0, blank.len() - from),
    decreases blank.len() - from,
{
    if from < blank.len() && blank[from] == ws {
        lemma_run_len_bounds(blank, from + 1, ws);
    }
}

pub proof fn lemma_run_len_back_bounds(blank: Seq<bool>, from: int, ws: bool)
    requires
        -1 <= from < blank.len(),
    ensures
        0 <= run_len_back(blank, from, ws) <= from + 1,
    decreases from + 1,
{
    if 0 <= from && blank[from] == ws {
        lemma_run_len_back_bounds(blank, from - 1, ws);
    }
}

/// A step by a word stays on the line.
pub proof fn lemma_targets_on_line(blank: Seq<bool>, column: int)
    ensures
        forward_target(blank, column) is Some ==> 0 <= forward_target(blank, column)->0
            < blank.len(),
        back_target(blank, column) is Some ==> 0 <= back_target(blank, column)->0 <= column,
{
    if 0 <= column && column + 1 < blank.len() {
        lemma_run_len_bounds(blank, column + 1, true);
        lemma_run_len_bounds(blank, column + 1, false);
    }
    if 0 < column <= blank.len() {
        lemma_run_len_back_bounds(blank, column - 1, true);
        lemma_run_len_back_bounds(blank, column - 1, false);
    }
}

impl App {
    /// Width of line `row`; 0 where there is no such line.
    pub open spec fn width_at(self, row: int) -> int {
        if 0 <= row < self.lines@.len() {
            self.lines@[row].width as int
        } else {
            0
        }
    }

    /// Whether line `row` is a continuation row.
    pub open spec fn virtual_at(self, row: int) -> bool {
        0 <= row < self.lines@.len() && self.lines@[row].is_virtual
    }

    /// The last column of line `row` that the cursor can be on.
    pub open spec fn last_column(self, row: int) -> int {
        max(0, self.width_at(row) - 1)
    }

    /// The column at the end of line `row`, as far as the window shows it.
    pub open spec fn line_end(self, row: int) -> int {
        min(self.last_column(row), max(0, self.window_width - 1))
    }

    /// The lowest row of the window that shows text: the row above the
    /// status line.
    pub open spec fn last_row(self) -> int {
        max(0, self.window_height - 2)
    }

    /// The cursor pulled back onto the current line where it stands beyond
    /// the line's end.
    pub open spec fn drifted(self) -> App {
        if self.cursor_column > self.last_column(self.current_row()) {
            App {
                cursor_column: self.last_column(self.current_row()) as usize,
                change: self.change | CHANGE_STATUS | CHANGE_COLUMN,
                ..self
            }
        } else {
            self
        }
    }

    /// The cursor after it has come to the current line from a line that
    /// `was_virtual`: it keeps its place on the screen, where a continuation
    /// row is drawn behind its marker, and is then pulled back onto the line.
    pub open spec fn settled(self, was_virtual: bool) -> App {
        let now_virtual = self.virtual_at(self.current_row());
        let target: int = if now_virtual == was_virtual {
            self.cursor_column as int
        } else if now_virtual {
            max(0, self.cursor_column - MARKER_WIDTH)
        } else {
            self.cursor_column + MARKER_WIDTH
        };
        let last = self.last_column(self.current_row());
        App {
            cursor_column: min(target, last) as usize,
            change: if now_virtual != was_virtual || target > last {
                self.change | CHANGE_STATUS | CHANGE_COLUMN
            } else {
                self.change
            },
            ..self
        }
    }

    /// The cursor put on the end of the current line.
    pub open spec fn at_line_end(self) -> App {
        let c = self.line_end(self.current_row());
        if self.cursor_column != c {
            App { cursor_column: c as usize, change: self.change | CHANGE_COLUMN, ..self }
        } else {
            self
        }
    }

    /// The cursor put on the start of the next line: one row down, or the
    /// text scrolled by one where the cursor is on the lowest row. Nothing
    /// moves on the last line of the document.
    pub open spec fn at_next_line(self, scrolled: u8) -> App {
        if self.current_row() + 1 < self.lines@.len() {
            if self.cursor_row < self.last_row() {
                App {
                    cursor_column: 0,
                    cursor_row: (self.cursor_row + 1) as usize,
                    change: self.change | CHANGE_STATUS | CHANGE_COLUMN | CHANGE_ROW,
                    ..self
                }
            } else {
                App {
                    cursor_column: 0,
                    offset_row: (self.offset_row + 1) as usize,
                    change: self.change | scrolled,
                    ..self
                }
            }
        } else {
            self
        }
    }

    pub open spec fn after_h(self) -> App {
        if self.cursor_column > 0 {
            App {
                cursor_column: (self.cursor_column - 1) as usize,
                change: self.change | CHANGE_STATUS | CHANGE_COLUMN,
                ..self
            }
        } else if self.cursor_row > 0 {
            (App {
                cursor_row: (self.cursor_row - 1) as usize,
                change: self.change | CHANGE_STATUS | CHANGE_ROW,
                ..self
            }).at_line_end()
        } else if self.offset_row > 0 {
            (App {
                offset_row: (self.offset_row - 1) as usize,
                change: self.change | CHANGE_STATUS | CHANGE_OFFSET,
                ..self
            }).at_line_end()
        } else {
            self
        }
    }

    pub open spec fn after_j(self) -> App {
        if self.current_row() + 1 < self.lines@.len() {
            let was = self.virtual_at(self.current_row());
            if self.cursor_row < self.last_row() {
                (App {
                    cursor_row: (self.cursor_row + 1) as usize,
                    change: self.change | CHANGE_STATUS | CHANGE_ROW,
                    ..self
                }).settled(was)
            } else {
                (App {
                    offset_row: (self.offset_row + 1) as usize,
                    change: self.change | CHANGE_STATUS | CHANGE_OFFSET,
                    ..self
                }).settled(was)
            }
        } else {
            self.drifted()
        }
    }

    pub open spec fn after_k(self) -> App {
        let was = self.virtual_at(self.current_row());
        if self.cursor_row > 0 {
            (App {
                cursor_row: (self.cursor_row - 1) as usize,
                change: self.change | CHANGE_STATUS | CHANGE_ROW,
                ..self
            }).settled(was)
        } else if self.offset_row > 0 {
            (App {
                offset_row: (self.offset_row - 1) as usize,
                change: self.change | CHANGE_STATUS | CHANGE_OFFSET,
                ..self
            }).settled(was)
        } else {
            self.drifted()
        }
    }

    pub open spec fn after_l(self) -> App {
        if self.cursor_column < self.last_column(self.current_row()) && self.cursor_column < max(
            0,
            self.window_width - 1,
        ) {
            App {
                cursor_column: (self.cursor_column + 1) as usize,
                change: self.change | CHANGE_STATUS | CHANGE_COLUMN,
                ..self
            }
        } else {
            self.at_next_line(CHANGE_STATUS | CHANGE_OFFSET | CHANGE_ROW)
        }
    }

    /// Of each column of line `row`, whether it holds white space.
    pub open spec fn blanks_at(self, row: int) -> Seq<bool> {
        if 0 <= row < self.lines@.len() {
            blanks(self.lines@[row].text@)
        } else {
            Seq::empty()
        }
    }

    /// Forward by a word on the line, as `forward_target` says. From the end
    /// of the line the cursor goes to the start of the next line.
    pub open spec fn after_w(self) -> App {
        match forward_target(self.blanks_at(self.current_row()), self.cursor_column as int) {
            Some(column) => App {
                cursor_column: column as usize,
                change: self.change | CHANGE_STATUS | CHANGE_COLUMN,
                ..self
            },
            None => self.at_next_line(CHANGE_STATUS | CHANGE_OFFSET | CHANGE_COLUMN),
        }
    }

    /// Back by a word on the line, as `back_target` says. From the start of
    /// the line the cursor goes to the end of the line before.
    pub open spec fn after_b(self) -> App {
        let row = self.current_row();
        match back_target(self.blanks_at(row), self.cursor_column as int) {
            Some(column) => App {
                cursor_column: column as usize,
                change: self.change | CHANGE_STATUS | CHANGE_COLUMN,
                ..self
            },
            None => if self.cursor_row > 0 {
                App {
                    cursor_row: (self.cursor_row - 1) as usize,
                    cursor_column: self.last_column(row - 1) as usize,
                    change: self.change | CHANGE_STATUS | CHANGE_COLUMN | CHANGE_ROW,
                    ..self
                }
            } else if self.offset_row > 0 {
                App {
                    offset_row: (self.offset_row - 1) as usize,
                    cursor_column: self.last_column(row - 1) as usize,
                    change: self.change | CHANGE_STATUS | CHANGE_OFFSET | CHANGE_COLUMN,
                    ..self
                }
            } else {
                self
            },
        }
    }

    pub open spec fn after_s(self) -> App {
        App { cursor_column: 0, change: self.change | CHANGE_COLUMN, ..self }
    }

    pub open spec fn after_e(self) -> App {
        App {
            cursor_column: self.line_end(self.current_row()) as usize,
            change: self.change | CHANGE_COLUMN,
            ..self
        }
    }

    /// To the start of the document.
    pub open spec fn after_big_s(self) -> App {
        App {
            cursor_column: 0,
            cursor_row: 0,
            offset_row: 0,
            change: self.change | (if self.cursor_column > 0 {
                CHANGE_STATUS | CHANGE_COLUMN
            } else {
                0
            }) | (if self.cursor_row > 0 {
                CHANGE_STATUS | CHANGE_ROW
            } else {
                0
            }) | (if self.offset_row > 0 {
                CHANGE_STATUS | CHANGE_OFFSET
            } else {
                0
            }),
            ..self
        }
    }

    /// To the end of the document: the last line is shown as low in the
    /// window as the document allows, with the cursor on its last cell.
    pub open spec fn after_big_e(self) -> App {
        let n = self.lines@.len() as int;
        if n == 0 {
            self
        } else {
            let column = self.last_column(n - 1);
            let row = min(max(0, n - 2), self.last_row());
            let offset = n - row - 1;
            App {
                cursor_column: column as usize,
                cursor_row: row as usize,
                offset_row: offset as usize,
                change: self.change | (if self.cursor_column != column {
                    CHANGE_STATUS | CHANGE_COLUMN
                } else {
                    0
                }) | (if self.cursor_row != row {
                    CHANGE_STATUS | CHANGE_ROW
                } else {
                    0
                }) | (if self.offset_row != offset {
                    CHANGE_STATUS | CHANGE_OFFSET
                } else {
                    0
                }),
                ..self
            }
        }
    }

    /// The cursor put on row `target` of the window, or on the row of the
    /// last line where the document ends above `target`.
    pub open spec fn at_window_row(self, target: int) -> App {
        let row = min(target, max(0, self.lines@.len() - 1 - self.offset_row));
        if self.cursor_row != row {
            (App {
                cursor_row: row as usize,
                change: self.change | CHANGE_STATUS | CHANGE_ROW,
                ..self
            }).drifted()
        } else {
            self
        }
    }

    /// To the top row of the window.
    pub open spec fn after_big_h(self) -> App {
        self.at_window_row(0)
    }

    /// To the lowest row of the window.
    pub open spec fn after_big_l(self) -> App {
        self.at_window_row(min(self.last_row(), max(0, self.lines@.len() - 2)))
    }

    /// To the middle row of the window.
    pub open spec fn after_big_m(self) -> App {
        self.at_window_row(min(self.window_height as int / 2, self.lines@.len() as int / 2))
    }

    pub open spec fn after_pg_down(self) -> App {
        let n = self.lines@.len() as int;
        let offset = min(self.offset_row + self.cursor_row, max(0, n - self.window_height - 1));
        let row = min(self.last_row(), max(0, n - 1));
        (App {
            offset_row: offset as usize,
            cursor_row: row as usize,
            change: self.change | (if self.offset_row != offset {
                CHANGE_STATUS | CHANGE_OFFSET
            } else {
                0
            }) | (if self.cursor_row != row {
                CHANGE_STATUS | CHANGE_ROW
            } else {
                0
            }),
            ..self
        }).drifted()
    }

    pub open spec fn after_pg_up(self) -> App {
        let back = max(0, max(0, self.window_height - self.cursor_row) - 2);
        let offset = max(0, self.offset_row - back);
        (App {
            offset_row: offset as usize,
            cursor_row: 0,
            change: self.change | (if self.offset_row != offset {
                CHANGE_STATUS | CHANGE_OFFSET
            } else {
                0
            }) | (if self.cursor_row != 0 {
                CHANGE_STATUS | CHANGE_ROW
            } else {
                0
            }),
            ..self
        }).drifted()
    }
}

fn manage_vertical_drift(app: &mut App)
    requires
        old(app).document_wf(),
    ensures
        *final(app) == old(app).drifted(),
{
    let last: usize = app.get_current_line_width().saturating_sub(1);
    if app.cursor_column > last {
        app.cursor_column = last;
        app.change = app.change | CHANGE_STATUS | CHANGE_COLUMN;
    }
}

fn settle(app: &mut App, was_virtual: bool)
    requires
        old(app).current_row() < old(app).lines@.len(),
    ensures
        *final(app) == old(app).settled(was_virtual),
{
    let now_virtual: bool = app.get_current_line().is_virtual;
    let last: usize = app.get_current_line_width().saturating_sub(1);
    let column: usize = app.cursor_column;
    if now_virtual == was_virtual {
        if column > last {
            app.cursor_column = last;
            app.change = app.change | CHANGE_STATUS | CHANGE_COLUMN;
        }
    } else if now_virtual {
        app.cursor_column = min_usize(column.saturating_sub(MARKER_WIDTH), last);
        app.change = app.change | CHANGE_STATUS | CHANGE_COLUMN;
    } else {
        app.cursor_column = if column >= last || last - column <= MARKER_WIDTH {
            last
        } else {
            column + MARKER_WIDTH
        };
        app.change = app.change | CHANGE_STATUS | CHANGE_COLUMN;
    }
}

fn move_to_line_end(app: &mut App)
    ensures
        *final(app) == old(app).at_line_end(),
{
    let column: usize = min_usize(
        app.get_current_line_width().saturating_sub(1),
        app.window_width.saturating_sub(1),
    );
    if app.cursor_column != column {
        app.cursor_column = column;
        app.change = app.change | CHANGE_COLUMN;
    }
}

fn move_to_next_line(app: &mut App, scrolled: u8)
    requires
        old(app).wf(),
    ensures
        *final(app) == old(app).at_next_line(scrolled),
        final(app).wf(),
{
    let len: usize = app.lines.len();
    if len > 0 && app.cursor_row + app.offset_row < len - 1 {
        if app.cursor_row < app.window_height.saturating_sub(2) {
            app.cursor_column = 0;
            app.cursor_row += 1;
            app.change = app.change | CHANGE_STATUS | CHANGE_COLUMN | CHANGE_ROW;
        } else {
            app.cursor_column = 0;
            app.offset_row += 1;
            app.change = app.change | scrolled;
        }
    }
}

pub fn handle_h(app: &mut App)
    requires
        old(app).wf(),
    ensures
        *final(app) == old(app).after_h(),
        final(app).wf(),
{
    if app.cursor_column > 0 {
        app.cursor_column -= 1;
        app.change = app.change | CHANGE_STATUS | CHANGE_COLUMN;
    } else if app.cursor_row > 0 {
        app.cursor_row -= 1;
        app.change = app.change | CHANGE_STATUS | CHANGE_ROW;
        move_to_line_end(app);
    } else if app.offset_row > 0 {
        app.offset_row -= 1;
        app.change = app.change | CHANGE_STATUS | CHANGE_OFFSET;
        move_to_line_end(app);
    }
}

pub fn handle_j(app: &mut App)
    requires
        old(app).wf(),
    ensures
        *final(app) == old(app).after_j(),
        final(app).wf(),
{
    let len: usize = app.lines.len();
    if len > 0 && app.cursor_row + app.offset_row < len - 1 {
        let was: bool = app.get_current_line().is_virtual;
        if app.cursor_row < app.window_height.saturating_sub(2) {
            app.cursor_row += 1;
            app.change = app.change | CHANGE_STATUS | CHANGE_ROW;
        } else {
            app.offset_row += 1;
            app.change = app.change | CHANGE_STATUS | CHANGE_OFFSET;
        }
        settle(app, was);
    } else {
        manage_vertical_drift(app);
    }
}

pub fn handle_k(app: &mut App)
    requires
        old(app).wf(),
    ensures
        *final(app) == old(app).after_k(),
        final(app).wf(),
{
    if app.cursor_row > 0 {
        let was: bool = app.get_current_line().is_virtual;
        app.cursor_row -= 1;
        app.change = app.change | CHANGE_STATUS | CHANGE_ROW;
        settle(app, was);
    } else if app.offset_row > 0 {
        let was: bool = app.get_current_line().is_virtual;
        app.offset_row -= 1;
        app.change = app.change | CHANGE_STATUS | CHANGE_OFFSET;
        settle(app, was);
    } else {
        manage_vertical_drift(app);
    }
}

pub fn handle_l(app: &mut App)
    requires
        old(app).wf(),
    ensures
        *final(app) == old(app).after_l(),
        final(app).wf(),
{
    if app.cursor_column < app.get_current_line_width().saturating_sub(1) && app.cursor_column
        < app.window_width.saturating_sub(1) {
        app.cursor_column += 1;
        app.change = app.change | CHANGE_STATUS | CHANGE_COLUMN;
    } else {
        move_to_next_line(app, CHANGE_STATUS | CHANGE_OFFSET | CHANGE_ROW);
    }
}

/// Measures the run of columns from `from` onwards that are blank (`ws`) or
/// are not.
fn measure_run(blank: &Vec<bool>, from: usize, ws: bool) -> (n: usize)
    ensures
        n == run_len(blank@, from as int, ws),
{
    let mut i: usize = from;
    while i < blank.len() && blank[i] == ws
        invariant
            from <= i,
            i <= blank@.len() || i == from,
            run_len(blank@, from as int, ws) == (i - from) + run_len(blank@, i as int, ws),
        decreases blank@.len() - i,
    {
        i += 1;
    }
    i - from
}

/// Measures the run of columns from `from` backwards that are blank (`ws`)
/// or are not.
fn measure_run_back(blank: &Vec<bool>, from: usize, ws: bool) -> (n: usize)
    requires
        from < blank@.len(),
    ensures
        n == run_len_back(blank@, from as int, ws),
{
    let count: usize = blank.len();
    let mut n: usize = 0;
    while n <= from && blank[from - n] == ws
        invariant
            n <= from + 1,
            from < blank@.len() == count,
            run_len_back(blank@, from as int, ws) == n + run_len_back(blank@, from - n, ws),
        decreases from + 1 - n,
    {
        n += 1;
    }
    n
}

/// The column to which a step forward by a word leads on a line, given of
/// each column whether it holds white space.
pub fn word_forward(blank: &Vec<bool>, column: usize) -> (target: Option<usize>)
    ensures
        match target {
            Some(c) => forward_target(blank@, column as int) == Some(c as int),
            None => forward_target(blank@, column as int) is None,
        },
{
    let len: usize = blank.len();
    if column < len && column + 1 < len {
        let next: usize = column + 1;
        proof {
            lemma_run_len_bounds(blank@, next as int, true);
            lemma_run_len_bounds(blank@, next as int, false);
        }
        let step: usize = if blank[next] {
            measure_run(blank, next, true) + 1
        } else {
            measure_run(blank, next, false)
        };
        Some(min_usize(column + step, len - 1))
    } else {
        None
    }
}

/// The column to which a step back by a word leads on a line, given of each
/// column whether it holds white space.
pub fn word_back(blank: &Vec<bool>, column: usize) -> (target: Option<usize>)
    ensures
        match target {
            Some(c) => back_target(blank@, column as int) == Some(c as int),
            None => back_target(blank@, column as int) is None,
        },
{
    if 0 < column && column <= blank.len() {
        let prev: usize = column - 1;
        proof {
            lemma_run_len_back_bounds(blank@, prev as int, true);
            lemma_run_len_back_bounds(blank@, prev as int, false);
        }
        if blank[prev] {
            Some(column.saturating_sub(measure_run_back(blank, prev, true)).saturating_sub(1))
        } else {
            Some(column.saturating_sub(measure_run_back(blank, prev, false)))
        }
    } else {
        None
    }
}

/// Says of each column of the line under the cursor whether it holds white
/// space; of no column where the document is empty.
fn current_blanks(app: &App) -> (blank: Vec<bool>)
    ensures
        blank@ == app.blanks_at(app.current_row()),
{
    let len: usize = app.lines.len();
    if app.cursor_row < len && app.offset_row < len - app.cursor_row {
        let chars = chars_of(app.lines[app.cursor_row + app.offset_row].text.as_str());
        classify(&chars)
    } else {
        Vec::new()
    }
}

pub fn handle_w(app: &mut App)
    requires
        old(app).wf(),
    ensures
        *final(app) == old(app).after_w(),
        final(app).wf(),
{
    let blank = current_blanks(app);
    proof {
        lemma_targets_on_line(blank@, app.cursor_column as int);
        if app.current_row() < app.lines@.len() {
            assert(app.lines@[app.current_row()].wf(app.labels@.len() as int));
        }
    }
    match word_forward(&blank, app.cursor_column) {
        Some(column) => {
            app.cursor_column = column;
            app.change = app.change | CHANGE_STATUS | CHANGE_COLUMN;
        },
        None => {
            move_to_next_line(app, CHANGE_STATUS | CHANGE_OFFSET | CHANGE_COLUMN);
        },
    }
}

pub fn handle_b(app: &mut App)
    requires
        old(app).wf(),
    ensures
        *final(app) == old(app).after_b(),
        final(app).wf(),
{
    let blank = current_blanks(app);
    proof {
        lemma_targets_on_line(blank@, app.cursor_column as int);
        if app.current_row() < app.lines@.len() {
            assert(app.lines@[app.current_row()].wf(app.labels@.len() as int));
        }
    }
    match word_back(&blank, app.cursor_column) {
        Some(column) => {
            app.cursor_column = column;
            app.change = app.change | CHANGE_STATUS | CHANGE_COLUMN;
        },
        None => {
            if app.cursor_row > 0 {
                app.cursor_row -= 1;
                app.cursor_column = app.get_current_line_width().saturating_sub(1);
                app.change = app.change | CHANGE_STATUS | CHANGE_COLUMN | CHANGE_ROW;
            } else if app.offset_row > 0 {
                app.offset_row -= 1;
                app.cursor_column = app.get_current_line_width().saturating_sub(1);
                app.change = app.change | CHANGE_STATUS | CHANGE_OFFSET | CHANGE_COLUMN;
            }
        },
    }
}

pub fn handle_s(app: &mut App)
    requires
        old(app).wf(),
    ensures
        *final(app) == old(app).after_s(),
        final(app).wf(),
{
    app.cursor_column = 0;
    app.change = app.change | CHANGE_COLUMN;
}

pub fn handle_e(app: &mut App)
    requires
        old(app).wf(),
    ensures
        *final(app) == old(app).after_e(),
        final(app).wf(),
{
    app.cursor_column = min_usize(
        app.get_current_line_width().saturating_sub(1),
        app.window_width.saturating_sub(1),
    );
    app.change = app.change | CHANGE_COLUMN;
}

#[allow(non_snake_case)]
pub fn handle_S(app: &mut App)
    requires
        old(app).wf(),
    ensures
        *final(app) == old(app).after_big_s(),
        final(app).wf(),
{
    let mut change: u8 = app.change;
    if app.cursor_column > 0 {
        change = change | CHANGE_STATUS | CHANGE_COLUMN;
    }
    if app.cursor_row > 0 {
        change = change | CHANGE_STATUS | CHANGE_ROW;
    }
    if app.offset_row > 0 {
        change = change | CHANGE_STATUS | CHANGE_OFFSET;
    }
    proof {
        lemma_or_parts(
            app.change,
            app.cursor_column > 0,
            CHANGE_COLUMN,
            app.cursor_row > 0,
            CHANGE_ROW,
            app.offset_row > 0,
            CHANGE_OFFSET,
        );
    }
    app.cursor_column = 0;
    app.cursor_row = 0;
    app.offset_row = 0;
    app.change = change;
}

/// Setting the flags of three changes one after the other gives the same
/// byte as joining what each of them contributes.
pub proof fn lemma_or_parts(x: u8, a: bool, fa: u8, b: bool, fb: u8, c: bool, fc: u8)
    ensures
        ({
            let x1 = if a {
                x | CHANGE_STATUS | fa
            } else {
                x
            };
            let x2 = if b {
                x1 | CHANGE_STATUS | fb
            } else {
                x1
            };
            let x3 = if c {
                x2 | CHANGE_STATUS | fc
            } else {
                x2
            };
            x3 == x | (if a {
                CHANGE_STATUS | fa
            } else {
                0
            }) | (if b {
                CHANGE_STATUS | fb
            } else {
                0
            }) | (if c {
                CHANGE_STATUS | fc
            } else {
                0
            })
        }),
{
    let s = CHANGE_STATUS;
    assert(x | 0u8 == x) by (bit_vector);
    assert((x | s | fa) | 0u8 == x | s | fa) by (bit_vector);
    assert(x | (s | fa) == x | s | fa) by (bit_vector);
    assert((x | 0u8) | (s | fb) == x | s | fb) by (bit_vector);
    assert((x | (s | fa)) | (s | fb) == (x | s | fa) | s | fb) by (bit_vector);
    assert((x | 0u8 | 0u8) | (s | fc) == x | s | fc) by (bit_vector);
    assert((x | (s | fa) | 0u8) | (s | fc) == (x | s | fa) | s | fc) by (bit_vector);
    assert((x | 0u8 | (s | fb)) | (s | fc) == (x | s | fb) | s | fc) by (bit_vector);
    assert((x | (s | fa) | (s | fb)) | (s | fc) == ((x | s | fa) | s | fb) | s | fc)
        by (bit_vector);
    assert(x | 0u8 | 0u8 == x) by (bit_vector);
    assert(x | (s | fa) | 0u8 | 0u8 == x | s | fa) by (bit_vector);
    assert(x | 0u8 | (s | fb) | 0u8 == x | s | fb) by (bit_vector);
    assert(x | (s | fa) | (s | fb) | 0u8 == (x | s | fa) | s | fb) by (bit_vector);
    assert(x | 0u8 | 0u8 | 0u8 == x) by (bit_vector);
}

#[allow(non_snake_case)]
pub fn handle_E(app: &mut App)
    requires
        old(app).wf(),
    ensures
        *final(app) == old(app).after_big_e(),
        final(app).wf(),
{
    let len: usize = app.lines.len();
    if len == 0 {
        return ;
    }
    let column: usize = app.lines[len - 1].width.saturating_sub(1);
    let row: usize = min_usize(len.saturating_sub(2), app.window_height.saturating_sub(2));
    let offset: usize = len - row - 1;
    let mut change: u8 = app.change;
    if app.cursor_column != column {
        change = change | CHANGE_STATUS | CHANGE_COLUMN;
    }
    if app.cursor_row != row {
        change = change | CHANGE_STATUS | CHANGE_ROW;
    }
    if app.offset_row != offset {
        change = change | CHANGE_STATUS | CHANGE_OFFSET;
    }
    proof {
        lemma_or_parts(
            app.change,
            app.cursor_column != column,
            CHANGE_COLUMN,
            app.cursor_row != row,
            CHANGE_ROW,
            app.offset_row != offset,
            CHANGE_OFFSET,
        );
    }
    app.cursor_column = column;
    app.cursor_row = row;
    app.offset_row = offset;
    app.change = change;
}

fn move_to_window_row(app: &mut App, target: usize)
    requires
        old(app).wf(),
    ensures
        *final(app) == old(app).at_window_row(target as int),
        final(app).wf(),
{
    let len: usize = app.lines.len();
    let room: usize = len.saturating_sub(1).saturating_sub(app.offset_row);
    let row: usize = min_usize(target, room);
    if app.cursor_row != row {
        app.cursor_row = row;
        app.change = app.change | CHANGE_STATUS | CHANGE_ROW;
        manage_vertical_drift(app);
    }
}

#[allow(non_snake_case)]
pub fn handle_H(app: &mut App)
    requires
        old(app).wf(),
    ensures
        *final(app) == old(app).after_big_h(),
        final(app).wf(),
{
    move_to_window_row(app, 0);
}

#[allow(non_snake_case)]
pub fn handle_L(app: &mut App)
    requires
        old(app).wf(),
    ensures
        *final(app) == old(app).after_big_l(),
        final(app).wf(),
{
    let target: usize = min_usize(
        app.window_height.saturating_sub(2),
        app.lines.len().saturating_sub(2),
    );
    move_to_window_row(app, target);
}

#[allow(non_snake_case)]
pub fn handle_M(app: &mut App)
    requires
        old(app).wf(),
    ensures
        *final(app) == old(app).after_big_m(),
        final(app).wf(),
{
    let target: usize = min_usize(app.window_height / 2, app.lines.len() / 2);
    move_to_window_row(app, target);
}

pub fn handle_pg_down(app: &mut App)
    requires
        old(app).wf(),
    ensures
        *final(app) == old(app).after_pg_down(),
        final(app).wf(),
{
    let len: usize = app.lines.len();
    let most: usize = len.saturating_sub(app.window_height).saturating_sub(1);
    let offset: usize = if app.offset_row >= most || most - app.offset_row <= app.cursor_row {
        most
    } else {
        app.offset_row + app.cursor_row
    };
    let row: usize = min_usize(app.window_height.saturating_sub(2), len.saturating_sub(1));
    let mut change: u8 = app.change;
    if app.offset_row != offset {
        change = change | CHANGE_STATUS | CHANGE_OFFSET;
    }
    if app.cursor_row != row {
        change = change | CHANGE_STATUS | CHANGE_ROW;
    }
    proof {
        lemma_or_parts(
            app.change,
            app.offset_row != offset,
            CHANGE_OFFSET,
            app.cursor_row != row,
            CHANGE_ROW,
            false,
            0,
        );
        assert(app.change | 0u8 == app.change) by (bit_vector);
        let x = (if app.offset_row != offset {
            app.change | CHANGE_STATUS | CHANGE_OFFSET
        } else {
            app.change
        });
        let y = (if app.cursor_row != row {
            x | CHANGE_STATUS | CHANGE_ROW
        } else {
            x
        });
        let z = app.change | (if app.offset_row != offset {
            CHANGE_STATUS | CHANGE_OFFSET
        } else {
            0
        }) | (if app.cursor_row != row {
            CHANGE_STATUS | CHANGE_ROW
        } else {
            0
        });
        assert(z | 0u8 == z) by (bit_vector);
    }
    app.offset_row = offset;
    app.cursor_row = row;
    app.change = change;
    manage_vertical_drift(app);
}

pub fn handle_pg_up(app: &mut App)
    requires
        old(app).wf(),
    ensures
        *final(app) == old(app).after_pg_up(),
        final(app).wf(),
{
    let back: usize = app.window_height.saturating_sub(app.cursor_row).saturating_sub(2);
    let offset: usize = app.offset_row.saturating_sub(back);
    let mut change: u8 = app.change;
    if app.offset_row != offset {
        change = change | CHANGE_STATUS | CHANGE_OFFSET;
    }
    if app.cursor_row != 0 {
        change = change | CHANGE_STATUS | CHANGE_ROW;
    }
    proof {
        lemma_or_parts(
            app.change,
            app.offset_row != offset,
            CHANGE_OFFSET,
            app.cursor_row != 0,
            CHANGE_ROW,
            false,
            0,
        );
        let z = app.change | (if app.offset_row != offset {
            CHANGE_STATUS | CHANGE_OFFSET
        } else {
            0
        }) | (if app.cursor_row != 0 {
            CHANGE_STATUS | CHANGE_ROW
        } else {
            0
        });
        assert(z | 0u8 == z) by (bit_vector);
    }
    app.offset_row = offset;
    app.cursor_row = 0;
    app.change = change;
    manage_vertical_drift(app);
}

/// Opens the command line.
pub fn handle_colon(app: &mut App)
    ensures
        old(app).colon_gives(*final(app)),
{
    app.set_command_mode();
    app.change = app.change | CHANGE_STATUS;
}

/// Opens the label palette.
pub fn handle_m(app: &mut App)
    ensures
        *final(app) == (App {
            mode: Mode::Modal,
            change: old(app).change | CHANGE_MODAL,
            ..*old(app)
        }),
{
    app.set_modal_mode();
    app.change = app.change | CHANGE_MODAL;
}

/// Tags the selection of the current line with the active label and goes
/// back to normal mode.
pub fn handle_t(app: &mut App)
    requires
        old(app).wf(),
    ensures
        old(app).handle_t_gives(*final(app)),
{
    app.tag();
    app.set_normal_mode();
}

/// Escape: gives up what the mode was about and goes back one step. A
/// selection is dropped; the command line is emptied; the palette closes as
/// it does on `m`; from the name and from the color picker the way leads
/// back to the palette, and the color stays as it was.
pub fn handle_1b(app: &mut App)
    requires
        old(app).wf(),
    ensures
        old(app).handle_1b_gives(*final(app)),
{
    match app.mode {
        Mode::Normal => {},
        Mode::Visual => {
            app.visual.clear();
            app.set_normal_mode();
            app.change = app.change | CHANGE_STATUS | CHANGE_OFFSET;
        },
        Mode::Command => {
            app.command_esc();
        },
        Mode::Name => {
            app.name_esc();
        },
        Mode::Color => {
            app.set_modal_mode();
            app.change = app.change | CHANGE_MODAL;
        },
        Mode::Modal => {
            app.modal_m();
        },
    }
}

/// The motions of the cursor.
#[derive(Clone, Copy, Debug, PartialEq, Eq, Structural)]
pub enum Motion {
    Left,
    Down,
    Up,
    Right,
    Word,
    Back,
    LineStart,
    LineEnd,
    WindowTop,
    WindowMiddle,
    WindowBottom,
    DocumentStart,
    DocumentEnd,
    PageDown,
    PageUp,
}

impl App {
    /// The state after one motion.
    pub open spec fn after(self, m: Motion) -> App {
        match m {
            Motion::Left => self.after_h(),
            Motion::Down => self.after_j(),
            Motion::Up => self.after_k(),
            Motion::Right => self.after_l(),
            Motion::Word => self.after_w(),
            Motion::Back => self.after_b(),
            Motion::LineStart => self.after_s(),
            Motion::LineEnd => self.after_e(),
            Motion::WindowTop => self.after_big_h(),
            Motion::WindowMiddle => self.after_big_m(),
            Motion::WindowBottom => self.after_big_l(),
            Motion::DocumentStart => self.after_big_s(),
            Motion::DocumentEnd => self.after_big_e(),
            Motion::PageDown => self.after_pg_down(),
            Motion::PageUp => self.after_pg_up(),
        }
    }

    /// The state after a sequence of motions, made one after the other.
    pub open spec fn after_all(self, ms: Seq<Motion>) -> App
        decreases ms.len(),
    {
        if ms.len() == 0 {
            self
        } else {
            self.after_all(ms.drop_last()).after(ms.last())
        }
    }
}

/// A motion changes the cursor, the scroll offset and the change flags, and
/// nothing else.
pub open spec fn only_moved(now: App, then: App) -> bool {
    now == (App {
        cursor_column: now.cursor_column,
        cursor_row: now.cursor_row,
        offset_row: now.offset_row,
        change: now.change,
        ..then
    })
}

/// A state that differs from a well-formed one only in where the cursor and
/// the viewport are is well formed if the cursor is in its place.
pub proof fn lemma_moved_wf(now: App, then: App)
    requires
        then.wf(),
        only_moved(now, then),
        now.cursor_wf(),
    ensures
        now.wf(),
{
}

pub proof fn lemma_after_h_wf(app: App)
    requires
        app.wf(),
    ensures
        app.after_h().wf(),
        only_moved(app.after_h(), app),
{
    lemma_moved_wf(app.after_h(), app);
}

pub proof fn lemma_after_j_wf(app: App)
    requires
        app.wf(),
    ensures
        app.after_j().wf(),
        only_moved(app.after_j(), app),
{
    lemma_moved_wf(app.after_j(), app);
}

pub proof fn lemma_after_k_wf(app: App)
    requires
        app.wf(),
    ensures
        app.after_k().wf(),
        only_moved(app.after_k(), app),
{
    lemma_moved_wf(app.after_k(), app);
}

pub proof fn lemma_after_l_wf(app: App)
    requires
        app.wf(),
    ensures
        app.after_l().wf(),
        only_moved(app.after_l(), app),
{
    lemma_moved_wf(app.after_l(), app);
}

pub proof fn lemma_after_w_wf(app: App)
    requires
        app.wf(),
    ensures
        app.after_w().wf(),
        only_moved(app.after_w(), app),
{
    let row = app.current_row();
    if row < app.lines@.len() {
        assert(app.lines@[row].wf(app.labels@.len() as int));
    }
    lemma_targets_on_line(app.blanks_at(row), app.cursor_column as int);
    lemma_moved_wf(app.after_w(), app);
}

pub proof fn lemma_after_b_wf(app: App)
    requires
        app.wf(),
    ensures
        app.after_b().wf(),
        only_moved(app.after_b(), app),
{
    let row = app.current_row();
    if row < app.lines@.len() {
        assert(app.lines@[row].wf(app.labels@.len() as int));
    }
    lemma_targets_on_line(app.blanks_at(row), app.cursor_column as int);
    lemma_moved_wf(app.after_b(), app);
}

pub proof fn lemma_after_s_wf(app: App)
    requires
        app.wf(),
    ensures
        app.after_s().wf(),
        only_moved(app.after_s(), app),
{
    lemma_moved_wf(app.after_s(), app);
}

pub proof fn lemma_after_e_wf(app: App)
    requires
        app.wf(),
    ensures
        app.after_e().wf(),
        only_moved(app.after_e(), app),
{
    lemma_moved_wf(app.after_e(), app);
}

pub proof fn lemma_after_big_h_wf(app: App)
    requires
        app.wf(),
    ensures
        app.after_big_h().wf(),
        only_moved(app.after_big_h(), app),
{
    lemma_moved_wf(app.after_big_h(), app);
}

pub proof fn lemma_after_big_m_wf(app: App)
    requires
        app.wf(),
    ensures
        app.after_big_m().wf(),
        only_moved(app.after_big_m(), app),
{
    lemma_moved_wf(app.after_big_m(), app);
}

pub proof fn lemma_after_big_l_wf(app: App)
    requires
        app.wf(),
    ensures
        app.after_big_l().wf(),
        only_moved(app.after_big_l(), app),
{
    lemma_moved_wf(app.after_big_l(), app);
}

pub proof fn lemma_after_big_s_wf(app: App)
    requires
        app.wf(),
    ensures
        app.after_big_s().wf(),
        only_moved(app.after_big_s(), app),
{
    lemma_moved_wf(app.after_big_s(), app);
}

pub proof fn lemma_after_big_e_wf(app: App)
    requires
        app.wf(),
    ensures
        app.after_big_e().wf(),
        only_moved(app.after_big_e(), app),
{
    lemma_moved_wf(app.after_big_e(), app);
}

pub proof fn lemma_after_pg_down_wf(app: App)
    requires
        app.wf(),
    ensures
        app.after_pg_down().wf(),
        only_moved(app.after_pg_down(), app),
{
    lemma_moved_wf(app.after_pg_down(), app);
}

pub proof fn lemma_after_pg_up_wf(app: App)
    requires
        app.wf(),
    ensures
        app.after_pg_up().wf(),
        only_moved(app.after_pg_up(), app),
{
    lemma_moved_wf(app.after_pg_up(), app);
}

/// One motion leaves a well-formed state well formed, and touches only the
/// cursor and the viewport.
pub proof fn lemma_motion_keeps_wf(app: App, m: Motion)
    requires
        app.wf(),
    ensures
        app.after(m).wf(),
        only_moved(app.after(m), app),
{
    match m {
        Motion::Left => lemma_after_h_wf(app),
        Motion::Down => lemma_after_j_wf(app),
        Motion::Up => lemma_after_k_wf(app),
        Motion::Right => lemma_after_l_wf(app),
        Motion::Word => lemma_after_w_wf(app),
        Motion::Back => lemma_after_b_wf(app),
        Motion::LineStart => lemma_after_s_wf(app),
        Motion::LineEnd => lemma_after_e_wf(app),
        Motion::WindowTop => lemma_after_big_h_wf(app),
        Motion::WindowMiddle => lemma_after_big_m_wf(app),
        Motion::WindowBottom => lemma_after_big_l_wf(app),
        Motion::DocumentStart => lemma_after_big_s_wf(app),
        Motion::DocumentEnd => lemma_after_big_e_wf(app),
        Motion::PageDown => lemma_after_pg_down_wf(app),
        Motion::PageUp => lemma_after_pg_up_wf(app),
    }
}

/// The cursor invariant: after any sequence of motions the cursor is on a
/// line of the document, and on column 0 or on a cell of that line.
pub proof fn lemma_cursor_invariant(app: App, ms: Seq<Motion>)
    requires
        app.wf(),
    ensures
        app.after_all(ms).wf(),
        only_moved(app.after_all(ms), app),
        app.lines@.len() > 0 ==> {
            let end = app.after_all(ms);
            &&& end.cursor_row + end.offset_row < end.lines@.len()
            &&& 0 <= end.cursor_column < max(
                1,
                end.lines@[end.cursor_row + end.offset_row].width as int,
            )
        },
    decreases ms.len(),
{
    if ms.len() > 0 {
        lemma_cursor_invariant(app, ms.drop_last());
        lemma_motion_keeps_wf(app.after_all(ms.drop_last()), ms.last());
    }
}

impl App {
    /// What opening the command line leaves.
    pub open spec fn colon_gives(self, now: App) -> bool {
        &&& now == (App {
            mode: Mode::Command,
            change: self.change | CHANGE_STATUS,
            ..self
        })
    }

    /// What tagging from a selection leaves.
    pub open spec fn handle_t_gives(self, now: App) -> bool {
        &&& now.wf()
        &&& now == (App {
            lines: now.lines,
            visual: now.visual,
            change: now.change,
            mode: Mode::Normal,
            ..self
        })
        &&& now.visual@.len() == 0
        &&& same_rows(now.lines@, self.lines@)
        &&& match self.selection_tag() {
            Some(tag) => {
                &&& now.table() == self.table().update(
                    self.current_row(),
                    self.table()[self.current_row()].push(tag),
                )
                &&& now.change == CHANGE_STATUS | CHANGE_OFFSET
            },
            None => now.table() == self.table() && now.change == self.change,
        }
    }

    /// What escape leaves, mode by mode.
    pub open spec fn handle_1b_gives(self, now: App) -> bool {
        &&& now.wf()
        &&& self.mode == Mode::Normal ==> now == self
        &&& self.mode == Mode::Visual ==> now == (App {
            mode: Mode::Normal,
            visual: now.visual,
            change: self.change | CHANGE_STATUS | CHANGE_OFFSET,
            ..self
        }) && now.visual@.len() == 0
        &&& self.mode == Mode::Command ==> now == (App {
            command: now.command,
            mode: Mode::Normal,
            change: self.change | CHANGE_STATUS,
            ..self
        }) && now.command@.len() == 0
        &&& self.mode == Mode::Name ==> now == (App {
            mode: Mode::Modal,
            change: self.change | CHANGE_MODAL | CHANGE_ROW | CHANGE_OFFSET | CHANGE_STATUS,
            ..self
        })
        &&& self.mode == Mode::Color ==> now == (App {
            mode: Mode::Modal,
            change: self.change | CHANGE_MODAL,
            ..self
        })
        &&& self.mode == Mode::Modal ==> {
            &&& now == (App {
                labels: now.labels,
                modal_active: now.modal_active,
                mode: Mode::Normal,
                change: self.change | CHANGE_STATUS | CHANGE_OFFSET,
                ..self
            })
            &&& self.labels@.len() == 0
                ==> now.labels@ == self.labels@ && now.modal_active == self.modal_active
            &&& self.labels@.len() > 0 ==> now.labels@ == activated(
                self.labels@,
                self.modal_active as int,
                self.modal_row as int,
            ) && now.modal_active == self.modal_row
        }
    }
}

} // verus!
