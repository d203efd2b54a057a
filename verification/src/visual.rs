//! Visual mode: a selection that follows the cursor. The selection holds one
//! region for each line it touches. The region of the current line ends at
//! the cursor; where the cursor goes on to another line, the region of the
//! line it leaves is closed at that line's end or start, and the new line
//! gets a region of its own.

use vstd::prelude::*;
use crate::app::{
    find_region, lemma_find_region_bounds, region_at, App, Mode, Visual, CHANGE_MODAL, CHANGE_OFFSET,
    CHANGE_STATUS,
};
use crate::common;

verus! {

/// The selection with the first region on `row`, if any, ending at `end`.
pub open spec fn with_end(visual: Seq<Visual>, row: int, end: usize) -> Seq<Visual> {
    let i = find_region(visual, row, 0);
    if i < visual.len() {
        visual.update(i, Visual { end, ..visual[i] })
    } else {
        visual
    }
}

/// The selection without the first region on `row`, if any.
pub open spec fn without_row(visual: Seq<Visual>, row: int) -> Seq<Visual> {
    let i = find_region(visual, row, 0);
    if i < visual.len() {
        visual.remove(i)
    } else {
        visual
    }
}

impl App {
    /// The selection once the cursor has come from line `from` to where it
    /// is now.
    ///
    /// On the same line the region of the line follows the cursor. On a line
    /// that the selection already holds, the selection shrinks: the region of
    /// the line left is given up. On a new line below, the region of the line
    /// left is closed at its last column and the new line is selected from
    /// its first column to the cursor; on a new line above, the region of the
    /// line left is closed at its first column and the new line is selected
    /// from its last column to the cursor.
    pub open spec fn selection_after(self, from: int) -> Seq<Visual> {
        let row = self.current_row();
        let column = self.cursor_column;
        if row == from {
            with_end(self.visual@, row, column)
        } else if region_at(self.visual@, row) is Some {
            without_row(with_end(self.visual@, row, column), from)
        } else if row > from {
            with_end(self.visual@, from, self.last_column(from) as usize).push(
                Visual { row: row as usize, start: 0, end: column },
            )
        } else {
            with_end(self.visual@, from, 0).insert(
                0,
                Visual { row: row as usize, start: self.last_column(row) as usize, end: column },
            )
        }
    }

    /// What a motion in visual mode leaves: the state that the motion gives,
    /// with the selection following the cursor from line `from`.
    pub open spec fn selecting(self, from: int, now: App) -> bool {
        &&& now == (App { visual: now.visual, change: CHANGE_OFFSET, ..self })
        &&& now.visual@ == self.selection_after(from)
    }

    pub fn is_visual_mode(&self) -> (b: bool)
        ensures
            b == (self.mode == Mode::Visual),
    {
        self.mode == Mode::Visual
    }

    pub fn set_visual_mode(&mut self)
        ensures
            *final(self) == (App { mode: Mode::Visual, ..*old(self) }),
    {
        self.mode = Mode::Visual;
    }

    /// Lets the region of line `row` end at `end`.
    fn set_region_end(&mut self, row: usize, end: usize)
        requires
            old(self).wf(),
            end < crate::text::max(1, old(self).width_at(row as int)),
        ensures
            *final(self) == (App { visual: final(self).visual, ..*old(self) }),
            final(self).visual@ == with_end(old(self).visual@, row as int, end),
            final(self).wf(),
    {
        let i: usize = self.find_visual(row);
        if i < self.visual.len() {
            let ghost before = self.visual@;
            proof {
                lemma_find_region_bounds(before, row as int, 0);
            }
            let v = self.visual[i];
            self.visual.set(i, Visual { row: v.row, start: v.start, end });
            proof {
                assert forall|j: int| 0 <= j < self.visual@.len() implies {
                    &&& (#[trigger] self.visual@[j]).row < self.lines@.len()
                    &&& self.visual@[j].start < crate::text::max(
                        1,
                        self.lines@[self.visual@[j].row as int].width as int,
                    )
                    &&& self.visual@[j].end < crate::text::max(
                        1,
                        self.lines@[self.visual@[j].row as int].width as int,
                    )
                } by {
                    assert(before[j].row < self.lines@.len());
                }
            }
        }
    }

    /// Lets the region of the current line end at the cursor.
    fn set_visual_end(&mut self)
        requires
            old(self).wf(),
        ensures
            *final(self) == (App { visual: final(self).visual, ..*old(self) }),
            final(self).visual@ == with_end(
                old(self).visual@,
                old(self).current_row(),
                old(self).cursor_column,
            ),
            final(self).wf(),
    {
        let len: usize = self.lines.len();
        if len > 0 {
            self.set_region_end(self.cursor_row + self.offset_row, self.cursor_column);
        } else {
            proof {
                lemma_find_region_bounds(self.visual@, self.current_row(), 0);
                let i = find_region(self.visual@, self.current_row(), 0);
                if i < self.visual@.len() {
                    assert(self.visual@[i].row < self.lines@.len());
                }
            }
        }
    }

    /// Lets the selection follow the cursor, which has come from line `from`.
    fn track(&mut self, from: usize)
        requires
            old(self).wf(),
            from < old(self).lines@.len(),
        ensures
            old(self).selecting(from as int, *final(self)),
            final(self).wf(),
    {
        let row: usize = self.cursor_row + self.offset_row;
        let column: usize = self.cursor_column;
        let ghost start = self.visual@;
        if row == from {
            self.set_region_end(row, column);
        } else if self.find_visual(row) < self.visual.len() {
            self.set_region_end(row, column);
            let gone: usize = self.find_visual(from);
            if gone < self.visual.len() {
                let ghost before = self.visual@;
                self.visual.remove(gone);
                proof {
                    assert forall|j: int| 0 <= j < self.visual@.len() implies {
                        &&& (#[trigger] self.visual@[j]).row < self.lines@.len()
                        &&& self.visual@[j].start < crate::text::max(
                            1,
                            self.lines@[self.visual@[j].row as int].width as int,
                        )
                        &&& self.visual@[j].end < crate::text::max(
                            1,
                            self.lines@[self.visual@[j].row as int].width as int,
                        )
                    } by {
                        if j < gone {
                            assert(self.visual@[j] == before[j]);
                        } else {
                            assert(self.visual@[j] == before[j + 1]);
                        }
                    }
                }
            }
        } else if row > from {
            let last: usize = self.lines[from].width.saturating_sub(1);
            self.set_region_end(from, last);
            let ghost before = self.visual@;
            self.visual.push(Visual { row, start: 0, end: column });
            proof {
                assert forall|j: int| 0 <= j < self.visual@.len() implies {
                    &&& (#[trigger] self.visual@[j]).row < self.lines@.len()
                    &&& self.visual@[j].start < crate::text::max(
                        1,
                        self.lines@[self.visual@[j].row as int].width as int,
                    )
                    &&& self.visual@[j].end < crate::text::max(
                        1,
                        self.lines@[self.visual@[j].row as int].width as int,
                    )
                } by {
                    if j < before.len() {
                        assert(self.visual@[j] == before[j]);
                    }
                }
            }
        } else {
            let last: usize = self.lines[row].width.saturating_sub(1);
            self.set_region_end(from, 0);
            let ghost before = self.visual@;
            self.visual.insert(0, Visual { row, start: last, end: column });
            proof {
                assert forall|j: int| 0 <= j < self.visual@.len() implies {
                    &&& (#[trigger] self.visual@[j]).row < self.lines@.len()
                    &&& self.visual@[j].start < crate::text::max(
                        1,
                        self.lines@[self.visual@[j].row as int].width as int,
                    )
                    &&& self.visual@[j].end < crate::text::max(
                        1,
                        self.lines@[self.visual@[j].row as int].width as int,
                    )
                } by {
                    if j > 0 {
                        assert(self.visual@[j] == before[j - 1]);
                    }
                }
            }
        }
        self.change = CHANGE_OFFSET;
    }

    /// What opening the palette from a selection leaves.
    pub open spec fn visual_m_gives(self, now: App) -> bool {
        &&& now == (App { mode: Mode::Modal, change: CHANGE_MODAL, ..self })
    }

    /// Opens the label palette; the selection stays as it is.
    pub fn visual_m(&mut self)
        ensures
            old(self).visual_m_gives(*final(self)),
    {
        self.set_modal_mode();
        self.change = CHANGE_MODAL;
    }

    /// What leaving visual mode leaves.
    pub open spec fn visual_v_gives(self, now: App) -> bool {
        &&& now == (App {
            mode: Mode::Normal,
            visual: now.visual,
            change: CHANGE_STATUS,
            ..self
        })
        &&& now.visual@ == with_end(
            self.visual@,
            self.current_row(),
            self.cursor_column,
        )
        &&& now.wf()
    }

    /// Leaves visual mode. The selection stays, ending at the cursor.
    pub fn visual_v(&mut self)
        requires
            old(self).wf(),
        ensures
            old(self).visual_v_gives(*final(self)),
    {
        self.set_normal_mode();
        self.set_visual_end();
        self.change = CHANGE_STATUS;
    }

    pub fn visual_h(&mut self)
        requires
            old(self).wf(),
        ensures
            old(self).after_h().selecting(old(self).current_row(), *final(self)),
            final(self).wf(),
    {
        let len: usize = self.lines.len();
        if len == 0 {
            common::handle_h(self);
            self.set_visual_end();
            self.change = CHANGE_OFFSET;
        } else {
            let from: usize = self.cursor_row + self.offset_row;
            common::handle_h(self);
            self.track(from);
        }
    }

    pub fn visual_j(&mut self)
        requires
            old(self).wf(),
        ensures
            old(self).after_j().selecting(old(self).current_row(), *final(self)),
            final(self).wf(),
    {
        let len: usize = self.lines.len();
        if len == 0 {
            common::handle_j(self);
            self.set_visual_end();
            self.change = CHANGE_OFFSET;
        } else {
            let from: usize = self.cursor_row + self.offset_row;
            common::handle_j(self);
            self.track(from);
        }
    }

    pub fn visual_k(&mut self)
        requires
            old(self).wf(),
        ensures
            old(self).after_k().selecting(old(self).current_row(), *final(self)),
            final(self).wf(),
    {
        let len: usize = self.lines.len();
        if len == 0 {
            common::handle_k(self);
            self.set_visual_end();
            self.change = CHANGE_OFFSET;
        } else {
            let from: usize = self.cursor_row + self.offset_row;
            common::handle_k(self);
            self.track(from);
        }
    }

    pub fn visual_l(&mut self)
        requires
            old(self).wf(),
        ensures
            old(self).after_l().selecting(old(self).current_row(), *final(self)),
            final(self).wf(),
    {
        let len: usize = self.lines.len();
        if len == 0 {
            common::handle_l(self);
            self.set_visual_end();
            self.change = CHANGE_OFFSET;
        } else {
            let from: usize = self.cursor_row + self.offset_row;
            common::handle_l(self);
            self.track(from);
        }
    }

    pub fn visual_s(&mut self)
        requires
            old(self).wf(),
        ensures
            old(self).after_s().selecting(old(self).current_row(), *final(self)),
            final(self).wf(),
    {
        let len: usize = self.lines.len();
        if len == 0 {
            common::handle_s(self);
            self.set_visual_end();
            self.change = CHANGE_OFFSET;
        } else {
            let from: usize = self.cursor_row + self.offset_row;
            common::handle_s(self);
            self.track(from);
        }
    }

    pub fn visual_e(&mut self)
        requires
            old(self).wf(),
        ensures
            old(self).after_e().selecting(old(self).current_row(), *final(self)),
            final(self).wf(),
    {
        let len: usize = self.lines.len();
        if len == 0 {
            common::handle_e(self);
            self.set_visual_end();
            self.change = CHANGE_OFFSET;
        } else {
            let from: usize = self.cursor_row + self.offset_row;
            common::handle_e(self);
            self.track(from);
        }
    }

    pub fn visual_w(&mut self)
        requires
            old(self).wf(),
        ensures
            old(self).after_w().selecting(old(self).current_row(), *final(self)),
            final(self).wf(),
    {
        let len: usize = self.lines.len();
        if len == 0 {
            common::handle_w(self);
            self.set_visual_end();
            self.change = CHANGE_OFFSET;
        } else {
            let from: usize = self.cursor_row + self.offset_row;
            common::handle_w(self);
            self.track(from);
        }
    }

    pub fn visual_b(&mut self)
        requires
            old(self).wf(),
        ensures
            old(self).after_b().selecting(old(self).current_row(), *final(self)),
            final(self).wf(),
    {
        let len: usize = self.lines.len();
        if len == 0 {
            common::handle_b(self);
            self.set_visual_end();
            self.change = CHANGE_OFFSET;
        } else {
            let from: usize = self.cursor_row + self.offset_row;
            common::handle_b(self);
            self.track(from);
        }
    }
}

} // verus!
