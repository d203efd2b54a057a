//! Normal mode: moving about, opening a selection, removing a tag.

use vstd::prelude::*;
use crate::app::{same_rows, App, Mode, Visual, CHANGE_MODAL, CHANGE_OFFSET, CHANGE_ROW, CHANGE_STATUS};
use crate::chain::unchained;
use crate::common;

verus! {

impl App {
    pub fn is_normal_mode(&self) -> (b: bool)
        ensures
            b == (self.mode == Mode::Normal),
    {
        self.mode == Mode::Normal
    }

    pub fn set_normal_mode(&mut self)
        ensures
            *final(self) == (App { mode: Mode::Normal, ..*old(self) }),
    {
        self.mode = Mode::Normal;
    }

    /// What opening the palette from normal mode leaves.
    pub open spec fn normal_m_gives(self, now: App) -> bool {
        &&& now == (App {
            mode: Mode::Modal,
            change: CHANGE_MODAL | CHANGE_ROW,
            ..self
        })
    }

    /// Opens the label palette.
    pub fn normal_m(&mut self)
        ensures
            old(self).normal_m_gives(*final(self)),
    {
        self.set_modal_mode();
        self.change = CHANGE_MODAL | CHANGE_ROW;
    }

    pub fn normal_h(&mut self)
        requires
            old(self).wf(),
        ensures
            *final(self) == old(self).after_h(),
            final(self).wf(),
    {
        common::handle_h(self);
    }

    pub fn normal_j(&mut self)
        requires
            old(self).wf(),
        ensures
            *final(self) == old(self).after_j(),
            final(self).wf(),
    {
        common::handle_j(self);
    }

    pub fn normal_k(&mut self)
        requires
            old(self).wf(),
        ensures
            *final(self) == old(self).after_k(),
            final(self).wf(),
    {
        common::handle_k(self);
    }

    pub fn normal_l(&mut self)
        requires
            old(self).wf(),
        ensures
            *final(self) == old(self).after_l(),
            final(self).wf(),
    {
        common::handle_l(self);
    }

    pub fn normal_s(&mut self)
        requires
            old(self).wf(),
        ensures
            *final(self) == old(self).after_s(),
            final(self).wf(),
    {
        common::handle_s(self);
    }

    pub fn normal_e(&mut self)
        requires
            old(self).wf(),
        ensures
            *final(self) == old(self).after_e(),
            final(self).wf(),
    {
        common::handle_e(self);
    }

    pub fn normal_w(&mut self)
        requires
            old(self).wf(),
        ensures
            *final(self) == old(self).after_w(),
            final(self).wf(),
    {
        common::handle_w(self);
    }

    pub fn normal_b(&mut self)
        requires
            old(self).wf(),
        ensures
            *final(self) == old(self).after_b(),
            final(self).wf(),
    {
        common::handle_b(self);
    }

    /// What opening a selection leaves.
    pub open spec fn normal_v_gives(self, now: App) -> bool {
        &&& now == (App {
            mode: Mode::Visual,
            visual: now.visual,
            change: CHANGE_STATUS,
            ..self
        })
        &&& now.visual@ == if self.lines@.len() > 0 {
            seq![
                Visual {
                    start: self.cursor_column,
                    end: self.cursor_column,
                    row: self.current_row() as usize,
                },
            ]
        } else {
            Seq::<Visual>::empty()
        }
        &&& now.wf()
    }

    /// Opens a selection at the cursor: one region on the current line that
    /// starts and ends at the cursor's column. An earlier selection is
    /// dropped. In an empty document nothing is selected.
    pub fn normal_v(&mut self)
        requires
            old(self).wf(),
        ensures
            old(self).normal_v_gives(*final(self)),
    {
        self.visual.clear();
        self.set_visual_mode();
        let len: usize = self.lines.len();
        if len > 0 {
            let region = Visual {
                start: self.cursor_column,
                end: self.cursor_column,
                row: self.cursor_row + self.offset_row,
            };
            self.visual.push(region);
        }
        self.change = CHANGE_STATUS;
    }

    /// Removes the tag under the cursor with the rest of its chain.
    pub fn normal_u(&mut self)
        requires
            old(self).wf(),
        ensures
            final(self).wf(),
            *final(self) == (App {
                lines: final(self).lines,
                change: final(self).change,
                ..*old(self)
            }),
            same_rows(final(self).lines@, old(self).lines@),
            match old(self).tag_under_cursor() {
                Some(j) => {
                    &&& final(self).table() == unchained(
                        old(self).table(),
                        old(self).current_row(),
                        j,
                    )
                    &&& final(self).change == CHANGE_STATUS | CHANGE_OFFSET
                },
                None => final(self).table() == old(self).table()
                    && final(self).change == old(self).change,
            },
    {
        self.untag();
    }

    pub fn normal_pg_down(&mut self)
        requires
            old(self).wf(),
        ensures
            *final(self) == old(self).after_pg_down(),
            final(self).wf(),
    {
        common::handle_pg_down(self);
    }

    pub fn normal_pg_up(&mut self)
        requires
            old(self).wf(),
        ensures
            *final(self) == old(self).after_pg_up(),
            final(self).wf(),
    {
        common::handle_pg_up(self);
    }

    #[allow(non_snake_case)]
    pub fn normal_H(&mut self)
        requires
            old(self).wf(),
        ensures
            *final(self) == old(self).after_big_h(),
            final(self).wf(),
    {
        common::handle_H(self);
    }

    #[allow(non_snake_case)]
    pub fn normal_M(&mut self)
        requires
            old(self).wf(),
        ensures
            *final(self) == old(self).after_big_m(),
            final(self).wf(),
    {
        common::handle_M(self);
    }

    #[allow(non_snake_case)]
    pub fn normal_L(&mut self)
        requires
            old(self).wf(),
        ensures
            *final(self) == old(self).after_big_l(),
            final(self).wf(),
    {
        common::handle_L(self);
    }

    #[allow(non_snake_case)]
    pub fn normal_E(&mut self)
        requires
            old(self).wf(),
        ensures
            *final(self) == old(self).after_big_e(),
            final(self).wf(),
    {
        common::handle_E(self);
    }

    #[allow(non_snake_case)]
    pub fn normal_S(&mut self)
        requires
            old(self).wf(),
        ensures
            *final(self) == old(self).after_big_s(),
            final(self).wf(),
    {
        common::handle_S(self);
    }
}

} // verus!
