//! Editing the name of the label of the palette row.

use vstd::prelude::*;
use crate::app::{App, Label, Mode, CHANGE_MODAL, CHANGE_OFFSET, CHANGE_ROW, CHANGE_STATUS, NAME_MAX};
use crate::text::{prefix_of, push_char};

verus! {

impl App {
    pub fn is_name_mode(&self) -> (b: bool)
        ensures
            b == (self.mode == Mode::Name),
    {
        self.mode == Mode::Name
    }

    /// The column of the screen behind the name of the label of the palette
    /// row, where the next character goes.
    pub open spec fn name_column(self) -> int {
        if self.modal_row < self.labels@.len() {
            self.modal_start_column + self.labels@[self.modal_row as int].name@.len() + 19
        } else {
            self.modal_start_column + 19
        }
    }

    /// Goes to name mode, with the cursor behind the name.
    pub fn set_name_mode(&mut self)
        requires
            old(self).wf(),
        ensures
            *final(self) == (App {
                mode: Mode::Name,
                modal_column: old(self).name_column() as usize,
                ..*old(self)
            }),
            final(self).wf(),
    {
        self.place_name_cursor();
        self.mode = Mode::Name;
    }

    fn place_name_cursor(&mut self)
        requires
            old(self).modal_start_column <= u16::MAX,
            forall|i: int| 0 <= i < old(self).labels@.len()
                ==> (#[trigger] old(self).labels@[i]).wf(),
        ensures
            *final(self) == (App { modal_column: old(self).name_column() as usize, ..*old(self) }),
    {
        let len: usize = if self.modal_row < self.labels.len() {
            self.labels[self.modal_row].name.as_str().unicode_len()
        } else {
            0
        };
        self.modal_column = self.modal_start_column + len + 19;
    }

    /// What taking a character off the name leaves.
    pub open spec fn name_backspace_gives(self, now: App) -> bool {
        &&& now.wf()
        &&& now == (App {
            labels: now.labels,
            modal_column: now.modal_column,
            change: now.change,
            ..self
        })
        &&& self.modal_row < self.labels@.len()
            && self.labels@[self.modal_row as int].name@.len() > 0 ==> {
            let row = self.modal_row as int;
            &&& now.labels@.len() == self.labels@.len()
            &&& now.labels@[row].name@ == self.labels@[row].name@.drop_last()
            &&& now.labels@[row].color == self.labels@[row].color
            &&& now.labels@[row].is_active == self.labels@[row].is_active
            &&& now.labels@[row].is_visible == self.labels@[row].is_visible
            &&& forall|i: int|
                0 <= i < self.labels@.len() && i != row ==> #[trigger] now.labels@[i]
                    == self.labels@[i]
            &&& now.modal_column == now.name_column()
            &&& now.change == self.change | CHANGE_MODAL | CHANGE_ROW
                | CHANGE_STATUS
        }
        &&& !(self.modal_row < self.labels@.len()
            && self.labels@[self.modal_row as int].name@.len() > 0) ==> now == self
    }

    /// Takes the last character off the name.
    pub fn name_backspace(&mut self)
        requires
            old(self).wf(),
        ensures
            old(self).name_backspace_gives(*final(self)),
    {
        if self.modal_row < self.labels.len() {
            let row: usize = self.modal_row;
            let len: usize = self.labels[row].name.as_str().unicode_len();
            if len > 0 {
                let ghost before = self.labels@;
                let shorter = prefix_of(self.labels[row].name.as_str(), len - 1);
                self.labels[row].name = shorter;
                proof {
                    assert(self.labels@[row as int].name@ =~= before[row as int].name@.drop_last());
                    self.lemma_renamed(*old(self), before);
                }
                self.place_name_cursor();
                self.change = self.change | CHANGE_MODAL | CHANGE_ROW | CHANGE_STATUS;
            }
        }
    }

    /// What typing a character into the name leaves.
    pub open spec fn name_char_gives(self, now: App, c: char) -> bool {
        &&& now.wf()
        &&& now == (App {
            labels: now.labels,
            modal_column: now.modal_column,
            change: now.change,
            ..self
        })
        &&& self.modal_row < self.labels@.len()
            && self.labels@[self.modal_row as int].name@.len() < NAME_MAX ==> {
            let row = self.modal_row as int;
            &&& now.labels@.len() == self.labels@.len()
            &&& now.labels@[row].name@ == self.labels@[row].name@.push(c)
            &&& now.labels@[row].color == self.labels@[row].color
            &&& now.labels@[row].is_active == self.labels@[row].is_active
            &&& now.labels@[row].is_visible == self.labels@[row].is_visible
            &&& forall|i: int|
                0 <= i < self.labels@.len() && i != row ==> #[trigger] now.labels@[i]
                    == self.labels@[i]
            &&& now.modal_column == now.name_column()
            &&& now.change == self.change | CHANGE_MODAL | CHANGE_ROW
                | CHANGE_STATUS
        }
        &&& !(self.modal_row < self.labels@.len()
            && self.labels@[self.modal_row as int].name@.len() < NAME_MAX) ==> now == self
    }

    /// Adds a character to the name, as long as the name has room.
    pub fn name_char(&mut self, c: char)
        requires
            old(self).wf(),
        ensures
            old(self).name_char_gives(*final(self), c),
    {
        if self.modal_row < self.labels.len() {
            let row: usize = self.modal_row;
            let len: usize = self.labels[row].name.as_str().unicode_len();
            if len < NAME_MAX {
                let ghost before = self.labels@;
                push_char(&mut self.labels[row].name, c);
                proof {
                    self.lemma_renamed(*old(self), before);
                }
                self.place_name_cursor();
                self.change = self.change | CHANGE_MODAL | CHANGE_ROW | CHANGE_STATUS;
            }
        }
    }

    /// A state stays well formed when one label gets another name that is
    /// not too long.
    proof fn lemma_renamed(self, then: App, before: Seq<Label>)
        requires
            then.wf(),
            before == then.labels@,
            self == (App { labels: self.labels, ..then }),
            self.labels@.len() == before.len(),
            self.modal_row < before.len(),
            self.labels@[self.modal_row as int].name@.len() <= NAME_MAX,
            self.labels@[self.modal_row as int].is_active
                == before[self.modal_row as int].is_active,
            forall|i: int|
                0 <= i < before.len() && i != self.modal_row ==> #[trigger] self.labels@[i]
                    == before[i],
        ensures
            self.wf(),
    {
        assert forall|i: int| 0 <= i < self.labels@.len() implies (#[trigger] self.labels@[i]).wf() by {
            assert(before[i].wf());
        }
        assert forall|i: int| 0 <= i < self.labels@.len() implies ((
        #[trigger] self.labels@[i]).is_active <==> i == self.modal_active) by {
            assert(before[i].is_active <==> i == then.modal_active);
        }
        assert forall|i: int| 0 <= i < self.lines@.len() implies (#[trigger] self.lines@[i]).wf(
            self.labels@.len() as int,
        ) by {
            assert(then.lines@[i].wf(before.len() as int));
        }
    }

    /// What ending the editing of a name leaves.
    pub open spec fn name_esc_gives(self, now: App) -> bool {
        &&& now == (App {
            mode: Mode::Modal,
            change: self.change | CHANGE_MODAL | CHANGE_ROW | CHANGE_OFFSET
                | CHANGE_STATUS,
            ..self
        })
    }

    /// Ends the editing of the name and goes back to the palette.
    pub fn name_esc(&mut self)
        ensures
            old(self).name_esc_gives(*final(self)),
    {
        self.set_modal_mode();
        self.change = self.change | CHANGE_MODAL | CHANGE_ROW | CHANGE_OFFSET | CHANGE_STATUS;
    }
}

} // verus!
