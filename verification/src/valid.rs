//! Checking a state that comes from outside, such as a stored session,
//! before the editor works on it.

use vstd::prelude::*;
use crate::app::{one_active, tag_table, App, Label, Line, NAME_MAX, PALETTE_LEN};
use crate::chain::{
    find_next, joint_ok, lemma_next_at, lemma_next_index, linked, next_index, row_ok,
};
use crate::text::max;

verus! {

/// Whether a line is well formed, stands at `index`, and has its tags in
/// order.
fn line_valid(line: &Line, index: usize, nlabels: usize) -> (ok: bool)
    ensures
        ok == (line.wf(nlabels as int) && line.virtual_row == index && row_ok(line.tags@)),
{
    if line.virtual_row != index {
        return false;
    }
    if !crate::text::is_single_line(line.text.as_str()) {
        return false;
    }
    if line.text.as_str().unicode_len() != line.width {
        return false;
    }
    let count: usize = line.tags.len();
    let next: usize = find_next(&line.tags);
    proof {
        lemma_next_index(line.tags@, 0);
    }
    let mut j: usize = 0;
    while j < count
        invariant
            j <= count,
            count == line.tags@.len(),
            next == next_index(line.tags@, 0),
            next <= count,
            next < count ==> line.tags@[next as int].has_line_next,
            forall|k: int|
                0 <= k < j ==> {
                    &&& (#[trigger] line.tags@[k]).fits(line.width as int, nlabels as int)
                    &&& line.tags@[k].has_line_prev ==> k == 0
                    &&& line.tags@[k].has_line_next ==> k == next
                },
        decreases count - j,
    {
        let tag = line.tags[j];
        if !(tag.start < tag.end && tag.end <= line.width && tag.label < nlabels) {
            assert(!line.tags@[j as int].fits(line.width as int, nlabels as int));
            return false;
        }
        if (tag.has_line_prev && j != 0) || (tag.has_line_next && j != next) {
            assert(!row_ok(line.tags@)) by {
                if row_ok(line.tags@) {
                    if tag.has_line_next {
                        lemma_next_at(line.tags@, j as int);
                    }
                }
            }
            return false;
        }
        j += 1;
    }
    true
}

/// Whether the lines are well formed and every continuation has its
/// sibling.
fn lines_valid(lines: &Vec<Line>, nlabels: usize) -> (ok: bool)
    ensures
        ok == ((forall|i: int| 0 <= i < lines@.len() ==> (#[trigger] lines@[i]).wf(nlabels as int)) && (
        forall|i: int| 0 <= i < lines@.len() ==> (#[trigger] lines@[i]).virtual_row == i) && linked(
            tag_table(lines@),
        )),
{
    let ghost t = tag_table(lines@);
    let count: usize = lines.len();
    let mut i: usize = 0;
    while i < count
        invariant
            i <= count,
            count == lines@.len(),
            t == tag_table(lines@),
            forall|k: int|
                0 <= k < i ==> {
                    &&& (#[trigger] lines@[k]).wf(nlabels as int)
                    &&& lines@[k].virtual_row == k
                    &&& row_ok(lines@[k].tags@)
                },
            forall|b: int| -1 <= b < i - 1 ==> #[trigger] joint_ok(t, b),
        decreases count - i,
    {
        if !line_valid(&lines[i], i, nlabels) {
            proof {
                if linked(t) {
                    assert(row_ok(t[i as int]));
                }
            }
            return false;
        }
        let tags = &lines[i].tags;
        let starts: bool = tags.len() > 0 && tags[0].has_line_prev;
        assert(t[i as int] == lines@[i as int].tags@);
        if i == 0 {
            if starts {
                assert(!joint_ok(t, -1));
                return false;
            }
            assert(joint_ok(t, -1));
        } else {
            let above = &lines[i - 1].tags;
            assert(t[i - 1] == lines@[i - 1].tags@);
            let next: usize = find_next(above);
            let ends: bool = next < above.len();
            if ends != starts {
                assert(!joint_ok(t, i - 1));
                return false;
            }
            if ends && above[next].label != tags[0].label {
                assert(!joint_ok(t, i - 1));
                return false;
            }
            assert(joint_ok(t, i - 1));
        }
        i += 1;
    }
    if count > 0 {
        let last = &lines[count - 1].tags;
        assert(t[count - 1] == lines@[count - 1].tags@);
        if find_next(last) < last.len() {
            assert(!joint_ok(t, count - 1));
            return false;
        }
        assert(joint_ok(t, count - 1));
    }
    proof {
        assert forall|k: int| 0 <= k < t.len() implies row_ok(#[trigger] t[k]) by {
            assert(row_ok(lines@[k].tags@));
        }
    }
    true
}

/// Whether the labels are well formed and exactly the one at `active` is
/// marked active.
fn labels_valid(labels: &Vec<Label>, active: usize) -> (ok: bool)
    ensures
        ok == ((forall|i: int| 0 <= i < labels@.len()
            ==> (#[trigger] labels@[i]).wf()) && one_active(
            labels@,
            active as int,
        )),
{
    let count: usize = labels.len();
    if count == 0 {
        return active == 0;
    }
    if active >= count {
        return false;
    }
    let mut i: usize = 0;
    while i < count
        invariant
            i <= count,
            count == labels@.len(),
            active < count,
            forall|k: int|
                0 <= k < i ==> (#[trigger] labels@[k]).wf()
                    && (labels@[k].is_active <==> k == active),
        decreases count - i,
    {
        if labels[i].name.as_str().unicode_len() > NAME_MAX {
            assert(!labels@[i as int].wf());
            return false;
        }
        if labels[i].is_active != (i == active) {
            assert(!(labels@[i as int].is_active <==> i == active));
            return false;
        }
        i += 1;
    }
    true
}

impl App {
    /// Whether every region of the selection lies on a line and on its
    /// cells.
    fn visual_valid(&self) -> (ok: bool)
        ensures
            ok == self.visual_wf(),
    {
        let count: usize = self.visual.len();
        let mut i: usize = 0;
        while i < count
            invariant
                i <= count,
                count == self.visual@.len(),
                forall|k: int|
                    0 <= k < i ==> {
                        &&& (#[trigger] self.visual@[k]).row < self.lines@.len()
                        &&& self.visual@[k].start < max(
                            1,
                            self.lines@[self.visual@[k].row as int].width as int,
                        )
                        &&& self.visual@[k].end < max(
                            1,
                            self.lines@[self.visual@[k].row as int].width as int,
                        )
                    },
            decreases count - i,
        {
            let v = self.visual[i];
            if v.row >= self.lines.len() {
                assert(!(self.visual@[i as int].row < self.lines@.len()));
                return false;
            }
            let width: usize = self.lines[v.row].width;
            let most: usize = if width > 1 {
                width
            } else {
                1
            };
            if v.start >= most || v.end >= most {
                assert(!(self.visual@[i as int].start < max(
                    1,
                    self.lines@[self.visual@[i as int].row as int].width as int,
                ) && self.visual@[i as int].end < max(
                    1,
                    self.lines@[self.visual@[i as int].row as int].width as int,
                )));
                return false;
            }
            i += 1;
        }
        true
    }

    /// Whether the cursor is on a cell of a line of the document.
    fn cursor_valid(&self) -> (ok: bool)
        ensures
            ok == self.cursor_wf(),
    {
        let len: usize = self.lines.len();
        if len == 0 {
            self.cursor_row == 0 && self.offset_row == 0 && self.cursor_column == 0
        } else if self.cursor_row < len && self.offset_row < len - self.cursor_row {
            let width: usize = self.lines[self.cursor_row + self.offset_row].width;
            if width > 1 {
                self.cursor_column < width
            } else {
                self.cursor_column < 1
            }
        } else {
            false
        }
    }

    /// Whether the state is one that the editor can be in. A state that
    /// fails here must not be worked on.
    pub fn is_valid(&self) -> (ok: bool)
        ensures
            ok == self.wf(),
    {
        let count: usize = self.labels.len();
        let row_limit: usize = if count > 1 {
            count
        } else {
            1
        };
        self.nlines == self.lines.len() && lines_valid(&self.lines, count) && labels_valid(
            &self.labels,
            self.modal_active,
        ) && self.rng < PALETTE_LEN && self.color_column < PALETTE_LEN && self.modal_row < row_limit
            && self.modal_start_column <= 0xFFFF && self.modal_start_row <= 0xFFFF
            && self.cursor_valid() && self.visual_valid()
    }
}

} // verus!
