//! The color picker: a column of the palette is chosen for the label of the
//! palette row.

use vstd::prelude::*;
use crate::app::{
    palette, palette_color, App, Color, Label, Mode, CHANGE_MODAL, CHANGE_OFFSET, CHANGE_STATUS,
    PALETTE_LEN,
};

verus! {

/// One column to the left, from the first to the last.
pub fn handle_h(app: &mut App)
    requires
        old(app).wf(),
    ensures
        old(app).color_h_gives(*final(app)),
{
    app.color_column = if app.color_column > 0 {
        app.color_column - 1
    } else {
        PALETTE_LEN - 1
    };
    app.change = app.change | CHANGE_MODAL;
}

/// One column to the right, from the last to the first.
pub fn handle_l(app: &mut App)
    requires
        old(app).wf(),
    ensures
        old(app).color_l_gives(*final(app)),
{
    app.color_column = if app.color_column + 1 < PALETTE_LEN {
        app.color_column + 1
    } else {
        0
    };
    app.change = app.change | CHANGE_MODAL;
}

/// Gives the label of the palette row the color of the chosen column and
/// goes back to the palette.
pub fn handle_0a(app: &mut App)
    requires
        old(app).wf(),
    ensures
        old(app).color_0a_gives(*final(app)),
{
    if app.labels.len() > 0 {
        let ghost before = app.labels@;
        let row: usize = app.modal_row;
        app.labels[row].color = palette(app.color_column);
        proof {
            assert forall|i: int| 0 <= i < app.labels@.len() implies (#[trigger] app.labels@[i]).wf() by {
                assert(before[i].wf());
            }
            assert forall|i: int| 0 <= i < app.labels@.len() implies ((
            #[trigger] app.labels@[i]).is_active <==> i == app.modal_active) by {
                assert(before[i].is_active <==> i == app.modal_active);
            }
            assert forall|i: int| 0 <= i < app.lines@.len() implies (#[trigger] app.lines@[i]).wf(
                app.labels@.len() as int,
            ) by {}
        }
    }
    app.set_modal_mode();
    app.change = app.change | CHANGE_MODAL | CHANGE_OFFSET | CHANGE_STATUS;
}

/// The cells of the picker, one for each color of the palette in order, each
/// with the mark of the chosen column.
pub fn render_color(app: &App) -> (cells: Vec<(Color, bool)>)
    ensures
        cells@.len() == PALETTE_LEN,
        forall|i: int|
            0 <= i < PALETTE_LEN
                ==> #[trigger] cells@[i] == (palette_color(i), i == app.color_column),
{
    let mut cells: Vec<(Color, bool)> = Vec::new();
    let mut i: usize = 0;
    while i < PALETTE_LEN
        invariant
            i <= PALETTE_LEN,
            cells@.len() == i,
            forall|j: int| 0 <= j < i
                ==> #[trigger] cells@[j] == (palette_color(j), j == app.color_column),
        decreases PALETTE_LEN - i,
    {
        cells.push((palette(i), i == app.color_column));
        i += 1;
    }
    cells
}

impl App {
    /// What stepping the picker to the left leaves.
    pub open spec fn color_h_gives(self, now: App) -> bool {
        &&& now == (App {
            color_column: if self.color_column > 0 {
                (self.color_column - 1) as usize
            } else {
                (PALETTE_LEN - 1) as usize
            },
            change: self.change | CHANGE_MODAL,
            ..self
        })
        &&& now.wf()
    }

    /// What stepping the picker to the right leaves.
    pub open spec fn color_l_gives(self, now: App) -> bool {
        &&& now == (App {
            color_column: if self.color_column + 1 < PALETTE_LEN {
                (self.color_column + 1) as usize
            } else {
                0
            },
            change: self.change | CHANGE_MODAL,
            ..self
        })
        &&& now.wf()
    }

    /// What choosing a color leaves.
    pub open spec fn color_0a_gives(self, now: App) -> bool {
        &&& now == (App {
            labels: now.labels,
            mode: Mode::Modal,
            change: self.change | CHANGE_MODAL | CHANGE_OFFSET | CHANGE_STATUS,
            ..self
        })
        &&& self.labels@.len() == 0 ==> now.labels@ == self.labels@
        &&& self.labels@.len() > 0 ==> now.labels@ == self.labels@.update(
            self.modal_row as int,
            Label {
                color: palette_color(self.color_column as int),
                ..self.labels@[self.modal_row as int]
            },
        )
        &&& now.wf()
    }
}

} // verus!
