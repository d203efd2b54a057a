//! The modes and the keys: which key does what in which mode.

use vstd::prelude::*;
use crate::app::{App, Mode};
use crate::color;
use crate::command::Command;
use crate::common::{self, Motion};

verus! {

pub const KEY_BACKSPACE: char = '\x08';

pub const KEY_ENTER: char = '\x0a';

pub const KEY_ESCAPE: char = '\x1b';

pub const KEY_PAGE_DOWN: char = '\x11';

pub const KEY_PAGE_UP: char = '\x12';

/// A key as the terminal reports it.
#[derive(Clone, Copy, Debug, PartialEq, Eq, Structural)]
pub enum Key {
    /// A character, typed plainly or with shift.
    Char(char),
    /// A character typed with the control key held down.
    Control(char),
    Backspace,
    Enter,
    Escape,
    /// Any other key.
    Other,
}

/// The character under which the editor knows a key. Control with `h`, `n`
/// and `p` stands for backspace, page down and page up; any other character
/// stands for itself, with or without control; a key of no meaning is the
/// character 0.
pub open spec fn keycode(key: Key) -> char {
    match key {
        Key::Char(c) => c,
        Key::Control(c) => if c == 'h' {
            KEY_BACKSPACE
        } else if c == 'n' {
            KEY_PAGE_DOWN
        } else if c == 'p' {
            KEY_PAGE_UP
        } else {
            c
        },
        Key::Backspace => KEY_BACKSPACE,
        Key::Enter => KEY_ENTER,
        Key::Escape => KEY_ESCAPE,
        Key::Other => '\x00',
    }
}

pub fn extract_keycode(key: Key) -> (code: char)
    ensures
        code == keycode(key),
{
    match key {
        Key::Char(c) => c,
        Key::Control(c) => if c == 'h' {
            KEY_BACKSPACE
        } else if c == 'n' {
            KEY_PAGE_DOWN
        } else if c == 'p' {
            KEY_PAGE_UP
        } else {
            c
        },
        Key::Backspace => KEY_BACKSPACE,
        Key::Enter => KEY_ENTER,
        Key::Escape => KEY_ESCAPE,
        Key::Other => '\x00',
    }
}

/// A character that can be typed into a name or a command.
pub open spec fn printable(key: char) -> bool {
    '!' <= key <= '~'
}

/// The motion that a key stands for in normal mode.
pub open spec fn motion_of(key: char) -> Option<Motion> {
    if key == 'h' {
        Some(Motion::Left)
    } else if key == 'j' {
        Some(Motion::Down)
    } else if key == 'k' {
        Some(Motion::Up)
    } else if key == 'l' {
        Some(Motion::Right)
    } else if key == 'w' {
        Some(Motion::Word)
    } else if key == 'b' {
        Some(Motion::Back)
    } else if key == 's' {
        Some(Motion::LineStart)
    } else if key == 'e' {
        Some(Motion::LineEnd)
    } else if key == 'H' {
        Some(Motion::WindowTop)
    } else if key == 'M' {
        Some(Motion::WindowMiddle)
    } else if key == 'L' {
        Some(Motion::WindowBottom)
    } else if key == 'S' {
        Some(Motion::DocumentStart)
    } else if key == 'E' {
        Some(Motion::DocumentEnd)
    } else if key == KEY_PAGE_DOWN {
        Some(Motion::PageDown)
    } else if key == KEY_PAGE_UP {
        Some(Motion::PageUp)
    } else {
        None
    }
}

/// A motion that is at hand while a selection is made: the motions that go
/// one step or stay on the line.
pub open spec fn selects(m: Motion) -> bool {
    m == Motion::Left || m == Motion::Down || m == Motion::Up || m == Motion::Right || m
        == Motion::Word || m == Motion::Back || m == Motion::LineStart || m == Motion::LineEnd
}

impl App {
    /// What a key leaves in normal mode.
    pub open spec fn normal_key_gives(self, key: char, now: App) -> bool {
        if key == ':' {
            self.colon_gives(now)
        } else if key == 'm' {
            self.normal_m_gives(now)
        } else if key == 'v' {
            self.normal_v_gives(now)
        } else if key == 't' {
            self.handle_t_gives(now)
        } else if key == 'u' {
            self.untag_gives(now)
        } else {
            match motion_of(key) {
                Some(m) => now == self.after(m),
                None => now == self,
            }
        }
    }

    /// What a key leaves while a selection is made.
    pub open spec fn visual_key_gives(self, key: char, now: App) -> bool {
        if key == ':' {
            self.colon_gives(now)
        } else if key == 'm' {
            self.visual_m_gives(now)
        } else if key == 'v' {
            self.visual_v_gives(now)
        } else if key == 't' {
            self.handle_t_gives(now)
        } else if key == KEY_ESCAPE {
            self.handle_1b_gives(now)
        } else {
            match motion_of(key) {
                Some(m) => if selects(m) {
                    self.after(m).selecting(self.current_row(), now)
                } else {
                    now == self
                },
                None => now == self,
            }
        }
    }

    /// What a key leaves in the label palette.
    pub open spec fn modal_key_gives(self, key: char, now: App) -> bool {
        if key == 'm' {
            self.modal_m_gives(now)
        } else if key == KEY_ESCAPE {
            self.handle_1b_gives(now)
        } else if key == 'i' {
            self.modal_i_gives(now)
        } else if key == 'c' {
            self.modal_c_gives(now)
        } else if key == 'j' {
            self.modal_j_gives(now)
        } else if key == 'k' {
            self.modal_k_gives(now)
        } else if key == 'l' {
            self.modal_l_gives(now)
        } else if key == 'h' || key == 'v' {
            self.modal_v_gives(now)
        } else if key == 'H' || key == 'V' {
            self.modal_big_v_gives(now)
        } else if key == 'a' {
            self.modal_a_gives(now)
        } else if key == 'd' {
            self.modal_d_gives(now)
        } else if key == KEY_ENTER {
            self.modal_return_gives(now)
        } else {
            now == self
        }
    }

    /// What a key leaves while a name is edited.
    pub open spec fn name_key_gives(self, key: char, now: App) -> bool {
        if printable(key) {
            self.name_char_gives(now, key)
        } else if key == KEY_BACKSPACE {
            self.name_backspace_gives(now)
        } else if key == KEY_ENTER || key == KEY_ESCAPE {
            self.name_esc_gives(now)
        } else {
            now == self
        }
    }

    /// What a key leaves in the color picker.
    pub open spec fn color_key_gives(self, key: char, now: App) -> bool {
        if key == 'h' {
            self.color_h_gives(now)
        } else if key == 'l' {
            self.color_l_gives(now)
        } else if key == KEY_ENTER {
            self.color_0a_gives(now)
        } else if key == KEY_ESCAPE {
            self.handle_1b_gives(now)
        } else {
            now == self
        }
    }

    /// What a key leaves on the command line, and what it asks for.
    pub open spec fn command_key_gives(self, key: char, now: App, request: Command) -> bool {
        if key == KEY_ENTER {
            self.command_return_gives(now, request)
        } else {
            &&& request == Command::Nothing
            &&& if printable(key) {
                self.command_char_gives(now, key)
            } else if key == KEY_BACKSPACE {
                self.command_backspace_gives(now)
            } else if key == KEY_ESCAPE {
                self.command_esc_gives(now)
            } else {
                now == self
            }
        }
    }

    /// What a key leaves, and what it asks the caller to do. A key that
    /// means nothing in the mode leaves the state as it was; only the command
    /// line asks for anything.
    pub open spec fn key_gives(self, key: char, now: App, request: Command) -> bool {
        match self.mode {
            Mode::Command => self.command_key_gives(key, now, request),
            Mode::Modal => request == Command::Nothing && self.modal_key_gives(key, now),
            Mode::Name => request == Command::Nothing && self.name_key_gives(key, now),
            Mode::Normal => request == Command::Nothing && self.normal_key_gives(key, now),
            Mode::Visual => request == Command::Nothing && self.visual_key_gives(key, now),
            Mode::Color => request == Command::Nothing && self.color_key_gives(key, now),
        }
    }
}

/// The mode that a key leads to. The palette is left for the name or the
/// color picker only where there is a label to work on, and the command line
/// is left on enter only where the buffer holds a command.
pub open spec fn next_mode(then: App, key: char) -> Mode {
    match then.mode {
        Mode::Normal => if key == ':' {
            Mode::Command
        } else if key == 'm' {
            Mode::Modal
        } else if key == 'v' {
            Mode::Visual
        } else {
            Mode::Normal
        },
        Mode::Visual => if key == ':' {
            Mode::Command
        } else if key == 'm' {
            Mode::Modal
        } else if key == 'v' || key == 't' || key == KEY_ESCAPE {
            Mode::Normal
        } else {
            Mode::Visual
        },
        Mode::Modal => if key == 'm' || key == KEY_ESCAPE {
            Mode::Normal
        } else if key == 'i' && then.labels@.len() > 0 {
            Mode::Name
        } else if key == 'c' && then.labels@.len() > 0 {
            Mode::Color
        } else {
            Mode::Modal
        },
        Mode::Name => if key == KEY_ENTER || key == KEY_ESCAPE {
            Mode::Modal
        } else {
            Mode::Name
        },
        Mode::Color => if key == KEY_ENTER || key == KEY_ESCAPE {
            Mode::Modal
        } else {
            Mode::Color
        },
        Mode::Command => if key == KEY_ESCAPE {
            Mode::Normal
        } else if key == KEY_ENTER && crate::command::parse_command(then.command@)
            != Command::Nothing {
            Mode::Normal
        } else {
            Mode::Command
        },
    }
}

/// The modes follow one another as `next_mode` says, whatever else a key
/// does.
pub proof fn lemma_mode_follows(then: App, key: char, now: App, request: Command)
    requires
        then.wf(),
        then.key_gives(key, now, request),
    ensures
        now.mode == next_mode(then, key),
{
    if then.mode == Mode::Normal || then.mode == Mode::Visual {
        match motion_of(key) {
            Some(m) => {
                crate::common::lemma_motion_keeps_wf(then, m);
            },
            None => {},
        }
    }
}

fn is_printable(key: char) -> (b: bool)
    ensures
        b == printable(key),
{
    '!' <= key && key <= '~'
}

fn normal_key(app: &mut App, key: char)
    requires
        old(app).wf(),
    ensures
        old(app).normal_key_gives(key, *final(app)),
        final(app).wf(),
{
    if key == ':' {
        common::handle_colon(app);
    } else if key == 'm' {
        app.normal_m();
    } else if key == 'v' {
        app.normal_v();
    } else if key == 't' {
        common::handle_t(app);
    } else if key == 'u' {
        app.normal_u();
    } else if key == 'h' {
        app.normal_h();
    } else if key == 'j' {
        app.normal_j();
    } else if key == 'k' {
        app.normal_k();
    } else if key == 'l' {
        app.normal_l();
    } else if key == 'w' {
        app.normal_w();
    } else if key == 'b' {
        app.normal_b();
    } else if key == 's' {
        app.normal_s();
    } else if key == 'e' {
        app.normal_e();
    } else if key == 'H' {
        app.normal_H();
    } else if key == 'M' {
        app.normal_M();
    } else if key == 'L' {
        app.normal_L();
    } else if key == 'S' {
        app.normal_S();
    } else if key == 'E' {
        app.normal_E();
    } else if key == KEY_PAGE_DOWN {
        app.normal_pg_down();
    } else if key == KEY_PAGE_UP {
        app.normal_pg_up();
    }
}

fn visual_key(app: &mut App, key: char)
    requires
        old(app).wf(),
    ensures
        old(app).visual_key_gives(key, *final(app)),
        final(app).wf(),
{
    if key == ':' {
        common::handle_colon(app);
    } else if key == 'm' {
        app.visual_m();
    } else if key == 'v' {
        app.visual_v();
    } else if key == 't' {
        common::handle_t(app);
    } else if key == KEY_ESCAPE {
        common::handle_1b(app);
    } else if key == 'h' {
        app.visual_h();
    } else if key == 'j' {
        app.visual_j();
    } else if key == 'k' {
        app.visual_k();
    } else if key == 'l' {
        app.visual_l();
    } else if key == 'w' {
        app.visual_w();
    } else if key == 'b' {
        app.visual_b();
    } else if key == 's' {
        app.visual_s();
    } else if key == 'e' {
        app.visual_e();
    }
}

fn modal_key(app: &mut App, key: char)
    requires
        old(app).wf(),
    ensures
        old(app).modal_key_gives(key, *final(app)),
        final(app).wf(),
{
    if key == 'm' {
        app.modal_m();
    } else if key == KEY_ESCAPE {
        common::handle_1b(app);
    } else if key == 'i' {
        app.modal_i();
    } else if key == 'c' {
        app.modal_c();
    } else if key == 'j' {
        app.modal_j();
    } else if key == 'k' {
        app.modal_k();
    } else if key == 'l' {
        app.modal_l();
    } else if key == 'h' || key == 'v' {
        app.modal_v();
    } else if key == 'H' || key == 'V' {
        app.modal_V();
    } else if key == 'a' {
        app.modal_a();
    } else if key == 'd' {
        app.modal_d();
    } else if key == KEY_ENTER {
        app.modal_return();
    }
}

fn name_key(app: &mut App, key: char)
    requires
        old(app).wf(),
    ensures
        old(app).name_key_gives(key, *final(app)),
        final(app).wf(),
{
    if is_printable(key) {
        app.name_char(key);
    } else if key == KEY_BACKSPACE {
        app.name_backspace();
    } else if key == KEY_ENTER || key == KEY_ESCAPE {
        app.name_esc();
    }
}

fn color_key(app: &mut App, key: char)
    requires
        old(app).wf(),
    ensures
        old(app).color_key_gives(key, *final(app)),
        final(app).wf(),
{
    if key == 'h' {
        color::handle_h(app);
    } else if key == 'l' {
        color::handle_l(app);
    } else if key == KEY_ENTER {
        color::handle_0a(app);
    } else if key == KEY_ESCAPE {
        common::handle_1b(app);
    }
}

fn command_key(app: &mut App, key: char) -> (request: Command)
    requires
        old(app).wf(),
    ensures
        old(app).command_key_gives(key, *final(app), request),
        final(app).wf(),
{
    if key == KEY_ENTER {
        return app.command_return();
    }
    if is_printable(key) {
        app.command_char(key);
    } else if key == KEY_BACKSPACE {
        app.command_backspace();
    } else if key == KEY_ESCAPE {
        app.command_esc();
    }
    Command::Nothing
}

/// Takes one key and lets the mode decide what it does.
pub fn handle_key(app: &mut App, key: char) -> (request: Command)
    requires
        old(app).wf(),
    ensures
        old(app).key_gives(key, *final(app), request),
        final(app).wf(),
{
    match app.mode {
        Mode::Command => command_key(app, key),
        Mode::Modal => {
            modal_key(app, key);
            Command::Nothing
        },
        Mode::Name => {
            name_key(app, key);
            Command::Nothing
        },
        Mode::Normal => {
            normal_key(app, key);
            Command::Nothing
        },
        Mode::Visual => {
            visual_key(app, key);
            Command::Nothing
        },
        Mode::Color => {
            color_key(app, key);
            Command::Nothing
        },
    }
}

} // verus!
