//! The command line: a buffer that is typed into, and what it asks for when
//! it is sent off.

use vstd::prelude::*;
use crate::app::{App, Mode, CHANGE_COMMAND, CHANGE_STATUS};
use crate::text::{prefix_of, push_char, same_text};

verus! {

/// What a command asks the caller to do.
#[derive(Clone, Copy, Debug, PartialEq, Eq, Structural)]
pub enum Command {
    Nothing,
    Quit,
    Write,
    Debug,
}

/// The command that a text stands for; a text that is no command stands for
/// nothing.
pub open spec fn parse_command(text: Seq<char>) -> Command {
    if text == "q"@ || text == "quit"@ {
        Command::Quit
    } else if text == "w"@ || text == "write"@ {
        Command::Write
    } else if text == "d"@ || text == "debug"@ {
        Command::Debug
    } else {
        Command::Nothing
    }
}

impl App {
    pub fn is_command_mode(&self) -> (b: bool)
        ensures
            b == (self.mode == Mode::Command),
    {
        self.mode == Mode::Command
    }

    pub fn set_command_mode(&mut self)
        ensures
            *final(self) == (App { mode: Mode::Command, ..*old(self) }),
    {
        self.mode = Mode::Command;
    }

    /// What typing a character into the command line leaves.
    pub open spec fn command_char_gives(self, now: App, c: char) -> bool {
        &&& now == (App {
            command: now.command,
            change: self.change | CHANGE_COMMAND,
            ..self
        })
        &&& now.command@ == self.command@.push(c)
    }

    pub fn command_char(&mut self, c: char)
        ensures
            old(self).command_char_gives(*final(self), c),
    {
        push_char(&mut self.command, c);
        self.change = self.change | CHANGE_COMMAND;
    }

    /// What taking a character off the command line leaves.
    pub open spec fn command_backspace_gives(self, now: App) -> bool {
        &&& self.command@.len() == 0 ==> now == self
        &&& self.command@.len() > 0 ==> {
            &&& now == (App {
                command: now.command,
                change: self.change | CHANGE_COMMAND,
                ..self
            })
            &&& now.command@ == self.command@.drop_last()
        }
    }

    pub fn command_backspace(&mut self)
        ensures
            old(self).command_backspace_gives(*final(self)),
    {
        let len: usize = self.command.as_str().unicode_len();
        if len > 0 {
            let shorter = prefix_of(self.command.as_str(), len - 1);
            assert(shorter@ =~= self.command@.drop_last());
            self.command = shorter;
            self.change = self.change | CHANGE_COMMAND;
        }
    }

    /// What giving the command up leaves.
    pub open spec fn command_esc_gives(self, now: App) -> bool {
        &&& now == (App {
            command: now.command,
            mode: Mode::Normal,
            change: self.change | CHANGE_STATUS,
            ..self
        })
        &&& now.command@.len() == 0
    }

    /// Gives the command up.
    pub fn command_esc(&mut self)
        ensures
            old(self).command_esc_gives(*final(self)),
    {
        self.command = String::new();
        self.set_normal_mode();
        self.change = self.change | CHANGE_STATUS;
    }

    /// What sending the command off leaves, and what it asks for.
    pub open spec fn command_return_gives(self, now: App, request: Command) -> bool {
        &&& request == parse_command(self.command@)
        &&& request == Command::Nothing ==> now == (App {
            change: self.change | CHANGE_STATUS,
            ..self
        })
        &&& request != Command::Nothing ==> {
            &&& now == (App {
                command: now.command,
                mode: Mode::Normal,
                change: self.change | CHANGE_STATUS,
                ..self
            })
            &&& now.command@.len() == 0
        }
    }

    /// Sends the command off and says what it asks for. A command empties
    /// the buffer and leads back to normal mode. A text that is no command
    /// stays in the buffer, to be corrected.
    pub fn command_return(&mut self) -> (request: Command)
        ensures
            old(self).command_return_gives(*final(self), request),
    {
        self.change = self.change | CHANGE_STATUS;
        let text = self.command.as_str();
        if same_text(text, "q") || same_text(text, "quit") {
            self.command = String::new();
            self.set_normal_mode();
            Command::Quit
        } else if same_text(text, "w") || same_text(text, "write") {
            self.command = String::new();
            self.set_normal_mode();
            Command::Write
        } else if same_text(text, "d") || same_text(text, "debug") {
            self.command = String::new();
            self.set_normal_mode();
            Command::Debug
        } else {
            Command::Nothing
        }
    }
}

} // verus!
