//! The commands that a user gives to a running session.

use crate::mode::Mode;
use crate::state::{initial, EncounterState, StateView};
use vstd::prelude::*;

verus! {

/// A command from outside, wherever it comes from.
#[derive(Clone, Copy, Debug, PartialEq, Eq, Structural)]
pub enum Command {
    /// Start or resume detection.
    Start,
    /// Suspend detection.
    Pause,
    /// Take the next operating profile.
    CycleToggle,
    /// Replace the record by the default one.
    Reset,
    /// Switch the keeping of frames for inspection on or off.
    ToggleDebug,
    /// End the session.
    Quit,
}

/// What the runner has to do once a command has been applied.
#[derive(Clone, Copy, Debug, PartialEq, Eq, Structural)]
pub enum Followup {
    /// Nothing; the record is saved at the end of the tick as always.
    Nothing,
    /// Save the record at once.
    Save,
    /// Leave the tick loop.
    Exit,
}

/// The command that a key stands for.
pub open spec fn key_command(key: char) -> Option<Command> {
    if key == 'q' {
        Some(Command::Quit)
    } else if key == 's' {
        Some(Command::Start)
    } else if key == 'd' {
        Some(Command::ToggleDebug)
    } else if key == 'p' {
        Some(Command::Pause)
    } else if key == 't' {
        Some(Command::CycleToggle)
    } else if key == 'r' {
        Some(Command::Reset)
    } else {
        None
    }
}

/// The record after a command.
pub open spec fn commanded(s: StateView, c: Command) -> StateView {
    match c {
        Command::Start => StateView { mode: Mode::Walk, ..s },
        Command::Pause => StateView { mode: Mode::Pause, ..s },
        Command::CycleToggle => StateView { toggle: s.toggle.successor(), ..s },
        Command::Reset => initial(),
        Command::ToggleDebug => StateView { debug: !s.debug, ..s },
        Command::Quit => s,
    }
}

/// What the runner has to do after a command.
pub open spec fn followup(c: Command) -> Followup {
    match c {
        Command::Reset => Followup::Save,
        Command::Quit => Followup::Exit,
        _ => Followup::Nothing,
    }
}

impl Command {
    /// The command that a pressed key stands for, if it stands for one.
    pub fn from_key(key: char) -> (c: Option<Command>)
        ensures
            c == key_command(key),
    {
        if key == 'q' {
            Some(Command::Quit)
        } else if key == 's' {
            Some(Command::Start)
        } else if key == 'd' {
            Some(Command::ToggleDebug)
        } else if key == 'p' {
            Some(Command::Pause)
        } else if key == 't' {
            Some(Command::CycleToggle)
        } else if key == 'r' {
            Some(Command::Reset)
        } else {
            None
        }
    }
}

impl EncounterState {
    /// Applies a command to the record and says what the runner has to do
    /// next.
    pub fn command(&mut self, c: Command) -> (f: Followup)
        requires
            old(self).wf(),
        ensures
            final(self).wf(),
            final(self)@ == commanded(old(self)@, c),
            f == followup(c),
    {
        match c {
            Command::Start => {
                self.mode = Mode::Walk;
                Followup::Nothing
            },
            Command::Pause => {
                self.mode = Mode::Pause;
                Followup::Nothing
            },
            Command::CycleToggle => {
                self.toggle = self.toggle.next();
                Followup::Nothing
            },
            Command::Reset => {
                *self = EncounterState::default();
                Followup::Save
            },
            Command::ToggleDebug => {
                self.debug = !self.debug;
                Followup::Nothing
            },
            Command::Quit => Followup::Exit,
        }
    }
}

} // verus!
