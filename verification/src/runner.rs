//! What the runner of the tick loop does when something fails.

use crate::state::{restore, resume, resumed, restored, view_of, EncounterState};
use vstd::prelude::*;

verus! {

/// What can fail in a session.
#[derive(Clone, Copy, Debug, PartialEq, Eq, Structural)]
pub enum Failure {
    /// The window of the game was not found.
    FrameSourceUnavailable,
    /// The text of a frame could not be recognized.
    RecognitionFailure,
    /// The stored record is missing or cannot be read.
    PersistenceReadFailure,
    /// The record could not be stored.
    PersistenceWriteFailure,
}

/// How a failure is answered.
#[derive(Clone, Copy, Debug, PartialEq, Eq, Structural)]
pub enum Remedy {
    /// Go on with the default record.
    UseDefault,
    /// Leave the tick and try once to start again.
    Restart,
}

/// How a try to start again ends.
#[derive(Clone, Copy, Debug, PartialEq, Eq, Structural)]
pub enum Restart {
    /// The window of the game was found again: go on, in an encounter.
    Resume,
    /// The window of the game is gone: give up.
    Fatal,
}

impl Failure {
    /// A record that cannot be read is replaced by the default one where the
    /// failure occurs; every other failure ends the tick and leads to one try
    /// to start again.
    pub open spec fn remedy_of(self) -> Remedy {
        match self {
            Failure::PersistenceReadFailure => Remedy::UseDefault,
            _ => Remedy::Restart,
        }
    }

    /// How this failure is answered.
    pub fn remedy(&self) -> (r: Remedy)
        ensures
            r == self.remedy_of(),
    {
        match self {
            Failure::PersistenceReadFailure => Remedy::UseDefault,
            _ => Remedy::Restart,
        }
    }
}

/// How one try to start again ends, given whether the window of the game was
/// found.
pub open spec fn restart_of(window_found: bool) -> Restart {
    if window_found {
        Restart::Resume
    } else {
        Restart::Fatal
    }
}

/// Decides how one try to start again ends.
pub fn restart(window_found: bool) -> (r: Restart)
    ensures
        r == restart_of(window_found),
{
    if window_found {
        Restart::Resume
    } else {
        Restart::Fatal
    }
}

/// The record with which the runner goes on: at the start of a session what
/// the store gave, with the mode at `Init`; after a restart the same, but in
/// an encounter.
pub fn opening_record(loaded: Option<EncounterState>, restarted: bool) -> (s: EncounterState)
    requires
        loaded matches Some(l) ==> l.wf(),
    ensures
        s.wf(),
        s@ == if restarted {
            resumed(view_of(loaded))
        } else {
            restored(view_of(loaded))
        },
{
    if restarted {
        resume(loaded)
    } else {
        restore(loaded)
    }
}

} // verus!
