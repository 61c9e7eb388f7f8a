//! The lifecycle mode of the counter and the operating profile.

use vstd::prelude::*;
use vstd::string::*;

verus! {

/// Where the counter stands in its lifecycle. Frames are sampled only while
/// walking or in an encounter.
#[derive(Clone, Copy, Debug, PartialEq, Eq, Structural)]
pub enum Mode {
    Init,
    Encounter,
    Walk,
    Pause,
}

impl Mode {
    /// Frames are sampled in this mode.
    pub open spec fn is_sampling(self) -> bool {
        self == Mode::Walk || self == Mode::Encounter
    }

    /// Tells whether frames are sampled in this mode.
    pub fn samples(&self) -> (r: bool)
        ensures
            r == self.is_sampling(),
    {
        match self {
            Mode::Walk | Mode::Encounter => true,
            Mode::Init | Mode::Pause => false,
        }
    }

    /// The text shown for this mode.
    pub open spec fn label_text(self) -> Seq<char> {
        match self {
            Mode::Init => "Init, Press S to start."@,
            Mode::Encounter => "Encounter"@,
            Mode::Walk => "Walk"@,
            Mode::Pause => "Pause"@,
        }
    }

    /// The text shown for this mode.
    pub fn label(&self) -> (text: String)
        ensures
            text@ == self.label_text(),
    {
        match self {
            Mode::Init => String::from_str("Init, Press S to start."),
            Mode::Encounter => String::from_str("Encounter"),
            Mode::Walk => String::from_str("Walk"),
            Mode::Pause => String::from_str("Pause"),
        }
    }
}

/// Operating profile; it selects the pause between two sampled frames.
#[derive(Clone, Copy, Debug, PartialEq, Eq, Structural)]
pub enum Toggle {
    Exp,
    Runaway,
    Safari,
}

impl Toggle {
    /// Milliseconds to wait between two frames of one tick.
    pub open spec fn delay_ms(self) -> u64 {
        match self {
            Toggle::Exp => 2000,
            Toggle::Runaway => 800,
            Toggle::Safari => 200,
        }
    }

    /// Milliseconds to wait between two frames of one tick.
    pub fn to_num(&self) -> (ms: u64)
        ensures
            ms == self.delay_ms(),
    {
        match self {
            Toggle::Exp => 2000,
            Toggle::Runaway => 800,
            Toggle::Safari => 200,
        }
    }

    /// The profile that follows this one in the cycle
    /// Exp, Runaway, Safari, Exp.
    pub open spec fn successor(self) -> Toggle {
        match self {
            Toggle::Exp => Toggle::Runaway,
            Toggle::Runaway => Toggle::Safari,
            Toggle::Safari => Toggle::Exp,
        }
    }

    /// The profile that follows this one in the cycle.
    pub fn next(&self) -> (t: Toggle)
        ensures
            t == self.successor(),
    {
        match self {
            Toggle::Exp => Toggle::Runaway,
            Toggle::Runaway => Toggle::Safari,
            Toggle::Safari => Toggle::Exp,
        }
    }

    /// The text shown for this profile.
    pub open spec fn label_text(self) -> Seq<char> {
        match self {
            Toggle::Exp => "Exp Mode"@,
            Toggle::Runaway => "Runaway Mode"@,
            Toggle::Safari => "Safari Mode"@,
        }
    }

    /// The text shown for this profile.
    pub fn label(&self) -> (text: String)
        ensures
            text@ == self.label_text(),
    {
        match self {
            Toggle::Exp => String::from_str("Exp Mode"),
            Toggle::Runaway => String::from_str("Runaway Mode"),
            Toggle::Safari => String::from_str("Safari Mode"),
        }
    }
}

} // verus!
