//! The persisted record and the state machine that the verdicts drive.

use crate::consensus::{resolve, resolved, select, Verdict, VerdictView};
use crate::mode::{Mode, Toggle};
use crate::reading::{texts, views, Reading, ReadingView};
use crate::stats::{has_room, tallied, MonStats};
use vstd::prelude::*;
use vstd::string::*;

verus! {

/// The record of a session: what is counted, and where the counter stands.
#[derive(Debug)]
pub struct EncounterState {
    /// Encounters counted so far.
    pub encounters: u32,
    /// The species of the encounter accepted last.
    pub last_encounter: Vec<String>,
    pub mode: Mode,
    /// Encounters counted per species.
    pub mon_stats: MonStats,
    /// A lure was active when the mode last changed.
    pub lure_on: bool,
    pub toggle: Toggle,
    /// The most recent processed frame is to be kept for inspection.
    pub debug: bool,
}

/// An `EncounterState` as plain values.
pub struct StateView {
    pub encounters: nat,
    pub last_encounter: Seq<Seq<char>>,
    pub mode: Mode,
    pub mon_stats: Map<Seq<char>, nat>,
    pub lure_on: bool,
    pub toggle: Toggle,
    pub debug: bool,
}

impl View for EncounterState {
    type V = StateView;

    open spec fn view(&self) -> StateView {
        StateView {
            encounters: self.encounters as nat,
            last_encounter: texts(self.last_encounter@),
            mode: self.mode,
            mon_stats: self.mon_stats@,
            lure_on: self.lure_on,
            toggle: self.toggle,
            debug: self.debug,
        }
    }
}

/// The record of a session in which nothing has happened yet.
pub open spec fn initial() -> StateView {
    StateView {
        encounters: 0,
        last_encounter: Seq::empty(),
        mode: Mode::Init,
        mon_stats: Map::empty(),
        lure_on: false,
        toggle: Toggle::Runaway,
        debug: false,
    }
}

/// The record after a verdict. Walking and a detection start an encounter and
/// count it; an encounter that is cleared ends. Nothing else changes the
/// record.
pub open spec fn after(s: StateView, v: VerdictView) -> StateView {
    match (s.mode, v) {
        (Mode::Walk, VerdictView::Detected { names, lure }) => StateView {
            encounters: s.encounters + names.len(),
            last_encounter: names,
            mode: Mode::Encounter,
            mon_stats: tallied(s.mon_stats, names),
            lure_on: lure,
            ..s
        },
        (Mode::Encounter, VerdictView::Cleared { lure }) => StateView {
            mode: Mode::Walk,
            lure_on: lure,
            ..s
        },
        _ => s,
    }
}

/// The counters of `s` can take what the verdict adds.
pub open spec fn takes(s: StateView, v: VerdictView) -> bool {
    match (s.mode, v) {
        (Mode::Walk, VerdictView::Detected { names, lure }) => {
            &&& s.encounters + names.len() <= u32::MAX
            &&& has_room(s.mon_stats, names)
        },
        _ => true,
    }
}

/// The record after one tick with the given readings.
pub open spec fn step(s: StateView, rs: Seq<ReadingView>) -> StateView {
    match resolved(s.mode, rs) {
        Some(v) => after(s, v),
        None => s,
    }
}

/// The counters of `s` can take what a tick with the given readings adds.
pub open spec fn fits(s: StateView, rs: Seq<ReadingView>) -> bool {
    match resolved(s.mode, rs) {
        Some(v) => takes(s, v),
        None => true,
    }
}

impl Default for EncounterState {
    fn default() -> (s: EncounterState)
        ensures
            s.wf(),
            s@ == initial(),
    {
        let s = EncounterState {
            encounters: 0,
            last_encounter: Vec::new(),
            mode: Mode::Init,
            mon_stats: MonStats::new(),
            lure_on: false,
            toggle: Toggle::Runaway,
            debug: false,
        };
        assert(s@.last_encounter =~= Seq::<Seq<char>>::empty());
        s
    }
}

impl EncounterState {
    /// The species counts hold each species once.
    pub open spec fn wf(&self) -> bool {
        self.mon_stats.wf()
    }

    /// Tests whether the counters can take what a tick with the given
    /// readings adds.
    pub fn can_take(&self, readings: &Vec<Reading>) -> (r: bool)
        requires
            self.wf(),
        ensures
            r == fits(self@, views(readings@)),
    {
        match self.mode {
            Mode::Walk => match select(readings) {
                Some(i) => {
                    let names = &readings[i].names;
                    names.len() <= (u32::MAX - self.encounters) as usize
                        && self.mon_stats.has_room_for(names)
                },
                None => true,
            },
            _ => true,
        }
    }

    /// Applies a verdict to the record, as the transition table says.
    pub fn apply(&mut self, verdict: Verdict)
        requires
            old(self).wf(),
            takes(old(self)@, verdict@),
        ensures
            final(self).wf(),
            final(self)@ == after(old(self)@, verdict@),
    {
        match verdict {
            Verdict::Detected { names, lure } => {
                if let Mode::Walk = self.mode {
                    self.encounters = self.encounters + names.len() as u32;
                    self.mon_stats.tally(&names);
                    self.last_encounter = names;
                    self.mode = Mode::Encounter;
                    self.lure_on = lure;
                }
            },
            Verdict::Cleared { lure } => {
                if let Mode::Encounter = self.mode {
                    self.mode = Mode::Walk;
                    self.lure_on = lure;
                }
            },
            Verdict::Engaged | Verdict::NoDetection => {},
        }
    }
}

/// What the record is at the start of a session: the default where nothing
/// could be loaded, else what was loaded, with the mode back at `Init`.
pub open spec fn restored(loaded: Option<StateView>) -> StateView {
    match loaded {
        Some(s) => StateView { mode: Mode::Init, ..s },
        None => initial(),
    }
}

/// What the record is when a running session is taken up again after a
/// failure: as at the start of a session, but in an encounter.
pub open spec fn resumed(loaded: Option<StateView>) -> StateView {
    StateView { mode: Mode::Encounter, ..restored(loaded) }
}

/// The views of a record that may be missing.
pub open spec fn view_of(loaded: Option<EncounterState>) -> Option<StateView> {
    match loaded {
        Some(s) => Some(s@),
        None => None,
    }
}

/// The record with which a session starts, from what the store gave: `None`
/// stands for a record that is missing or could not be read. Detection never
/// starts by itself: the mode of a loaded record is set back to `Init`.
pub fn restore(loaded: Option<EncounterState>) -> (s: EncounterState)
    requires
        loaded matches Some(l) ==> l.wf(),
    ensures
        s.wf(),
        s@ == restored(view_of(loaded)),
{
    match loaded {
        Some(record) => {
            let mut s = record;
            s.mode = Mode::Init;
            s
        },
        None => EncounterState::default(),
    }
}

/// The record with which a session is taken up again after a failure: as
/// `restore` gives it, but in an encounter, so that no encounter that is
/// still on screen is counted twice.
pub fn resume(loaded: Option<EncounterState>) -> (s: EncounterState)
    requires
        loaded matches Some(l) ==> l.wf(),
    ensures
        s.wf(),
        s@ == resumed(view_of(loaded)),
{
    let mut s = restore(loaded);
    s.mode = Mode::Encounter;
    s
}

/// One tick of the state machine: reduces the readings of the tick to a
/// verdict and applies it. In a mode in which no frames are sampled the
/// record stays as it is.
pub fn encounter_process(state: &mut EncounterState, readings: &Vec<Reading>)
    requires
        old(state).wf(),
        fits(old(state)@, views(readings@)),
    ensures
        final(state).wf(),
        final(state)@ == step(old(state)@, views(readings@)),
{
    match resolve(state.mode, readings) {
        Some(verdict) => state.apply(verdict),
        None => {},
    }
}

} // verus!
