//! What one tick does to sample its frames.

use crate::mode::{Mode, Toggle};
use vstd::prelude::*;

verus! {

/// The number of frames that one tick samples.
pub const ENCOUNTER_DETECT_FRAMES: usize = 2;

/// One thing to do while sampling.
#[derive(Clone, Copy, Debug, PartialEq, Eq, Structural)]
pub enum SampleStep {
    /// Capture a frame, recognize its text and parse it into a reading.
    Capture,
    /// Wait for this many milliseconds.
    Wait(u64),
}

/// The steps of one tick: nothing in a mode in which no frames are sampled,
/// else `frames` captures with a wait between any two of them, and none
/// after the last.
pub open spec fn planned(mode: Mode, toggle: Toggle, frames: nat) -> Seq<SampleStep> {
    if !mode.is_sampling() || frames == 0 {
        Seq::empty()
    } else {
        Seq::new(
            (2 * frames - 1) as nat,
            |i: int|
                if i % 2 == 0 {
                    SampleStep::Capture
                } else {
                    SampleStep::Wait(toggle.delay_ms())
                },
        )
    }
}

/// The number of captures among the steps.
pub open spec fn captures(steps: Seq<SampleStep>) -> nat
    decreases steps.len(),
{
    if steps.len() == 0 {
        0
    } else {
        captures(steps.drop_last()) + if steps.last() == SampleStep::Capture {
            1nat
        } else {
            0nat
        }
    }
}

/// Lays out the steps of one tick for the runner to perform in order.
pub fn sampling_plan(mode: Mode, toggle: Toggle, frames: usize) -> (plan: Vec<SampleStep>)
    ensures
        plan@ == planned(mode, toggle, frames as nat),
{
    let mut plan: Vec<SampleStep> = Vec::new();
    if !mode.samples() {
        return plan;
    }
    let delay: u64 = toggle.to_num();
    let mut taken: usize = 0;
    while taken < frames
        invariant
            taken <= frames,
            mode.is_sampling(),
            delay == toggle.delay_ms(),
            plan@ == planned(mode, toggle, taken as nat),
        decreases frames - taken,
    {
        let ghost before = plan@;
        if taken > 0 {
            plan.push(SampleStep::Wait(delay));
        }
        plan.push(SampleStep::Capture);
        taken += 1;
        assert(plan@ =~= planned(mode, toggle, taken as nat));
    }
    plan
}

} // verus!
