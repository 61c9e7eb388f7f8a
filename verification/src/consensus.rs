//! Reduces the readings of one tick to a single verdict.

use crate::mode::Mode;
use crate::reading::{texts, views, Reading, ReadingView};
use vstd::prelude::*;
use vstd::string::*;

verus! {

/// No reading of the batch names a species.
pub open spec fn all_empty(rs: Seq<ReadingView>) -> bool {
    forall|i: int| 0 <= i < rs.len() ==> (#[trigger] rs[i]).names.len() == 0
}

/// Reading `i` is the one to accept: it names a species, no reading names
/// more, and every earlier reading names fewer.
pub open spec fn is_choice(rs: Seq<ReadingView>, i: int) -> bool {
    &&& 0 <= i < rs.len()
    &&& rs[i].names.len() > 0
    &&& forall|j: int| 0 <= j < rs.len() ==> (#[trigger] rs[j]).names.len() <= rs[i].names.len()
    &&& forall|j: int| 0 <= j < i ==> (#[trigger] rs[j]).names.len() < rs[i].names.len()
}

/// The position of the reading to accept, where some reading names a species.
pub open spec fn choice(rs: Seq<ReadingView>) -> int {
    choose|i: int| is_choice(rs, i)
}

/// The lure flag of the first reading; `false` for an empty batch.
pub open spec fn first_lure(rs: Seq<ReadingView>) -> bool {
    rs.len() > 0 && rs[0].lure
}

/// What a batch of readings says about the current mode.
pub enum Verdict {
    /// While in an encounter: no reading names a species any more.
    Cleared { lure: bool },
    /// While in an encounter: some reading still names a species.
    Engaged,
    /// While walking: a reading names these species.
    Detected { names: Vec<String>, lure: bool },
    /// While walking: no reading names a species.
    NoDetection,
}

/// A `Verdict` as plain values.
pub enum VerdictView {
    Cleared { lure: bool },
    Engaged,
    Detected { names: Seq<Seq<char>>, lure: bool },
    NoDetection,
}

impl View for Verdict {
    type V = VerdictView;

    open spec fn view(&self) -> VerdictView {
        match self {
            Verdict::Cleared { lure } => VerdictView::Cleared { lure: *lure },
            Verdict::Engaged => VerdictView::Engaged,
            Verdict::Detected { names, lure } => VerdictView::Detected {
                names: texts(names@),
                lure: *lure,
            },
            Verdict::NoDetection => VerdictView::NoDetection,
        }
    }
}

/// The verdict on a batch of readings in a given mode; none in a mode in which
/// no frames are sampled.
pub open spec fn resolved(mode: Mode, rs: Seq<ReadingView>) -> Option<VerdictView> {
    match mode {
        Mode::Encounter => Some(
            if all_empty(rs) {
                VerdictView::Cleared { lure: first_lure(rs) }
            } else {
                VerdictView::Engaged
            },
        ),
        Mode::Walk => Some(
            if all_empty(rs) {
                VerdictView::NoDetection
            } else {
                VerdictView::Detected { names: rs[choice(rs)].names, lure: rs[choice(rs)].lure }
            },
        ),
        Mode::Init | Mode::Pause => None,
    }
}

/// At most one reading of a batch is the one to accept.
pub proof fn lemma_choice_unique(rs: Seq<ReadingView>, i: int, j: int)
    requires
        is_choice(rs, i),
        is_choice(rs, j),
    ensures
        i == j,
{
    if i < j {
        assert(rs[i].names.len() < rs[j].names.len());
    } else if j < i {
        assert(rs[j].names.len() < rs[i].names.len());
    }
}

/// Finds the reading to accept: the first of those that name the most
/// species, if any reading names one.
pub fn select(readings: &Vec<Reading>) -> (r: Option<usize>)
    ensures
        match r {
            Some(i) => is_choice(views(readings@), i as int) && i == choice(views(readings@)),
            None => all_empty(views(readings@)),
        },
{
    let ghost rs = views(readings@);
    let mut best: Option<usize> = None;
    let mut i: usize = 0;
    while i < readings.len()
        invariant
            i <= readings.len(),
            rs == views(readings@),
            match best {
                Some(b) => is_choice(rs.take(i as int), b as int),
                None => all_empty(rs.take(i as int)),
            },
        decreases readings.len() - i,
    {
        let ghost seen = rs.take(i as int);
        let ghost next = rs.take(i + 1);
        assert(forall|j: int| 0 <= j < i ==> next[j] == seen[j]);
        assert(next[i as int] == rs[i as int]);
        let n: usize = readings[i].names.len();
        assert(n == rs[i as int].names.len());
        match best {
            Some(b) => {
                assert(seen[b as int] == rs[b as int]);
                if n > readings[b].names.len() {
                    best = Some(i);
                }
            },
            None => {
                if n > 0 {
                    best = Some(i);
                }
            },
        }
        i += 1;
    }
    assert(rs.take(readings.len() as int) =~= rs);
    proof {
        if let Some(b) = best {
            lemma_choice_unique(rs, b as int, choice(rs));
        }
    }
    best
}

/// Copies a list of names.
pub fn copy_names(names: &Vec<String>) -> (out: Vec<String>)
    ensures
        texts(out@) == texts(names@),
{
    let mut out: Vec<String> = Vec::new();
    let mut i: usize = 0;
    while i < names.len()
        invariant
            i <= names.len(),
            out.len() == i,
            forall|j: int| 0 <= j < i ==> (#[trigger] out[j])@ == names[j]@,
        decreases names.len() - i,
    {
        out.push(names[i].clone());
        i += 1;
    }
    assert(texts(out@) =~= texts(names@));
    out
}

/// Reduces the readings of one tick to a verdict. In an encounter the
/// verdict is "cleared" only if every reading is empty, and then carries the
/// lure flag of the first reading. While walking, the first of the longest
/// non-empty readings is accepted. No verdict is given in a mode in which no
/// frames are sampled.
pub fn resolve(mode: Mode, readings: &Vec<Reading>) -> (v: Option<Verdict>)
    ensures
        match v {
            Some(verdict) => resolved(mode, views(readings@)) == Some(verdict@),
            None => resolved(mode, views(readings@)) is None,
        },
{
    let ghost rs = views(readings@);
    match mode {
        Mode::Encounter => {
            match select(readings) {
                Some(i) => {
                    assert(rs[i as int].names.len() > 0);
                    Some(Verdict::Engaged)
                },
                None => {
                    let lure = readings.len() > 0 && readings[0].lure;
                    Some(Verdict::Cleared { lure })
                },
            }
        },
        Mode::Walk => {
            match select(readings) {
                Some(i) => {
                    assert(rs[i as int].names.len() > 0);
                    let names = copy_names(&readings[i].names);
                    Some(Verdict::Detected { names, lure: readings[i].lure })
                },
                None => Some(Verdict::NoDetection),
            }
        },
        Mode::Init | Mode::Pause => None,
    }
}

} // verus!
