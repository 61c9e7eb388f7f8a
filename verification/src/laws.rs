//! What holds of the state machine whatever the readings are.

use crate::command::{commanded, Command};
use crate::consensus::{all_empty, choice, first_lure, is_choice, lemma_choice_unique};
use crate::mode::{Mode, Toggle};
use crate::reading::{byte_len, is_level_marker, names_in, ReadingView};
use crate::sampler::{captures, planned, SampleStep};
use crate::state::{restored, step, StateView};
use crate::stats::{count_in, lemma_occurrences_contains, occurrences};
use crate::text::{contains, occurs_at, white_space, words};
use vstd::prelude::*;

verus! {

/// The word `w` ends the line `s`.
pub open spec fn ends_line(s: Seq<char>, w: Seq<char>) -> bool {
    w.len() > 0 && occurs_at(s, w, s.len() - w.len())
}

/// Every word of a line is a piece of the line and not empty, and a line
/// that does not end in white space ends with its last word.
pub proof fn lemma_words_are_pieces(s: Seq<char>)
    ensures
        forall|k: int|
            0 <= k < words(s).len() ==> (#[trigger] words(s)[k]).len() > 0 && contains(
                s,
                words(s)[k],
            ),
        s.len() > 0 && !white_space(s.last()) ==> words(s).len() > 0 && ends_line(
            s,
            words(s).last(),
        ),
    decreases s.len(),
{
    if s.len() > 0 {
        let head = s.drop_last();
        let before = words(head);
        let c = s.last();
        lemma_words_are_pieces(head);
        assert forall|k: int| 0 <= k < before.len() implies contains(s, #[trigger] before[k]) by {
            let w = before[k];
            let i = choose|i: int| occurs_at(head, w, i);
            assert(s.subrange(i, i + w.len()) =~= head.subrange(i, i + w.len()));
            assert(occurs_at(s, w, i));
        }
        if white_space(c) {
        } else if head.len() == 0 || white_space(head.last()) {
            let w = seq![c];
            assert(s.subrange(s.len() - 1, s.len() as int) =~= w);
            assert(occurs_at(s, w, s.len() - 1));
            assert(words(s).last() == w);
        } else {
            let old_last = before.last();
            let w = old_last.push(c);
            let at = head.len() - old_last.len();
            assert(occurs_at(head, old_last, at));
            assert(s.subrange(at, at + w.len()) =~= w) by {
                assert(head.subrange(at, at + old_last.len()) == old_last);
                assert forall|j: int| 0 <= j < w.len() implies s.subrange(at, at + w.len())[j]
                    == w[j] by {
                    if j < old_last.len() {
                        assert(head.subrange(at, at + old_last.len())[j] == head[at + j]);
                    }
                }
            }
            assert(occurs_at(s, w, at));
            assert(words(s).last() == w);
            assert forall|k: int| 0 <= k < words(s).len() implies (#[trigger] words(s)[k]).len()
                > 0 && contains(s, words(s)[k]) by {
                if k < words(s).len() - 1 {
                    assert(words(s)[k] == before[k]);
                }
            }
        }
    }
}

/// The word at position `k` is `name`, is longer than `min_len` and stands
/// directly before a level marker.
pub open spec fn is_named_at(ws: Seq<Seq<char>>, min_len: nat, k: int, name: Seq<char>) -> bool {
    &&& 0 <= k
    &&& k + 1 < ws.len()
    &&& ws[k] == name
    &&& byte_len(name) > min_len
    &&& is_level_marker(ws[k + 1])
}

/// Some word is `name`, is longer than `min_len` and stands directly before
/// a level marker.
pub open spec fn is_named(ws: Seq<Seq<char>>, min_len: nat, name: Seq<char>) -> bool {
    exists|k: int| is_named_at(ws, min_len, k, name)
}

/// Every name found among the words of a line is a word that is longer than
/// `min_len` and that stands directly before a level marker.
pub proof fn law_names_stand_before_markers(ws: Seq<Seq<char>>, min_len: nat)
    ensures
        forall|n: int|
            0 <= n < names_in(ws, min_len).len() ==> is_named(
                ws,
                min_len,
                #[trigger] names_in(ws, min_len)[n],
            ),
    decreases ws.len(),
{
    if ws.len() >= 2 {
        let head = ws.drop_last();
        law_names_stand_before_markers(head, min_len);
        let rest = names_in(head, min_len);
        assert forall|n: int| 0 <= n < names_in(ws, min_len).len() implies is_named(
            ws,
            min_len,
            #[trigger] names_in(ws, min_len)[n],
        ) by {
            let name = names_in(ws, min_len)[n];
            if n < rest.len() {
                assert(name == rest[n]);
                assert(is_named(head, min_len, rest[n]));
                let k = choose|k: int| is_named_at(head, min_len, k, name);
                assert(ws[k] == head[k]);
                assert(ws[k + 1] == head[k + 1]);
                assert(is_named_at(ws, min_len, k, name));
            } else {
                assert(is_named_at(ws, min_len, ws.len() - 2, name));
            }
        }
    }
}

/// Every word that is longer than `min_len` and stands directly before a
/// level marker is found as a name.
pub proof fn law_words_before_markers_are_names(ws: Seq<Seq<char>>, min_len: nat, k: int)
    requires
        is_named_at(ws, min_len, k, ws[k]),
    ensures
        names_in(ws, min_len).contains(ws[k]),
    decreases ws.len(),
{
    let head = ws.drop_last();
    let rest = names_in(head, min_len);
    let all = names_in(ws, min_len);
    if k + 2 == ws.len() {
        assert(all == rest.push(ws[k]));
        assert(all[rest.len() as int] == ws[k]);
    } else {
        assert(head[k] == ws[k]);
        assert(head[k + 1] == ws[k + 1]);
        law_words_before_markers_are_names(head, min_len, k);
        let n = choose|n: int| 0 <= n < rest.len() && rest[n] == head[k];
        assert(all[n] == ws[k]);
    }
}

/// A line yields names only if it holds a level marker: looking for the
/// markers first, as a reader in a hurry would, changes no reading.
pub proof fn law_names_need_a_marker(s: Seq<char>, min_len: nat)
    requires
        names_in(words(s), min_len).len() > 0,
    ensures
        exists|m: Seq<char>| is_level_marker(m) && #[trigger] contains(s, m),
{
    let ws = words(s);
    law_names_stand_before_markers(ws, min_len);
    let name = names_in(ws, min_len)[0];
    assert(is_named(ws, min_len, name));
    let k = choose|k: int| is_named_at(ws, min_len, k, name);
    lemma_words_are_pieces(s);
    assert(contains(s, ws[k + 1]));
}

/// The record after a run of ticks, one batch of readings for each.
pub open spec fn run(s: StateView, batches: Seq<Seq<ReadingView>>) -> StateView
    decreases batches.len(),
{
    if batches.len() == 0 {
        s
    } else {
        step(run(s, batches.drop_last()), batches.last())
    }
}

/// Where some reading names a species, one reading is the one to accept.
pub proof fn lemma_choice_exists(rs: Seq<ReadingView>)
    requires
        !all_empty(rs),
    ensures
        is_choice(rs, choice(rs)),
    decreases rs.len(),
{
    let head = rs.drop_last();
    let last = rs.len() - 1;
    assert(forall|j: int| 0 <= j < head.len() ==> head[j] == rs[j]);
    if all_empty(head) {
        assert(rs[last].names.len() > 0) by {
            if rs[last].names.len() == 0 {
                assert forall|i: int| 0 <= i < rs.len() implies (#[trigger] rs[i]).names.len()
                    == 0 by {
                    if i < last {
                        assert(head[i].names.len() == 0);
                    }
                }
            }
        }
        assert forall|j: int| 0 <= j < last implies (#[trigger] rs[j]).names.len()
            < rs[last].names.len() by {
            assert(head[j].names.len() == 0);
        }
        assert(is_choice(rs, last));
    } else {
        lemma_choice_exists(head);
        let c = choice(head);
        assert(head[c] == rs[c]);
        if rs[last].names.len() > rs[c].names.len() {
            assert forall|j: int| 0 <= j < last implies (#[trigger] rs[j]).names.len()
                < rs[last].names.len() by {
                assert(head[j].names.len() <= head[c].names.len());
            }
            assert(is_choice(rs, last));
        } else {
            assert forall|j: int| 0 <= j < rs.len() implies (#[trigger] rs[j]).names.len()
                <= rs[c].names.len() by {
                if j < last {
                    assert(head[j].names.len() <= head[c].names.len());
                }
            }
            assert forall|j: int| 0 <= j < c implies (#[trigger] rs[j]).names.len()
                < rs[c].names.len() by {
                assert(head[j].names.len() < head[c].names.len());
            }
            assert(is_choice(rs, c));
        }
    }
}

/// An encounter ends as soon as no reading of a tick names a species: the
/// mode becomes `Walk` and the lure flag is that of the first reading. The
/// counters and the last encounter stay as they are.
pub proof fn law_empty_readings_end_encounter(s: StateView, rs: Seq<ReadingView>)
    requires
        s.mode == Mode::Encounter,
        all_empty(rs),
    ensures
        step(s, rs).mode == Mode::Walk,
        step(s, rs).encounters == s.encounters,
        step(s, rs).mon_stats == s.mon_stats,
        step(s, rs).last_encounter == s.last_encounter,
        step(s, rs).lure_on == first_lure(rs),
{
}

/// An encounter goes on while a single reading of a tick still names a
/// species: the record stays as it is.
pub proof fn law_named_reading_keeps_encounter(s: StateView, rs: Seq<ReadingView>)
    requires
        s.mode == Mode::Encounter,
        !all_empty(rs),
    ensures
        step(s, rs) == s,
{
}

/// While walking, a tick with a reading that names a species starts an
/// encounter. The encounters grow by the number of names of the accepted
/// reading, every species by the number of times that it stands among them,
/// and the last encounter and the lure flag are those of that reading.
pub proof fn law_detection_counts_accepted_reading(s: StateView, rs: Seq<ReadingView>)
    requires
        s.mode == Mode::Walk,
        !all_empty(rs),
    ensures
        is_choice(rs, choice(rs)),
        step(s, rs).mode == Mode::Encounter,
        step(s, rs).encounters == s.encounters + rs[choice(rs)].names.len(),
        forall|k: Seq<char>|
            count_in(step(s, rs).mon_stats, k) == count_in(s.mon_stats, k) + #[trigger] occurrences(
                rs[choice(rs)].names,
                k,
            ),
        step(s, rs).last_encounter == rs[choice(rs)].names,
        step(s, rs).lure_on == rs[choice(rs)].lure,
{
    lemma_choice_exists(rs);
    let names = rs[choice(rs)].names;
    assert forall|k: Seq<char>|
        count_in(step(s, rs).mon_stats, k) == count_in(s.mon_stats, k) + #[trigger] occurrences(
            names,
            k,
        ) by {
        lemma_occurrences_contains(names, k);
    }
}

/// While walking, a tick without a reading that names a species changes
/// nothing.
pub proof fn law_no_detection_changes_nothing(s: StateView, rs: Seq<ReadingView>)
    requires
        s.mode == Mode::Walk,
        all_empty(rs),
    ensures
        step(s, rs) == s,
{
}

/// Of two readings that both name the most species, the earlier one wins:
/// the accepted reading never stands behind another of the same length.
pub proof fn law_earlier_of_equal_readings_wins(rs: Seq<ReadingView>, i: int, j: int)
    requires
        0 <= i < j < rs.len(),
        rs[i].names.len() == rs[j].names.len(),
        rs[i].names.len() > 0,
        forall|k: int| 0 <= k < rs.len() ==> (#[trigger] rs[k]).names.len() <= rs[i].names.len(),
    ensures
        is_choice(rs, choice(rs)),
        choice(rs) <= i,
        choice(rs) != j,
        rs[choice(rs)].names.len() == rs[i].names.len(),
{
    assert(!all_empty(rs)) by {
        assert(rs[i].names.len() > 0);
    }
    lemma_choice_exists(rs);
    let c = choice(rs);
    assert(rs[i].names.len() <= rs[c].names.len());
    assert(rs[c].names.len() <= rs[i].names.len());
    if c > i {
        assert(rs[i].names.len() < rs[c].names.len());
    }
}

/// The accepted reading is fixed by the batch: the first reading that names
/// a species and that no reading exceeds is the one.
pub proof fn law_choice_is_determined(rs: Seq<ReadingView>, i: int)
    requires
        is_choice(rs, i),
    ensures
        choice(rs) == i,
{
    lemma_choice_unique(rs, i, choice(rs));
}

/// In a mode in which no frames are sampled, ticks change nothing, however
/// many there are and whatever readings they are given.
pub proof fn law_idle_ticks_change_nothing(s: StateView, batches: Seq<Seq<ReadingView>>)
    requires
        s.mode == Mode::Pause || s.mode == Mode::Init,
    ensures
        run(s, batches) == s,
    decreases batches.len(),
{
    if batches.len() > 0 {
        law_idle_ticks_change_nothing(s, batches.drop_last());
    }
}

/// No tick lowers the number of encounters, and no tick changes the profile
/// or the debug flag.
pub proof fn law_tick_never_lowers_encounters(s: StateView, rs: Seq<ReadingView>)
    ensures
        step(s, rs).encounters >= s.encounters,
        step(s, rs).toggle == s.toggle,
        step(s, rs).debug == s.debug,
{
}

/// Only a reset changes what has been counted: every other command leaves
/// the encounters, the species counts and the last encounter as they are.
pub proof fn law_only_reset_changes_counters(s: StateView, c: Command)
    requires
        c != Command::Reset,
    ensures
        commanded(s, c).encounters == s.encounters,
        commanded(s, c).mon_stats == s.mon_stats,
        commanded(s, c).last_encounter == s.last_encounter,
{
}

/// Neither a tick nor a start puts the record into `Pause`, and no tick takes
/// it out of `Pause` or `Init`.
pub proof fn law_pause_is_by_command_only(s: StateView, rs: Seq<ReadingView>)
    ensures
        step(s, rs).mode == Mode::Pause <==> s.mode == Mode::Pause,
        step(s, rs).mode == Mode::Init <==> s.mode == Mode::Init,
        commanded(s, Command::Pause).mode == Mode::Pause,
        commanded(s, Command::Start).mode == Mode::Walk,
{
}

/// Three changes of profile lead back to the profile at the start.
pub proof fn law_toggle_cycle(t: Toggle)
    ensures
        t.successor().successor().successor() == t,
        t.successor() != t,
{
}

/// A record that was stored in mode `Init` comes back as it was. One stored
/// in another mode comes back in mode `Init` and otherwise as it was.
pub proof fn law_restore_keeps_record(s: StateView)
    ensures
        s.mode == Mode::Init ==> restored(Some(s)) == s,
        restored(Some(s)) == (StateView { mode: Mode::Init, ..s }),
{
}

/// The steps of a tick hold as many captures as frames were asked for, and
/// none in a mode in which no frames are sampled.
pub proof fn law_plan_captures_every_frame(mode: Mode, toggle: Toggle, frames: nat)
    ensures
        captures(planned(mode, toggle, frames)) == if mode.is_sampling() {
            frames
        } else {
            0
        },
    decreases frames,
{
    let plan = planned(mode, toggle, frames);
    if mode.is_sampling() && frames > 0 {
        law_plan_captures_every_frame(mode, toggle, (frames - 1) as nat);
        let shorter = planned(mode, toggle, (frames - 1) as nat);
        if frames == 1 {
            assert(plan.drop_last() =~= shorter);
            assert(plan.last() == SampleStep::Capture);
        } else {
            let mid = plan.drop_last();
            assert(plan.last() == SampleStep::Capture);
            assert(mid.last() == SampleStep::Wait(toggle.delay_ms()));
            assert(mid.drop_last() =~= shorter);
            assert(captures(mid) == captures(shorter));
            assert(captures(plan) == captures(mid) + 1);
        }
    }
}

} // verus!
