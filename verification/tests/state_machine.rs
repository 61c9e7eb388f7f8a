use rencounter::command::{Command, Followup};
use rencounter::consensus::{resolve, select, Verdict};
use rencounter::state::{encounter_process, restore, resume, EncounterState};
use rencounter::{Mode, Reading, Toggle};

fn reading(names: &[&str], lure: bool) -> Reading {
    Reading { names: names.iter().map(|n| n.to_string()).collect(), lure }
}

fn walking() -> EncounterState {
    let mut state = EncounterState::default();
    state.mode = Mode::Walk;
    state
}

#[test]
fn default_record_is_empty_and_in_init() {
    let state = EncounterState::default();
    assert_eq!(state.encounters, 0);
    assert!(state.last_encounter.is_empty());
    assert_eq!(state.mode, Mode::Init);
    assert_eq!(state.mon_stats.len(), 0);
    assert!(!state.lure_on);
    assert_eq!(state.toggle, Toggle::Runaway);
    assert!(!state.debug);
}

#[test]
fn walk_with_one_named_reading_starts_encounter() {
    let mut state = walking();
    let readings = vec![reading(&[], false), reading(&["pikachu"], false)];
    assert!(state.can_take(&readings));
    encounter_process(&mut state, &readings);
    assert_eq!(state.mode, Mode::Encounter);
    assert_eq!(state.encounters, 1);
    assert_eq!(state.mon_stats.get("pikachu"), Some(1));
    assert_eq!(state.last_encounter, vec!["pikachu".to_string()]);
    assert!(!state.lure_on);
}

#[test]
fn encounter_cleared_takes_lure_of_first_reading() {
    let mut state = EncounterState::default();
    state.mode = Mode::Encounter;
    let readings = vec![reading(&[], true), reading(&[], false)];
    encounter_process(&mut state, &readings);
    assert_eq!(state.mode, Mode::Walk);
    assert!(state.lure_on);
    assert_eq!(state.encounters, 0);
    assert_eq!(state.mon_stats.len(), 0);
}

#[test]
fn encounter_cleared_by_second_reading_lure_is_ignored() {
    let mut state = EncounterState::default();
    state.mode = Mode::Encounter;
    state.lure_on = true;
    let readings = vec![reading(&[], false), reading(&[], true)];
    encounter_process(&mut state, &readings);
    assert_eq!(state.mode, Mode::Walk);
    assert!(!state.lure_on);
}

#[test]
fn encounter_with_no_readings_is_cleared_without_lure() {
    let mut state = EncounterState::default();
    state.mode = Mode::Encounter;
    state.lure_on = true;
    encounter_process(&mut state, &Vec::new());
    assert_eq!(state.mode, Mode::Walk);
    assert!(!state.lure_on);
}

#[test]
fn one_named_reading_blocks_clearing() {
    let mut state = walking();
    encounter_process(&mut state, &vec![reading(&["eevee"], true)]);
    assert_eq!(state.mode, Mode::Encounter);
    let readings = vec![reading(&[], false), reading(&["eevee"], false)];
    encounter_process(&mut state, &readings);
    assert_eq!(state.mode, Mode::Encounter);
    assert_eq!(state.encounters, 1);
    assert!(state.lure_on);
    assert_eq!(state.last_encounter, vec!["eevee".to_string()]);
}

#[test]
fn last_encounter_survives_clearing() {
    let mut state = walking();
    encounter_process(&mut state, &vec![reading(&["eevee", "abra"], false)]);
    encounter_process(&mut state, &vec![reading(&[], false)]);
    assert_eq!(state.mode, Mode::Walk);
    assert_eq!(state.last_encounter, vec!["eevee".to_string(), "abra".to_string()]);
    assert_eq!(state.encounters, 2);
}

#[test]
fn walk_without_named_reading_changes_nothing() {
    let mut state = walking();
    state.lure_on = true;
    let readings = vec![reading(&[], false), reading(&[], false)];
    encounter_process(&mut state, &readings);
    assert_eq!(state.mode, Mode::Walk);
    assert_eq!(state.encounters, 0);
    assert!(state.lure_on);
    assert!(state.last_encounter.is_empty());
}

#[test]
fn longest_reading_is_accepted() {
    let mut state = walking();
    let readings = vec![
        reading(&["zubat"], false),
        reading(&["zubat", "geodude", "zubat"], true),
        reading(&["onix", "abra"], false),
    ];
    encounter_process(&mut state, &readings);
    assert_eq!(state.encounters, 3);
    assert_eq!(state.mon_stats.get("zubat"), Some(2));
    assert_eq!(state.mon_stats.get("geodude"), Some(1));
    assert_eq!(state.mon_stats.get("onix"), None);
    assert_eq!(state.mon_stats.count("onix"), 0);
    assert_eq!(state.mon_stats.len(), 2);
    assert!(state.lure_on);
    assert_eq!(
        state.last_encounter,
        vec!["zubat".to_string(), "geodude".to_string(), "zubat".to_string()]
    );
}

#[test]
fn earlier_of_two_equal_readings_is_accepted() {
    let readings = vec![
        reading(&[], false),
        reading(&["abra", "onix"], true),
        reading(&["mew", "ditto"], false),
    ];
    assert_eq!(select(&readings), Some(1));
    let mut state = walking();
    encounter_process(&mut state, &readings);
    assert_eq!(state.last_encounter, vec!["abra".to_string(), "onix".to_string()]);
    assert!(state.lure_on);
    assert_eq!(state.mon_stats.get("mew"), None);
    let mut again = walking();
    encounter_process(&mut again, &readings);
    assert_eq!(again.last_encounter, state.last_encounter);
}

#[test]
fn select_gives_none_for_empty_readings() {
    assert_eq!(select(&Vec::new()), None);
    assert_eq!(select(&vec![reading(&[], true), reading(&[], false)]), None);
}

#[test]
fn resolve_gives_each_verdict() {
    let named = vec![reading(&[], false), reading(&["abra"], true)];
    let empty = vec![reading(&[], true)];
    assert!(matches!(resolve(Mode::Encounter, &named), Some(Verdict::Engaged)));
    assert!(matches!(resolve(Mode::Encounter, &empty), Some(Verdict::Cleared { lure: true })));
    assert!(matches!(resolve(Mode::Walk, &empty), Some(Verdict::NoDetection)));
    match resolve(Mode::Walk, &named) {
        Some(Verdict::Detected { names, lure }) => {
            assert_eq!(names, vec!["abra".to_string()]);
            assert!(lure);
        }
        _ => panic!("a detection was expected"),
    }
    assert!(resolve(Mode::Init, &named).is_none());
    assert!(resolve(Mode::Pause, &named).is_none());
}

#[test]
fn verdict_that_does_not_fit_the_mode_changes_nothing() {
    let mut state = EncounterState::default();
    state.mode = Mode::Encounter;
    state.apply(Verdict::Detected { names: vec!["abra".to_string()], lure: true });
    assert_eq!(state.mode, Mode::Encounter);
    assert_eq!(state.encounters, 0);
    assert!(!state.lure_on);
    let mut state = walking();
    state.apply(Verdict::Cleared { lure: true });
    assert_eq!(state.mode, Mode::Walk);
    assert!(!state.lure_on);
}

#[test]
fn paused_ticks_change_nothing() {
    let mut state = walking();
    encounter_process(&mut state, &vec![reading(&["abra"], true)]);
    state.command(Command::Pause);
    for _ in 0..5 {
        encounter_process(&mut state, &vec![reading(&["mew", "mew"], false)]);
        encounter_process(&mut state, &vec![reading(&[], false)]);
    }
    assert_eq!(state.mode, Mode::Pause);
    assert_eq!(state.encounters, 1);
    assert_eq!(state.mon_stats.get("abra"), Some(1));
    assert_eq!(state.mon_stats.len(), 1);
    assert_eq!(state.last_encounter, vec!["abra".to_string()]);
    assert!(state.lure_on);
}

#[test]
fn init_ticks_change_nothing() {
    let mut state = EncounterState::default();
    encounter_process(&mut state, &vec![reading(&["mew"], true)]);
    assert_eq!(state.mode, Mode::Init);
    assert_eq!(state.encounters, 0);
    assert_eq!(state.mon_stats.len(), 0);
}

#[test]
fn counts_add_up_over_encounters() {
    let mut state = walking();
    encounter_process(&mut state, &vec![reading(&["abra", "abra"], false)]);
    encounter_process(&mut state, &vec![reading(&[], false)]);
    encounter_process(&mut state, &vec![reading(&["abra", "mew"], false)]);
    assert_eq!(state.encounters, 4);
    assert_eq!(state.mon_stats.get("abra"), Some(3));
    assert_eq!(state.mon_stats.get("mew"), Some(1));
    assert_eq!(state.last_encounter, vec!["abra".to_string(), "mew".to_string()]);
}

#[test]
fn full_counter_cannot_take_more() {
    let mut state = walking();
    state.encounters = u32::MAX;
    let readings = vec![reading(&["abra"], false)];
    assert!(!state.can_take(&readings));
    assert!(state.can_take(&vec![reading(&[], false)]));
    state.mode = Mode::Encounter;
    assert!(state.can_take(&readings));
}

#[test]
fn full_species_count_cannot_take_more() {
    let mut state = walking();
    state.mon_stats.set("abra", u32::MAX - 1);
    assert!(state.can_take(&vec![reading(&["abra", "mew"], false)]));
    assert!(!state.can_take(&vec![reading(&["abra", "mew", "abra"], false)]));
}

#[test]
fn reset_while_in_encounter_gives_default_record() {
    let mut state = EncounterState::default();
    state.mode = Mode::Encounter;
    state.encounters = 42;
    state.mon_stats.set("abra", 42);
    state.last_encounter = vec!["abra".to_string()];
    state.lure_on = true;
    state.debug = true;
    state.toggle = Toggle::Exp;
    let followup = state.command(Command::Reset);
    assert_eq!(followup, Followup::Save);
    assert_eq!(state.encounters, 0);
    assert_eq!(state.mon_stats.len(), 0);
    assert_eq!(state.mode, Mode::Init);
    assert!(state.last_encounter.is_empty());
    assert!(!state.lure_on);
    assert!(!state.debug);
    assert_eq!(state.toggle, Toggle::Runaway);
}

#[test]
fn commands_change_what_they_name() {
    let mut state = EncounterState::default();
    assert_eq!(state.command(Command::Start), Followup::Nothing);
    assert_eq!(state.mode, Mode::Walk);
    assert_eq!(state.command(Command::Pause), Followup::Nothing);
    assert_eq!(state.mode, Mode::Pause);
    assert_eq!(state.command(Command::Start), Followup::Nothing);
    assert_eq!(state.mode, Mode::Walk);
    assert_eq!(state.command(Command::ToggleDebug), Followup::Nothing);
    assert!(state.debug);
    assert_eq!(state.command(Command::ToggleDebug), Followup::Nothing);
    assert!(!state.debug);
    assert_eq!(state.command(Command::CycleToggle), Followup::Nothing);
    assert_eq!(state.toggle, Toggle::Safari);
    state.command(Command::CycleToggle);
    assert_eq!(state.toggle, Toggle::Exp);
    state.command(Command::CycleToggle);
    assert_eq!(state.toggle, Toggle::Runaway);
    assert_eq!(state.command(Command::Quit), Followup::Exit);
    assert_eq!(state.mode, Mode::Walk);
}

#[test]
fn keys_stand_for_commands() {
    assert_eq!(Command::from_key('q'), Some(Command::Quit));
    assert_eq!(Command::from_key('s'), Some(Command::Start));
    assert_eq!(Command::from_key('d'), Some(Command::ToggleDebug));
    assert_eq!(Command::from_key('p'), Some(Command::Pause));
    assert_eq!(Command::from_key('t'), Some(Command::CycleToggle));
    assert_eq!(Command::from_key('r'), Some(Command::Reset));
    assert_eq!(Command::from_key('x'), None);
    assert_eq!(Command::from_key('S'), None);
}

#[test]
fn restore_without_record_gives_default() {
    let state = restore(None);
    assert_eq!(state.mode, Mode::Init);
    assert_eq!(state.encounters, 0);
    assert_eq!(state.mon_stats.len(), 0);
    assert_eq!(state.toggle, Toggle::Runaway);
}

#[test]
fn restore_forces_init_and_keeps_the_rest() {
    let mut saved = walking();
    encounter_process(&mut saved, &vec![reading(&["abra", "mew"], true)]);
    saved.toggle = Toggle::Safari;
    saved.debug = true;
    let state = restore(Some(saved));
    assert_eq!(state.mode, Mode::Init);
    assert_eq!(state.encounters, 2);
    assert_eq!(state.mon_stats.get("abra"), Some(1));
    assert_eq!(state.mon_stats.get("mew"), Some(1));
    assert_eq!(state.last_encounter, vec!["abra".to_string(), "mew".to_string()]);
    assert!(state.lure_on);
    assert_eq!(state.toggle, Toggle::Safari);
    assert!(state.debug);
}

#[test]
fn resume_starts_in_encounter() {
    assert_eq!(resume(None).mode, Mode::Encounter);
    let mut saved = walking();
    saved.encounters = 7;
    let state = resume(Some(saved));
    assert_eq!(state.mode, Mode::Encounter);
    assert_eq!(state.encounters, 7);
}

#[test]
fn toggle_delays_and_labels() {
    assert_eq!(Toggle::Exp.to_num(), 2000);
    assert_eq!(Toggle::Runaway.to_num(), 800);
    assert_eq!(Toggle::Safari.to_num(), 200);
    assert_eq!(Toggle::Exp.label(), "Exp Mode");
    assert_eq!(Toggle::Runaway.label(), "Runaway Mode");
    assert_eq!(Toggle::Safari.label(), "Safari Mode");
    assert_eq!(Mode::Init.label(), "Init, Press S to start.");
    assert_eq!(Mode::Encounter.label(), "Encounter");
    assert_eq!(Mode::Walk.label(), "Walk");
    assert_eq!(Mode::Pause.label(), "Pause");
    assert!(Mode::Walk.samples());
    assert!(Mode::Encounter.samples());
    assert!(!Mode::Init.samples());
    assert!(!Mode::Pause.samples());
}
