use rencounter::ranking::stands_before;
use rencounter::runner::{opening_record, restart, Failure, Remedy, Restart};
use rencounter::sampler::{sampling_plan, SampleStep, ENCOUNTER_DETECT_FRAMES};
use rencounter::stats::count_occurrences;
use rencounter::{game_exist, EncounterState, Mode, MonStats, Toggle, APP_NAME, JAVA};

fn chars(text: &str) -> Vec<char> {
    text.chars().collect()
}

fn entries(pairs: &[(&str, u32)]) -> Vec<(String, u32)> {
    pairs.iter().map(|(n, c)| (n.to_string(), *c)).collect()
}

fn stats(pairs: &[(&str, u32)]) -> MonStats {
    let mut stats = MonStats::new();
    for (name, count) in pairs {
        stats.set(name, *count);
    }
    stats
}

#[test]
fn top_five_orders_by_count() {
    let stats = stats(&[("abra", 2), ("mew", 9), ("onix", 5), ("zubat", 30), ("ditto", 1), ("eevee", 4)]);
    assert_eq!(
        stats.top_five(),
        entries(&[("zubat", 30), ("mew", 9), ("onix", 5), ("eevee", 4), ("abra", 2)])
    );
    assert_eq!(stats.top(2), entries(&[("zubat", 30), ("mew", 9)]));
    assert_eq!(stats.top(0), entries(&[]));
    assert_eq!(stats.top(100).len(), 6);
}

#[test]
fn top_five_breaks_ties_by_name() {
    let stats = stats(&[("onix", 3), ("abra", 3), ("mew", 7), ("abr", 3), ("zubat", 3), ("b", 3), ("a", 1)]);
    assert_eq!(
        stats.top_five(),
        entries(&[("mew", 7), ("abr", 3), ("abra", 3), ("b", 3), ("onix", 3)])
    );
}

#[test]
fn top_five_of_few_species_lists_them_all() {
    assert_eq!(MonStats::new().top_five(), entries(&[]));
    let stats = stats(&[("mew", 1), ("abra", 1)]);
    assert_eq!(stats.top_five(), entries(&[("abra", 1), ("mew", 1)]));
}

#[test]
fn names_are_ordered_as_in_a_dictionary() {
    assert!(stands_before(&chars("abra"), &chars("abrb")));
    assert!(stands_before(&chars("abr"), &chars("abra")));
    assert!(stands_before(&chars(""), &chars("a")));
    assert!(!stands_before(&chars("abra"), &chars("abra")));
    assert!(!stands_before(&chars("b"), &chars("abra")));
    assert!(!stands_before(&chars("a"), &chars("")));
    assert!(!stands_before(&chars(""), &chars("")));
    assert!(stands_before(&chars("z"), &chars("é")));
}

#[test]
fn species_counts_are_set_and_raised() {
    let mut stats = MonStats::new();
    assert_eq!(stats.len(), 0);
    assert_eq!(stats.get("abra"), None);
    assert_eq!(stats.count("abra"), 0);
    stats.record("abra");
    stats.record("mew");
    stats.record("abra");
    assert_eq!(stats.get("abra"), Some(2));
    assert_eq!(stats.count("mew"), 1);
    assert_eq!(stats.len(), 2);
    stats.set("mew", 40);
    stats.set("onix", 0);
    assert_eq!(stats.get("mew"), Some(40));
    assert_eq!(stats.get("onix"), Some(0));
    assert_eq!(stats.len(), 3);
    assert_eq!(stats.entries(), &entries(&[("abra", 2), ("mew", 40), ("onix", 0)]));
    stats.tally(&vec!["onix".to_string(), "abra".to_string(), "onix".to_string()]);
    assert_eq!(stats.entries(), &entries(&[("abra", 3), ("mew", 40), ("onix", 2)]));
    stats.tally(&Vec::new());
    assert_eq!(stats.len(), 3);
}

#[test]
fn room_is_checked_per_species() {
    let stats = stats(&[("abra", u32::MAX), ("mew", u32::MAX - 2)]);
    assert!(stats.has_room_for(&Vec::new()));
    assert!(stats.has_room_for(&vec!["onix".to_string()]));
    assert!(!stats.has_room_for(&vec!["abra".to_string()]));
    assert!(stats.has_room_for(&vec!["mew".to_string(), "mew".to_string()]));
    assert!(!stats.has_room_for(&vec!["mew".to_string(), "mew".to_string(), "mew".to_string()]));
    let list = vec!["mew".to_string(), "abra".to_string(), "mew".to_string()];
    assert_eq!(count_occurrences(&list, "mew"), 2);
    assert_eq!(count_occurrences(&list, "abra"), 1);
    assert_eq!(count_occurrences(&list, "onix"), 0);
}

#[test]
fn plan_has_one_wait_between_two_captures() {
    assert_eq!(ENCOUNTER_DETECT_FRAMES, 2);
    assert_eq!(
        sampling_plan(Mode::Walk, Toggle::Runaway, 2),
        vec![SampleStep::Capture, SampleStep::Wait(800), SampleStep::Capture]
    );
    assert_eq!(
        sampling_plan(Mode::Encounter, Toggle::Exp, 3),
        vec![
            SampleStep::Capture,
            SampleStep::Wait(2000),
            SampleStep::Capture,
            SampleStep::Wait(2000),
            SampleStep::Capture
        ]
    );
    assert_eq!(sampling_plan(Mode::Walk, Toggle::Safari, 1), vec![SampleStep::Capture]);
    assert_eq!(sampling_plan(Mode::Walk, Toggle::Safari, 0), vec![]);
}

#[test]
fn plan_is_empty_where_nothing_is_sampled() {
    assert_eq!(sampling_plan(Mode::Init, Toggle::Runaway, 2), vec![]);
    assert_eq!(sampling_plan(Mode::Pause, Toggle::Exp, 5), vec![]);
}

#[test]
fn game_window_is_known_by_name_or_title() {
    assert_eq!(APP_NAME, "pokemmo");
    assert_eq!(JAVA, "java");
    assert!(game_exist("PokeMMO", "whatever"));
    assert!(game_exist("whatever", "POKEMMO"));
    assert!(game_exist("Java", ""));
    assert!(game_exist("", "java"));
    assert!(!game_exist("pokemmo client", "javaw"));
    assert!(!game_exist("", ""));
}

#[test]
fn failures_have_their_remedies() {
    assert_eq!(Failure::PersistenceReadFailure.remedy(), Remedy::UseDefault);
    assert_eq!(Failure::FrameSourceUnavailable.remedy(), Remedy::Restart);
    assert_eq!(Failure::RecognitionFailure.remedy(), Remedy::Restart);
    assert_eq!(Failure::PersistenceWriteFailure.remedy(), Remedy::Restart);
    assert_eq!(restart(true), Restart::Resume);
    assert_eq!(restart(false), Restart::Fatal);
}

#[test]
fn opening_record_depends_on_restart() {
    assert_eq!(opening_record(None, false).mode, Mode::Init);
    assert_eq!(opening_record(None, true).mode, Mode::Encounter);
    let mut saved = EncounterState::default();
    saved.mode = Mode::Walk;
    saved.encounters = 3;
    let state = opening_record(Some(saved), false);
    assert_eq!(state.mode, Mode::Init);
    assert_eq!(state.encounters, 3);
    let mut saved = EncounterState::default();
    saved.mode = Mode::Pause;
    saved.encounters = 4;
    let state = opening_record(Some(saved), true);
    assert_eq!(state.mode, Mode::Encounter);
    assert_eq!(state.encounters, 4);
}
