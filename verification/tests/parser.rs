use rencounter::reading::{get_mons, scan_line, NAME_MIN_LEN};
use rencounter::text::{chars_of, correct, has_substring, matches_at, same_text, split_words};

fn lines(texts: &[Option<&str>]) -> Vec<Option<String>> {
    texts.iter().map(|t| t.map(|s| s.to_string())).collect()
}

fn names(texts: &[&str]) -> Vec<String> {
    texts.iter().map(|n| n.to_string()).collect()
}

fn chars(text: &str) -> Vec<char> {
    text.chars().collect()
}

#[test]
fn name_before_level_marker_is_a_candidate() {
    let reading = get_mons(&lines(&[Some("pikachu lv. 5")]), NAME_MIN_LEN);
    assert_eq!(reading.names, names(&["pikachu"]));
    assert!(!reading.lure);
}

#[test]
fn marker_must_be_a_word_of_its_own() {
    let reading = get_mons(&lines(&[Some("pikachu lv.5")]), NAME_MIN_LEN);
    assert!(reading.names.is_empty());
    let reading = get_mons(&lines(&[Some("pikachulv. 5")]), NAME_MIN_LEN);
    assert!(reading.names.is_empty());
}

#[test]
fn short_name_is_no_candidate_above_threshold() {
    let reading = get_mons(&lines(&[Some("ok lv.")]), 2);
    assert!(reading.names.is_empty());
    let reading = get_mons(&lines(&[Some("ok lv.")]), 1);
    assert_eq!(reading.names, names(&["ok"]));
    let reading = get_mons(&lines(&[Some("a lv.")]), NAME_MIN_LEN);
    assert!(reading.names.is_empty());
    let reading = get_mons(&lines(&[Some("a lv.")]), 0);
    assert_eq!(reading.names, names(&["a"]));
}

#[test]
fn name_length_is_counted_in_bytes() {
    let reading = get_mons(&lines(&[Some("é lv. 3")]), 1);
    assert_eq!(reading.names, names(&["é"]));
    let reading = get_mons(&lines(&[Some("é lv. 3")]), 2);
    assert!(reading.names.is_empty());
}

#[test]
fn lines_are_put_in_lower_case() {
    let reading = get_mons(&lines(&[Some("PIKACHU LV. 5"), Some("Use a LURE")]), NAME_MIN_LEN);
    assert_eq!(reading.names, names(&["pikachu"]));
    assert!(reading.lure);
}

#[test]
fn all_three_markers_are_known() {
    let reading = get_mons(
        &lines(&[Some("Rattata Lv. 3"), Some("Pidgey Nv. 4"), Some("Abra Niv. 9")]),
        NAME_MIN_LEN,
    );
    assert_eq!(reading.names, names(&["rattata", "pidgey", "abra"]));
}

#[test]
fn one_line_may_name_several_species() {
    let reading = get_mons(&lines(&[Some("Zubat Lv. 7 Geodude Lv. 8 Zubat Lv. 6")]), NAME_MIN_LEN);
    assert_eq!(reading.names, names(&["zubat", "geodude", "zubat"]));
}

#[test]
fn marker_before_marker_counts_as_name() {
    let reading = get_mons(&lines(&[Some("lv. lv. nv.")]), NAME_MIN_LEN);
    assert_eq!(reading.names, names(&["lv.", "lv."]));
}

#[test]
fn doubled_stroke_is_corrected() {
    let reading = get_mons(&lines(&[Some("Pikachu LLv. 5")]), NAME_MIN_LEN);
    assert_eq!(reading.names, names(&["pikachu"]));
    assert_eq!(correct("pikachu llv. 5"), "pikachu lv. 5");
    assert_eq!(correct("llv."), "lv.");
    assert_eq!(correct("lllv."), "llv.");
    assert_eq!(correct("llv.llv."), "lv.lv.");
    assert_eq!(correct("llllv.x"), "lllv.x");
    assert_eq!(correct("llv"), "llv");
    assert_eq!(correct(""), "");
    assert_eq!(correct("abra niv. 4"), "abra niv. 4");
}

#[test]
fn absent_lines_are_skipped() {
    let reading = get_mons(&lines(&[None, Some("Abra Lv. 9"), None, Some("Mew Lv. 1")]), 1);
    assert_eq!(reading.names, names(&["abra", "mew"]));
    let reading = get_mons(&lines(&[None, None]), 1);
    assert!(reading.names.is_empty());
    assert!(!reading.lure);
    let reading = get_mons(&Vec::new(), 1);
    assert!(reading.names.is_empty());
    assert!(!reading.lure);
}

#[test]
fn lure_is_found_anywhere_and_stays() {
    let reading = get_mons(&lines(&[Some("allured"), Some("Abra Lv. 9")]), 1);
    assert!(reading.lure);
    assert_eq!(reading.names, names(&["abra"]));
    let reading = get_mons(&lines(&[Some("Abra Lv. 9"), Some("lur e")]), 1);
    assert!(!reading.lure);
    let reading = get_mons(&lines(&[Some("Lure Lv. 9")]), 1);
    assert!(reading.lure);
    assert_eq!(reading.names, names(&["lure"]));
}

#[test]
fn any_white_space_separates_words() {
    let reading = get_mons(&lines(&[Some("  abra\tlv.\u{3000}mew\u{a0}nv.  ")]), 1);
    assert_eq!(reading.names, names(&["abra", "mew"]));
}

#[test]
fn scan_line_does_not_change_case() {
    let reading = scan_line("Abra lv. 5", 1);
    assert_eq!(reading.names, names(&["Abra"]));
    let reading = scan_line("abra LV. 5", 1);
    assert!(reading.names.is_empty());
    let reading = scan_line("a LURE", 1);
    assert!(!reading.lure);
}

#[test]
fn words_are_runs_without_white_space() {
    assert_eq!(split_words(&chars("")), vec![]);
    assert_eq!(split_words(&chars("   ")), vec![]);
    assert_eq!(split_words(&chars("abc")), vec![(0, 3)]);
    assert_eq!(split_words(&chars(" ab  c ")), vec![(1, 3), (5, 6)]);
    assert_eq!(split_words(&chars("a\nb")), vec![(0, 1), (2, 3)]);
}

#[test]
fn substrings_are_found() {
    assert!(has_substring(&chars("a lure b"), &chars("lure")));
    assert!(has_substring(&chars("lure"), &chars("lure")));
    assert!(!has_substring(&chars("lur"), &chars("lure")));
    assert!(!has_substring(&chars(""), &chars("lure")));
    assert!(has_substring(&chars(""), &chars("")));
    assert!(has_substring(&chars("abc"), &chars("")));
    assert!(matches_at(&chars("abc"), &chars("bc"), 1));
    assert!(!matches_at(&chars("abc"), &chars("bc"), 0));
    assert!(!matches_at(&chars("abc"), &chars("bc"), 2));
    assert!(matches_at(&chars("abc"), &chars(""), 3));
    assert!(!matches_at(&chars("abc"), &chars(""), 4));
}

#[test]
fn texts_are_compared_and_listed() {
    assert_eq!(chars_of("héllo"), chars("héllo"));
    assert!(chars_of("").is_empty());
    assert!(same_text(&chars("abra"), &chars("abra")));
    assert!(!same_text(&chars("abra"), &chars("abrb")));
    assert!(!same_text(&chars("abra"), &chars("abr")));
    assert!(same_text(&chars(""), &chars("")));
}
