use snip_cli::fuzzy::is_fuzzy_match;
use snip_cli::text::{contains_ignoring_case, contains_text};

#[test]
fn test_is_fuzzy_match() {
    assert!(!is_fuzzy_match("moon", "bd"));
    assert!(!is_fuzzy_match("moon", "mp"));
    assert!(is_fuzzy_match("moon", "mn"));
    assert!(is_fuzzy_match("moon", "oon"));
}

#[test]
fn empty_pattern_matches_any_text() {
    assert!(is_fuzzy_match("", ""));
    assert!(is_fuzzy_match("moon", ""));
    assert!(is_fuzzy_match("ünïcode", ""));
}

#[test]
fn dropping_last_pattern_char_keeps_match() {
    assert!(is_fuzzy_match("snippet", "spt"));
    assert!(is_fuzzy_match("snippet", "sp"));
    assert!(is_fuzzy_match("snippet", "s"));
    assert!(!is_fuzzy_match("snippet", "spx"));
    assert!(is_fuzzy_match("snippet", "sp"));
}

#[test]
fn fuzzy_match_is_case_sensitive_and_ordered() {
    assert!(!is_fuzzy_match("Moon", "mo"));
    assert!(!is_fuzzy_match("moon", "nm"));
    assert!(!is_fuzzy_match("mo", "moo"));
    assert!(is_fuzzy_match("a_b_c", "abc"));
}

#[test]
fn literal_substring_test() {
    assert!(contains_text("moon walk", "n w"));
    assert!(contains_text("moon walk", ""));
    assert!(contains_text("", ""));
    assert!(!contains_text("moon walk", "mw"));
    assert!(!contains_text("moon", "moonwalk"));
    assert!(contains_text("abc", "abc"));
    assert!(!contains_text("abc", "ABC"));
}

#[test]
fn substring_test_ignoring_case() {
    assert!(contains_ignoring_case("Moon Walk", "moon"));
    assert!(contains_ignoring_case("moon walk", "MOON"));
    assert!(!contains_ignoring_case("moon walk", "sun"));
}
