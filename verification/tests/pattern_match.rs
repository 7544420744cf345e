use pathkeep::utilities::pattern_match::{component_matches_pattern, matches_pattern};

fn chars(s: &str) -> Vec<char> {
    s.chars().collect()
}

fn plain(segment: &str, pattern: &str) -> bool {
    matches_pattern(&chars(segment), &chars(pattern))
}

#[test]
fn exact_pattern_ignores_case() {
    assert!(component_matches_pattern("Node_Modules", "node_modules"));
}

#[test]
fn exact_pattern_needs_the_whole_segment() {
    assert!(!component_matches_pattern("mynode_modules", "node_modules"));
    assert!(!component_matches_pattern("my-target-files", "target"));
    assert!(component_matches_pattern("target", "target"));
}

#[test]
fn leading_star_asks_for_a_suffix() {
    assert!(component_matches_pattern("foobar", "*bar"));
    assert!(!component_matches_pattern("barfoo", "*bar"));
}

#[test]
fn trailing_star_asks_for_a_prefix() {
    assert!(component_matches_pattern("footer", "foo*"));
    assert!(!component_matches_pattern("barfoo", "foo*"));
}

#[test]
fn stars_at_both_ends_ask_for_an_occurrence_anywhere() {
    assert!(component_matches_pattern("code-review-2024", "*review*"));
    assert!(component_matches_pattern("review", "*review*"));
    assert!(component_matches_pattern("reviews", "*review*"));
    assert!(component_matches_pattern("prereview", "*review*"));
    assert!(!component_matches_pattern("revue", "*review*"));
}

#[test]
fn pattern_is_lowercased_as_well() {
    assert!(component_matches_pattern("temp", "TEMP"));
    assert!(component_matches_pattern("BuildCache", "*CACHE"));
    assert!(component_matches_pattern("BuildCache", "BUILD*"));
    assert!(component_matches_pattern("BuildCache", "*DCa*"));
}

#[test]
fn lowercasing_goes_beyond_ascii() {
    assert!(component_matches_pattern("ÄRGER", "ärger"));
    assert!(component_matches_pattern("ärger", "ÄRGER"));
}

#[test]
fn lone_star_matches_every_segment() {
    assert!(component_matches_pattern("anything", "*"));
    assert!(component_matches_pattern("", "*"));
}

#[test]
fn two_stars_match_every_segment() {
    assert!(component_matches_pattern("anything", "**"));
    assert!(component_matches_pattern("", "**"));
}

#[test]
fn empty_pattern_matches_the_empty_segment_only() {
    assert!(component_matches_pattern("", ""));
    assert!(!component_matches_pattern("a", ""));
}

#[test]
fn star_in_the_middle_is_an_ordinary_character() {
    assert!(component_matches_pattern("a*b", "a*b"));
    assert!(!component_matches_pattern("axb", "a*b"));
}

#[test]
fn suffix_longer_than_the_segment_does_not_match() {
    assert!(!component_matches_pattern("ar", "*bar"));
    assert!(!component_matches_pattern("fo", "foo*"));
    assert!(!component_matches_pattern("ab", "*abc*"));
}

#[test]
fn plain_matching_compares_characters_as_they_stand() {
    assert!(plain("foobar", "*bar"));
    assert!(plain("footer", "foo*"));
    assert!(plain("xxfooxx", "*foo*"));
    assert!(plain("same", "same"));
    assert!(!plain("Same", "same"));
    assert!(!plain("FOOBAR", "*bar"));
}
