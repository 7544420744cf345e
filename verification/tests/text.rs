use pathkeep::utilities::text::{chars_of, contains, ends_with, lowercase_chars, matches_at, same_chars, split, starts_with};

fn chars(s: &str) -> Vec<char> {
    s.chars().collect()
}

#[test]
fn chars_of_keeps_every_character_in_order() {
    assert_eq!(chars_of("a/ß/c"), vec!['a', '/', 'ß', '/', 'c']);
    assert_eq!(chars_of(""), Vec::<char>::new());
}

#[test]
fn lowercase_chars_lowercases() {
    assert_eq!(lowercase_chars("MiXeD"), chars("mixed"));
    assert_eq!(lowercase_chars("already"), chars("already"));
}

#[test]
fn split_keeps_empty_pieces() {
    assert_eq!(split("a,,b", ','), vec!["a".to_string(), "".to_string(), "b".to_string()]);
    assert_eq!(split("a,", ','), vec!["a".to_string(), "".to_string()]);
    assert_eq!(split(",a", ','), vec!["".to_string(), "a".to_string()]);
}

#[test]
fn split_of_a_string_without_separator_is_the_string() {
    assert_eq!(split("abc", ','), vec!["abc".to_string()]);
    assert_eq!(split("", ','), vec!["".to_string()]);
}

#[test]
fn split_works_on_characters_not_bytes() {
    assert_eq!(split("ä/ö/ü", '/'), vec!["ä".to_string(), "ö".to_string(), "ü".to_string()]);
}

#[test]
fn matches_at_looks_at_one_position() {
    assert!(matches_at(&chars("hello"), &chars("ll"), 2));
    assert!(!matches_at(&chars("hello"), &chars("ll"), 1));
    assert!(matches_at(&chars("hello"), &chars(""), 5));
}

#[test]
fn matches_at_beyond_the_end_is_no_match() {
    assert!(!matches_at(&chars("hello"), &chars("lo"), 4));
    assert!(!matches_at(&chars("hello"), &chars(""), 6));
    assert!(!matches_at(&chars(""), &chars("a"), 0));
    assert!(!matches_at(&chars("hello"), &chars("h"), usize::MAX));
}

#[test]
fn starts_and_ends() {
    assert!(starts_with(&chars("hello"), &chars("he")));
    assert!(!starts_with(&chars("hello"), &chars("lo")));
    assert!(ends_with(&chars("hello"), &chars("lo")));
    assert!(!ends_with(&chars("hello"), &chars("he")));
    assert!(starts_with(&chars("hello"), &chars("")));
    assert!(ends_with(&chars("hello"), &chars("")));
    assert!(!starts_with(&chars("he"), &chars("hello")));
    assert!(!ends_with(&chars("lo"), &chars("hello")));
}

#[test]
fn contains_finds_an_occurrence_anywhere() {
    assert!(contains(&chars("hello"), &chars("ell")));
    assert!(contains(&chars("hello"), &chars("hello")));
    assert!(contains(&chars("hello"), &chars("o")));
    assert!(contains(&chars("hello"), &chars("")));
    assert!(contains(&chars(""), &chars("")));
    assert!(!contains(&chars("hello"), &chars("elo")));
    assert!(!contains(&chars("hi"), &chars("hello")));
}

#[test]
fn same_chars_is_equality() {
    assert!(same_chars(&chars("abc"), &chars("abc")));
    assert!(!same_chars(&chars("abc"), &chars("abd")));
    assert!(!same_chars(&chars("abc"), &chars("ab")));
    assert!(same_chars(&chars(""), &chars("")));
}
