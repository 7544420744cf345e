//! Exclusion patterns: `text`, `text*`, `*text` and `*text*`, matched
//! case-insensitively against one path segment.

use vstd::prelude::*;
use vstd::slice::slice_subrange;
use crate::utilities::text::{contains, ends_with, has_infix, lowercase, lowercase_chars, same_chars, starts_with};

verus! {

/// What a pattern asks of a segment, both already in lowercase.
///
/// A star at both ends asks for the text between them anywhere in the
/// segment, a leading star for the rest as a suffix, a trailing star for the
/// rest as a prefix; without a star the whole segment has to equal the
/// pattern. A lone `*` is a leading star with nothing after it, and so matches
/// every segment.
pub open spec fn pattern_matches(segment: Seq<char>, pattern: Seq<char>) -> bool {
    let n = pattern.len() as int;
    if n >= 2 && pattern[0] == '*' && pattern[n - 1] == '*' {
        has_infix(segment, pattern.subrange(1, n - 1))
    } else if n >= 1 && pattern[0] == '*' {
        pattern.subrange(1, n).is_suffix_of(segment)
    } else if n >= 1 && pattern[n - 1] == '*' {
        pattern.subrange(0, n - 1).is_prefix_of(segment)
    } else {
        segment == pattern
    }
}

/// Whether a path segment falls under a pattern once both are lowercased.
pub open spec fn segment_matches(segment: Seq<char>, pattern: Seq<char>) -> bool {
    pattern_matches(lowercase(segment), lowercase(pattern))
}

/// Matches a segment against a pattern, character for character: the caller
/// has already brought both into the case in which they are to be compared.
pub fn matches_pattern(segment: &[char], pattern: &[char]) -> (r: bool)
    ensures
        r == pattern_matches(segment@, pattern@),
{
    let n: usize = pattern.len();
    if n >= 2 && pattern[0] == '*' && pattern[n - 1] == '*' {
        contains(segment, slice_subrange(pattern, 1, n - 1))
    } else if n >= 1 && pattern[0] == '*' {
        ends_with(segment, slice_subrange(pattern, 1, n))
    } else if n >= 1 && pattern[n - 1] == '*' {
        starts_with(segment, slice_subrange(pattern, 0, n - 1))
    } else {
        same_chars(segment, pattern)
    }
}

/// Decides whether one path component falls under one exclusion pattern,
/// ignoring case on both sides.
pub fn component_matches_pattern(component: &str, pattern: &str) -> (r: bool)
    ensures
        r == segment_matches(component@, pattern@),
{
    let component = lowercase_chars(component);
    let pattern = lowercase_chars(pattern);
    matches_pattern(component.as_slice(), pattern.as_slice())
}

} // verus!
