//! The verdict on one path: its segments held against the exclusion patterns
//! of its entry, then against the global defaults, then against the name of
//! the version-control directory.

use vstd::prelude::*;
use crate::config::exclude::{Check, CheckView, Reason, ReasonView};
use crate::utilities::pattern_match::{matches_pattern, pattern_matches};
use crate::utilities::text::{char_rows, chars_of, lowercase, lowercase_chars, same_chars, split, split_at_sep, strings};

verus! {

/// A piece of a path that names something: not empty, and neither `.` nor
/// `..`.
pub open spec fn is_normal(piece: Seq<char>) -> bool {
    piece.len() > 0 && piece != seq!['.'] && piece != seq!['.', '.']
}

/// `is_normal` as a predicate to filter by.
pub open spec fn normal() -> spec_fn(Seq<char>) -> bool {
    |piece: Seq<char>| is_normal(piece)
}

/// The segments of a path: what stands between its `/` separators, as far as
/// it names something. No other character separates: a path written with
/// another separator is one segment.
pub open spec fn segments(path: Seq<char>) -> Seq<Seq<char>> {
    split_at_sep(path, '/').filter(normal())
}

/// Each row in lowercase.
pub open spec fn lowered(rows: Seq<Seq<char>>) -> Seq<Seq<char>> {
    rows.map_values(|row: Seq<char>| lowercase(row))
}

/// Some segment falls under the pattern. Segments and pattern are compared as
/// they stand.
pub open spec fn any_matches(segments: Seq<Seq<char>>, pattern: Seq<char>) -> bool {
    exists|i: int| 0 <= i < segments.len() && pattern_matches(#[trigger] segments[i], pattern)
}

/// `i` is the first pattern under which some segment falls.
pub open spec fn is_first_match(segments: Seq<Seq<char>>, patterns: Seq<Seq<char>>, i: int) -> bool {
    &&& 0 <= i < patterns.len()
    &&& any_matches(segments, patterns[i])
    &&& forall|j: int| 0 <= j < i ==> !any_matches(segments, #[trigger] patterns[j])
}

/// The first pattern, in the order of the list, under which some segment
/// falls.
pub open spec fn first_match(segments: Seq<Seq<char>>, patterns: Seq<Seq<char>>) -> Option<int> {
    if exists|i: int| is_first_match(segments, patterns, i) {
        Some(choose|i: int| is_first_match(segments, patterns, i))
    } else {
        None
    }
}

/// What excludes a path, if anything does.
#[derive(Debug, Clone, Copy, PartialEq, Eq, Structural)]
pub enum Finding {
    /// The entry's own pattern at this index.
    EntryPattern(usize),
    /// The default pattern at this index.
    DefaultPattern(usize),
    /// A segment named `.git`.
    VersionControl,
    /// Nothing.
    Clear,
}

/// The finding on segments and patterns that are compared as they stand. The
/// entry's own patterns come first, so that an exclusion is explained by the
/// entry where it can be; then the defaults; then the version-control name.
pub open spec fn finding(
    segments: Seq<Seq<char>>,
    entry: Seq<Seq<char>>,
    defaults: Seq<Seq<char>>,
) -> Finding {
    match first_match(segments, entry) {
        Some(i) => Finding::EntryPattern(i as usize),
        None => match first_match(segments, defaults) {
            Some(i) => Finding::DefaultPattern(i as usize),
            None => if segments.contains(".git"@) {
                Finding::VersionControl
            } else {
                Finding::Clear
            },
        },
    }
}

/// The verdict that a finding amounts to; a pattern is reported as it was
/// written.
pub open spec fn verdict_of(f: Finding, entry: Seq<Seq<char>>, defaults: Seq<Seq<char>>) -> CheckView {
    match f {
        Finding::EntryPattern(i) => CheckView::rejected(ReasonView::ExcludePattern(entry[i as int])),
        Finding::DefaultPattern(i) => CheckView::rejected(
            ReasonView::DefaultExclude(defaults[i as int]),
        ),
        Finding::VersionControl => CheckView::rejected(ReasonView::GitIgnored),
        Finding::Clear => CheckView::accepted(),
    }
}

/// The verdict on a path under the patterns of its entry and the defaults:
/// segments and patterns are lowercased, then compared.
pub open spec fn path_verdict(path: Seq<char>, entry: Seq<Seq<char>>, defaults: Seq<Seq<char>>) -> CheckView {
    verdict_of(finding(lowered(segments(path)), lowered(entry), lowered(defaults)), entry, defaults)
}

/// A verdict on a path is always well-formed.
pub proof fn lemma_path_verdict_wf(path: Seq<char>, entry: Seq<Seq<char>>, defaults: Seq<Seq<char>>)
    ensures
        path_verdict(path, entry, defaults).wf(),
{
}

fn is_normal_piece(piece: &Vec<char>) -> (r: bool)
    ensures
        r == is_normal(piece@),
{
    let n: usize = piece.len();
    if n == 0 {
        false
    } else if n == 1 {
        if piece[0] == '.' {
            assert(piece@ =~= seq!['.']);
            false
        } else {
            assert(seq!['.'][0] == '.');
            true
        }
    } else if n == 2 {
        if piece[0] == '.' && piece[1] == '.' {
            assert(piece@ =~= seq!['.', '.']);
            false
        } else {
            assert(seq!['.', '.'][0] == '.' && seq!['.', '.'][1] == '.');
            true
        }
    } else {
        true
    }
}

/// The segments of a path, each in lowercase.
pub fn lowered_segments(path: &str) -> (r: Vec<Vec<char>>)
    ensures
        char_rows(r@) == lowered(segments(path@)),
{
    let pieces = split(path, '/');
    let n: usize = pieces.len();
    let mut out: Vec<Vec<char>> = Vec::new();
    let mut i: usize = 0;
    proof {
        assert(strings(pieces@).take(0).filter(normal()) =~= Seq::<Seq<char>>::empty());
        assert(char_rows(out@) =~= lowered(Seq::<Seq<char>>::empty()));
    }
    while i < n
        invariant
            n == pieces@.len(),
            i <= n,
            char_rows(out@) == lowered(strings(pieces@).take(i as int).filter(normal())),
        decreases n - i,
    {
        let piece: &String = &pieces[i];
        let chars = chars_of(piece.as_str());
        let ghost before = strings(pieces@).take(i as int);
        proof {
            assert(strings(pieces@).take(i + 1) =~= before.push(piece@));
            Seq::lemma_filter_push(before, piece@, normal());
        }
        if is_normal_piece(&chars) {
            let row = lowercase_chars(piece.as_str());
            proof {
                let kept = before.filter(normal());
                assert(char_rows(out@.push(row)) =~= char_rows(out@).push(row@));
                assert(lowered(kept.push(piece@)) =~= lowered(kept).push(lowercase(piece@)));
            }
            out.push(row);
        }
        i += 1;
    }
    proof {
        assert(strings(pieces@).take(n as int) =~= strings(pieces@));
    }
    out
}

/// Each pattern in lowercase.
pub fn lowered_patterns(patterns: &Vec<String>) -> (r: Vec<Vec<char>>)
    ensures
        char_rows(r@) == lowered(strings(patterns@)),
{
    let n: usize = patterns.len();
    let mut out: Vec<Vec<char>> = Vec::new();
    let mut i: usize = 0;
    while i < n
        invariant
            n == patterns@.len(),
            i <= n,
            out@.len() == i,
            forall|j: int| 0 <= j < i ==> out@[j]@ == lowercase(#[trigger] patterns@[j]@),
        decreases n - i,
    {
        out.push(lowercase_chars(patterns[i].as_str()));
        i += 1;
    }
    assert(char_rows(out@) =~= lowered(strings(patterns@)));
    out
}

/// Whether some segment falls under the pattern, compared as they stand.
pub fn any_segment_matches(segments: &Vec<Vec<char>>, pattern: &[char]) -> (r: bool)
    ensures
        r == any_matches(char_rows(segments@), pattern@),
{
    let n: usize = segments.len();
    let mut i: usize = 0;
    while i < n
        invariant
            n == segments@.len(),
            i <= n,
            forall|j: int| 0 <= j < i ==> !pattern_matches(#[trigger] char_rows(segments@)[j], pattern@),
        decreases n - i,
    {
        if matches_pattern(segments[i].as_slice(), pattern) {
            assert(pattern_matches(char_rows(segments@)[i as int], pattern@));
            return true;
        }
        i += 1;
    }
    false
}

/// The first pattern under which some segment falls, compared as they stand.
pub fn find_first_match(segments: &Vec<Vec<char>>, patterns: &Vec<Vec<char>>) -> (r: Option<usize>)
    ensures
        match r {
            Some(i) => first_match(char_rows(segments@), char_rows(patterns@)) == Some(i as int),
            None => first_match(char_rows(segments@), char_rows(patterns@)) is None,
        },
{
    let n: usize = patterns.len();
    let mut i: usize = 0;
    while i < n
        invariant
            n == patterns@.len(),
            i <= n,
            forall|j: int|
                0 <= j < i ==> !any_matches(char_rows(segments@), #[trigger] char_rows(patterns@)[j]),
        decreases n - i,
    {
        if any_segment_matches(segments, patterns[i].as_slice()) {
            assert(is_first_match(char_rows(segments@), char_rows(patterns@), i as int));
            return Some(i);
        }
        i += 1;
    }
    None
}

/// Decides what excludes a path with the given segments, if anything does.
/// Segments and patterns are compared as they stand: the caller has
/// lowercased them.
pub fn find_exclusion(
    segments: &Vec<Vec<char>>,
    entry: &Vec<Vec<char>>,
    defaults: &Vec<Vec<char>>,
) -> (r: Finding)
    ensures
        r == finding(char_rows(segments@), char_rows(entry@), char_rows(defaults@)),
        r matches Finding::EntryPattern(i) ==> i < entry@.len(),
        r matches Finding::DefaultPattern(i) ==> i < defaults@.len(),
{
    match find_first_match(segments, entry) {
        Some(i) => Finding::EntryPattern(i),
        None => match find_first_match(segments, defaults) {
            Some(i) => Finding::DefaultPattern(i),
            None => {
                let git = chars_of(".git");
                let n: usize = segments.len();
                let mut k: usize = 0;
                while k < n
                    invariant
                        n == segments@.len(),
                        k <= n,
                        git@ == ".git"@,
                        first_match(char_rows(segments@), char_rows(entry@)) is None,
                        first_match(char_rows(segments@), char_rows(defaults@)) is None,
                        forall|j: int| 0 <= j < k ==> #[trigger] char_rows(segments@)[j] != ".git"@,
                    decreases n - k,
                {
                    if same_chars(segments[k].as_slice(), git.as_slice()) {
                        assert(char_rows(segments@)[k as int] == ".git"@);
                        assert(char_rows(segments@).contains(".git"@));
                        return Finding::VersionControl;
                    }
                    k += 1;
                }
                Finding::Clear
            },
        },
    }
}

/// The check that a finding amounts to.
fn check_of(f: Finding, entry_excludes: &Vec<String>, default_excludes: &Vec<String>) -> (r: Check)
    requires
        f matches Finding::EntryPattern(i) ==> i < entry_excludes@.len(),
        f matches Finding::DefaultPattern(i) ==> i < default_excludes@.len(),
    ensures
        r@ == verdict_of(f, strings(entry_excludes@), strings(default_excludes@)),
        r.wf(),
{
    match f {
        Finding::EntryPattern(i) => Check::new_invalid(Reason::ExcludePattern(entry_excludes[i].clone())),
        Finding::DefaultPattern(i) => Check::new_invalid(
            Reason::DefaultExclude(default_excludes[i].clone()),
        ),
        Finding::VersionControl => Check::new_invalid(Reason::GitIgnored),
        Finding::Clear => Check::new_valid(),
    }
}

/// The verdict on a path, given the patterns both as written and lowercased.
pub(crate) fn classify_with(
    path: &str,
    entry_excludes: &Vec<String>,
    entry_lowered: &Vec<Vec<char>>,
    default_excludes: &Vec<String>,
    default_lowered: &Vec<Vec<char>>,
) -> (r: Check)
    requires
        char_rows(entry_lowered@) == lowered(strings(entry_excludes@)),
        char_rows(default_lowered@) == lowered(strings(default_excludes@)),
    ensures
        r@ == path_verdict(path@, strings(entry_excludes@), strings(default_excludes@)),
        r.wf(),
{
    let segments = lowered_segments(path);
    let f = find_exclusion(&segments, entry_lowered, default_lowered);
    assert(char_rows(entry_lowered@).len() == strings(entry_excludes@).len());
    assert(char_rows(default_lowered@).len() == strings(default_excludes@).len());
    check_of(f, entry_excludes, default_excludes)
}

/// Classifies one path: invalid with the entry's first matching pattern,
/// else invalid with the first matching default pattern, else invalid as
/// version-control data where a segment is `.git`, else valid. The path is
/// taken apart at `/` and at no other separator.
pub fn classify(path: &str, entry_excludes: &Vec<String>, default_excludes: &Vec<String>) -> (r: Check)
    ensures
        r@ == path_verdict(path@, strings(entry_excludes@), strings(default_excludes@)),
        r.wf(),
{
    let entry_lowered = lowered_patterns(entry_excludes);
    let default_lowered = lowered_patterns(default_excludes);
    classify_with(path, entry_excludes, &entry_lowered, default_excludes, &default_lowered)
}

} // verus!
