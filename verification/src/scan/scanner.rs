//! The scan of one root: every directory that the walk visited below it, with
//! its verdict.

use vstd::prelude::*;
use crate::config::entry::DiscoveredPaths;
use crate::config::exclude::{Check, CheckView, Reason, ReasonView};
use crate::config::path_map::PathMap;
use crate::scan::classify::{classify_with, lowered, lowered_patterns, path_verdict};
use crate::scan::walk::{event_views, failure_reason, Snapshot, SurveyView, WalkEvent, WalkEventView};
use crate::utilities::text::{char_rows, strings};

verus! {

/// What one event of the walk records, and under which path.
///
/// The visit of a directory below the root, within the depth limit, records
/// the verdict of its path under that path. A failure records itself under
/// the path that it concerns, and under the root where it names no path.
/// Files, the root's own visit and visits beyond the depth limit record
/// nothing.
pub open spec fn recorded(
    ev: WalkEventView,
    root: Seq<char>,
    entry_excludes: Seq<Seq<char>>,
    default_excludes: Seq<Seq<char>>,
    max_depth: u8,
) -> Option<(Seq<char>, CheckView)> {
    match ev {
        WalkEventView::Entry { path, is_dir, depth } => if is_dir && depth <= max_depth && path
            != root {
            Some((path, path_verdict(path, entry_excludes, default_excludes)))
        } else {
            None
        },
        WalkEventView::Failure { at, permission_denied, message } => Some(
            (
                match at {
                    Some(failed) => failed,
                    None => root,
                },
                CheckView::rejected(failure_reason(permission_denied, message)),
            ),
        ),
    }
}

/// What the last event that records anything under `p` records there.
pub open spec fn last_record(
    events: Seq<WalkEventView>,
    root: Seq<char>,
    entry_excludes: Seq<Seq<char>>,
    default_excludes: Seq<Seq<char>>,
    max_depth: u8,
    p: Seq<char>,
) -> Option<CheckView>
    decreases events.len(),
{
    if events.len() == 0 {
        None
    } else {
        let last = recorded(events.last(), root, entry_excludes, default_excludes, max_depth);
        if last is Some && last.unwrap().0 == p {
            Some(last.unwrap().1)
        } else {
            last_record(events.drop_last(), root, entry_excludes, default_excludes, max_depth, p)
        }
    }
}

/// What the walk of a directory `root` amounts to: every path under which
/// some event records something holds what the last such event records.
///
/// So a directory that was visited holds the verdict of its path, and a path
/// at which the walk failed holds the failure, also where the path was
/// visited before.
pub open spec fn walk_result(
    events: Seq<WalkEventView>,
    root: Seq<char>,
    entry_excludes: Seq<Seq<char>>,
    default_excludes: Seq<Seq<char>>,
    max_depth: u8,
) -> Map<Seq<char>, CheckView> {
    Map::new(
        |p: Seq<char>| last_record(events, root, entry_excludes, default_excludes, max_depth, p) is Some,
        |p: Seq<char>| last_record(events, root, entry_excludes, default_excludes, max_depth, p).unwrap(),
    )
}

/// What the scan of `root` amounts to on a snapshot of the disk. A root that
/// is absent, or no directory, yields that one verdict on itself; a directory
/// yields the result of its walk.
pub open spec fn scan_result(
    snapshot: Map<Seq<char>, SurveyView>,
    root: Seq<char>,
    entry_excludes: Seq<Seq<char>>,
    default_excludes: Seq<Seq<char>>,
    max_depth: u8,
) -> Map<Seq<char>, CheckView> {
    if !snapshot.contains_key(root) {
        map![root => CheckView::rejected(ReasonView::DoesNotExist)]
    } else if !snapshot[root].is_dir {
        map![root => CheckView::rejected(ReasonView::NotDirectory)]
    } else {
        walk_result(snapshot[root].events, root, entry_excludes, default_excludes, max_depth)
    }
}

/// How one more event changes the result of a walk.
pub open spec fn walk_step(
    before: Map<Seq<char>, CheckView>,
    ev: WalkEventView,
    root: Seq<char>,
    entry_excludes: Seq<Seq<char>>,
    default_excludes: Seq<Seq<char>>,
    max_depth: u8,
) -> Map<Seq<char>, CheckView> {
    match recorded(ev, root, entry_excludes, default_excludes, max_depth) {
        Some((at, verdict)) => before.insert(at, verdict),
        None => before,
    }
}

/// The result of a walk is the result of the walk so far, changed by the
/// event that comes next.
pub proof fn lemma_walk_result_push(
    events: Seq<WalkEventView>,
    ev: WalkEventView,
    root: Seq<char>,
    entry_excludes: Seq<Seq<char>>,
    default_excludes: Seq<Seq<char>>,
    max_depth: u8,
)
    ensures
        walk_result(events.push(ev), root, entry_excludes, default_excludes, max_depth) == walk_step(
            walk_result(events, root, entry_excludes, default_excludes, max_depth),
            ev,
            root,
            entry_excludes,
            default_excludes,
            max_depth,
        ),
{
    let longer = events.push(ev);
    assert(longer.drop_last() =~= events);
    assert(longer.last() == ev);
    assert(walk_result(longer, root, entry_excludes, default_excludes, max_depth) =~= walk_step(
        walk_result(events, root, entry_excludes, default_excludes, max_depth),
        ev,
        root,
        entry_excludes,
        default_excludes,
        max_depth,
    ));
}

/// Whatever an event records is a well-formed verdict.
pub proof fn lemma_last_record_wf(
    events: Seq<WalkEventView>,
    root: Seq<char>,
    entry_excludes: Seq<Seq<char>>,
    default_excludes: Seq<Seq<char>>,
    max_depth: u8,
    p: Seq<char>,
)
    requires
        last_record(events, root, entry_excludes, default_excludes, max_depth, p) is Some,
    ensures
        last_record(events, root, entry_excludes, default_excludes, max_depth, p).unwrap().wf(),
    decreases events.len(),
{
    let last = recorded(events.last(), root, entry_excludes, default_excludes, max_depth);
    if !(last is Some && last.unwrap().0 == p) {
        lemma_last_record_wf(events.drop_last(), root, entry_excludes, default_excludes, max_depth, p);
    }
}

/// Every verdict of a scan is well-formed.
pub proof fn lemma_scan_result_wf(
    snapshot: Map<Seq<char>, SurveyView>,
    root: Seq<char>,
    entry_excludes: Seq<Seq<char>>,
    default_excludes: Seq<Seq<char>>,
    max_depth: u8,
)
    ensures
        forall|p: Seq<char>| #[trigger]
            scan_result(snapshot, root, entry_excludes, default_excludes, max_depth).contains_key(p)
                ==> scan_result(snapshot, root, entry_excludes, default_excludes, max_depth)[p].wf(),
{
    let result = scan_result(snapshot, root, entry_excludes, default_excludes, max_depth);
    assert forall|p: Seq<char>| #[trigger] result.contains_key(p) implies result[p].wf() by {
        if snapshot.contains_key(root) && snapshot[root].is_dir {
            lemma_last_record_wf(snapshot[root].events, root, entry_excludes, default_excludes, max_depth, p);
        }
    }
}

/// Two scans of one root on one snapshot, under the same patterns and the
/// same depth limit, hold the same paths with the same verdicts and reasons.
pub proof fn lemma_scan_deterministic(
    first: Map<Seq<char>, CheckView>,
    second: Map<Seq<char>, CheckView>,
    snapshot: Map<Seq<char>, SurveyView>,
    root: Seq<char>,
    entry_excludes: Seq<Seq<char>>,
    default_excludes: Seq<Seq<char>>,
    max_depth: u8,
)
    requires
        first == scan_result(snapshot, root, entry_excludes, default_excludes, max_depth),
        second == scan_result(snapshot, root, entry_excludes, default_excludes, max_depth),
    ensures
        first == second,
{
}

/// A mapping that holds one verdict.
fn single(path: &String, reason: Reason) -> (r: DiscoveredPaths)
    ensures
        r@ == map![path@ => CheckView::rejected(reason@)],
{
    let mut r: DiscoveredPaths = PathMap::new();
    r.insert(path.clone(), Check::new_invalid(reason));
    r
}

/// Scans the root `path` as the snapshot shows it.
///
/// A root that the snapshot does not hold is reported as absent, one that is
/// no directory as such, each under the root's own path. Of a directory, every
/// directory that its walk visited below it, down to `max_depth` levels, is
/// classified under the given patterns. A failure of the walk is recorded
/// under the path that it concerns, or under the root where it names none,
/// and does not end the scan. Paths are taken apart at `/` and at no other
/// separator.
pub fn scan_directory(
    path: &String,
    exclude_patterns: &Vec<String>,
    default_excludes: &Vec<String>,
    max_depth: u8,
    snapshot: &Snapshot,
) -> (discovered: DiscoveredPaths)
    ensures
        discovered@ == scan_result(
            snapshot@,
            path@,
            strings(exclude_patterns@),
            strings(default_excludes@),
            max_depth,
        ),
{
    let survey = match snapshot.get(path) {
        None => {
            return single(path, Reason::DoesNotExist);
        },
        Some(survey) => survey,
    };
    if !survey.is_dir {
        return single(path, Reason::NotDirectory);
    }
    let entry_lowered = lowered_patterns(exclude_patterns);
    let default_lowered = lowered_patterns(default_excludes);
    let n: usize = survey.events.len();
    let mut discovered: DiscoveredPaths = PathMap::new();
    let mut i: usize = 0;
    let ghost events = event_views(survey.events@);
    let ghost entry = strings(exclude_patterns@);
    let ghost defaults = strings(default_excludes@);
    proof {
        assert(events.take(0) =~= Seq::<WalkEventView>::empty());
        assert(discovered@ =~= walk_result(events.take(0), path@, entry, defaults, max_depth));
    }
    while i < n
        invariant
            n == survey.events@.len(),
            i <= n,
            events == event_views(survey.events@),
            entry == strings(exclude_patterns@),
            defaults == strings(default_excludes@),
            char_rows(entry_lowered@) == lowered(entry),
            char_rows(default_lowered@) == lowered(defaults),
            discovered@ == walk_result(events.take(i as int), path@, entry, defaults, max_depth),
        decreases n - i,
    {
        proof {
            assert(events.take(i + 1) =~= events.take(i as int).push(events[i as int]));
            lemma_walk_result_push(events.take(i as int), events[i as int], path@, entry, defaults, max_depth);
            assert(events[i as int] == survey.events@[i as int]@);
        }
        match &survey.events[i] {
            WalkEvent::Entry { path: visited, is_dir, depth } => {
                if *is_dir && *depth <= max_depth as usize && !(*visited == *path) {
                    let check = classify_with(
                        visited.as_str(),
                        exclude_patterns,
                        &entry_lowered,
                        default_excludes,
                        &default_lowered,
                    );
                    discovered.insert(visited.clone(), check);
                }
            },
            WalkEvent::Failure { at, permission_denied, message } => {
                let reason = WalkEvent::reason_for_failure(*permission_denied, message);
                let failed = match at {
                    Some(failed) => failed.clone(),
                    None => path.clone(),
                };
                discovered.insert(failed, Check::new_invalid(reason));
            },
        }
        i += 1;
    }
    proof {
        assert(events.take(n as int) =~= events);
    }
    discovered
}

} // verus!
