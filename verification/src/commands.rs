//! The commands on the store, decided on a snapshot of the disk.

use vstd::prelude::*;
use crate::config::config::{entries_wf, entry_views, insert_entry, lemma_insert_entry_idempotent, roots_of, Config};
use crate::config::entry::{is_recursive, PathEntry, PathEntryView};
use crate::config::exclude::CheckView;
use crate::config::path_map::PathMap;
use crate::scan::scanner::{lemma_scan_result_wf, scan_directory, scan_result};
use crate::scan::walk::{Snapshot, SurveyView};
use crate::utilities::text::{split, split_at_sep, strings};

verus! {

/// What can be asked of the store.
#[derive(Debug)]
pub enum Commands {
    /// Register roots. The paths are canonical.
    Add { paths: Vec<String>, prepend: bool, exclude: Option<String>, make_exec: bool, max_depth: u8 },
    /// Drop the entries of these roots. The paths are canonical.
    Remove { paths: Vec<String> },
    /// Drop the entries whose root is gone from the disk.
    Clean,
    /// List the entries.
    Show { raw: bool },
    /// Forget what was discovered and scan anew.
    Reset,
}

/// The patterns that a comma-separated list names; none where no list is
/// given.
pub open spec fn exclude_list(exclude: Option<String>) -> Seq<Seq<char>> {
    match exclude {
        Some(list) => split_at_sep(list@, ','),
        None => Seq::empty(),
    }
}

/// An entry after a scan on the snapshot: a recursive entry holds what the
/// scan of its root found, under its own patterns and depth limit; any other
/// entry is left as it is.
pub open spec fn rescanned(
    e: PathEntryView,
    defaults: Seq<Seq<char>>,
    snapshot: Map<Seq<char>, SurveyView>,
) -> PathEntryView {
    if is_recursive(e.max_depth) {
        e.with_discovered(scan_result(snapshot, e.path, e.exclude_patterns, defaults, e.max_depth))
    } else {
        e
    }
}

/// The entries after every one of them was scanned anew.
pub open spec fn refreshed(
    entries: Seq<PathEntryView>,
    defaults: Seq<Seq<char>>,
    snapshot: Map<Seq<char>, SurveyView>,
) -> Seq<PathEntryView> {
    entries.map_values(|e: PathEntryView| rescanned(e, defaults, snapshot))
}

/// The entries with nothing discovered.
pub open spec fn forgotten(entries: Seq<PathEntryView>) -> Seq<PathEntryView> {
    entries.map_values(|e: PathEntryView| e.with_discovered(Map::empty()))
}

/// The entry that an `Add` makes for one root.
pub open spec fn added_entry(
    root: Seq<char>,
    prepend: bool,
    excludes: Seq<Seq<char>>,
    max_depth: u8,
    defaults: Seq<Seq<char>>,
    snapshot: Map<Seq<char>, SurveyView>,
) -> PathEntryView {
    rescanned(PathEntryView::fresh(root, prepend, excludes, max_depth), defaults, snapshot)
}

/// The entries after an `Add`: each root in turn is made into an entry and
/// offered to the store.
pub open spec fn added(
    entries: Seq<PathEntryView>,
    roots: Seq<Seq<char>>,
    prepend: bool,
    excludes: Seq<Seq<char>>,
    max_depth: u8,
    defaults: Seq<Seq<char>>,
    snapshot: Map<Seq<char>, SurveyView>,
) -> Seq<PathEntryView>
    decreases roots.len(),
{
    if roots.len() == 0 {
        entries
    } else {
        insert_entry(
            added(entries, roots.drop_last(), prepend, excludes, max_depth, defaults, snapshot),
            added_entry(roots.last(), prepend, excludes, max_depth, defaults, snapshot),
        )
    }
}

/// The entry's root is none of `paths`.
pub open spec fn not_among(paths: Seq<Seq<char>>) -> spec_fn(PathEntry) -> bool {
    |e: PathEntry| !paths.contains(e.path@)
}

/// The entry's root is on the disk, as far as the snapshot shows it.
pub open spec fn on_disk(snapshot: Map<Seq<char>, SurveyView>) -> spec_fn(PathEntry) -> bool {
    |e: PathEntry| snapshot.contains_key(e.path@)
}

/// An entry after a scan is well-formed if it was before or is recursive.
pub proof fn lemma_rescanned_wf(
    e: PathEntryView,
    defaults: Seq<Seq<char>>,
    snapshot: Map<Seq<char>, SurveyView>,
)
    requires
        is_recursive(e.max_depth) || e.wf(),
    ensures
        rescanned(e, defaults, snapshot).wf(),
{
    lemma_scan_result_wf(snapshot, e.path, e.exclude_patterns, defaults, e.max_depth);
}

/// Leaving entries out keeps the rest well-formed.
pub proof fn lemma_filter_wf(entries: Seq<PathEntry>, keep: spec_fn(PathEntry) -> bool)
    requires
        entries_wf(entry_views(entries)),
    ensures
        entries_wf(entry_views(entries.filter(keep))),
        forall|i: int|
            0 <= i < entries.filter(keep).len() ==> entries.contains(#[trigger] entries.filter(keep)[i]),
    decreases entries.len(),
{
    reveal(Seq::filter);
    let kept = entries.filter(keep);
    if entries.len() > 0 {
        let shorter = entries.drop_last();
        let last = entries.last();
        assert(entry_views(shorter) =~= entry_views(entries).drop_last());
        assert forall|i: int| 0 <= i < shorter.len() implies (#[trigger] entry_views(shorter)[i]).wf() by {
            assert(entry_views(shorter)[i] == entry_views(entries)[i]);
        }
        assert forall|i: int, j: int|
            0 <= i < shorter.len() && 0 <= j < shorter.len() && i != j implies roots_of(
            entry_views(shorter),
        )[i] != roots_of(entry_views(shorter))[j] by {
            assert(roots_of(entry_views(shorter))[i] == roots_of(entry_views(entries))[i]);
            assert(roots_of(entry_views(shorter))[j] == roots_of(entry_views(entries))[j]);
        }
        lemma_filter_wf(shorter, keep);
        let kept_shorter = shorter.filter(keep);
        assert forall|i: int| 0 <= i < kept_shorter.len() implies entries.contains(
            #[trigger] kept_shorter[i],
        ) && kept_shorter[i].path@ != last.path@ by {
            assert(shorter.contains(kept_shorter[i]));
            let k = choose|k: int| 0 <= k < shorter.len() && shorter[k] == kept_shorter[i];
            assert(entries[k] == kept_shorter[i]);
            assert(roots_of(entry_views(entries))[k] == kept_shorter[i].path@);
            assert(roots_of(entry_views(entries))[entries.len() - 1] == last.path@);
        }
        if keep(last) {
            assert(kept == kept_shorter.push(last));
            assert(entries[entries.len() - 1] == last);
            assert forall|i: int| 0 <= i < kept.len() implies (#[trigger] entry_views(kept)[i]).wf() by {
                if i < kept_shorter.len() {
                    assert(entry_views(kept)[i] == entry_views(kept_shorter)[i]);
                } else {
                    assert(entry_views(kept)[i] == entry_views(entries)[entries.len() - 1]);
                }
            }
            assert forall|i: int, j: int|
                0 <= i < kept.len() && 0 <= j < kept.len() && i != j implies roots_of(
                entry_views(kept),
            )[i] != roots_of(entry_views(kept))[j] by {
                if i < kept_shorter.len() {
                    assert(roots_of(entry_views(kept))[i] == roots_of(entry_views(kept_shorter))[i]);
                    assert(kept[i] == kept_shorter[i]);
                }
                if j < kept_shorter.len() {
                    assert(roots_of(entry_views(kept))[j] == roots_of(entry_views(kept_shorter))[j]);
                    assert(kept[j] == kept_shorter[j]);
                }
            }
        } else {
            assert(kept == kept_shorter);
        }
    }
}

/// Leaving out the entries of roots that are not registered leaves out
/// nothing.
pub proof fn lemma_filter_all(entries: Seq<PathEntry>, keep: spec_fn(PathEntry) -> bool)
    requires
        forall|i: int| 0 <= i < entries.len() ==> keep(#[trigger] entries[i]),
    ensures
        entries.filter(keep) == entries,
    decreases entries.len(),
{
    reveal(Seq::filter);
    if entries.len() > 0 {
        let shorter = entries.drop_last();
        assert forall|i: int| 0 <= i < shorter.len() implies keep(#[trigger] shorter[i]) by {
            assert(shorter[i] == entries[i]);
        }
        lemma_filter_all(shorter, keep);
        assert(keep(entries[entries.len() - 1]));
        assert(shorter.push(entries.last()) =~= entries);
    }
}

/// Removing paths of which none is a registered root changes nothing.
pub proof fn lemma_remove_absent(entries: Seq<PathEntry>, paths: Seq<Seq<char>>)
    requires
        forall|i: int| 0 <= i < entries.len() ==> !paths.contains(#[trigger] entries[i].path@),
    ensures
        entries.filter(not_among(paths)) == entries,
{
    lemma_filter_all(entries, not_among(paths));
}

/// An entry that is not recursive is made with nothing discovered, whatever
/// the snapshot shows below its root.
pub proof fn lemma_shallow_entry_discovers_nothing(
    root: Seq<char>,
    prepend: bool,
    excludes: Seq<Seq<char>>,
    max_depth: u8,
    defaults: Seq<Seq<char>>,
    snapshot: Map<Seq<char>, SurveyView>,
)
    requires
        max_depth <= 1,
    ensures
        added_entry(root, prepend, excludes, max_depth, defaults, snapshot).discovered_paths == Map::<
            Seq<char>,
            CheckView,
        >::empty(),
{
}

/// After a `Reset`, an entry that is not recursive has nothing discovered,
/// whatever it held before and whatever the snapshot shows.
pub proof fn lemma_reset_empties_shallow(
    entries: Seq<PathEntryView>,
    defaults: Seq<Seq<char>>,
    snapshot: Map<Seq<char>, SurveyView>,
    i: int,
)
    requires
        0 <= i < entries.len(),
        entries[i].max_depth <= 1,
    ensures
        refreshed(forgotten(entries), defaults, snapshot)[i].discovered_paths == Map::<
            Seq<char>,
            CheckView,
        >::empty(),
{
}

/// A scan of all entries leaves an entry that is not recursive as it is: one
/// that had nothing discovered still has nothing.
pub proof fn lemma_refresh_keeps_shallow(
    entries: Seq<PathEntryView>,
    defaults: Seq<Seq<char>>,
    snapshot: Map<Seq<char>, SurveyView>,
    i: int,
)
    requires
        0 <= i < entries.len(),
        entries[i].max_depth <= 1,
    ensures
        refreshed(entries, defaults, snapshot)[i] == entries[i],
{
}

/// Adding a root a second time changes nothing, with whatever flags it is
/// added: the entries stay as the first `Add` left them, in number and order.
pub proof fn lemma_add_twice(
    entries: Seq<PathEntryView>,
    root: Seq<char>,
    prepend: bool,
    excludes: Seq<Seq<char>>,
    max_depth: u8,
    again_prepend: bool,
    again_excludes: Seq<Seq<char>>,
    again_max_depth: u8,
    defaults: Seq<Seq<char>>,
    snapshot: Map<Seq<char>, SurveyView>,
)
    ensures
        ({
            let once = added(entries, seq![root], prepend, excludes, max_depth, defaults, snapshot);
            let twice = added(
                once,
                seq![root],
                again_prepend,
                again_excludes,
                again_max_depth,
                defaults,
                snapshot,
            );
            twice == once && twice.len() == once.len()
        }),
{
    let first = added_entry(root, prepend, excludes, max_depth, defaults, snapshot);
    let second = added_entry(root, again_prepend, again_excludes, again_max_depth, defaults, snapshot);
    let one = seq![root];
    assert(one.drop_last() =~= Seq::<Seq<char>>::empty());
    assert(one.last() == root);
    let once = added(entries, one, prepend, excludes, max_depth, defaults, snapshot);
    assert(added(entries, one.drop_last(), prepend, excludes, max_depth, defaults, snapshot) == entries);
    assert(once == insert_entry(entries, first));
    assert(added(once, one.drop_last(), again_prepend, again_excludes, again_max_depth, defaults, snapshot)
        == once);
    lemma_insert_entry_idempotent(entries, first, second);
}

/// Filtering keeps exactly what it is asked to keep: an entry is among those
/// kept if and only if it was there and the predicate holds of it.
pub proof fn lemma_filter_keeps_exactly(
    entries: Seq<PathEntry>,
    keep: spec_fn(PathEntry) -> bool,
    e: PathEntry,
)
    ensures
        entries.filter(keep).contains(e) <==> entries.contains(e) && keep(e),
{
    let kept = entries.filter(keep);
    if kept.contains(e) {
        entries.lemma_filter_contains_rev(keep, e);
        let k = choose|k: int| 0 <= k < kept.len() && kept[k] == e;
        entries.lemma_filter_pred(keep, k);
    }
    if entries.contains(e) && keep(e) {
        let i = choose|i: int| 0 <= i < entries.len() && entries[i] == e;
        entries.lemma_filter_contains(keep, i);
    }
}

/// The entries marked to be kept, in their order.
fn keep_marked(
    entries: Vec<PathEntry>,
    marks: &Vec<bool>,
    Ghost(keep): Ghost<spec_fn(PathEntry) -> bool>,
) -> (kept: Vec<PathEntry>)
    requires
        marks@.len() == entries@.len(),
        forall|i: int| 0 <= i < entries@.len() ==> marks@[i] == keep(#[trigger] entries@[i]),
    ensures
        kept@ == entries@.filter(keep),
{
    let ghost all = entries@;
    let n: usize = entries.len();
    let mut kept: Vec<PathEntry> = Vec::new();
    let mut i: usize = 0;
    proof {
        assert(all.take(0).filter(keep) =~= Seq::<PathEntry>::empty());
    }
    for entry in it: entries
        invariant
            it.seq() == all,
            n == all.len(),
            i == it.index(),
            marks@.len() == all.len(),
            forall|k: int| 0 <= k < all.len() ==> marks@[k] == keep(#[trigger] all[k]),
            kept@ == all.take(i as int).filter(keep),
    {
        proof {
            assert(all.take(i + 1) =~= all.take(i as int).push(entry));
            Seq::lemma_filter_push(all.take(i as int), entry, keep);
        }
        if marks[i] {
            kept.push(entry);
        }
        i += 1;
    }
    proof {
        assert(all.take(all.len() as int) =~= all);
    }
    kept
}

/// Whether `path` is one of `paths`.
fn is_among(paths: &Vec<String>, path: &String) -> (r: bool)
    ensures
        r == strings(paths@).contains(path@),
{
    let n: usize = paths.len();
    let mut i: usize = 0;
    while i < n
        invariant
            n == paths@.len(),
            i <= n,
            forall|j: int| 0 <= j < i ==> strings(paths@)[j] != path@,
        decreases n - i,
    {
        if paths[i] == *path {
            assert(strings(paths@)[i as int] == path@);
            return true;
        }
        i += 1;
    }
    false
}

/// A copy of a list of strings.
fn copy_strings(v: &Vec<String>) -> (r: Vec<String>)
    ensures
        r@ == v@,
{
    let n: usize = v.len();
    let mut r: Vec<String> = Vec::new();
    let mut i: usize = 0;
    while i < n
        invariant
            n == v@.len(),
            i <= n,
            r@ == v@.take(i as int),
        decreases n - i,
    {
        r.push(v[i].clone());
        assert(v@.take(i + 1) =~= v@.take(i as int).push(v@[i as int]));
        i += 1;
    }
    assert(v@.take(n as int) =~= v@);
    r
}

/// Reads a comma-separated list of exclusion patterns. Every piece between
/// commas is a pattern, an empty one too; no list gives no patterns.
pub fn parse_excludes(exclude: Option<&String>) -> (r: Vec<String>)
    ensures
        strings(r@) == match exclude {
            Some(list) => split_at_sep(list@, ','),
            None => Seq::empty(),
        },
{
    match exclude {
        Some(list) => split(list.as_str(), ','),
        None => {
            let r: Vec<String> = Vec::new();
            assert(strings(r@) =~= Seq::<Seq<char>>::empty());
            r
        },
    }
}

impl Commands {
    /// Carries the command out on the store, on a snapshot of the disk.
    ///
    /// `Add` registers the roots and then scans every recursive entry anew;
    /// `Remove` and `Clean` drop entries; `Show` changes nothing; `Reset`
    /// forgets what was discovered and scans anew.
    pub fn execute(&self, config: &mut Config, snapshot: &Snapshot)
        ensures
            final(config).config_path == old(config).config_path,
            final(config).default_excludes == old(config).default_excludes,
            match *self {
                Commands::Add { paths, prepend, exclude, make_exec, max_depth } => {
                    let defaults = old(config)@.default_excludes;
                    let with_new = added(
                        old(config)@.path_entries,
                        strings(paths@),
                        prepend,
                        exclude_list(exclude),
                        max_depth,
                        defaults,
                        snapshot@,
                    );
                    final(config)@.path_entries == refreshed(with_new, defaults, snapshot@)
                },
                Commands::Remove { paths } => {
                    let keep = not_among(strings(paths@));
                    final(config).path_entries@ == old(config).path_entries@.filter(keep)
                },
                Commands::Clean => {
                    let keep = on_disk(snapshot@);
                    final(config).path_entries@ == old(config).path_entries@.filter(keep)
                },
                Commands::Show { raw } => final(config).path_entries@ == old(config).path_entries@,
                Commands::Reset => {
                    let defaults = old(config)@.default_excludes;
                    let emptied = forgotten(old(config)@.path_entries);
                    final(config)@.path_entries == refreshed(emptied, defaults, snapshot@)
                },
            },
            old(config).wf() ==> final(config).wf(),
    {
        match self {
            Commands::Add { paths, prepend, exclude, make_exec: _, max_depth } => {
                self.add_to_path(paths, *prepend, exclude.as_ref(), *max_depth, config, snapshot);
                self.refresh_recursive_paths(config, snapshot);
            },
            Commands::Remove { paths } => {
                self.remove_from_path(paths, config);
            },
            Commands::Clean => {
                self.clean_path(config, snapshot);
            },
            Commands::Show { raw: _ } => {},
            Commands::Reset => {
                self.forget_discovered(config);
                self.refresh_recursive_paths(config, snapshot);
            },
        }
    }

    /// Registers each of the canonical roots `paths`, in turn: an entry is
    /// made for it, scanned on the snapshot if `max_depth` asks for it, and
    /// offered to the store, which drops it if the root is registered already.
    pub fn add_to_path(
        &self,
        paths: &Vec<String>,
        prepend: bool,
        exclude: Option<&String>,
        max_depth: u8,
        config: &mut Config,
        snapshot: &Snapshot,
    )
        ensures
            final(config)@.path_entries == added(
                old(config)@.path_entries,
                strings(paths@),
                prepend,
                match exclude {
                    Some(list) => split_at_sep(list@, ','),
                    None => Seq::empty(),
                },
                max_depth,
                old(config)@.default_excludes,
                snapshot@,
            ),
            final(config).path_entries@.len() >= old(config).path_entries@.len(),
            prepend ==> final(config).path_entries@.skip(
                final(config).path_entries@.len() - old(config).path_entries@.len(),
            ) == old(config).path_entries@,
            !prepend ==> final(config).path_entries@.take(old(config).path_entries@.len() as int)
                == old(config).path_entries@,
            final(config).config_path == old(config).config_path,
            final(config).default_excludes == old(config).default_excludes,
            old(config).wf() ==> final(config).wf(),
    {
        let patterns = parse_excludes(exclude);
        let n: usize = paths.len();
        let mut i: usize = 0;
        let ghost roots = strings(paths@);
        let ghost excludes = strings(patterns@);
        let ghost defaults = config@.default_excludes;
        let ghost before = config@.path_entries;
        let ghost kept = config.path_entries@;
        proof {
            assert(roots.take(0) =~= Seq::<Seq<char>>::empty());
            assert(config.path_entries@.skip(0) =~= kept);
            assert(config.path_entries@.take(kept.len() as int) =~= kept);
        }
        while i < n
            invariant
                n == paths@.len(),
                i <= n,
                roots == strings(paths@),
                excludes == strings(patterns@),
                defaults == config@.default_excludes,
                config.config_path == old(config).config_path,
                config.default_excludes == old(config).default_excludes,
                config@.path_entries == added(
                    before,
                    roots.take(i as int),
                    prepend,
                    excludes,
                    max_depth,
                    defaults,
                    snapshot@,
                ),
                config.path_entries@.len() >= kept.len(),
                prepend ==> config.path_entries@.skip(config.path_entries@.len() - kept.len()) == kept,
                !prepend ==> config.path_entries@.take(kept.len() as int) == kept,
                entries_wf(before) ==> config.wf(),
            decreases n - i,
        {
            let mut entry = PathEntry::new(paths[i].clone(), prepend, copy_strings(&patterns), max_depth);
            if entry.is_recursive() {
                let discovered = scan_directory(
                    &entry.path,
                    &entry.exclude_patterns,
                    &config.default_excludes,
                    max_depth,
                    snapshot,
                );
                entry.discovered_paths = discovered;
            }
            proof {
                assert(roots.take(i + 1).drop_last() =~= roots.take(i as int));
                assert(roots.take(i + 1).last() == paths@[i as int]@);
                lemma_rescanned_wf(
                    PathEntryView::fresh(paths@[i as int]@, prepend, excludes, max_depth),
                    defaults,
                    snapshot@,
                );
                assert(entry@ == added_entry(
                    paths@[i as int]@,
                    prepend,
                    excludes,
                    max_depth,
                    defaults,
                    snapshot@,
                ));
            }
            let ghost held = config.path_entries@;
            config.insert_entry(entry);
            proof {
                let now = config.path_entries@;
                if now.len() > held.len() {
                    if prepend {
                        assert(now.skip(now.len() - kept.len()) =~= held.skip(held.len() - kept.len()));
                    } else {
                        assert(now.take(kept.len() as int) =~= held.take(kept.len() as int));
                    }
                }
            }
            i += 1;
        }
        proof {
            assert(roots.take(n as int) =~= roots);
        }
    }

    /// Scans every recursive entry anew on the snapshot, with the entry's own
    /// root, patterns and depth limit and the store's default patterns. What
    /// the entry had discovered before is replaced. Other entries are left as
    /// they are.
    pub fn refresh_recursive_paths(&self, config: &mut Config, snapshot: &Snapshot)
        ensures
            final(config)@.path_entries == refreshed(
                old(config)@.path_entries,
                old(config)@.default_excludes,
                snapshot@,
            ),
            final(config).path_entries@.len() == old(config).path_entries@.len(),
            forall|i: int|
                0 <= i < old(config).path_entries@.len() && !is_recursive(
                    old(config).path_entries@[i].max_depth,
                ) ==> #[trigger] final(config).path_entries@[i] == old(config).path_entries@[i],
            final(config).config_path == old(config).config_path,
            final(config).default_excludes == old(config).default_excludes,
            old(config).wf() ==> final(config).wf(),
    {
        let n: usize = config.path_entries.len();
        let mut i: usize = 0;
        let ghost before = config.path_entries@;
        let ghost defaults = config@.default_excludes;
        while i < n
            invariant
                n == before.len(),
                i <= n,
                before == old(config).path_entries@,
                defaults == config@.default_excludes,
                config.config_path == old(config).config_path,
                config.default_excludes == old(config).default_excludes,
                config.path_entries@.len() == n,
                forall|j: int| 0 <= j < i ==> (#[trigger] config.path_entries@[j])@ == rescanned(before[j]@, defaults, snapshot@),
                forall|j: int|
                    0 <= j < i && !is_recursive(before[j].max_depth) ==> #[trigger] config.path_entries@[j]
                        == before[j],
                forall|j: int| i <= j < n ==> #[trigger] config.path_entries@[j] == before[j],
            decreases n - i,
        {
            if config.path_entries[i].is_recursive() {
                let discovered = scan_directory(
                    &config.path_entries[i].path,
                    &config.path_entries[i].exclude_patterns,
                    &config.default_excludes,
                    config.path_entries[i].max_depth,
                    snapshot,
                );
                config.path_entries[i].discovered_paths = discovered;
            }
            i += 1;
        }
        proof {
            let after = config@.path_entries;
            let views = entry_views(before);
            assert(after =~= refreshed(views, defaults, snapshot@));
            if entries_wf(views) {
                assert forall|j: int| 0 <= j < after.len() implies (#[trigger] after[j]).wf() by {
                    assert(views[j].wf());
                    lemma_rescanned_wf(views[j], defaults, snapshot@);
                }
                assert(roots_of(after) =~= roots_of(views));
            }
        }
    }

    /// Forgets what every entry had discovered.
    pub fn forget_discovered(&self, config: &mut Config)
        ensures
            final(config)@.path_entries == forgotten(old(config)@.path_entries),
            final(config).path_entries@.len() == old(config).path_entries@.len(),
            final(config).config_path == old(config).config_path,
            final(config).default_excludes == old(config).default_excludes,
            old(config).wf() ==> final(config).wf(),
    {
        let n: usize = config.path_entries.len();
        let mut i: usize = 0;
        let ghost before = config.path_entries@;
        while i < n
            invariant
                n == before.len(),
                i <= n,
                before == old(config).path_entries@,
                config.config_path == old(config).config_path,
                config.default_excludes == old(config).default_excludes,
                config.path_entries@.len() == n,
                forall|j: int| 0 <= j < i ==> (#[trigger] config.path_entries@[j])@ == before[j]@.with_discovered(Map::empty()),
                forall|j: int| i <= j < n ==> #[trigger] config.path_entries@[j] == before[j],
            decreases n - i,
        {
            config.path_entries[i].discovered_paths = PathMap::new();
            i += 1;
        }
        proof {
            let after = config@.path_entries;
            let views = entry_views(before);
            assert(after =~= forgotten(views));
            if entries_wf(views) {
                assert(roots_of(after) =~= roots_of(views));
            }
        }
    }

    /// Drops every entry whose root is one of the canonical `paths`. All
    /// other entries stay as they are, in their order; a path that is not
    /// registered drops nothing.
    pub fn remove_from_path(&self, paths: &Vec<String>, config: &mut Config)
        ensures
            final(config).path_entries@ == old(config).path_entries@.filter(not_among(strings(paths@))),
            forall|e: PathEntry| #[trigger]
                final(config).path_entries@.contains(e) <==> old(config).path_entries@.contains(e)
                    && !strings(paths@).contains(e.path@),
            final(config).config_path == old(config).config_path,
            final(config).default_excludes == old(config).default_excludes,
            old(config).wf() ==> final(config).wf(),
    {
        let n: usize = config.path_entries.len();
        let mut marks: Vec<bool> = Vec::new();
        let mut i: usize = 0;
        while i < n
            invariant
                n == config.path_entries@.len(),
                i <= n,
                marks@.len() == i,
                config == old(config),
                forall|j: int|
                    0 <= j < i ==> marks@[j] == not_among(strings(paths@))(
                        #[trigger] config.path_entries@[j],
                    ),
            decreases n - i,
        {
            marks.push(!is_among(paths, &config.path_entries[i].path));
            i += 1;
        }
        let mut entries: Vec<PathEntry> = Vec::new();
        std::mem::swap(&mut config.path_entries, &mut entries);
        proof {
            if entries_wf(entry_views(entries@)) {
                lemma_filter_wf(entries@, not_among(strings(paths@)));
            }
            assert forall|e: PathEntry| #[trigger]
                entries@.filter(not_among(strings(paths@))).contains(e) <==> entries@.contains(e)
                    && !strings(paths@).contains(e.path@) by {
                lemma_filter_keeps_exactly(entries@, not_among(strings(paths@)), e);
            }
        }
        config.path_entries = keep_marked(entries, &marks, Ghost(not_among(strings(paths@))));
    }

    /// Drops every entry whose root the snapshot does not hold, that is, whose
    /// root is gone from the disk. All other entries stay as they are, with
    /// all that they have discovered, in their order.
    pub fn clean_path(&self, config: &mut Config, snapshot: &Snapshot)
        ensures
            final(config).path_entries@ == old(config).path_entries@.filter(on_disk(snapshot@)),
            forall|e: PathEntry| #[trigger]
                final(config).path_entries@.contains(e) <==> old(config).path_entries@.contains(e)
                    && snapshot@.contains_key(e.path@),
            final(config).config_path == old(config).config_path,
            final(config).default_excludes == old(config).default_excludes,
            old(config).wf() ==> final(config).wf(),
    {
        let n: usize = config.path_entries.len();
        let mut marks: Vec<bool> = Vec::new();
        let mut i: usize = 0;
        while i < n
            invariant
                n == config.path_entries@.len(),
                i <= n,
                marks@.len() == i,
                config == old(config),
                forall|j: int|
                    0 <= j < i ==> marks@[j] == on_disk(snapshot@)(#[trigger] config.path_entries@[j]),
            decreases n - i,
        {
            marks.push(snapshot.contains_key(&config.path_entries[i].path));
            i += 1;
        }
        let mut entries: Vec<PathEntry> = Vec::new();
        std::mem::swap(&mut config.path_entries, &mut entries);
        proof {
            if entries_wf(entry_views(entries@)) {
                lemma_filter_wf(entries@, on_disk(snapshot@));
            }
            assert forall|e: PathEntry| #[trigger]
                entries@.filter(on_disk(snapshot@)).contains(e) <==> entries@.contains(e)
                    && snapshot@.contains_key(e.path@) by {
                lemma_filter_keeps_exactly(entries@, on_disk(snapshot@), e);
            }
        }
        config.path_entries = keep_marked(entries, &marks, Ghost(on_disk(snapshot@)));
    }
}

} // verus!
