//! What of the disk a command needs to see: the roots to survey before the
//! command is carried out, and how deep each walk has to go.

use vstd::prelude::*;
use crate::commands::{added, added_entry, exclude_list, forgotten, on_disk, refreshed, rescanned, Commands};
use crate::config::config::{entry_views, insert_entry, roots_of, Config};
use crate::config::entry::{is_recursive, PathEntry, PathEntryView};
use crate::scan::walk::SurveyView;
use crate::utilities::text::strings;

verus! {

/// A request to survey one root: to see whether it exists and is a
/// directory, and to walk it down to `max_depth` levels.
#[derive(Debug)]
pub struct SurveyRequest {
    pub root: String,
    pub max_depth: u8,
}

/// A `SurveyRequest` with its root read as a character sequence.
pub struct RequestView {
    pub root: Seq<char>,
    pub max_depth: u8,
}

impl View for SurveyRequest {
    type V = RequestView;

    open spec fn view(&self) -> RequestView {
        RequestView { root: self.root@, max_depth: self.max_depth }
    }
}

/// The views of a sequence of requests.
pub open spec fn request_views(requests: Seq<SurveyRequest>) -> Seq<RequestView> {
    requests.map_values(|r: SurveyRequest| r@)
}

/// Root and depth limit of each entry, in order.
pub open spec fn slots_of(entries: Seq<PathEntryView>) -> Seq<RequestView> {
    entries.map_values(|e: PathEntryView| RequestView { root: e.path, max_depth: e.max_depth })
}

/// The roots of a sequence of requests, in order.
pub open spec fn request_roots(slots: Seq<RequestView>) -> Seq<Seq<char>> {
    slots.map_values(|s: RequestView| s.root)
}

/// The slots after one more root was offered: as the entries change when an
/// entry is offered to the store.
pub open spec fn offered(slots: Seq<RequestView>, slot: RequestView, prepend: bool) -> Seq<RequestView> {
    if request_roots(slots).contains(slot.root) {
        slots
    } else if prepend {
        seq![slot] + slots
    } else {
        slots.push(slot)
    }
}

/// The slots after each of `roots` was offered in turn.
pub open spec fn with_roots(
    slots: Seq<RequestView>,
    roots: Seq<Seq<char>>,
    prepend: bool,
    max_depth: u8,
) -> Seq<RequestView>
    decreases roots.len(),
{
    if roots.len() == 0 {
        slots
    } else {
        offered(
            with_roots(slots, roots.drop_last(), prepend, max_depth),
            RequestView { root: roots.last(), max_depth },
            prepend,
        )
    }
}

/// The request is for a walk below the root.
pub open spec fn wants_scan() -> spec_fn(RequestView) -> bool {
    |s: RequestView| is_recursive(s.max_depth)
}

/// The same roots, asked for their presence only.
pub open spec fn presence_of(slots: Seq<RequestView>) -> Seq<RequestView> {
    slots.map_values(|s: RequestView| RequestView { root: s.root, max_depth: 0 })
}

/// What a command needs to see of the disk.
///
/// `Add` and `Reset` scan every recursive entry of the store as it stands
/// once the new roots are registered; `Clean` asks of every root whether it is
/// there; `Remove` and `Show` look at nothing.
pub open spec fn plan(cmd: Commands, entries: Seq<PathEntryView>) -> Seq<RequestView> {
    match cmd {
        Commands::Add { paths, prepend, exclude, make_exec, max_depth } => with_roots(
            slots_of(entries),
            strings(paths@),
            prepend,
            max_depth,
        ).filter(wants_scan()),
        Commands::Remove { paths } => Seq::empty(),
        Commands::Clean => presence_of(slots_of(entries)),
        Commands::Show { raw } => Seq::empty(),
        Commands::Reset => slots_of(entries).filter(wants_scan()),
    }
}

/// Offering an entry to the store changes roots and depth limits as `offered`
/// says, whatever the entry has discovered.
pub proof fn lemma_insert_entry_slots(entries: Seq<PathEntryView>, e: PathEntryView)
    ensures
        slots_of(insert_entry(entries, e)) == offered(
            slots_of(entries),
            RequestView { root: e.path, max_depth: e.max_depth },
            e.prepend,
        ),
{
    let slots = slots_of(entries);
    assert(request_roots(slots) =~= roots_of(entries));
    assert(slots_of(insert_entry(entries, e)) =~= offered(
        slots,
        RequestView { root: e.path, max_depth: e.max_depth },
        e.prepend,
    ));
}

/// Roots and depth limits after an `Add` do not depend on the snapshot: they
/// are those that the plan reckons with.
pub proof fn lemma_added_slots(
    entries: Seq<PathEntryView>,
    roots: Seq<Seq<char>>,
    prepend: bool,
    excludes: Seq<Seq<char>>,
    max_depth: u8,
    defaults: Seq<Seq<char>>,
    snapshot: Map<Seq<char>, SurveyView>,
)
    ensures
        slots_of(added(entries, roots, prepend, excludes, max_depth, defaults, snapshot)) == with_roots(
            slots_of(entries),
            roots,
            prepend,
            max_depth,
        ),
    decreases roots.len(),
{
    if roots.len() > 0 {
        lemma_added_slots(entries, roots.drop_last(), prepend, excludes, max_depth, defaults, snapshot);
        lemma_insert_entry_slots(
            added(entries, roots.drop_last(), prepend, excludes, max_depth, defaults, snapshot),
            added_entry(roots.last(), prepend, excludes, max_depth, defaults, snapshot),
        );
    }
}

/// Two snapshots show the same of `root`: both hold it, with the same
/// survey, or neither does.
pub open spec fn agree_at(
    first: Map<Seq<char>, SurveyView>,
    second: Map<Seq<char>, SurveyView>,
    root: Seq<char>,
) -> bool {
    &&& first.contains_key(root) == second.contains_key(root)
    &&& first.contains_key(root) ==> first[root] == second[root]
}

/// Two snapshots show the same of every root that is asked for.
pub open spec fn agree_on(
    first: Map<Seq<char>, SurveyView>,
    second: Map<Seq<char>, SurveyView>,
    requests: Seq<RequestView>,
) -> bool {
    forall|i: int| 0 <= i < requests.len() ==> agree_at(first, second, (#[trigger] requests[i]).root)
}

/// Two entries are the same but for what a recursive one has discovered.
pub open spec fn alike(a: PathEntryView, b: PathEntryView) -> bool {
    &&& a.path == b.path
    &&& a.prepend == b.prepend
    &&& a.exclude_patterns == b.exclude_patterns
    &&& a.max_depth == b.max_depth
    &&& !is_recursive(a.max_depth) ==> a.discovered_paths == b.discovered_paths
}

/// Two sequences of entries are alike entry by entry.
pub open spec fn all_alike(a: Seq<PathEntryView>, b: Seq<PathEntryView>) -> bool {
    &&& a.len() == b.len()
    &&& forall|i: int| 0 <= i < a.len() ==> alike(#[trigger] a[i], b[i])
}

proof fn lemma_insert_alike(
    a: Seq<PathEntryView>,
    b: Seq<PathEntryView>,
    to_a: PathEntryView,
    to_b: PathEntryView,
)
    requires
        all_alike(a, b),
        alike(to_a, to_b),
    ensures
        all_alike(insert_entry(a, to_a), insert_entry(b, to_b)),
{
    assert(roots_of(a) =~= roots_of(b)) by {
        assert forall|i: int| 0 <= i < a.len() implies roots_of(a)[i] == roots_of(b)[i] by {
            assert(alike(a[i], b[i]));
        }
    }
    let after_a = insert_entry(a, to_a);
    let after_b = insert_entry(b, to_b);
    if !roots_of(a).contains(to_a.path) {
        let shift: int = if to_a.prepend { 1 } else { 0 };
        let at: int = if to_a.prepend { 0 } else { a.len() as int };
        assert forall|i: int| 0 <= i < after_a.len() implies alike(#[trigger] after_a[i], after_b[i]) by {
            if i != at {
                assert(after_a[i] == a[i - shift]);
                assert(after_b[i] == b[i - shift]);
                assert(alike(a[i - shift], b[i - shift]));
            }
        }
    }
}

proof fn lemma_added_alike(
    entries: Seq<PathEntryView>,
    roots: Seq<Seq<char>>,
    prepend: bool,
    excludes: Seq<Seq<char>>,
    max_depth: u8,
    defaults: Seq<Seq<char>>,
    first: Map<Seq<char>, SurveyView>,
    second: Map<Seq<char>, SurveyView>,
)
    ensures
        all_alike(
            added(entries, roots, prepend, excludes, max_depth, defaults, first),
            added(entries, roots, prepend, excludes, max_depth, defaults, second),
        ),
    decreases roots.len(),
{
    if roots.len() > 0 {
        lemma_added_alike(entries, roots.drop_last(), prepend, excludes, max_depth, defaults, first, second);
        lemma_insert_alike(
            added(entries, roots.drop_last(), prepend, excludes, max_depth, defaults, first),
            added(entries, roots.drop_last(), prepend, excludes, max_depth, defaults, second),
            added_entry(roots.last(), prepend, excludes, max_depth, defaults, first),
            added_entry(roots.last(), prepend, excludes, max_depth, defaults, second),
        );
    }
}

proof fn lemma_refresh_alike(
    a: Seq<PathEntryView>,
    b: Seq<PathEntryView>,
    defaults: Seq<Seq<char>>,
    first: Map<Seq<char>, SurveyView>,
    second: Map<Seq<char>, SurveyView>,
)
    requires
        all_alike(a, b),
        agree_on(first, second, slots_of(a).filter(wants_scan())),
    ensures
        refreshed(a, defaults, first) == refreshed(b, defaults, second),
{
    let wanted = slots_of(a).filter(wants_scan());
    assert forall|i: int| 0 <= i < a.len() implies rescanned(a[i], defaults, first) == rescanned(
        b[i],
        defaults,
        second,
    ) by {
        assert(alike(a[i], b[i]));
        if is_recursive(a[i].max_depth) {
            let slot = slots_of(a)[i];
            assert(wants_scan()(slot));
            slots_of(a).lemma_filter_contains(wants_scan(), i);
            let k = choose|k: int| 0 <= k < wanted.len() && wanted[k] == slot;
            assert(agree_at(first, second, wanted[k].root));
        }
    }
    assert(refreshed(a, defaults, first) =~= refreshed(b, defaults, second));
}

proof fn lemma_reset_needs_plan(
    entries: Seq<PathEntryView>,
    defaults: Seq<Seq<char>>,
    first: Map<Seq<char>, SurveyView>,
    second: Map<Seq<char>, SurveyView>,
)
    requires
        agree_on(first, second, slots_of(entries).filter(wants_scan())),
    ensures
        refreshed(forgotten(entries), defaults, first) == refreshed(forgotten(entries), defaults, second),
{
    assert(slots_of(forgotten(entries)) =~= slots_of(entries));
    lemma_refresh_alike(forgotten(entries), forgotten(entries), defaults, first, second);
}

proof fn lemma_add_needs_plan(
    entries: Seq<PathEntryView>,
    roots: Seq<Seq<char>>,
    prepend: bool,
    excludes: Seq<Seq<char>>,
    max_depth: u8,
    defaults: Seq<Seq<char>>,
    first: Map<Seq<char>, SurveyView>,
    second: Map<Seq<char>, SurveyView>,
)
    requires
        agree_on(
            first,
            second,
            with_roots(slots_of(entries), roots, prepend, max_depth).filter(wants_scan()),
        ),
    ensures
        refreshed(added(entries, roots, prepend, excludes, max_depth, defaults, first), defaults, first)
            == refreshed(
            added(entries, roots, prepend, excludes, max_depth, defaults, second),
            defaults,
            second,
        ),
{
    lemma_added_slots(entries, roots, prepend, excludes, max_depth, defaults, first);
    lemma_added_alike(entries, roots, prepend, excludes, max_depth, defaults, first, second);
    lemma_refresh_alike(
        added(entries, roots, prepend, excludes, max_depth, defaults, first),
        added(entries, roots, prepend, excludes, max_depth, defaults, second),
        defaults,
        first,
        second,
    );
}

/// Filtering by two predicates that agree on every element gives the same.
proof fn lemma_filter_agree(
    entries: Seq<PathEntry>,
    p: spec_fn(PathEntry) -> bool,
    q: spec_fn(PathEntry) -> bool,
)
    requires
        forall|i: int| 0 <= i < entries.len() ==> p(#[trigger] entries[i]) == q(entries[i]),
    ensures
        entries.filter(p) == entries.filter(q),
    decreases entries.len(),
{
    reveal(Seq::filter);
    if entries.len() > 0 {
        let shorter = entries.drop_last();
        assert forall|i: int| 0 <= i < shorter.len() implies p(#[trigger] shorter[i]) == q(shorter[i]) by {
            assert(shorter[i] == entries[i]);
        }
        lemma_filter_agree(shorter, p, q);
        assert(p(entries[entries.len() - 1]) == q(entries[entries.len() - 1]));
    }
}

proof fn lemma_clean_needs_plan(
    entries: Seq<PathEntry>,
    first: Map<Seq<char>, SurveyView>,
    second: Map<Seq<char>, SurveyView>,
)
    requires
        agree_on(first, second, presence_of(slots_of(entry_views(entries)))),
    ensures
        entries.filter(on_disk(first)) == entries.filter(on_disk(second)),
{
    let asked = presence_of(slots_of(entry_views(entries)));
    assert forall|i: int| 0 <= i < entries.len() implies on_disk(first)(#[trigger] entries[i])
        == on_disk(second)(entries[i]) by {
        assert(asked[i].root == entries[i].path@);
        assert(agree_at(first, second, asked[i].root));
    }
    lemma_filter_agree(entries, on_disk(first), on_disk(second));
}

/// What the command leaves in the store is the same on both snapshots.
pub open spec fn same_outcome(
    cmd: Commands,
    entries: Seq<PathEntry>,
    defaults: Seq<Seq<char>>,
    first: Map<Seq<char>, SurveyView>,
    second: Map<Seq<char>, SurveyView>,
) -> bool {
    match cmd {
        Commands::Add { paths, prepend, exclude, make_exec, max_depth } => {
            let roots = strings(paths@);
            let excludes = exclude_list(exclude);
            let views = entry_views(entries);
            refreshed(added(views, roots, prepend, excludes, max_depth, defaults, first), defaults, first)
                == refreshed(
                added(views, roots, prepend, excludes, max_depth, defaults, second),
                defaults,
                second,
            )
        },
        Commands::Remove { paths } => true,
        Commands::Clean => entries.filter(on_disk(first)) == entries.filter(on_disk(second)),
        Commands::Show { raw } => true,
        Commands::Reset => {
            let emptied = forgotten(entry_views(entries));
            refreshed(emptied, defaults, first) == refreshed(emptied, defaults, second)
        },
    }
}

/// A command reads of the snapshot only what its plan asks for: on two
/// snapshots that show the same of every root of the plan, it leaves the same
/// in the store.
pub proof fn lemma_plan_suffices(
    cmd: Commands,
    entries: Seq<PathEntry>,
    defaults: Seq<Seq<char>>,
    first: Map<Seq<char>, SurveyView>,
    second: Map<Seq<char>, SurveyView>,
)
    requires
        agree_on(first, second, plan(cmd, entry_views(entries))),
    ensures
        same_outcome(cmd, entries, defaults, first, second),
{
    let views = entry_views(entries);
    match cmd {
        Commands::Add { paths, prepend, exclude, make_exec, max_depth } => {
            lemma_add_needs_plan(
                views,
                strings(paths@),
                prepend,
                exclude_list(exclude),
                max_depth,
                defaults,
                first,
                second,
            );
        },
        Commands::Remove { paths } => {},
        Commands::Clean => {
            lemma_clean_needs_plan(entries, first, second);
        },
        Commands::Show { raw } => {},
        Commands::Reset => {
            lemma_reset_needs_plan(views, defaults, first, second);
        },
    }
}

/// Root and depth limit of each entry of the store.
fn slots(config: &Config) -> (r: Vec<SurveyRequest>)
    ensures
        request_views(r@) == slots_of(config@.path_entries),
{
    let n: usize = config.path_entries.len();
    let mut r: Vec<SurveyRequest> = Vec::new();
    let mut i: usize = 0;
    while i < n
        invariant
            n == config.path_entries@.len(),
            i <= n,
            r@.len() == i,
            forall|j: int|
                0 <= j < i ==> (#[trigger] r@[j])@ == (RequestView {
                    root: config.path_entries@[j].path@,
                    max_depth: config.path_entries@[j].max_depth,
                }),
        decreases n - i,
    {
        r.push(
            SurveyRequest {
                root: config.path_entries[i].path.clone(),
                max_depth: config.path_entries[i].max_depth,
            },
        );
        i += 1;
    }
    assert(request_views(r@) =~= slots_of(config@.path_entries));
    r
}

/// Offers one more root to the slots.
fn offer(slots: &mut Vec<SurveyRequest>, root: &String, prepend: bool, max_depth: u8)
    ensures
        request_views(final(slots)@) == offered(
            request_views(old(slots)@),
            RequestView { root: root@, max_depth },
            prepend,
        ),
{
    let ghost before = request_views(slots@);
    let n: usize = slots.len();
    let mut i: usize = 0;
    while i < n
        invariant
            n == slots@.len(),
            i <= n,
            slots == old(slots),
            before == request_views(slots@),
            forall|j: int| 0 <= j < i ==> slots@[j].root@ != root@,
        decreases n - i,
    {
        if slots[i].root == *root {
            assert(request_roots(before)[i as int] == root@);
            return ;
        }
        i += 1;
    }
    assert forall|j: int| 0 <= j < request_roots(before).len() implies request_roots(before)[j]
        != root@ by {
        assert(request_roots(before)[j] == slots@[j].root@);
    }
    let slot = SurveyRequest { root: root.clone(), max_depth };
    if prepend {
        slots.insert(0, slot);
        assert(request_views(slots@) =~= seq![slot@] + before);
    } else {
        slots.push(slot);
        assert(request_views(slots@) =~= before.push(slot@));
    }
}

/// The requests that ask for a walk, in their order.
fn only_scans(slots: Vec<SurveyRequest>) -> (r: Vec<SurveyRequest>)
    ensures
        request_views(r@) == request_views(slots@).filter(wants_scan()),
{
    let ghost all = slots@;
    let ghost views = request_views(slots@);
    let n: usize = slots.len();
    let mut r: Vec<SurveyRequest> = Vec::new();
    let mut i: usize = 0;
    proof {
        assert(views.take(0).filter(wants_scan()) =~= Seq::<RequestView>::empty());
        assert(request_views(r@) =~= Seq::<RequestView>::empty());
    }
    for slot in it: slots
        invariant
            it.seq() == all,
            views == request_views(all),
            n == all.len(),
            i == it.index(),
            request_views(r@) == views.take(i as int).filter(wants_scan()),
    {
        proof {
            assert(views.take(i + 1) =~= views.take(i as int).push(slot@));
            Seq::lemma_filter_push(views.take(i as int), slot@, wants_scan());
        }
        if slot.max_depth > 1 {
            proof {
                assert(request_views(r@.push(slot)) =~= request_views(r@).push(slot@));
            }
            r.push(slot);
        }
        i += 1;
    }
    proof {
        assert(views.take(n as int) =~= views);
    }
    r
}

impl Commands {
    /// The surveys that the snapshot has to hold for this command to be
    /// carried out on the store: which roots, and how deep the walk of each.
    /// A request with depth 0 asks no more than whether the root is there.
    ///
    /// The command reads nothing else of the snapshot: two snapshots that show
    /// the same of the requested roots lead to the same store.
    pub fn survey_plan(&self, config: &Config) -> (r: Vec<SurveyRequest>)
        ensures
            request_views(r@) == plan(*self, config@.path_entries),
            forall|first: Map<Seq<char>, SurveyView>, second: Map<Seq<char>, SurveyView>| #[trigger]
                agree_on(first, second, request_views(r@)) ==> same_outcome(
                    *self,
                    config.path_entries@,
                    config@.default_excludes,
                    first,
                    second,
                ),
    {
        proof {
            assert forall|first: Map<Seq<char>, SurveyView>, second: Map<Seq<char>, SurveyView>| #[trigger]
                agree_on(first, second, plan(*self, config@.path_entries)) implies same_outcome(
                *self,
                config.path_entries@,
                config@.default_excludes,
                first,
                second,
            ) by {
                lemma_plan_suffices(*self, config.path_entries@, config@.default_excludes, first, second);
            }
        }
        match self {
            Commands::Add { paths, prepend, exclude: _, make_exec: _, max_depth } => {
                let mut all = slots(config);
                let n: usize = paths.len();
                let mut i: usize = 0;
                let ghost start = slots_of(config@.path_entries);
                let ghost roots = strings(paths@);
                proof {
                    assert(roots.take(0) =~= Seq::<Seq<char>>::empty());
                }
                while i < n
                    invariant
                        n == paths@.len(),
                        i <= n,
                        roots == strings(paths@),
                        request_views(all@) == with_roots(start, roots.take(i as int), *prepend, *max_depth),
                    decreases n - i,
                {
                    proof {
                        assert(roots.take(i + 1).drop_last() =~= roots.take(i as int));
                        assert(roots.take(i + 1).last() == paths@[i as int]@);
                    }
                    offer(&mut all, &paths[i], *prepend, *max_depth);
                    i += 1;
                }
                proof {
                    assert(roots.take(n as int) =~= roots);
                }
                only_scans(all)
            },
            Commands::Clean => {
                let mut all = slots(config);
                let n: usize = all.len();
                let mut i: usize = 0;
                let ghost start = request_views(all@);
                while i < n
                    invariant
                        n == all@.len(),
                        i <= n,
                        start.len() == n,
                        forall|j: int|
                            0 <= j < i ==> (#[trigger] all@[j])@ == (RequestView {
                                root: start[j].root,
                                max_depth: 0,
                            }),
                        forall|j: int| i <= j < n ==> (#[trigger] all@[j])@ == start[j],
                    decreases n - i,
                {
                    all[i].max_depth = 0;
                    i += 1;
                }
                assert(request_views(all@) =~= presence_of(start));
                all
            },
            Commands::Reset => only_scans(slots(config)),
            Commands::Remove { paths: _ } => {
                let r: Vec<SurveyRequest> = Vec::new();
                assert(request_views(r@) =~= Seq::<RequestView>::empty());
                r
            },
            Commands::Show { raw: _ } => {
                let r: Vec<SurveyRequest> = Vec::new();
                assert(request_views(r@) =~= Seq::<RequestView>::empty());
                r
            },
        }
    }
}

} // verus!
