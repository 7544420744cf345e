//! One registered root.

use vstd::prelude::*;
use crate::config::exclude::{Check, CheckView};
use crate::config::path_map::{Keyed, PathMap};
use crate::utilities::text::strings;

verus! {

/// The verdicts on the directories found below a root, by absolute path.
pub type DiscoveredPaths = PathMap<Check>;

/// Whether a depth limit asks for discovery below the root at all.
pub open spec fn is_recursive(max_depth: u8) -> bool {
    max_depth > 1
}

/// A root directory that contributes to the search path.
#[derive(Debug)]
pub struct PathEntry {
    /// The root: absolute and canonical.
    pub path: String,
    /// Whether the entry was asked to go to the front of the search path.
    pub prepend: bool,
    /// The entry's own exclusion patterns.
    pub exclude_patterns: Vec<String>,
    /// How many levels below the root are discovered.
    pub max_depth: u8,
    /// The verdicts of the last scan.
    pub discovered_paths: DiscoveredPaths,
}

/// The entry under its short name.
pub type Path = PathEntry;

/// A `PathEntry` read as values: strings as character sequences, verdicts
/// without their timestamps.
pub struct PathEntryView {
    pub path: Seq<char>,
    pub prepend: bool,
    pub exclude_patterns: Seq<Seq<char>>,
    pub max_depth: u8,
    pub discovered_paths: Map<Seq<char>, CheckView>,
}

/// The record holds a positive verdict.
pub open spec fn is_valid() -> spec_fn(Keyed<Check>) -> bool {
    |k: Keyed<Check>| k.value.valid
}

/// The paths with a positive verdict among the records, in their order.
pub open spec fn valid_paths_of(items: Seq<Keyed<Check>>) -> Seq<Seq<char>> {
    items.filter(is_valid()).map_values(|k: Keyed<Check>| k.path@)
}

impl PathEntryView {
    /// An entry that is not recursive has discovered nothing, and every
    /// verdict is well-formed.
    pub open spec fn wf(self) -> bool {
        &&& !is_recursive(self.max_depth) ==> self.discovered_paths == Map::<
            Seq<char>,
            CheckView,
        >::empty()
        &&& forall|p: Seq<char>| #[trigger]
            self.discovered_paths.contains_key(p) ==> self.discovered_paths[p].wf()
    }

    /// The same entry with other verdicts.
    pub open spec fn with_discovered(self, discovered: Map<Seq<char>, CheckView>) -> PathEntryView {
        PathEntryView { discovered_paths: discovered, ..self }
    }

    /// An entry as it is first made: nothing discovered yet.
    pub open spec fn fresh(
        path: Seq<char>,
        prepend: bool,
        exclude_patterns: Seq<Seq<char>>,
        max_depth: u8,
    ) -> PathEntryView {
        PathEntryView {
            path,
            prepend,
            exclude_patterns,
            max_depth,
            discovered_paths: Map::empty(),
        }
    }
}

impl View for PathEntry {
    type V = PathEntryView;

    open spec fn view(&self) -> PathEntryView {
        PathEntryView {
            path: self.path@,
            prepend: self.prepend,
            exclude_patterns: strings(self.exclude_patterns@),
            max_depth: self.max_depth,
            discovered_paths: self.discovered_paths@,
        }
    }
}

impl PathEntry {
    /// Well-formedness of an entry, as of its view.
    pub open spec fn wf(&self) -> bool {
        self@.wf()
    }

    /// A new entry for `path`, with nothing discovered yet.
    pub fn new(path: String, prepend: bool, exclude_patterns: Vec<String>, max_depth: u8) -> (r: Self)
        ensures
            r@ == PathEntryView::fresh(path@, prepend, strings(exclude_patterns@), max_depth),
            r.path == path,
            r.exclude_patterns == exclude_patterns,
            r.wf(),
    {
        PathEntry { path, prepend, exclude_patterns, max_depth, discovered_paths: PathMap::new() }
    }

    /// The discovered paths whose verdict is positive, in the order in which
    /// the mapping hands its records out.
    pub fn valid_paths(&self) -> (r: Vec<String>)
        ensures
            strings(r@) == valid_paths_of(self.discovered_paths.items()),
    {
        let items = self.discovered_paths.entries();
        let n: usize = items.len();
        let mut r: Vec<String> = Vec::new();
        let mut i: usize = 0;
        proof {
            assert(items@.take(0).filter(is_valid()) =~= Seq::<Keyed<Check>>::empty());
            assert(strings(r@) =~= valid_paths_of(items@.take(0)));
        }
        while i < n
            invariant
                n == items@.len(),
                i <= n,
                strings(r@) == valid_paths_of(items@.take(i as int)),
            decreases n - i,
        {
            proof {
                let done = items@.take(i as int);
                assert(items@.take(i + 1) =~= done.push(items@[i as int]));
                Seq::lemma_filter_push(done, items@[i as int], is_valid());
            }
            if items[i].value.valid {
                let path = items[i].path.clone();
                proof {
                    let kept = items@.take(i as int).filter(is_valid());
                    assert(strings(r@.push(path)) =~= strings(r@).push(path@));
                    assert(valid_paths_of(items@.take(i + 1)) =~= valid_paths_of(
                        items@.take(i as int),
                    ).push(path@));
                }
                r.push(path);
            }
            i += 1;
        }
        proof {
            assert(items@.take(n as int) =~= items@);
        }
        r
    }

    /// Whether directories below this root are to be discovered.
    pub fn is_recursive(&self) -> (r: bool)
        ensures
            r == is_recursive(self.max_depth),
    {
        self.max_depth > 1
    }
}

} // verus!
