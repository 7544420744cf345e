//! The store: the registered roots in search-path order, and the exclusion
//! patterns that hold for all of them.

use vstd::prelude::*;
use crate::config::entry::{PathEntry, PathEntryView};
use crate::config::exclude::default_patterns;
use crate::utilities::text::strings;

verus! {

/// The registered roots and the global exclusion patterns.
#[derive(Debug)]
pub struct Config {
    /// The entries; their order is the order of precedence in the search path.
    pub path_entries: Vec<PathEntry>,
    /// Where the store is kept on disk.
    pub config_path: String,
    /// The patterns that exclude below every root.
    pub default_excludes: Vec<String>,
}

/// A `Config` read as values.
pub struct ConfigView {
    pub path_entries: Seq<PathEntryView>,
    pub config_path: Seq<char>,
    pub default_excludes: Seq<Seq<char>>,
}

/// The views of a sequence of entries.
pub open spec fn entry_views(entries: Seq<PathEntry>) -> Seq<PathEntryView> {
    entries.map_values(|e: PathEntry| e@)
}

/// The roots of a sequence of entries, in order.
pub open spec fn roots_of(entries: Seq<PathEntryView>) -> Seq<Seq<char>> {
    entries.map_values(|e: PathEntryView| e.path)
}

/// Whether some entry is registered for `root`.
pub open spec fn has_root(entries: Seq<PathEntryView>, root: Seq<char>) -> bool {
    roots_of(entries).contains(root)
}

/// Well-formedness of the entries of a store: no root is registered twice,
/// and every entry is well-formed.
pub open spec fn entries_wf(entries: Seq<PathEntryView>) -> bool {
    &&& roots_of(entries).no_duplicates()
    &&& forall|i: int| 0 <= i < entries.len() ==> (#[trigger] entries[i]).wf()
}

/// The entries after `e` was offered to them. A root that is registered
/// already keeps its entry and its place, and `e` is dropped; else `e` goes to
/// the front where it asks for it, and to the back where it does not.
pub open spec fn insert_entry(entries: Seq<PathEntryView>, e: PathEntryView) -> Seq<PathEntryView> {
    if has_root(entries, e.path) {
        entries
    } else if e.prepend {
        seq![e] + entries
    } else {
        entries.push(e)
    }
}

impl View for Config {
    type V = ConfigView;

    open spec fn view(&self) -> ConfigView {
        ConfigView {
            path_entries: entry_views(self.path_entries@),
            config_path: self.config_path@,
            default_excludes: strings(self.default_excludes@),
        }
    }
}

impl Config {
    /// Well-formedness of a store, as of its entries.
    pub open spec fn wf(&self) -> bool {
        entries_wf(self@.path_entries)
    }

    /// A store without entries, kept at `config_path`, with the default
    /// exclusion patterns.
    pub fn new(config_path: String) -> (r: Self)
        ensures
            r@.path_entries == Seq::<PathEntryView>::empty(),
            r@.config_path == config_path@,
            r@.default_excludes == default_patterns(),
            r.wf(),
    {
        let r = Config { path_entries: Vec::new(), config_path, default_excludes: crate::config::exclude::default() };
        assert(r@.path_entries =~= Seq::<PathEntryView>::empty());
        r
    }

    /// Whether an entry is registered for `root`.
    pub fn has_root(&self, root: &String) -> (r: bool)
        ensures
            r == has_root(self@.path_entries, root@),
    {
        let n: usize = self.path_entries.len();
        let mut i: usize = 0;
        while i < n
            invariant
                n == self.path_entries@.len(),
                i <= n,
                forall|j: int| 0 <= j < i ==> self.path_entries@[j].path@ != root@,
            decreases n - i,
        {
            if self.path_entries[i].path == *root {
                assert(roots_of(self@.path_entries)[i as int] == root@);
                return true;
            }
            i += 1;
        }
        assert forall|j: int| 0 <= j < roots_of(self@.path_entries).len() implies roots_of(
            self@.path_entries,
        )[j] != root@ by {
            assert(roots_of(self@.path_entries)[j] == self.path_entries@[j].path@);
        }
        false
    }

    /// Offers an entry to the store, and says whether it was taken. An entry
    /// whose root is registered already is dropped, and the store stays as it
    /// is; else the entry goes to the front where it asks for it, and to the
    /// back where it does not.
    pub fn insert_entry(&mut self, entry: PathEntry) -> (inserted: bool)
        ensures
            inserted == !has_root(old(self)@.path_entries, entry.path@),
            final(self)@.path_entries == insert_entry(old(self)@.path_entries, entry@),
            final(self).path_entries@ == if !inserted {
                old(self).path_entries@
            } else if entry.prepend {
                seq![entry] + old(self).path_entries@
            } else {
                old(self).path_entries@.push(entry)
            },
            final(self).config_path == old(self).config_path,
            final(self).default_excludes == old(self).default_excludes,
            old(self).wf() && entry.wf() ==> final(self).wf(),
    {
        if self.has_root(&entry.path) {
            return false;
        }
        let ghost before = self@.path_entries;
        let ghost e = entry@;
        proof {
            if entries_wf(before) && e.wf() {
                lemma_insert_entry_wf(before, e);
            }
        }
        if entry.prepend {
            self.path_entries.insert(0, entry);
            assert(self@.path_entries =~= seq![e] + before);
            assert(self.path_entries@ =~= seq![entry] + old(self).path_entries@);
        } else {
            self.path_entries.push(entry);
            assert(self@.path_entries =~= before.push(e));
        }
        true
    }
}

/// Offering an entry to well-formed entries leaves them well-formed.
pub proof fn lemma_insert_entry_wf(entries: Seq<PathEntryView>, e: PathEntryView)
    requires
        entries_wf(entries),
        e.wf(),
    ensures
        entries_wf(insert_entry(entries, e)),
{
    let after = insert_entry(entries, e);
    if !has_root(entries, e.path) {
        let shift: int = if e.prepend { 1 } else { 0 };
        let at: int = if e.prepend { 0 } else { entries.len() as int };
        assert forall|i: int| 0 <= i < after.len() implies (#[trigger] after[i]).wf() by {
            if i != at {
                assert(after[i] == entries[i - shift]);
            }
        }
        assert forall|i: int, j: int|
            0 <= i < after.len() && 0 <= j < after.len() && i != j implies roots_of(after)[i]
            != roots_of(after)[j] by {
            if i != at {
                assert(roots_of(after)[i] == roots_of(entries)[i - shift]);
            }
            if j != at {
                assert(roots_of(after)[j] == roots_of(entries)[j - shift]);
            }
        }
    }
}

/// Offering the same root a second time changes nothing: the entries stay as
/// the first offer left them, in number and in order.
pub proof fn lemma_insert_entry_idempotent(
    entries: Seq<PathEntryView>,
    first: PathEntryView,
    second: PathEntryView,
)
    requires
        first.path == second.path,
    ensures
        insert_entry(insert_entry(entries, first), second) == insert_entry(entries, first),
        insert_entry(insert_entry(entries, first), second).len() == insert_entry(entries, first).len(),
{
    let once = insert_entry(entries, first);
    if !has_root(entries, first.path) {
        let at: int = if first.prepend { 0 } else { entries.len() as int };
        assert(roots_of(once)[at] == first.path);
    }
    assert(has_root(once, second.path));
}

} // verus!
