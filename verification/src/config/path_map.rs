//! Mappings keyed by path.

use vstd::prelude::*;

verus! {

/// A path together with what is recorded on it.
#[derive(Debug)]
pub struct Keyed<V> {
    pub path: String,
    pub value: V,
}

/// The paths of a sequence of records.
pub open spec fn paths_of<V>(items: Seq<Keyed<V>>) -> Seq<Seq<char>> {
    items.map_values(|d: Keyed<V>| d.path@)
}

/// The mapping that a sequence of records with distinct paths stands for.
pub open spec fn map_of<V: View>(items: Seq<Keyed<V>>) -> Map<Seq<char>, V::V> {
    Map::new(
        |p: Seq<char>| paths_of(items).contains(p),
        |p: Seq<char>| items[paths_of(items).index_of(p)].value@,
    )
}

/// In a sequence with distinct paths, a path is found at one place only.
pub proof fn lemma_index_of_path<V>(items: Seq<Keyed<V>>, i: int)
    requires
        paths_of(items).no_duplicates(),
        0 <= i < items.len(),
    ensures
        paths_of(items).contains(items[i].path@),
        paths_of(items).index_of(items[i].path@) == i,
{
    let keys = paths_of(items);
    assert(keys[i] == items[i].path@);
    let j = keys.index_of(items[i].path@);
    assert(0 <= j < keys.len() && keys[j] == items[i].path@);
}

/// A finite mapping from paths to values, each path held once. No order is
/// promised.
#[derive(Debug)]
pub struct PathMap<V> {
    items: Vec<Keyed<V>>,
}

impl<V: View> View for PathMap<V> {
    type V = Map<Seq<char>, V::V>;

    open spec fn view(&self) -> Map<Seq<char>, V::V> {
        map_of(self.items())
    }
}

impl<V> PathMap<V> {
    #[verifier::type_invariant]
    spec fn distinct_paths(&self) -> bool {
        paths_of(self.items@).no_duplicates()
    }

    /// The records in the order in which `entries` hands them out.
    pub closed spec fn items(&self) -> Seq<Keyed<V>> {
        self.items@
    }
}

impl<V: View> PathMap<V> {
    /// The empty mapping.
    pub fn new() -> (r: Self)
        ensures
            r@ == Map::<Seq<char>, V::V>::empty(),
    {
        let r = PathMap { items: Vec::new() };
        assert(r@ =~= Map::<Seq<char>, V::V>::empty());
        r
    }

    /// Where `path` stands among the items, if it does.
    fn position(&self, path: &String) -> (r: Option<usize>)
        ensures
            match r {
                Some(i) => i < self.items@.len() && self.items@[i as int].path@ == path@,
                None => !paths_of(self.items@).contains(path@),
            },
    {
        let n: usize = self.items.len();
        let mut i: usize = 0;
        while i < n
            invariant
                n == self.items@.len(),
                i <= n,
                forall|j: int| 0 <= j < i ==> self.items@[j].path@ != path@,
            decreases n - i,
        {
            if self.items[i].path == *path {
                return Some(i);
            }
            i += 1;
        }
        assert forall|j: int| 0 <= j < paths_of(self.items@).len() implies paths_of(self.items@)[j]
            != path@ by {
            assert(paths_of(self.items@)[j] == self.items@[j].path@);
        }
        None
    }

    /// Records `value` on `path`, in place of what was recorded before.
    pub fn insert(&mut self, path: String, value: V)
        ensures
            final(self)@ == old(self)@.insert(path@, value@),
    {
        proof {
            use_type_invariant(&*self);
        }
        let found = self.position(&path);
        let ghost before = self.items@;
        let mut items: Vec<Keyed<V>> = Vec::new();
        std::mem::swap(&mut self.items, &mut items);
        match found {
            Some(i) => {
                items[i].value = value;
                proof {
                    let after = items@;
                    assert(paths_of(after) =~= paths_of(before));
                    lemma_index_of_path(before, i as int);
                    assert forall|p: Seq<char>| #[trigger] map_of(after).dom().contains(p) implies map_of(
                        after,
                    )[p] == map_of(before).insert(path@, value@)[p] by {
                        let k = paths_of(before).index_of(p);
                        assert(paths_of(before)[k] == p);
                        if k != i {
                            assert(after[k] == before[k]);
                        }
                    }
                    assert(map_of(after) =~= map_of(before).insert(path@, value@));
                }
            },
            None => {
                items.push(Keyed { path, value });
                proof {
                    let after = items@;
                    let n = before.len() as int;
                    assert(paths_of(after) =~= paths_of(before).push(path@));
                    assert forall|a: int, b: int|
                        0 <= a < after.len() && 0 <= b < after.len() && a != b implies paths_of(
                        after,
                    )[a] != paths_of(after)[b] by {
                        if a < n {
                            assert(paths_of(before)[a] == paths_of(after)[a]);
                        }
                        if b < n {
                            assert(paths_of(before)[b] == paths_of(after)[b]);
                        }
                    }
                    assert forall|p: Seq<char>| paths_of(after).contains(p) <==> (p == path@
                        || paths_of(before).contains(p)) by {
                        if paths_of(before).contains(p) {
                            let k = paths_of(before).index_of(p);
                            assert(paths_of(after)[k] == p);
                        }
                        if p == path@ {
                            assert(paths_of(after)[n] == p);
                        }
                    }
                    assert forall|p: Seq<char>| #[trigger] map_of(after).dom().contains(p) implies map_of(
                        after,
                    )[p] == map_of(before).insert(path@, value@)[p] by {
                        if p == path@ {
                            lemma_index_of_path(after, n);
                        } else {
                            let k = paths_of(before).index_of(p);
                            assert(paths_of(after)[k] == p);
                            lemma_index_of_path(after, k);
                        }
                    }
                    assert(map_of(after) =~= map_of(before).insert(path@, value@));
                }
            },
        }
        std::mem::swap(&mut self.items, &mut items);
    }

    /// What is recorded on `path`, if anything.
    pub fn get(&self, path: &String) -> (r: Option<&V>)
        ensures
            match r {
                Some(value) => self@.contains_key(path@) && self@[path@] == value@,
                None => !self@.contains_key(path@),
            },
    {
        proof {
            use_type_invariant(self);
        }
        match self.position(path) {
            Some(i) => {
                proof {
                    lemma_index_of_path(self.items@, i as int);
                }
                Some(&self.items[i].value)
            },
            None => None,
        }
    }

    /// Whether anything is recorded on `path`.
    pub fn contains_key(&self, path: &String) -> (r: bool)
        ensures
            r == self@.contains_key(path@),
    {
        self.get(path).is_some()
    }

    /// The number of paths on which something is recorded.
    pub fn len(&self) -> (r: usize)
        ensures
            self@.dom().finite(),
            r == self@.dom().len(),
    {
        proof {
            use_type_invariant(self);
            let keys = paths_of(self.items@);
            keys.unique_seq_to_set();
            assert(self@.dom() =~= keys.to_set());
        }
        self.items.len()
    }

    /// Whether nothing is recorded.
    pub fn is_empty(&self) -> (r: bool)
        ensures
            r == (self@ == Map::<Seq<char>, V::V>::empty()),
    {
        let r = self.items.len() == 0;
        proof {
            if r {
                assert(self@ =~= Map::<Seq<char>, V::V>::empty());
            } else {
                assert(paths_of(self.items@)[0] == self.items@[0].path@);
                assert(self@.dom().contains(self.items@[0].path@));
            }
        }
        r
    }

    /// Forgets every record.
    pub fn clear(&mut self)
        ensures
            final(self)@ == Map::<Seq<char>, V::V>::empty(),
    {
        let mut items: Vec<Keyed<V>> = Vec::new();
        std::mem::swap(&mut self.items, &mut items);
        assert(self@ =~= Map::<Seq<char>, V::V>::empty());
    }

    /// The records, each path once, in no particular order.
    pub fn entries(&self) -> (r: &Vec<Keyed<V>>)
        ensures
            r@ == self.items(),
            paths_of(r@).no_duplicates(),
    {
        proof {
            use_type_invariant(self);
        }
        &self.items
    }
}

} // verus!
