//! The set of keys that a run has seen.

use vstd::hash_set::StringHashSet;
use vstd::prelude::*;
use vstd::string::StringExecFns;

verus! {

broadcast use vstd::hash_set::group_hash_set_axioms;

/// The keys seen so far in one run. It lives as long as the run and is
/// handed to the pipeline by reference.
pub struct DedupSet {
    keys: StringHashSet,
}

impl View for DedupSet {
    type V = Set<Seq<char>>;

    closed spec fn view(&self) -> Set<Seq<char>> {
        self.keys@
    }
}

impl DedupSet {
    /// The set of a run that has seen nothing yet.
    pub fn new() -> (set: DedupSet)
        ensures
            set@ == Set::<Seq<char>>::empty(),
    {
        DedupSet { keys: StringHashSet::new() }
    }

    /// Whether `key` was seen.
    pub fn contains(&self, key: &str) -> (seen: bool)
        ensures
            seen == self@.contains(key@),
    {
        self.keys.contains(key)
    }

    /// Marks `key` as seen; says whether it was new.
    pub fn insert(&mut self, key: &str) -> (fresh: bool)
        ensures
            final(self)@ == old(self)@.insert(key@),
            fresh == !old(self)@.contains(key@),
    {
        self.keys.insert(String::from_str(key))
    }

    /// Number of distinct keys seen.
    pub fn len(&self) -> (count: usize)
        ensures
            count == self@.len(),
    {
        self.keys.len()
    }
}

} // verus!
