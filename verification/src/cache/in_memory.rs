//! An unbounded cache that keeps every entry until it is removed.

use vstd::prelude::*;
use crate::cache::{Cache, KeyMatch, entry_map, keys_distinct, lemma_entry_map_contains,
    lemma_entry_map_index, lemma_entry_map_remove, lemma_entry_map_update, lemma_push_distinct};

verus! {

/// A cache without eviction.
pub struct InMemoryCache<K: KeyMatch, V> {
    cache: Vec<(K, V)>,
}

/// The entries of an in-memory cache, at most one per key.
pub open spec fn entry_position<K: View, V>(s: Seq<(K, V)>, k: K::V, r: Option<usize>) -> bool {
    &&& r is Some == entry_map(s).contains_key(k)
    &&& r matches Some(i) ==> i < s.len() && s[i as int].0@ == k
}

/// The position of the entry with `key` in distinct entries, if any.
pub(crate) fn find_entry<K: KeyMatch, V>(entries: &Vec<(K, V)>, key: &K) -> (r: Option<usize>)
    requires
        keys_distinct(entries@),
    ensures
        entry_position(entries@, key@, r),
{
    proof {
        lemma_entry_map_contains(entries@, key@);
    }
    let mut i: usize = 0;
    while i < entries.len()
        invariant
            i <= entries@.len(),
            forall|j: int| 0 <= j < i ==> entries@[j].0@ != key@,
        decreases entries.len() - i,
    {
        if entries[i].0.matches(key) {
            proof {
                lemma_entry_map_contains(entries@, key@);
            }
            assert(0 <= i < entries@.len() && entries@[i as int].0@ == key@);
            return Some(i);
        }
        i = i + 1;
    }
    None
}

impl<K: KeyMatch, V> InMemoryCache<K, V> {
    #[verifier::type_invariant]
    spec fn distinct_keys(self) -> bool {
        keys_distinct(self.cache@)
    }

    /// An empty cache.
    pub fn new() -> (r: Self)
        ensures
            r.contents() == Map::<K::V, V>::empty(),
    {
        let r = InMemoryCache { cache: Vec::new() };
        assert(entry_map(r.cache@) =~= Map::<K::V, V>::empty());
        r
    }

    /// How many entries the cache holds.
    pub fn len(&self) -> (r: usize)
        ensures
            r == self.contents().len(),
            self.contents().dom().finite(),
    {
        proof {
            use_type_invariant(self);
            crate::cache::lemma_entry_map_len(self.cache@);
        }
        self.cache.len()
    }
}

impl<K: KeyMatch, V> Cache<K, V> for InMemoryCache<K, V> {
    closed spec fn contents(&self) -> Map<K::V, V> {
        entry_map(self.cache@)
    }

    fn add(&mut self, key: K, value: V) -> (r: bool)
        ensures
            final(self).contents() == old(self).contents().insert(key@, value),
    {
        proof {
            use_type_invariant(&*self);
        }
        let mut entries: Vec<(K, V)> = Vec::new();
        std::mem::swap(&mut entries, &mut self.cache);
        let ghost before = entries@;
        match find_entry(&entries, &key) {
            Some(i) => {
                proof {
                    lemma_entry_map_update(before, i as int, (key, value));
                }
                entries.set(i, (key, value));
                self.cache = entries;
                true
            },
            None => {
                proof {
                    lemma_push_distinct(before, (key, value));
                }
                entries.push((key, value));
                self.cache = entries;
                false
            },
        }
    }

    fn purge(&mut self) {
        let mut entries: Vec<(K, V)> = Vec::new();
        std::mem::swap(&mut entries, &mut self.cache);
        assert(entry_map(self.cache@) =~= Map::<K::V, V>::empty());
    }

    fn get(&mut self, key: &K) -> (r: Option<&V>) {
        proof {
            use_type_invariant(&*self);
        }
        match find_entry(&self.cache, key) {
            Some(i) => {
                proof {
                    lemma_entry_map_index(self.cache@, i as int);
                }
                Some(&self.cache[i].1)
            },
            None => None,
        }
    }

    fn remove(&mut self, key: &K) -> (r: bool) {
        proof {
            use_type_invariant(&*self);
        }
        let mut entries: Vec<(K, V)> = Vec::new();
        std::mem::swap(&mut entries, &mut self.cache);
        let ghost before = entries@;
        match find_entry(&entries, key) {
            Some(i) => {
                proof {
                    lemma_entry_map_remove(before, i as int);
                }
                entries.remove(i);
                self.cache = entries;
                true
            },
            None => {
                assert(entry_map(before).remove(key@) =~= entry_map(before));
                self.cache = entries;
                false
            },
        }
    }
}

} // verus!
