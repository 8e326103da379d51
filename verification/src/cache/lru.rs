//! A size-bounded cache that evicts the least recently used entry.

use vstd::prelude::*;
use crate::cache::{Cache, KeyMatch, entry_map, entry_keys, keys_distinct, lemma_entry_map_contains,
    lemma_entry_map_index, lemma_entry_map_len, lemma_entry_map_remove, lemma_entry_map_update,
    lemma_push_distinct, move_to_back, position_of, remove_key};
use crate::cache::in_memory::find_entry;

verus! {

/// A cache of at most `capacity` entries. Every `add` and every `get` that
/// finds its key makes that key the most recently used; adding a new key to
/// a full cache first evicts the least recently used key.
pub struct LruCacheImpl<K: KeyMatch, V> {
    /// The entries, from the least to the most recently used.
    entries: Vec<(K, V)>,
    capacity: usize,
}

/// A key of distinct entries sits at the position where its entry is.
proof fn lemma_position<K: View, V>(s: Seq<(K, V)>, i: int)
    requires
        keys_distinct(s),
        0 <= i < s.len(),
    ensures
        entry_keys(s).len() == s.len(),
        entry_keys(s)[i] == s[i].0@,
        position_of(entry_keys(s), s[i].0@) == i,
{
    let ks = entry_keys(s);
    assert(ks[i] == s[i].0@);
    let p = position_of(ks, s[i].0@);
    assert(0 <= p < ks.len() && ks[p] == s[i].0@);
    assert(ks[p] == s[p].0@);
}

impl<K: KeyMatch, V> LruCacheImpl<K, V> {
    #[verifier::type_invariant]
    spec fn bounded(self) -> bool {
        &&& keys_distinct(self.entries@)
        &&& self.entries@.len() <= self.capacity
        &&& self.capacity > 0
    }

    /// The keys, from the least to the most recently used.
    pub closed spec fn recency(&self) -> Seq<K::V> {
        entry_keys(self.entries@)
    }

    /// The largest number of entries the cache holds.
    pub closed spec fn capacity(&self) -> nat {
        self.capacity as nat
    }

    /// An empty cache for at most `size` entries.
    pub fn new(size: usize) -> (r: Self)
        requires
            size > 0,
        ensures
            r.contents() == Map::<K::V, V>::empty(),
            r.recency() == Seq::<K::V>::empty(),
            r.capacity() == size,
    {
        let r = LruCacheImpl { entries: Vec::new(), capacity: size };
        assert(entry_map(r.entries@) =~= Map::<K::V, V>::empty());
        assert(entry_keys(r.entries@) =~= Seq::<K::V>::empty());
        r
    }

    /// How many entries the cache holds. The recency order holds each key of
    /// the contents once, and the contents never exceed the capacity.
    pub fn len(&self) -> (r: usize)
        ensures
            r == self.contents().len(),
            r == self.recency().len(),
            self.contents().dom().finite(),
            r <= self.capacity(),
            self.capacity() > 0,
            self.recency().no_duplicates(),
            forall|k: K::V| #[trigger] self.contents().contains_key(k) <==> self.recency().contains(k),
    {
        proof {
            use_type_invariant(self);
            lemma_entry_map_len(self.entries@);
        }
        let ghost ks = entry_keys(self.entries@);
        assert forall|a: int, b: int| 0 <= a < ks.len() && 0 <= b < ks.len() && a != b implies ks[a] != ks[b] by {
            assert(ks[a] == self.entries@[a].0@);
            assert(ks[b] == self.entries@[b].0@);
        }
        assert forall|k: K::V| #[trigger] self.contents().contains_key(k) <==> ks.contains(k) by {
            lemma_entry_map_contains(self.entries@, k);
            if ks.contains(k) {
                let i = choose|i: int| 0 <= i < ks.len() && ks[i] == k;
                assert(ks[i] == self.entries@[i].0@);
            }
            if self.contents().contains_key(k) {
                let i = choose|i: int| 0 <= i < self.entries@.len() && self.entries@[i].0@ == k;
                assert(ks[i] == k);
            }
        }
        self.entries.len()
    }
}

impl<K: KeyMatch, V> Cache<K, V> for LruCacheImpl<K, V> {
    closed spec fn contents(&self) -> Map<K::V, V> {
        entry_map(self.entries@)
    }

    fn add(&mut self, key: K, value: V) -> (r: bool)
        ensures
            final(self).capacity() == old(self).capacity(),
            old(self).contents().contains_key(key@) ==> final(self).contents() == old(self).contents().insert(key@, value)
                && final(self).recency() == move_to_back(old(self).recency(), key@),
            !old(self).contents().contains_key(key@) && old(self).contents().len() < old(self).capacity()
                ==> final(self).contents() == old(self).contents().insert(key@, value)
                && final(self).recency() == old(self).recency().push(key@),
            !old(self).contents().contains_key(key@) && old(self).contents().len() >= old(self).capacity()
                ==> final(self).contents() == old(self).contents().remove(old(self).recency()[0]).insert(key@, value)
                && final(self).recency() == old(self).recency().drop_first().push(key@),
    {
        proof {
            use_type_invariant(&*self);
            lemma_entry_map_len(self.entries@);
        }
        let cap = self.capacity;
        let mut entries: Vec<(K, V)> = Vec::new();
        std::mem::swap(&mut entries, &mut self.entries);
        let ghost before = entries@;
        let ghost k = key@;
        match find_entry(&entries, &key) {
            Some(i) => {
                proof {
                    lemma_position(before, i as int);
                    lemma_entry_map_remove(before, i as int);
                }
                let ghost removed = before.remove(i as int);
                entries.remove(i);
                proof {
                    lemma_entry_map_contains(removed, k);
                    if entry_map(removed).contains_key(k) {
                        let j = choose|j: int| 0 <= j < removed.len() && removed[j].0@ == k;
                        let j2 = if j < i { j } else { j + 1 };
                        assert(removed[j] == before[j2]);
                    }
                    lemma_push_distinct(removed, (key, value));
                }
                entries.push((key, value));
                assert(entry_map(removed.push((key, value))) =~= entry_map(before).insert(k, value));
                assert(entry_keys(entries@) =~= entry_keys(before).remove(i as int).push(k));
                self.entries = entries;
                true
            },
            None => {
                if entries.len() < cap {
                    proof {
                        lemma_push_distinct(before, (key, value));
                    }
                    entries.push((key, value));
                    assert(entry_keys(entries@) =~= entry_keys(before).push(k));
                    self.entries = entries;
                } else {
                    proof {
                        lemma_entry_map_remove(before, 0);
                        lemma_position(before, 0);
                    }
                    let ghost removed = before.remove(0);
                    entries.remove(0);
                    proof {
                        lemma_entry_map_contains(before, k);
                        lemma_entry_map_contains(removed, k);
                        if entry_map(removed).contains_key(k) {
                            let j = choose|j: int| 0 <= j < removed.len() && removed[j].0@ == k;
                            assert(removed[j] == before[j + 1]);
                        }
                        lemma_push_distinct(removed, (key, value));
                    }
                    entries.push((key, value));
                    assert(entry_keys(entries@) =~= entry_keys(before).drop_first().push(k));
                    self.entries = entries;
                }
                false
            },
        }
    }

    fn purge(&mut self)
        ensures
            final(self).capacity() == old(self).capacity(),
            final(self).recency() == Seq::<K::V>::empty(),
    {
        proof {
            use_type_invariant(&*self);
        }
        let mut entries: Vec<(K, V)> = Vec::new();
        std::mem::swap(&mut entries, &mut self.entries);
        assert(entry_map(self.entries@) =~= Map::<K::V, V>::empty());
        assert(entry_keys(self.entries@) =~= Seq::<K::V>::empty());
    }

    fn get(&mut self, key: &K) -> (r: Option<&V>)
        ensures
            final(self).capacity() == old(self).capacity(),
            old(self).contents().contains_key(key@) ==> final(self).recency() == move_to_back(old(self).recency(), key@),
            !old(self).contents().contains_key(key@) ==> final(self).recency() == old(self).recency(),
    {
        proof {
            use_type_invariant(&*self);
        }
        let mut entries: Vec<(K, V)> = Vec::new();
        std::mem::swap(&mut entries, &mut self.entries);
        let ghost before = entries@;
        match find_entry(&entries, key) {
            Some(i) => {
                proof {
                    lemma_position(before, i as int);
                    lemma_entry_map_index(before, i as int);
                    lemma_entry_map_remove(before, i as int);
                }
                let ghost removed = before.remove(i as int);
                let e = entries.remove(i);
                proof {
                    lemma_entry_map_contains(removed, key@);
                    if entry_map(removed).contains_key(key@) {
                        let j = choose|j: int| 0 <= j < removed.len() && removed[j].0@ == key@;
                        let j2 = if j < i { j } else { j + 1 };
                        assert(removed[j] == before[j2]);
                    }
                    lemma_push_distinct(removed, e);
                }
                entries.push(e);
                assert(entry_map(entries@) =~= entry_map(before));
                assert(entry_keys(entries@) =~= entry_keys(before).remove(i as int).push(key@));
                self.entries = entries;
                let last = self.entries.len() - 1;
                Some(&self.entries[last].1)
            },
            None => {
                self.entries = entries;
                None
            },
        }
    }

    fn remove(&mut self, key: &K) -> (r: bool)
        ensures
            final(self).capacity() == old(self).capacity(),
            final(self).recency() == remove_key(old(self).recency(), key@),
    {
        proof {
            use_type_invariant(&*self);
        }
        let mut entries: Vec<(K, V)> = Vec::new();
        std::mem::swap(&mut entries, &mut self.entries);
        let ghost before = entries@;
        match find_entry(&entries, key) {
            Some(i) => {
                proof {
                    lemma_entry_map_remove(before, i as int);
                    lemma_position(before, i as int);
                    assert(entry_keys(before).contains(key@));
                }
                entries.remove(i);
                assert(entry_keys(entries@) =~= entry_keys(before).remove(i as int));
                self.entries = entries;
                true
            },
            None => {
                assert(entry_map(before).remove(key@) =~= entry_map(before));
                proof {
                    lemma_entry_map_contains(before, key@);
                    if entry_keys(before).contains(key@) {
                        let j = choose|j: int| 0 <= j < entry_keys(before).len() && entry_keys(before)[j] == key@;
                        assert(before[j].0@ == key@);
                    }
                }
                self.entries = entries;
                false
            },
        }
    }
}

} // verus!
