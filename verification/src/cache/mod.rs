//! Caches of flag evaluation results: the operations every cache offers,
//! an unbounded in-memory cache, a size-bounded least-recently-used cache,
//! and the service that keys them by flag and evaluation context.

use vstd::prelude::*;
use crate::text::str_eq;

pub mod in_memory;
pub mod lru;
pub mod service;

verus! {

broadcast use vstd::string::group_string_axioms;

/// Keys that can be told apart by their views.
pub trait KeyMatch: View + Sized {
    /// Whether two keys are the same key.
    fn matches(&self, other: &Self) -> (r: bool)
        ensures
            r == (self@ == other@);
}

impl KeyMatch for String {
    fn matches(&self, other: &Self) -> (r: bool) {
        str_eq(self.as_str(), other.as_str())
    }
}

impl KeyMatch for u64 {
    fn matches(&self, other: &Self) -> (r: bool) {
        *self == *other
    }
}

/// The map that a sequence of entries stands for, a later entry overriding
/// an earlier one with the same key.
pub open spec fn entry_map<K: View, V>(s: Seq<(K, V)>) -> Map<K::V, V>
    decreases s.len(),
{
    if s.len() == 0 {
        Map::empty()
    } else {
        entry_map(s.drop_last()).insert(s.last().0@, s.last().1)
    }
}

/// No two entries share a key.
pub open spec fn keys_distinct<K: View, V>(s: Seq<(K, V)>) -> bool {
    forall|i: int, j: int|
        0 <= i < s.len() && 0 <= j < s.len() && i != j ==> #[trigger] s[i].0@ != #[trigger] s[j].0@
}

/// The keys of a sequence of entries, in order.
pub open spec fn entry_keys<K: View, V>(s: Seq<(K, V)>) -> Seq<K::V> {
    s.map_values(|e: (K, V)| e.0@)
}

/// Which keys the map of entries holds.
pub proof fn lemma_entry_map_contains<K: View, V>(s: Seq<(K, V)>, k: K::V)
    ensures
        entry_map(s).contains_key(k) <==> exists|i: int| 0 <= i < s.len() && s[i].0@ == k,
    decreases s.len(),
{
    if s.len() > 0 {
        lemma_entry_map_contains(s.drop_last(), k);
        if entry_map(s).contains_key(k) {
            if k == s.last().0@ {
                assert(s[s.len() - 1].0@ == k);
            } else {
                let i = choose|i: int| 0 <= i < s.drop_last().len() && s.drop_last()[i].0@ == k;
                assert(s[i].0@ == k);
            }
        }
        if exists|i: int| 0 <= i < s.len() && s[i].0@ == k {
            let i = choose|i: int| 0 <= i < s.len() && s[i].0@ == k;
            if i < s.len() - 1 {
                assert(s.drop_last()[i].0@ == k);
            }
        }
    }
}

/// The value the map of distinct entries holds under an entry's key.
pub proof fn lemma_entry_map_index<K: View, V>(s: Seq<(K, V)>, i: int)
    requires
        keys_distinct(s),
        0 <= i < s.len(),
    ensures
        entry_map(s).contains_key(s[i].0@),
        entry_map(s)[s[i].0@] == s[i].1,
    decreases s.len(),
{
    if i < s.len() - 1 {
        assert(keys_distinct(s.drop_last()));
        assert(s.drop_last()[i] == s[i]);
        lemma_entry_map_index(s.drop_last(), i);
        assert(s[i].0@ != s[s.len() - 1].0@);
    }
}

/// Removing an entry from distinct entries removes its key from the map.
pub proof fn lemma_entry_map_remove<K: View, V>(s: Seq<(K, V)>, i: int)
    requires
        keys_distinct(s),
        0 <= i < s.len(),
    ensures
        keys_distinct(s.remove(i)),
        entry_map(s.remove(i)) == entry_map(s).remove(s[i].0@),
{
    let t = s.remove(i);
    let k0 = s[i].0@;
    assert forall|a: int, b: int|
        0 <= a < t.len() && 0 <= b < t.len() && a != b implies #[trigger] t[a].0@ != #[trigger] t[b].0@ by {
        let a2 = if a < i { a } else { a + 1 };
        let b2 = if b < i { b } else { b + 1 };
        assert(t[a] == s[a2]);
        assert(t[b] == s[b2]);
    }
    assert forall|k: K::V| #[trigger] entry_map(t).contains_key(k) == entry_map(s).remove(k0).contains_key(k) by {
        lemma_entry_map_contains(t, k);
        lemma_entry_map_contains(s, k);
        if entry_map(t).contains_key(k) {
            let j = choose|j: int| 0 <= j < t.len() && t[j].0@ == k;
            let j2 = if j < i { j } else { j + 1 };
            assert(t[j] == s[j2]);
            assert(s[j2].0@ != s[i].0@);
        }
        if entry_map(s).remove(k0).contains_key(k) {
            let j = choose|j: int| 0 <= j < s.len() && s[j].0@ == k;
            assert(j != i);
            let j2 = if j < i { j } else { j - 1 };
            assert(t[j2] == s[j]);
        }
    }
    assert forall|k: K::V| #[trigger] entry_map(t).contains_key(k) implies entry_map(t)[k] == entry_map(s)[k] by {
        lemma_entry_map_contains(t, k);
        let j = choose|j: int| 0 <= j < t.len() && t[j].0@ == k;
        let j2 = if j < i { j } else { j + 1 };
        assert(t[j] == s[j2]);
        lemma_entry_map_index(t, j);
        lemma_entry_map_index(s, j2);
    }
    assert(entry_map(t) =~= entry_map(s).remove(k0));
}

/// Replacing the value of an entry replaces it in the map.
pub proof fn lemma_entry_map_update<K: View, V>(s: Seq<(K, V)>, i: int, e: (K, V))
    requires
        keys_distinct(s),
        0 <= i < s.len(),
        e.0@ == s[i].0@,
    ensures
        keys_distinct(s.update(i, e)),
        entry_map(s.update(i, e)) == entry_map(s).insert(e.0@, e.1),
{
    let t = s.update(i, e);
    assert forall|a: int, b: int|
        0 <= a < t.len() && 0 <= b < t.len() && a != b implies #[trigger] t[a].0@ != #[trigger] t[b].0@ by {
        assert(t[a].0@ == s[a].0@);
        assert(t[b].0@ == s[b].0@);
    }
    assert forall|k: K::V| #[trigger] entry_map(t).contains_key(k) == entry_map(s).insert(e.0@, e.1).contains_key(k) by {
        lemma_entry_map_contains(t, k);
        lemma_entry_map_contains(s, k);
        if entry_map(t).contains_key(k) {
            let j = choose|j: int| 0 <= j < t.len() && t[j].0@ == k;
            assert(s[j].0@ == k);
        }
        if entry_map(s).contains_key(k) {
            let j = choose|j: int| 0 <= j < s.len() && s[j].0@ == k;
            assert(t[j].0@ == k);
        }
        if k == e.0@ {
            assert(t[i].0@ == k);
        }
    }
    assert forall|k: K::V| #[trigger] entry_map(t).contains_key(k) implies entry_map(t)[k] == entry_map(s).insert(e.0@, e.1)[k] by {
        lemma_entry_map_contains(t, k);
        let j = choose|j: int| 0 <= j < t.len() && t[j].0@ == k;
        lemma_entry_map_index(t, j);
        if j != i {
            lemma_entry_map_index(s, j);
        }
    }
    assert(entry_map(t) =~= entry_map(s).insert(e.0@, e.1));
}

/// Appending an entry with a new key keeps the keys distinct.
pub proof fn lemma_push_distinct<K: View, V>(s: Seq<(K, V)>, e: (K, V))
    requires
        keys_distinct(s),
        !entry_map(s).contains_key(e.0@),
    ensures
        keys_distinct(s.push(e)),
        entry_map(s.push(e)) == entry_map(s).insert(e.0@, e.1),
{
    lemma_entry_map_contains(s, e.0@);
    assert(s.push(e).drop_last() =~= s);
    let t = s.push(e);
    assert forall|a: int, b: int|
        0 <= a < t.len() && 0 <= b < t.len() && a != b implies #[trigger] t[a].0@ != #[trigger] t[b].0@ by {
        if a < s.len() && b < s.len() {
            assert(t[a] == s[a] && t[b] == s[b]);
        } else if a < s.len() {
            assert(t[a] == s[a]);
        } else {
            assert(t[b] == s[b]);
        }
    }
}

/// The number of keys of distinct entries is the number of entries.
pub proof fn lemma_entry_map_len<K: View, V>(s: Seq<(K, V)>)
    requires
        keys_distinct(s),
    ensures
        entry_map(s).dom().finite(),
        entry_map(s).len() == s.len(),
    decreases s.len(),
{
    if s.len() > 0 {
        let t = s.drop_last();
        assert(keys_distinct(t));
        lemma_entry_map_len(t);
        lemma_entry_map_contains(t, s.last().0@);
        if entry_map(t).contains_key(s.last().0@) {
            let j = choose|j: int| 0 <= j < t.len() && t[j].0@ == s.last().0@;
            assert(s[j].0@ == s[s.len() - 1].0@);
        }
    }
}

/// The position of `a` in `s` (where it occurs once).
pub open spec fn position_of<A>(s: Seq<A>, a: A) -> int {
    choose|i: int| 0 <= i < s.len() && s[i] == a
}

/// `s` without `a`, when it holds it.
pub open spec fn remove_key<A>(s: Seq<A>, a: A) -> Seq<A> {
    if s.contains(a) {
        s.remove(position_of(s, a))
    } else {
        s
    }
}

/// `s` with `a` moved from its position to the back.
pub open spec fn move_to_back<A>(s: Seq<A>, a: A) -> Seq<A> {
    s.remove(position_of(s, a)).push(a)
}

/// Operations of a cache of values by key. Its contents are a map from the
/// keys' views to values.
pub trait Cache<K: KeyMatch, V> {
    /// What the cache holds.
    spec fn contents(&self) -> Map<K::V, V>;

    /// Stores `value` under `key`; whether the key was there before. The
    /// key then holds the value, and no other key holds anything it did not
    /// hold before.
    fn add(&mut self, key: K, value: V) -> (r: bool)
        ensures
            r == old(self).contents().contains_key(key@),
            final(self).contents().contains_key(key@),
            final(self).contents()[key@] == value,
            final(self).contents().submap_of(old(self).contents().insert(key@, value)),
    ;

    /// Removes everything.
    fn purge(&mut self)
        ensures
            final(self).contents() == Map::<K::V, V>::empty(),
    ;

    /// The value under `key`, if any; the contents stay as they are.
    fn get(&mut self, key: &K) -> (r: Option<&V>)
        ensures
            final(self).contents() == old(self).contents(),
            r is Some == old(self).contents().contains_key(key@),
            r matches Some(v) ==> *v == old(self).contents()[key@],
    ;

    /// Removes `key`; whether it was there.
    fn remove(&mut self, key: &K) -> (r: bool)
        ensures
            r == old(self).contents().contains_key(key@),
            final(self).contents() == old(self).contents().remove(key@),
    ;
}


/// Using a key makes it the most recently used one and keeps the other keys
/// in their order; in a cache of two or more keys, the key just used is not
/// the next one evicted.
pub proof fn law_use_moves_to_back<A>(s: Seq<A>, k: A)
    requires
        s.no_duplicates(),
        s.contains(k),
    ensures
        move_to_back(s, k).len() == s.len(),
        move_to_back(s, k).last() == k,
        move_to_back(s, k).to_set() == s.to_set(),
        s.len() >= 2 ==> move_to_back(s, k)[0] != k,
{
    let i = position_of(s, k);
    let t = move_to_back(s, k);
    assert(0 <= i < s.len() && s[i] == k);
    assert(t.to_set() =~= s.to_set()) by {
        assert forall|x: A| t.to_set().contains(x) <==> s.to_set().contains(x) by {
            if t.contains(x) {
                let j = choose|j: int| 0 <= j < t.len() && t[j] == x;
                if j == t.len() - 1 {
                    assert(s[i] == x);
                } else if j < i {
                    assert(s[j] == x);
                } else {
                    assert(s[j + 1] == x);
                }
            }
            if s.contains(x) {
                let j = choose|j: int| 0 <= j < s.len() && s[j] == x;
                if j == i {
                    assert(t[t.len() - 1] == x);
                } else if j < i {
                    assert(t[j] == x);
                } else {
                    assert(t[j - 1] == x);
                }
            }
        }
    }
    if s.len() >= 2 {
        if i == 0 {
            assert(t[0] == s[1]);
        } else {
            assert(t[0] == s[0]);
        }
    }
}
} // verus!
