//! The cache service: caches evaluated flag values by flag key and
//! evaluation context, with a choice of cache, an optional time to live,
//! and a switch to turn caching off.

use vstd::prelude::*;
use crate::cache::{Cache, KeyMatch, move_to_back, remove_key};
use crate::cache::in_memory::InMemoryCache;
use crate::cache::lru::LruCacheImpl;
use crate::targeting::context::{ContextValue, EvalContext};
use crate::text::{str_eq, chars_of, parse_unsigned};

verus! {

broadcast use vstd::string::group_string_axioms;

/// Which cache to use.
#[derive(Clone, Copy, PartialEq, Eq, Structural, Debug)]
pub enum CacheType {
    /// A cache of bounded size that evicts the least recently used entry.
    Lru,
    /// A cache without eviction.
    InMemory,
    /// No caching.
    Disabled,
}

/// Whether `c` is `w`, or its upper-case ASCII letter.
pub open spec fn same_letter(c: char, w: char) -> bool {
    c == w || ('A' <= c <= 'Z' && (c as u32) + 32 == (w as u32))
}

/// Whether `s`, with ASCII letters read in lower case, is the lower-case
/// `word`.
pub open spec fn ascii_lower_is(s: Seq<char>, word: Seq<char>) -> bool {
    s.len() == word.len() && forall|i: int| 0 <= i < s.len() ==> same_letter(#[trigger] s[i], word[i])
}

/// Whether `s` reads as the lower-case ASCII `word` regardless of case.
pub fn lower_equals(s: &Vec<char>, word: &str) -> (r: bool)
    ensures
        r == ascii_lower_is(s@, word@),
{
    let w = chars_of(word);
    if s.len() != w.len() {
        return false;
    }
    let mut i: usize = 0;
    while i < s.len()
        invariant
            i <= s.len() == w.len(),
            w@ == word@,
            forall|j: int| 0 <= j < i ==> same_letter(#[trigger] s@[j], w@[j]),
        decreases s.len() - i,
    {
        let c = s[i];
        let d = w[i];
        let same = c == d || ('A' <= c && c <= 'Z' && (c as u32) + 32 == (d as u32));
        if !same {
            return false;
        }
        i = i + 1;
    }
    true
}

/// The cache type a name stands for, in any case: "mem" or "disabled";
/// any other name, "lru" among them, stands for the LRU cache.
pub open spec fn cache_type_named(s: Seq<char>) -> CacheType {
    if ascii_lower_is(s, "mem"@) {
        CacheType::InMemory
    } else if ascii_lower_is(s, "disabled"@) {
        CacheType::Disabled
    } else {
        CacheType::Lru
    }
}

/// The name of a cache type.
pub open spec fn cache_type_name(t: CacheType) -> Seq<char> {
    match t {
        CacheType::Lru => "lru"@,
        CacheType::InMemory => "mem"@,
        CacheType::Disabled => "disabled"@,
    }
}

/// A cache type's name reads back as that cache type.
pub proof fn law_cache_type_name_round_trip(t: CacheType)
    ensures
        cache_type_named(cache_type_name(t)) == t,
{
    reveal_strlit("lru");
    reveal_strlit("mem");
    reveal_strlit("disabled");
    let n = cache_type_name(t);
    match t {
        CacheType::Lru => {
            assert(!same_letter(n[0], "mem"@[0]));
        },
        CacheType::InMemory => {
            assert(forall|i: int| 0 <= i < n.len() ==> same_letter(#[trigger] n[i], "mem"@[i]));
        },
        CacheType::Disabled => {
            assert(forall|i: int| 0 <= i < n.len() ==> same_letter(#[trigger] n[i], "disabled"@[i]));
        },
    }
}

impl CacheType {
    /// The cache type a name stands for, in any case: "lru", "mem" or
    /// "disabled"; any other name stands for the LRU cache.
    pub fn from_name(s: &str) -> (r: CacheType)
        ensures
            r == cache_type_named(s@),
    {
        let cs = chars_of(s);
        if lower_equals(&cs, "lru") {
            proof {
                reveal_strlit("lru");
                reveal_strlit("mem");
                reveal_strlit("disabled");
                assert(same_letter(cs@[0], "lru"@[0]));
                if ascii_lower_is(s@, "mem"@) {
                    assert(same_letter(cs@[0], "mem"@[0]));
                }
            }
            CacheType::Lru
        } else if lower_equals(&cs, "mem") {
            CacheType::InMemory
        } else if lower_equals(&cs, "disabled") {
            CacheType::Disabled
        } else {
            CacheType::Lru
        }
    }

    /// The name of the cache type.
    pub fn as_str(&self) -> (r: &'static str)
        ensures
            r@ == cache_type_name(*self),
    {
        match self {
            CacheType::Lru => "lru",
            CacheType::InMemory => "mem",
            CacheType::Disabled => "disabled",
        }
    }
}

/// How the cache behaves: which cache, how many entries at most, and how
/// long an entry lives, in nanoseconds (forever when absent).
#[derive(Clone, Copy, Debug)]
pub struct CacheSettings {
    pub cache_type: CacheType,
    pub max_size: usize,
    pub ttl: Option<u128>,
}

/// The settings read from configuration values: the cache type by name
/// (LRU when absent), the size as a number (1000 when absent or not a
/// number), the time to live in whole seconds (60 when absent or not a
/// number).
pub open spec fn settings_from(cache: Option<Seq<char>>, max_size: Option<Seq<char>>, ttl_secs: Option<Seq<char>>, r: CacheSettings) -> bool {
    &&& r.cache_type == match cache {
        Some(s) => cache_type_named(s),
        None => CacheType::Lru,
    }
    &&& r.max_size == match max_size {
        Some(s) => match crate::text::parse_unsigned_spec(s, usize::MAX as nat) {
            Some(v) => v,
            None => 1000,
        },
        None => 1000,
    }
    &&& r.ttl == Some(match ttl_secs {
        Some(s) => match crate::text::parse_unsigned_spec(s, u64::MAX as nat) {
            Some(v) => v * 1_000_000_000,
            None => 60_000_000_000,
        },
        None => 60_000_000_000,
    } as u128)
}

impl CacheSettings {
    /// The settings from the configuration values `FLAGD_CACHE`,
    /// `FLAGD_MAX_CACHE_SIZE` and `FLAGD_CACHE_TTL` (each absent or set).
    pub fn from_values(cache: Option<&str>, max_size: Option<&str>, ttl_secs: Option<&str>) -> (r: CacheSettings)
        ensures
            settings_from(
                match cache {
                    Some(s) => Some(s@),
                    None => None,
                },
                match max_size {
                    Some(s) => Some(s@),
                    None => None,
                },
                match ttl_secs {
                    Some(s) => Some(s@),
                    None => None,
                },
                r,
            ),
    {
        let cache_type = match cache {
            Some(s) => CacheType::from_name(s),
            None => CacheType::Lru,
        };
        let max_size: usize = match max_size {
            Some(s) => match parse_unsigned(s, usize::MAX as u64) {
                Some(v) => v as usize,
                None => 1000,
            },
            None => 1000,
        };
        let secs: u64 = match ttl_secs {
            Some(s) => match parse_unsigned(s, u64::MAX) {
                Some(v) => v,
                None => 60,
            },
            None => 60,
        };
        let ttl: u128 = (secs as u128) * 1_000_000_000;
        CacheSettings { cache_type, max_size, ttl: Some(ttl) }
    }
}


/// How a context field takes part in a cache key: by kind and value, any
/// structure counting as the same as any other.
pub enum FieldKey {
    Str(String),
    Bool(bool),
    Int(i64),
    Float(u64),
    DateTime(String),
    Struct,
}

/// The model of a field's part in a cache key.
pub enum FieldKeyModel {
    Str(Seq<char>),
    Bool(bool),
    Int(i64),
    Float(u64),
    DateTime(Seq<char>),
    Struct,
}

impl View for FieldKey {
    type V = FieldKeyModel;

    open spec fn view(&self) -> FieldKeyModel {
        match self {
            FieldKey::Str(s) => FieldKeyModel::Str(s@),
            FieldKey::Bool(b) => FieldKeyModel::Bool(*b),
            FieldKey::Int(i) => FieldKeyModel::Int(*i),
            FieldKey::Float(f) => FieldKeyModel::Float(*f),
            FieldKey::DateTime(s) => FieldKeyModel::DateTime(s@),
            FieldKey::Struct => FieldKeyModel::Struct,
        }
    }
}

/// A field's part in a cache key.
pub open spec fn field_key_of(v: ContextValue) -> FieldKeyModel {
    match v {
        ContextValue::Str(s) => FieldKeyModel::Str(s@),
        ContextValue::Bool(b) => FieldKeyModel::Bool(b),
        ContextValue::Int(i) => FieldKeyModel::Int(i),
        ContextValue::Float(f) => FieldKeyModel::Float(f),
        ContextValue::DateTime(s) => FieldKeyModel::DateTime(s@),
        ContextValue::Struct(_) => FieldKeyModel::Struct,
    }
}

/// The model of a cache key: the flag key, the targeting key, and the
/// context's fields in order.
pub type CacheKeyModel = (Seq<char>, Option<Seq<char>>, Seq<(Seq<char>, FieldKeyModel)>);

/// The key under which an evaluation of a flag in a context is cached.
pub struct CacheKey {
    flag_key: String,
    targeting_key: Option<String>,
    fields: Vec<(String, FieldKey)>,
}

impl View for CacheKey {
    type V = CacheKeyModel;

    closed spec fn view(&self) -> CacheKeyModel {
        (
            self.flag_key@,
            match self.targeting_key {
                Some(t) => Some(t@),
                None => None,
            },
            self.fields@.map_values(|e: (String, FieldKey)| (e.0@, e.1@)),
        )
    }
}

/// The cache key of a flag evaluated in a context.
pub open spec fn key_of(flag_key: Seq<char>, ctx: EvalContext) -> CacheKeyModel {
    (
        flag_key,
        match ctx.targeting_key {
            Some(t) => Some(t@),
            None => None,
        },
        ctx.custom_fields@.map_values(|e: (String, ContextValue)| (e.0@, field_key_of(e.1))),
    )
}

/// Whether two context values count as the same for caching: values of
/// the same kind that are equal (a double by its bits, a date and time by
/// its text); any two structures count as the same, their fields unread.
pub open spec fn same_key_value(a: ContextValue, b: ContextValue) -> bool {
    match (a, b) {
        (ContextValue::Bool(x), ContextValue::Bool(y)) => x == y,
        (ContextValue::Int(x), ContextValue::Int(y)) => x == y,
        (ContextValue::Float(x), ContextValue::Float(y)) => x == y,
        (ContextValue::Str(x), ContextValue::Str(y)) => x@ == y@,
        (ContextValue::DateTime(x), ContextValue::DateTime(y)) => x@ == y@,
        (ContextValue::Struct(_), ContextValue::Struct(_)) => true,
        _ => false,
    }
}

/// Two evaluations share a cache key exactly when they are of the same
/// flag, with the same targeting key (or both without one) and the same
/// fields in the same order: the same names, and values that count as the
/// same. So contexts that differ in any field's value, an integer's
/// included, are cached apart.
pub proof fn law_cache_keys_tell_contexts_apart(f1: Seq<char>, c1: EvalContext, f2: Seq<char>, c2: EvalContext)
    ensures
        key_of(f1, c1) == key_of(f2, c2) <==> {
            &&& f1 == f2
            &&& match (c1.targeting_key, c2.targeting_key) {
                (Some(a), Some(b)) => a@ == b@,
                (None, None) => true,
                _ => false,
            }
            &&& c1.custom_fields@.len() == c2.custom_fields@.len()
            &&& forall|i: int|
                #![trigger c1.custom_fields@[i], c2.custom_fields@[i]]
                0 <= i < c1.custom_fields@.len() ==> c1.custom_fields@[i].0@ == c2.custom_fields@[i].0@
                    && same_key_value(c1.custom_fields@[i].1, c2.custom_fields@[i].1)
        },
{
    let s1 = c1.custom_fields@.map_values(|e: (String, ContextValue)| (e.0@, field_key_of(e.1)));
    let s2 = c2.custom_fields@.map_values(|e: (String, ContextValue)| (e.0@, field_key_of(e.1)));
    if key_of(f1, c1) == key_of(f2, c2) {
        assert(s1 == s2);
        assert forall|i: int|
            #![trigger c1.custom_fields@[i], c2.custom_fields@[i]]
            0 <= i < c1.custom_fields@.len() implies c1.custom_fields@[i].0@ == c2.custom_fields@[i].0@
                && same_key_value(c1.custom_fields@[i].1, c2.custom_fields@[i].1) by {
            assert(s1[i] == s2[i]);
        }
    }
    if f1 == f2 && (match (c1.targeting_key, c2.targeting_key) {
        (Some(a), Some(b)) => a@ == b@,
        (None, None) => true,
        _ => false,
    }) && c1.custom_fields@.len() == c2.custom_fields@.len() && (forall|i: int|
        #![trigger c1.custom_fields@[i], c2.custom_fields@[i]]
        0 <= i < c1.custom_fields@.len() ==> c1.custom_fields@[i].0@ == c2.custom_fields@[i].0@
            && same_key_value(c1.custom_fields@[i].1, c2.custom_fields@[i].1)) {
        assert forall|i: int| 0 <= i < s1.len() implies s1[i] == s2[i] by {
            assert(c1.custom_fields@[i].0@ == c2.custom_fields@[i].0@);
            assert(same_key_value(c1.custom_fields@[i].1, c2.custom_fields@[i].1));
        }
        assert(s1 =~= s2);
    }
}

/// A value cached for a flag in one context is not found for a context
/// whose field at some position has the same name but a value that does
/// not count as the same: reading a fresh cache after one write finds
/// nothing for the other context.
pub proof fn law_other_context_misses<V: Clone>(
    ttl: Option<u128>,
    e1: Map<CacheKeyModel, CacheEntry<V>>,
    e2: Map<CacheKeyModel, CacheEntry<V>>,
    flag_key: Seq<char>,
    c1: EvalContext,
    c2: EvalContext,
    i: int,
    value: V,
    added: u128,
    now: u128,
    r1: bool,
    r2: Option<V>,
)
    requires
        0 <= i < c1.custom_fields@.len(),
        i < c2.custom_fields@.len(),
        !same_key_value(c1.custom_fields@[i].1, c2.custom_fields@[i].1),
        add_outcome(true, Map::<CacheKeyModel, CacheEntry<V>>::empty(), key_of(flag_key, c1), value, added, e1, r1),
        get_outcome(true, ttl, e1, key_of(flag_key, c2), now, e2, r2),
    ensures
        r2 is None,
        !r1,
{
    law_cache_keys_tell_contexts_apart(flag_key, c1, flag_key, c2);
    assert(key_of(flag_key, c1) != key_of(flag_key, c2));
    assert(!e1.contains_key(key_of(flag_key, c2))) by {
        let k1 = key_of(flag_key, c1);
        let m = Map::<CacheKeyModel, CacheEntry<V>>::empty().insert(k1, CacheEntry { value, created_at: added });
        assert(!m.contains_key(key_of(flag_key, c2)));
    }
}

/// Whether two fields take the same part in a key.
fn field_key_eq(a: &FieldKey, b: &FieldKey) -> (r: bool)
    ensures
        r == (a@ == b@),
{
    match (a, b) {
        (FieldKey::Str(x), FieldKey::Str(y)) => str_eq(x.as_str(), y.as_str()),
        (FieldKey::Bool(x), FieldKey::Bool(y)) => *x == *y,
        (FieldKey::Int(x), FieldKey::Int(y)) => *x == *y,
        (FieldKey::Float(x), FieldKey::Float(y)) => *x == *y,
        (FieldKey::DateTime(x), FieldKey::DateTime(y)) => str_eq(x.as_str(), y.as_str()),
        (FieldKey::Struct, FieldKey::Struct) => true,
        _ => false,
    }
}

impl CacheKey {
    /// The cache key of a flag evaluated in a context.
    pub fn new(flag_key: &str, ctx: &EvalContext) -> (r: CacheKey)
        ensures
            r@ == key_of(flag_key@, *ctx),
    {
        let mut fields: Vec<(String, FieldKey)> = Vec::new();
        let mut i: usize = 0;
        while i < ctx.custom_fields.len()
            invariant
                i <= ctx.custom_fields.len(),
                fields@.len() == i,
                forall|j: int|
                    #![trigger fields@[j]]
                    0 <= j < i ==> fields@[j].0@ == ctx.custom_fields@[j].0@ && fields@[j].1@ == field_key_of(
                        ctx.custom_fields@[j].1,
                    ),
            decreases ctx.custom_fields.len() - i,
        {
            let k = ctx.custom_fields[i].0.clone();
            let f = match &ctx.custom_fields[i].1 {
                ContextValue::Str(s) => FieldKey::Str(s.clone()),
                ContextValue::Bool(b) => FieldKey::Bool(*b),
                ContextValue::Int(n) => FieldKey::Int(*n),
                ContextValue::Float(x) => FieldKey::Float(*x),
                ContextValue::DateTime(s) => FieldKey::DateTime(s.clone()),
                ContextValue::Struct(_) => FieldKey::Struct,
            };
            fields.push((k, f));
            i = i + 1;
        }
        let r = CacheKey {
            flag_key: flag_key.to_string(),
            targeting_key: match &ctx.targeting_key {
                Some(t) => Some(t.clone()),
                None => None,
            },
            fields,
        };
        assert(r@.2 =~= key_of(flag_key@, *ctx).2);
        r
    }
}

impl KeyMatch for CacheKey {
    fn matches(&self, other: &Self) -> (r: bool) {
        if !str_eq(self.flag_key.as_str(), other.flag_key.as_str()) {
            return false;
        }
        let same_target = match (&self.targeting_key, &other.targeting_key) {
            (Some(a), Some(b)) => str_eq(a.as_str(), b.as_str()),
            (None, None) => true,
            _ => false,
        };
        if !same_target {
            return false;
        }
        if self.fields.len() != other.fields.len() {
            assert(self@.2.len() != other@.2.len());
            return false;
        }
        let mut i: usize = 0;
        while i < self.fields.len()
            invariant
                i <= self.fields.len() == other.fields.len(),
                forall|j: int| 0 <= j < i ==> #[trigger] self@.2[j] == other@.2[j],
            decreases self.fields.len() - i,
        {
            if !str_eq(self.fields[i].0.as_str(), other.fields[i].0.as_str()) || !field_key_eq(
                &self.fields[i].1,
                &other.fields[i].1,
            ) {
                assert(self@.2[i as int] != other@.2[i as int]);
                return false;
            }
            i = i + 1;
        }
        assert(self@.2 =~= other@.2);
        true
    }
}

/// A cached value and when it was stored, in nanoseconds on a monotonic
/// clock.
pub struct CacheEntry<V> {
    pub value: V,
    pub created_at: u128,
}

/// The cache behind the service.
pub enum CacheStore<V> {
    Lru(LruCacheImpl<CacheKey, CacheEntry<V>>),
    Memory(InMemoryCache<CacheKey, CacheEntry<V>>),
}

/// Whether an entry has outlived the time to live at time `now`.
pub open spec fn expired(created_at: u128, ttl: Option<u128>, now: u128) -> bool {
    match ttl {
        Some(t) => now > created_at && now - created_at > t,
        None => false,
    }
}

/// What a read of key `k` at time `now` returns and leaves: nothing, and
/// the entries as they were, when caching is off or nothing is cached under
/// `k`; nothing, and the entry removed, when it outlived the time to live;
/// else a clone of the cached value, the entries unchanged.
pub open spec fn get_outcome<V: Clone>(
    enabled: bool,
    ttl: Option<u128>,
    before: Map<CacheKeyModel, CacheEntry<V>>,
    k: CacheKeyModel,
    now: u128,
    after: Map<CacheKeyModel, CacheEntry<V>>,
    r: Option<V>,
) -> bool {
    if !enabled || !before.contains_key(k) {
        r is None && after =~= before
    } else if expired(before[k].created_at, ttl, now) {
        r is None && after =~= before.remove(k)
    } else {
        r matches Some(v) && cloned(before[k].value, v) && after =~= before
    }
}

/// What a write of `value` under key `k` at time `now` returns and leaves:
/// with caching off, `false` and the entries as they were; else whether `k`
/// was cached before, with the new entry under `k` and no entry that was
/// not there before (a bounded cache may evict others).
pub open spec fn add_outcome<V>(
    enabled: bool,
    before: Map<CacheKeyModel, CacheEntry<V>>,
    k: CacheKeyModel,
    value: V,
    now: u128,
    after: Map<CacheKeyModel, CacheEntry<V>>,
    r: bool,
) -> bool {
    if !enabled {
        !r && after =~= before
    } else {
        &&& r == before.contains_key(k)
        &&& after.contains_key(k)
        &&& after[k] == (CacheEntry { value, created_at: now })
        &&& after.submap_of(before.insert(k, CacheEntry { value, created_at: now }))
    }
}

/// A read gives back what a write stored: once `add` has cached `value`
/// under a key at time `added`, a `get` of that key at `now` returns a clone
/// of `value` and changes nothing, unless the entry outlived the time to
/// live; then it returns nothing and the entry is gone.
pub proof fn law_get_after_add<V: Clone>(
    ttl: Option<u128>,
    e0: Map<CacheKeyModel, CacheEntry<V>>,
    e1: Map<CacheKeyModel, CacheEntry<V>>,
    e2: Map<CacheKeyModel, CacheEntry<V>>,
    k: CacheKeyModel,
    value: V,
    added: u128,
    now: u128,
    r1: bool,
    r2: Option<V>,
)
    requires
        add_outcome(true, e0, k, value, added, e1, r1),
        get_outcome(true, ttl, e1, k, now, e2, r2),
    ensures
        !expired(added, ttl, now) ==> (r2 matches Some(v) && cloned(value, v) && e2 == e1),
        expired(added, ttl, now) ==> r2 is None && !e2.contains_key(k),
{
}

/// Once the cache is purged (as it is when the flag configuration changes),
/// no read finds a value until one is written again.
pub proof fn law_get_after_purge<V: Clone>(
    enabled: bool,
    ttl: Option<u128>,
    after: Map<CacheKeyModel, CacheEntry<V>>,
    k: CacheKeyModel,
    now: u128,
    r: Option<V>,
)
    requires
        get_outcome(enabled, ttl, Map::<CacheKeyModel, CacheEntry<V>>::empty(), k, now, after, r),
    ensures
        r is None,
        after == Map::<CacheKeyModel, CacheEntry<V>>::empty(),
{
}

/// A write under one key leaves every other key's entry as it was, or, in
/// a bounded cache that had to make room, removes it; it never changes it.
/// So a read of another key afterwards finds what it found before, or
/// nothing.
pub proof fn law_add_keeps_other_keys<V: Clone>(
    ttl: Option<u128>,
    e0: Map<CacheKeyModel, CacheEntry<V>>,
    e1: Map<CacheKeyModel, CacheEntry<V>>,
    e2: Map<CacheKeyModel, CacheEntry<V>>,
    written: CacheKeyModel,
    value: V,
    added: u128,
    other: CacheKeyModel,
    now: u128,
    r1: bool,
    r2: Option<V>,
)
    requires
        other != written,
        add_outcome(true, e0, written, value, added, e1, r1),
        get_outcome(true, ttl, e1, other, now, e2, r2),
    ensures
        e1.contains_key(other) ==> e0.contains_key(other) && e1[other] == e0[other],
        r2 is Some ==> e0.contains_key(other) && !expired(e0[other].created_at, ttl, now),
{
    if e1.contains_key(other) {
        assert(e0.insert(written, CacheEntry { value, created_at: added }).contains_key(other));
    }
}

/// A cache that is off never returns a value, whatever was written to it.
pub proof fn law_disabled_cache_misses<V: Clone>(
    ttl: Option<u128>,
    e0: Map<CacheKeyModel, CacheEntry<V>>,
    e1: Map<CacheKeyModel, CacheEntry<V>>,
    e2: Map<CacheKeyModel, CacheEntry<V>>,
    k: CacheKeyModel,
    value: V,
    added: u128,
    now: u128,
    r1: bool,
    r2: Option<V>,
)
    requires
        add_outcome(false, e0, k, value, added, e1, r1),
        get_outcome(false, ttl, e1, k, now, e2, r2),
    ensures
        !r1,
        r2 is None,
        e2 == e0,
{
}

/// How a write changes a store of the given bound: an unbounded store
/// stores the entry and keeps every other one; a bounded (LRU) store does
/// the same while it has room or holds the key already, making the key the
/// most recently used; when full, it first evicts the least recently used
/// key, the first of `recency`.
pub open spec fn store_add_outcome<V>(
    bound: Option<nat>,
    recency: Seq<CacheKeyModel>,
    before: Map<CacheKeyModel, CacheEntry<V>>,
    k: CacheKeyModel,
    entry: CacheEntry<V>,
    after: Map<CacheKeyModel, CacheEntry<V>>,
    after_recency: Seq<CacheKeyModel>,
) -> bool {
    match bound {
        None => after =~= before.insert(k, entry),
        Some(cap) => if before.contains_key(k) {
            after =~= before.insert(k, entry) && after_recency == move_to_back(recency, k)
        } else if before.len() < cap {
            after =~= before.insert(k, entry) && after_recency == recency.push(k)
        } else {
            after =~= before.remove(recency[0]).insert(k, entry) && after_recency == recency.drop_first().push(k)
        },
    }
}

/// The recency order of a bounded store after a read of `k` at `now`: a
/// key found becomes the most recently used, and leaves when it outlived
/// the time to live; nothing changes when caching is off or `k` is not
/// cached.
pub open spec fn get_recency<V>(
    enabled: bool,
    ttl: Option<u128>,
    before: Map<CacheKeyModel, CacheEntry<V>>,
    recency: Seq<CacheKeyModel>,
    k: CacheKeyModel,
    now: u128,
) -> Seq<CacheKeyModel> {
    if !enabled || !before.contains_key(k) {
        recency
    } else if expired(before[k].created_at, ttl, now) {
        remove_key(move_to_back(recency, k), k)
    } else {
        move_to_back(recency, k)
    }
}

/// How the keys of a bounded store stand: `cap` is above zero and bounds
/// their number, and the recency order lists each cached key once and
/// nothing else.
pub open spec fn lru_consistent<V>(
    cap: nat,
    recency: Seq<CacheKeyModel>,
    entries: Map<CacheKeyModel, CacheEntry<V>>,
) -> bool {
    &&& entries.dom().finite()
    &&& entries.len() == recency.len()
    &&& recency.len() <= cap
    &&& cap > 0
    &&& recency.no_duplicates()
    &&& forall|k: CacheKeyModel| #[trigger] entries.contains_key(k) <==> recency.contains(k)
}

/// An in-memory store never evicts: a write touches only the key written,
/// so every other cached value stays, and a later read of another key
/// still finds its value unless it outlived the time to live.
pub proof fn law_memory_keeps_other_values<V: Clone>(
    ttl: Option<u128>,
    rec0: Seq<CacheKeyModel>,
    rec1: Seq<CacheKeyModel>,
    e0: Map<CacheKeyModel, CacheEntry<V>>,
    e1: Map<CacheKeyModel, CacheEntry<V>>,
    e2: Map<CacheKeyModel, CacheEntry<V>>,
    written: CacheKeyModel,
    entry: CacheEntry<V>,
    other: CacheKeyModel,
    now: u128,
    r2: Option<V>,
)
    requires
        other != written,
        store_add_outcome(None, rec0, e0, written, entry, e1, rec1),
        get_outcome(true, ttl, e1, other, now, e2, r2),
    ensures
        e1.contains_key(written) && e1[written] == entry,
        e1.contains_key(other) == e0.contains_key(other),
        e0.contains_key(other) ==> e1[other] == e0[other],
        e0.contains_key(other) && !expired(e0[other].created_at, ttl, now) ==> (r2 matches Some(v) && cloned(
            e0[other].value,
            v,
        )),
{
}

/// A step of an in-memory store's history that leaves key `k` alone: a
/// write of another key, or a read of any key at a time when the entry
/// under `k`, if it is the key read, has not outlived the time to live.
pub open spec fn memory_step_keeps<V: Clone>(
    ttl: Option<u128>,
    before: Map<CacheKeyModel, CacheEntry<V>>,
    after: Map<CacheKeyModel, CacheEntry<V>>,
    k: CacheKeyModel,
) -> bool {
    ||| exists|w: CacheKeyModel, e: CacheEntry<V>| w != k && after == before.insert(w, e)
    ||| exists|w: CacheKeyModel, now: u128, r: Option<V>|
        (w != k || !expired(before[k].created_at, ttl, now)) && get_outcome(true, ttl, before, w, now, after, r)
}

/// Each step that leaves `k` alone keeps its entry.
proof fn lemma_memory_history<V: Clone>(
    ttl: Option<u128>,
    history: Seq<Map<CacheKeyModel, CacheEntry<V>>>,
    k: CacheKeyModel,
    n: int,
)
    requires
        0 <= n < history.len(),
        history[0].contains_key(k),
        forall|i: int| 0 <= i < history.len() - 1 ==> memory_step_keeps(ttl, #[trigger] history[i], history[i + 1], k),
    ensures
        history[n].contains_key(k) && history[n][k] == history[0][k],
    decreases n,
{
    if n > 0 {
        lemma_memory_history(ttl, history, k, n - 1);
        assert(memory_step_keeps(ttl, history[n - 1], history[n], k));
    }
}

/// A value cached in an in-memory store is read back, as a clone of what
/// was written, after any history of writes of other keys and reads, as
/// long as it has not outlived the time to live.
pub proof fn law_memory_value_read_back_after_history<V: Clone>(
    ttl: Option<u128>,
    history: Seq<Map<CacheKeyModel, CacheEntry<V>>>,
    k: CacheKeyModel,
    now: u128,
    after: Map<CacheKeyModel, CacheEntry<V>>,
    r: Option<V>,
)
    requires
        history.len() >= 1,
        history[0].contains_key(k),
        forall|i: int| 0 <= i < history.len() - 1 ==> memory_step_keeps(ttl, #[trigger] history[i], history[i + 1], k),
        get_outcome(true, ttl, history.last(), k, now, after, r),
        !expired(history[0][k].created_at, ttl, now),
    ensures
        r matches Some(v) && cloned(history[0][k].value, v),
        after == history.last(),
{
    lemma_memory_history(ttl, history, k, history.len() - 1);
}

/// A write to a bounded store evicts at most one key, and only to make
/// room: when the key written is new and the store is full, exactly the
/// least recently used key leaves; otherwise every key stays. The keys that
/// stay keep their values.
pub proof fn law_lru_evicts_least_recent<V>(
    cap: nat,
    rec0: Seq<CacheKeyModel>,
    rec1: Seq<CacheKeyModel>,
    e0: Map<CacheKeyModel, CacheEntry<V>>,
    e1: Map<CacheKeyModel, CacheEntry<V>>,
    written: CacheKeyModel,
    entry: CacheEntry<V>,
)
    requires
        lru_consistent(cap, rec0, e0),
        store_add_outcome(Some(cap), rec0, e0, written, entry, e1, rec1),
    ensures
        e1.contains_key(written) && e1[written] == entry,
        !e0.contains_key(written) && e0.len() >= cap ==> e0.contains_key(rec0[0]) && rec0[0] != written,
        forall|k: CacheKeyModel|
            k != written ==> (#[trigger] e1.contains_key(k) <==> (e0.contains_key(k) && !(!e0.contains_key(
                written,
            ) && e0.len() >= cap && k == rec0[0]))),
        forall|k: CacheKeyModel| k != written && #[trigger] e1.contains_key(k) ==> e1[k] == e0[k],
{
    if !e0.contains_key(written) && e0.len() >= cap {
        assert(rec0.len() > 0);
        assert(rec0.contains(rec0[0]));
    }
}

/// The service that caches evaluated values by flag and context.
pub struct CacheService<V> {
    enabled: bool,
    ttl: Option<u128>,
    store: CacheStore<V>,
}

impl<V> CacheService<V> {
    /// Whether caching is on.
    pub closed spec fn is_enabled(&self) -> bool {
        self.enabled
    }

    /// The time to live of entries.
    pub closed spec fn ttl(&self) -> Option<u128> {
        self.ttl
    }

    /// The bound on the number of entries: the capacity of an LRU store,
    /// none for an in-memory one.
    pub closed spec fn bound(&self) -> Option<nat> {
        match self.store {
            CacheStore::Lru(c) => Some(c.capacity()),
            CacheStore::Memory(_) => None,
        }
    }

    /// The keys of an LRU store from the least to the most recently used;
    /// empty for an in-memory store.
    pub closed spec fn recency(&self) -> Seq<CacheKeyModel> {
        match self.store {
            CacheStore::Lru(c) => c.recency(),
            CacheStore::Memory(_) => Seq::empty(),
        }
    }

    /// The cached entries by key.
    pub closed spec fn entries(&self) -> Map<CacheKeyModel, CacheEntry<V>> {
        match self.store {
            CacheStore::Lru(c) => c.contents(),
            CacheStore::Memory(c) => c.contents(),
        }
    }

    /// A service with the given settings: caching is on unless the type is
    /// `Disabled`; the LRU type bounds the cache to `max_size` entries.
    pub fn new(settings: CacheSettings) -> (r: Self)
        requires
            settings.cache_type == CacheType::Lru ==> settings.max_size > 0,
        ensures
            r.is_enabled() == (settings.cache_type != CacheType::Disabled),
            r.ttl() == settings.ttl,
            r.entries() == Map::<CacheKeyModel, CacheEntry<V>>::empty(),
            r.bound() == if settings.cache_type == CacheType::Lru {
                Some(settings.max_size as nat)
            } else {
                None
            },
            r.recency() == Seq::<CacheKeyModel>::empty(),
    {
        match settings.cache_type {
            CacheType::Lru => CacheService {
                enabled: true,
                ttl: settings.ttl,
                store: CacheStore::Lru(LruCacheImpl::new(settings.max_size)),
            },
            CacheType::InMemory => CacheService {
                enabled: true,
                ttl: settings.ttl,
                store: CacheStore::Memory(InMemoryCache::new()),
            },
            CacheType::Disabled => CacheService {
                enabled: false,
                ttl: settings.ttl,
                store: CacheStore::Memory(InMemoryCache::new()),
            },
        }
    }

    /// The value cached for a flag in a context at time `now`: nothing when
    /// caching is off or nothing is cached; an entry that outlived the time
    /// to live is removed and not returned.
    pub fn get(&mut self, flag_key: &str, ctx: &EvalContext, now: u128) -> (r: Option<V>)
        where
            V: Clone,
        ensures
            final(self).is_enabled() == old(self).is_enabled(),
            final(self).ttl() == old(self).ttl(),
            get_outcome(
                old(self).is_enabled(),
                old(self).ttl(),
                old(self).entries(),
                key_of(flag_key@, *ctx),
                now,
                final(self).entries(),
                r,
            ),
            final(self).bound() == old(self).bound(),
            old(self).bound() is Some ==> final(self).recency() == get_recency(
                old(self).is_enabled(),
                old(self).ttl(),
                old(self).entries(),
                old(self).recency(),
                key_of(flag_key@, *ctx),
                now,
            ),
            old(self).bound() is None ==> final(self).recency() == old(self).recency(),
    {
        if !self.enabled {
            return None;
        }
        let key = CacheKey::new(flag_key, ctx);
        let found: Option<(bool, V)> = match &mut self.store {
            CacheStore::Lru(c) => match c.get(&key) {
                Some(e) => {
                    let stale = match self.ttl {
                        Some(t) => now > e.created_at && now - e.created_at > t,
                        None => false,
                    };
                    Some((stale, e.value.clone()))
                },
                None => None,
            },
            CacheStore::Memory(c) => match c.get(&key) {
                Some(e) => {
                    let stale = match self.ttl {
                        Some(t) => now > e.created_at && now - e.created_at > t,
                        None => false,
                    };
                    Some((stale, e.value.clone()))
                },
                None => None,
            },
        };
        match found {
            Some((stale, v)) => {
                if stale {
                    match &mut self.store {
                        CacheStore::Lru(c) => {
                            c.remove(&key);
                        },
                        CacheStore::Memory(c) => {
                            c.remove(&key);
                        },
                    }
                    None
                } else {
                    Some(v)
                }
            },
            None => None,
        }
    }

    /// Caches a value for a flag in a context at time `now`; whether a value
    /// was cached there before. Nothing is cached when caching is off.
    pub fn add(&mut self, flag_key: &str, ctx: &EvalContext, value: V, now: u128) -> (r: bool)
        ensures
            final(self).is_enabled() == old(self).is_enabled(),
            final(self).ttl() == old(self).ttl(),
            add_outcome(
                old(self).is_enabled(),
                old(self).entries(),
                key_of(flag_key@, *ctx),
                value,
                now,
                final(self).entries(),
                r,
            ),
            final(self).bound() == old(self).bound(),
            old(self).is_enabled() ==> store_add_outcome(
                old(self).bound(),
                old(self).recency(),
                old(self).entries(),
                key_of(flag_key@, *ctx),
                CacheEntry { value, created_at: now },
                final(self).entries(),
                final(self).recency(),
            ),
            !old(self).is_enabled() ==> final(self).recency() == old(self).recency(),
            old(self).bound() matches Some(cap) ==> lru_consistent(cap, old(self).recency(), old(self).entries()),
            final(self).bound() matches Some(cap) ==> lru_consistent(
                cap,
                final(self).recency(),
                final(self).entries(),
            ),
    {
        if let CacheStore::Lru(c) = &self.store {
            c.len();
        }
        if !self.enabled {
            return false;
        }
        let key = CacheKey::new(flag_key, ctx);
        let entry = CacheEntry { value, created_at: now };
        match &mut self.store {
            CacheStore::Lru(c) => {
                let r = c.add(key, entry);
                c.len();
                r
            },
            CacheStore::Memory(c) => c.add(key, entry),
        }
    }

    /// Removes every cached value, when caching is on.
    pub fn purge(&mut self)
        ensures
            final(self).is_enabled() == old(self).is_enabled(),
            final(self).ttl() == old(self).ttl(),
            old(self).is_enabled() ==> final(self).entries() == Map::<CacheKeyModel, CacheEntry<V>>::empty(),
            !old(self).is_enabled() ==> final(self).entries() == old(self).entries(),
            final(self).bound() == old(self).bound(),
            old(self).is_enabled() ==> final(self).recency() == Seq::<CacheKeyModel>::empty(),
            !old(self).is_enabled() ==> final(self).recency() == old(self).recency(),
    {
        if self.enabled {
            match &mut self.store {
                CacheStore::Lru(c) => c.purge(),
                CacheStore::Memory(c) => c.purge(),
            }
        }
    }

    /// Turns caching off.
    pub fn disable(&mut self)
        ensures
            !final(self).is_enabled(),
            final(self).ttl() == old(self).ttl(),
            final(self).entries() == old(self).entries(),
            final(self).bound() == old(self).bound(),
            final(self).recency() == old(self).recency(),
    {
        if self.enabled {
            self.enabled = false;
        }
    }
}
} // verus!
