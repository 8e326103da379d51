//! A JSON document model shared by flag configurations, targeting rules and
//! evaluation contexts.

use vstd::prelude::*;

verus! {

/// The mathematical model of a JSON document.
#[verifier::ext_equal]
pub enum Json {
    Null,
    Bool(bool),
    Int(i64),
    /// A number that is not an `i64`, by the bits of its IEEE-754 double.
    Float(u64),
    Str(Seq<char>),
    Array(Seq<Json>),
    Object(Seq<(Seq<char>, Json)>),
}

/// A JSON document.
///
/// Numbers that fit an `i64` are held as `Int`; every other number is held by
/// the bits of its double-precision value, so that no floating-point
/// arithmetic happens here. Documents parsed from text hold each object's
/// keys once.
#[derive(Debug, PartialEq)]
pub enum JsonValue {
    Null,
    Bool(bool),
    Int(i64),
    Float(u64),
    Str(String),
    Array(Vec<JsonValue>),
    Object(Vec<(String, JsonValue)>),
}

impl View for JsonValue {
    type V = Json;

    open spec fn view(&self) -> Json {
        json_model(*self)
    }
}

/// The model of a document.
pub open spec fn json_model(v: JsonValue) -> Json
    decreases v,
{
    match v {
        JsonValue::Null => Json::Null,
        JsonValue::Bool(b) => Json::Bool(b),
        JsonValue::Int(i) => Json::Int(i),
        JsonValue::Float(f) => Json::Float(f),
        JsonValue::Str(s) => Json::Str(s@),
        JsonValue::Array(items) => Json::Array(items_model(items@)),
        JsonValue::Object(entries) => Json::Object(entries_model(entries@)),
    }
}

/// The models of the items of an array.
pub open spec fn items_model(s: Seq<JsonValue>) -> Seq<Json>
    decreases s,
{
    if s.len() == 0 {
        Seq::empty()
    } else {
        items_model(s.drop_last()).push(json_model(s.last()))
    }
}

/// The models of the entries of an object.
pub open spec fn entries_model(s: Seq<(String, JsonValue)>) -> Seq<(Seq<char>, Json)>
    decreases s,
{
    if s.len() == 0 {
        Seq::empty()
    } else {
        entries_model(s.drop_last()).push((s.last().0@, json_model(s.last().1)))
    }
}

/// How the model of an array or object is made of the models of its parts.
pub proof fn lemma_view_parts(v: &JsonValue)
    ensures
        v is Array ==> v@ is Array && v@->Array_0.len() == v->Array_0.len() && forall|i: int|
            0 <= i < v->Array_0.len() ==> #[trigger] v@->Array_0[i] == v->Array_0[i]@,
        v is Object ==> v@ is Object && v@->Object_0.len() == v->Object_0.len() && forall|i: int|
            0 <= i < v->Object_0.len() ==> #[trigger] v@->Object_0[i] == (
            v->Object_0[i].0@,
            v->Object_0[i].1@,
        ),
        v is Str ==> v@ == Json::Str(v->Str_0@),
        v is Null ==> v@ == Json::Null,
        v is Bool ==> v@ == Json::Bool(v->Bool_0),
        v is Int ==> v@ == Json::Int(v->Int_0),
        v is Float ==> v@ == Json::Float(v->Float_0),
{
    match v {
        JsonValue::Array(items) => lemma_items_model(items@),
        JsonValue::Object(entries) => lemma_entries_model(entries@),
        _ => {},
    }
}

/// The models of array items, one by one.
pub proof fn lemma_items_model(s: Seq<JsonValue>)
    ensures
        items_model(s).len() == s.len(),
        forall|i: int| 0 <= i < s.len() ==> #[trigger] items_model(s)[i] == json_model(s[i]),
    decreases s.len(),
{
    if s.len() > 0 {
        lemma_items_model(s.drop_last());
    }
}

/// The models of object entries, one by one.
pub proof fn lemma_entries_model(s: Seq<(String, JsonValue)>)
    ensures
        entries_model(s).len() == s.len(),
        forall|i: int|
            0 <= i < s.len() ==> #[trigger] entries_model(s)[i] == (s[i].0@, json_model(s[i].1)),
    decreases s.len(),
{
    if s.len() > 0 {
        lemma_entries_model(s.drop_last());
    }
}

/// The value under `key` in the entries of an object: the first entry with
/// that key.
pub open spec fn obj_get(entries: Seq<(Seq<char>, Json)>, key: Seq<char>) -> Option<Json>
    decreases entries.len(),
{
    if entries.len() == 0 {
        None
    } else if entries[0].0 == key {
        Some(entries[0].1)
    } else {
        obj_get(entries.drop_first(), key)
    }
}

/// The value under `key` when `j` is an object; `None` otherwise.
pub open spec fn json_get(j: Json, key: Seq<char>) -> Option<Json> {
    match j {
        Json::Object(entries) => obj_get(entries, key),
        _ => None,
    }
}

/// The characters of `j` when it is a string.
pub open spec fn json_str(j: Json) -> Option<Seq<char>> {
    match j {
        Json::Str(s) => Some(s),
        _ => None,
    }
}

impl JsonValue {
    /// A copy of the whole document.
    #[verifier::loop_isolation(false)]
    pub fn deep_clone(&self) -> (r: JsonValue)
        ensures
            r@ == self@,
        decreases self,
    {
        match self {
            JsonValue::Null => JsonValue::Null,
            JsonValue::Bool(b) => JsonValue::Bool(*b),
            JsonValue::Int(i) => JsonValue::Int(*i),
            JsonValue::Float(f) => JsonValue::Float(*f),
            JsonValue::Str(s) => JsonValue::Str(s.clone()),
            JsonValue::Array(items) => {
                let mut out: Vec<JsonValue> = Vec::new();
                let mut i: usize = 0;
                while i < items.len()
                    invariant
                        i <= items.len(),
                        out.len() == i,
                        forall|j: int| 0 <= j < i ==> #[trigger] out[j]@ == items[j]@,
                    decreases items.len() - i,
                {
                    proof {
                        vstd::std_specs::vec::axiom_vec_index_decreases(*items, i as int);
                    }
                    let c = items[i].deep_clone();
                    out.push(c);
                    i = i + 1;
                }
                let r = JsonValue::Array(out);
                proof {
                    lemma_view_parts(&r);
                    lemma_view_parts(self);
                }
                assert(r@->Array_0 =~= self@->Array_0);
                r
            },
            JsonValue::Object(entries) => {
                let mut out: Vec<(String, JsonValue)> = Vec::new();
                let mut i: usize = 0;
                while i < entries.len()
                    invariant
                        i <= entries.len(),
                        out.len() == i,
                        forall|j: int|
                            0 <= j < i ==> (#[trigger] out[j]).0@ == entries[j].0@ && out[j].1@
                                == entries[j].1@,
                    decreases entries.len() - i,
                {
                    let k = entries[i].0.clone();
                    proof {
                        vstd::std_specs::vec::axiom_vec_index_decreases(*entries, i as int);
                    }
                    let v = entries[i].1.deep_clone();
                    out.push((k, v));
                    i = i + 1;
                }
                let r = JsonValue::Object(out);
                proof {
                    lemma_view_parts(&r);
                    lemma_view_parts(self);
                }
                assert(r@->Object_0 =~= self@->Object_0);
                r
            },
        }
    }

    /// The value under `key` when this is an object.
    pub fn get(&self, key: &str) -> (r: Option<&JsonValue>)
        ensures
            r is Some == json_get(self@, key@) is Some,
            r matches Some(v) ==> json_get(self@, key@) == Some(v@),
    {
        match self {
            JsonValue::Object(entries) => {
                proof {
                    lemma_view_parts(self);
                }
                let ghost es = self@->Object_0;
                assert(es.subrange(0, es.len() as int) =~= es);
                let mut i: usize = 0;
                while i < entries.len()
                    invariant
                        i <= entries.len(),
                        es.len() == entries.len(),
                        es == self@->Object_0,
                        self@ == (JsonValue::Object(*entries))@,
                        forall|j: int| 0 <= j < entries.len() ==> #[trigger] es[j] == (entries[j].0@, entries[j].1@),
                        obj_get(es, key@) == obj_get(es.subrange(i as int, es.len() as int), key@),
                    decreases entries.len() - i,
                {
                    let ghost rest = es.subrange(i as int, es.len() as int);
                    assert(rest[0] == es[i as int]);
                    if crate::text::str_eq(entries[i].0.as_str(), key) {
                        return Some(&entries[i].1);
                    }
                    assert(rest.drop_first() =~= es.subrange(i + 1, es.len() as int));
                    i = i + 1;
                }
                None
            },
            _ => None,
        }
    }

    /// The characters of this value when it is a string.
    pub fn as_str(&self) -> (r: Option<&str>)
        ensures
            r is Some == json_str(self@) is Some,
            r matches Some(s) ==> json_str(self@) == Some(s@),
    {
        match self {
            JsonValue::Str(s) => Some(s.as_str()),
            _ => None,
        }
    }
}


/// Whether `i` is the position of the first entry with key `k`.
pub open spec fn is_first_key(s: Seq<(Seq<char>, Json)>, k: Seq<char>, i: int) -> bool {
    &&& 0 <= i < s.len()
    &&& s[i].0 == k
    &&& forall|j: int| 0 <= j < i ==> s[j].0 != k
}

/// The entries of an object after storing `v` under `k`: the first entry
/// with that key gets the new value, or the entry is appended.
pub open spec fn obj_insert(s: Seq<(Seq<char>, Json)>, k: Seq<char>, v: Json) -> Seq<(Seq<char>, Json)> {
    if exists|i: int| is_first_key(s, k, i) {
        let i = choose|i: int| is_first_key(s, k, i);
        s.update(i, (k, v))
    } else {
        s.push((k, v))
    }
}

/// Stores `value` under `key` in the entries of an object.
pub fn object_insert(entries: &mut Vec<(String, JsonValue)>, key: String, value: JsonValue)
    ensures
        entries_model(final(entries)@) == obj_insert(entries_model(old(entries)@), key@, value@),
{
    proof {
        lemma_entries_model(entries@);
    }
    let ghost m = entries_model(entries@);
    let mut i: usize = 0;
    while i < entries.len()
        invariant
            i <= entries.len(),
            entries@ == old(entries)@,
            m == entries_model(entries@),
            m.len() == entries.len(),
            forall|j: int| 0 <= j < entries.len() ==> #[trigger] m[j] == (entries@[j].0@, entries@[j].1@),
            forall|j: int| 0 <= j < i ==> m[j].0 != key@,
        decreases entries.len() - i,
    {
        if crate::text::str_eq(entries[i].0.as_str(), key.as_str()) {
            assert(is_first_key(m, key@, i as int));
            assert forall|q: int| is_first_key(m, key@, q) implies q == i by {
                if q < i {
                    assert(m[q].0 != key@);
                } else if q > i {
                    assert(m[i as int].0 == key@);
                }
            }
            let ghost kv = key@;
            let ghost vv = value@;
            entries.set(i, (key, value));
            proof {
                lemma_entries_model(entries@);
            }
            assert(entries_model(entries@) =~= m.update(i as int, (kv, vv)));
            return;
        }
        i = i + 1;
    }
    assert forall|q: int| !is_first_key(m, key@, q) by {
        if 0 <= q < m.len() {
            assert(m[q].0 != key@);
        }
    }
    let ghost kv = key@;
    let ghost vv = value@;
    entries.push((key, value));
    proof {
        lemma_entries_model(entries@);
    }
    assert(entries_model(entries@) =~= m.push((kv, vv)));
}

/// Whether a double-precision value, by its bits, is finite.
pub open spec fn is_finite_bits(bits: u64) -> bool {
    (bits >> 52u64) & 0x7ffu64 != 0x7ffu64
}

/// Whether a double-precision value, by its bits, is finite.
pub fn finite_bits(bits: u64) -> (r: bool)
    ensures
        r == is_finite_bits(bits),
{
    (bits >> 52u64) & 0x7ffu64 != 0x7ffu64
}

/// Whether two documents are the same document.
#[verifier::loop_isolation(false)]
pub fn json_equal(a: &JsonValue, b: &JsonValue) -> (r: bool)
    ensures
        r == (a@ == b@),
    decreases a,
{
    proof {
        lemma_view_parts(a);
        lemma_view_parts(b);
    }
    match (a, b) {
        (JsonValue::Null, JsonValue::Null) => true,
        (JsonValue::Bool(x), JsonValue::Bool(y)) => *x == *y,
        (JsonValue::Int(x), JsonValue::Int(y)) => *x == *y,
        (JsonValue::Float(x), JsonValue::Float(y)) => *x == *y,
        (JsonValue::Str(x), JsonValue::Str(y)) => crate::text::str_eq(x.as_str(), y.as_str()),
        (JsonValue::Array(xs), JsonValue::Array(ys)) => {
            if xs.len() != ys.len() {
                return false;
            }
            let mut i: usize = 0;
            while i < xs.len()
                invariant
                    i <= xs.len() == ys.len(),
                    forall|j: int| 0 <= j < i ==> #[trigger] xs@[j]@ == ys@[j]@,
                decreases xs.len() - i,
            {
                proof {
                    vstd::std_specs::vec::axiom_vec_index_decreases(*xs, i as int);
                }
                if !json_equal(&xs[i], &ys[i]) {
                    assert(a@->Array_0[i as int] != b@->Array_0[i as int]);
                    return false;
                }
                i = i + 1;
            }
            assert(a@->Array_0 =~= b@->Array_0);
            true
        },
        (JsonValue::Object(xs), JsonValue::Object(ys)) => {
            if xs.len() != ys.len() {
                return false;
            }
            let mut i: usize = 0;
            while i < xs.len()
                invariant
                    i <= xs.len() == ys.len(),
                    forall|j: int|
                        #![trigger xs@[j]]
                        0 <= j < i ==> xs@[j].0@ == ys@[j].0@ && xs@[j].1@ == ys@[j].1@,
                decreases xs.len() - i,
            {
                if !crate::text::str_eq(xs[i].0.as_str(), ys[i].0.as_str()) {
                    assert(a@->Object_0[i as int] != b@->Object_0[i as int]);
                    return false;
                }
                proof {
                    vstd::std_specs::vec::axiom_vec_index_decreases(*xs, i as int);
                }
                if !json_equal(&xs[i].1, &ys[i].1) {
                    assert(a@->Object_0[i as int] != b@->Object_0[i as int]);
                    return false;
                }
                i = i + 1;
            }
            assert(a@->Object_0 =~= b@->Object_0);
            true
        },
        _ => false,
    }
}

/// Whether two documents are the same document: arrays item by item,
/// objects by their members whatever their order (the same keys, each key
/// under the same document as the first entry holding it), anything else
/// by value.
pub open spec fn json_same(a: Json, b: Json) -> bool
    decreases a,
{
    match a {
        Json::Array(x) => match b {
            Json::Array(y) => x.len() == y.len() && forall|i: int|
                #![trigger x[i]]
                0 <= i < x.len() ==> json_same(x[i], y[i]),
            _ => false,
        },
        Json::Object(x) => match b {
            Json::Object(y) => {
                &&& forall|i: int|
                    #![trigger x[i]]
                    is_first_key(x, x[i].0, i) ==> match obj_get(y, x[i].0) {
                        Some(w) => json_same(x[i].1, w),
                        None => false,
                    }
                &&& forall|j: int| 0 <= j < y.len() ==> obj_get(x, #[trigger] y[j].0) is Some
            },
            _ => false,
        },
        _ => a == b,
    }
}

/// Every entry's key has a first entry holding it, no later than it.
pub proof fn lemma_first_key_exists(s: Seq<(Seq<char>, Json)>, j: int)
    requires
        0 <= j < s.len(),
    ensures
        exists|i: int| 0 <= i <= j && is_first_key(s, s[j].0, i),
    decreases j,
{
    if exists|q: int| 0 <= q < j && s[q].0 == s[j].0 {
        let q = choose|q: int| 0 <= q < j && s[q].0 == s[j].0;
        lemma_first_key_exists(s, q);
        let i = choose|i: int| 0 <= i <= q && is_first_key(s, s[q].0, i);
        assert(is_first_key(s, s[j].0, i));
    } else {
        assert(is_first_key(s, s[j].0, j));
    }
}

/// A key that an object holds has a first entry, the one it reads as.
pub proof fn lemma_obj_get_some(s: Seq<(Seq<char>, Json)>, k: Seq<char>)
    requires
        obj_get(s, k) is Some,
    ensures
        exists|i: int| is_first_key(s, k, i) && obj_get(s, k) == Some(#[trigger] s[i].1),
    decreases s.len(),
{
    if s[0].0 == k {
        assert(is_first_key(s, k, 0));
    } else {
        let t = s.drop_first();
        lemma_obj_get_some(t, k);
        let i = choose|i: int| is_first_key(t, k, i) && obj_get(t, k) == Some(#[trigger] t[i].1);
        assert(s[i + 1] == t[i]);
        assert forall|q: int| 0 <= q < i + 1 implies s[q].0 != k by {
            if q > 0 {
                assert(s[q] == t[q - 1]);
            }
        }
        assert(is_first_key(s, k, i + 1));
    }
}

/// Every document is the same as itself.
pub proof fn lemma_json_same_reflexive(a: Json)
    ensures
        json_same(a, a),
    decreases a,
{
    match a {
        Json::Array(x) => {
            assert forall|i: int| #![trigger x[i]] 0 <= i < x.len() implies json_same(x[i], x[i]) by {
                lemma_json_same_reflexive(x[i]);
            }
        },
        Json::Object(x) => {
            assert forall|i: int| #![trigger x[i]] is_first_key(x, x[i].0, i) implies match obj_get(x, x[i].0) {
                Some(w) => json_same(x[i].1, w),
                None => false,
            } by {
                lemma_obj_get_first(x, x[i].0, i);
                lemma_json_same_reflexive(x[i].1);
            }
            assert forall|j: int| 0 <= j < x.len() implies obj_get(x, #[trigger] x[j].0) is Some by {
                lemma_first_key_exists(x, j);
                let i = choose|i: int| 0 <= i <= j && is_first_key(x, x[j].0, i);
                lemma_obj_get_first(x, x[j].0, i);
            }
        },
        _ => {},
    }
}

/// Sameness of documents goes both ways.
pub proof fn lemma_json_same_symmetric(a: Json, b: Json)
    requires
        json_same(a, b),
    ensures
        json_same(b, a),
    decreases a,
{
    match a {
        Json::Array(x) => {
            let y = b->Array_0;
            assert forall|i: int| #![trigger y[i]] 0 <= i < y.len() implies json_same(y[i], x[i]) by {
                assert(json_same(x[i], y[i]));
                lemma_json_same_symmetric(x[i], y[i]);
            }
        },
        Json::Object(x) => {
            let y = b->Object_0;
            assert forall|j: int| #![trigger y[j]] is_first_key(y, y[j].0, j) implies match obj_get(x, y[j].0) {
                Some(w) => json_same(y[j].1, w),
                None => false,
            } by {
                let k = y[j].0;
                assert(obj_get(x, y[j].0) is Some);
                lemma_obj_get_some(x, k);
                let i = choose|i: int| is_first_key(x, k, i) && obj_get(x, k) == Some(#[trigger] x[i].1);
                assert(x[i].0 == k);
                lemma_obj_get_first(y, k, j);
                assert(json_same(x[i].1, y[j].1));
                lemma_json_same_symmetric(x[i].1, y[j].1);
            }
            assert forall|i: int| 0 <= i < x.len() implies obj_get(y, #[trigger] x[i].0) is Some by {
                lemma_first_key_exists(x, i);
                let i0 = choose|i0: int| 0 <= i0 <= i && is_first_key(x, x[i].0, i0);
                assert(x[i0].0 == x[i].0);
                assert(is_first_key(x, x[i0].0, i0));
            }
        },
        _ => {},
    }
}

/// Whether entry `i` is the first one with its key.
fn first_of_key(xs: &Vec<(String, JsonValue)>, i: usize) -> (r: bool)
    requires
        i < xs.len(),
    ensures
        r == is_first_key(entries_model(xs@), xs@[i as int].0@, i as int),
{
    proof {
        lemma_entries_model(xs@);
    }
    let mut j: usize = 0;
    while j < i
        invariant
            j <= i < xs.len(),
            entries_model(xs@).len() == xs.len(),
            forall|q: int| 0 <= q < xs.len() ==> #[trigger] entries_model(xs@)[q] == (xs@[q].0@, xs@[q].1@),
            forall|q: int| 0 <= q < j ==> xs@[q].0@ != xs@[i as int].0@,
        decreases i - j,
    {
        if crate::text::str_eq(xs[j].0.as_str(), xs[i].0.as_str()) {
            assert(entries_model(xs@)[j as int].0 == xs@[i as int].0@);
            return false;
        }
        j = j + 1;
    }
    assert forall|q: int| 0 <= q < i implies entries_model(xs@)[q].0 != xs@[i as int].0@ by {
        assert(entries_model(xs@)[q] == (xs@[q].0@, xs@[q].1@));
    }
    true
}

/// Whether two objects, by their entries, are the same object whatever the
/// order of their members.
#[verifier::loop_isolation(false)]
pub fn same_members(xs: &Vec<(String, JsonValue)>, ys: &Vec<(String, JsonValue)>) -> (r: bool)
    ensures
        r == json_same(Json::Object(entries_model(xs@)), Json::Object(entries_model(ys@))),
    decreases xs,
{
    proof {
        lemma_entries_model(xs@);
        lemma_entries_model(ys@);
    }
    let ghost x = entries_model(xs@);
    let ghost y = entries_model(ys@);
    let mut i: usize = 0;
    while i < xs.len()
        invariant
            i <= xs.len(),
            forall|q: int|
                #![trigger x[q]]
                0 <= q < i && is_first_key(x, x[q].0, q) ==> match obj_get(y, x[q].0) {
                    Some(w) => json_same(x[q].1, w),
                    None => false,
                },
        decreases xs.len() - i,
    {
        assert(x[i as int] == (xs@[i as int].0@, xs@[i as int].1@));
        if first_of_key(xs, i) {
            assert(entries_model(xs@) == x);
            match object_get(ys, xs[i].0.as_str()) {
                Some(w) => {
                    proof {
                        vstd::std_specs::vec::axiom_vec_index_decreases(*xs, i as int);
                    }
                    if !same_document(&xs[i].1, w) {
                        return false;
                    }
                },
                None => {
                    return false;
                },
            }
        }
        i = i + 1;
    }
    let mut j: usize = 0;
    while j < ys.len()
        invariant
            j <= ys.len(),
            forall|q: int| 0 <= q < j ==> obj_get(x, #[trigger] y[q].0) is Some,
        decreases ys.len() - j,
    {
        assert(y[j as int] == (ys@[j as int].0@, ys@[j as int].1@));
        if object_get(xs, ys[j].0.as_str()).is_none() {
            assert(obj_get(x, y[j as int].0) is None);
            return false;
        }
        j = j + 1;
    }
    true
}

/// The document under `key` in the entries of an object: the first entry
/// holding it.
fn object_get<'a>(entries: &'a Vec<(String, JsonValue)>, key: &str) -> (r: Option<&'a JsonValue>)
    ensures
        r is Some == obj_get(entries_model(entries@), key@) is Some,
        r matches Some(v) ==> obj_get(entries_model(entries@), key@) == Some(v@),
{
    proof {
        lemma_entries_model(entries@);
    }
    let ghost es = entries_model(entries@);
    assert(es.subrange(0, es.len() as int) =~= es);
    let mut i: usize = 0;
    while i < entries.len()
        invariant
            i <= entries.len(),
            es.len() == entries.len(),
            es == entries_model(entries@),
            forall|j: int| 0 <= j < entries.len() ==> #[trigger] es[j] == (entries[j].0@, entries[j].1@),
            obj_get(es, key@) == obj_get(es.subrange(i as int, es.len() as int), key@),
        decreases entries.len() - i,
    {
        let ghost rest = es.subrange(i as int, es.len() as int);
        assert(rest[0] == es[i as int]);
        if crate::text::str_eq(entries[i].0.as_str(), key) {
            return Some(&entries[i].1);
        }
        assert(rest.drop_first() =~= es.subrange(i + 1, es.len() as int));
        i = i + 1;
    }
    None
}

/// Whether two documents are the same document, objects compared whatever
/// the order of their members.
#[verifier::loop_isolation(false)]
pub fn same_document(a: &JsonValue, b: &JsonValue) -> (r: bool)
    ensures
        r == json_same(a@, b@),
    decreases a,
{
    proof {
        lemma_view_parts(a);
        lemma_view_parts(b);
    }
    match (a, b) {
        (JsonValue::Array(xs), JsonValue::Array(ys)) => {
            if xs.len() != ys.len() {
                return false;
            }
            let mut i: usize = 0;
            while i < xs.len()
                invariant
                    i <= xs.len() == ys.len(),
                    forall|j: int| 0 <= j < i ==> #[trigger] json_same(xs@[j]@, ys@[j]@),
                decreases xs.len() - i,
            {
                proof {
                    vstd::std_specs::vec::axiom_vec_index_decreases(*xs, i as int);
                }
                if !same_document(&xs[i], &ys[i]) {
                    assert(a@->Array_0[i as int] == xs@[i as int]@);
                    return false;
                }
                i = i + 1;
            }
            assert forall|j: int| 0 <= j < xs.len() implies json_same(a@->Array_0[j], b@->Array_0[j]) by {
                assert(a@->Array_0[j] == xs@[j]@);
            }
            true
        },
        (JsonValue::Object(xs), JsonValue::Object(ys)) => same_members(xs, ys),
        (JsonValue::Array(_), _) => false,
        (JsonValue::Object(_), _) => false,
        _ => json_equal(a, b),
    }
}

/// The entries of an object rebuilt one entry at a time, so that each key
/// occurs once, at its first position, with its last value.
pub open spec fn rebuild(s: Seq<(Seq<char>, Json)>) -> Seq<(Seq<char>, Json)>
    decreases s.len(),
{
    if s.len() == 0 {
        Seq::empty()
    } else {
        obj_insert(rebuild(s.drop_last()), s.last().0, s.last().1)
    }
}

/// A copy of the entries of an object with each key once.
pub fn rebuild_entries(entries: &Vec<(String, JsonValue)>) -> (r: Vec<(String, JsonValue)>)
    ensures
        entries_model(r@) == rebuild(entries_model(entries@)),
{
    proof {
        lemma_entries_model(entries@);
    }
    let ghost m = entries_model(entries@);
    let mut out: Vec<(String, JsonValue)> = Vec::new();
    let mut i: usize = 0;
    assert(entries_model(out@) =~= Seq::<(Seq<char>, Json)>::empty());
    assert(m.take(0) =~= Seq::<(Seq<char>, Json)>::empty());
    while i < entries.len()
        invariant
            i <= entries.len(),
            m == entries_model(entries@),
            m.len() == entries.len(),
            forall|j: int| 0 <= j < entries.len() ==> #[trigger] m[j] == (entries@[j].0@, entries@[j].1@),
            entries_model(out@) == rebuild(m.take(i as int)),
        decreases entries.len() - i,
    {
        let k = entries[i].0.clone();
        let v = entries[i].1.deep_clone();
        object_insert(&mut out, k, v);
        assert(m.take(i + 1).drop_last() =~= m.take(i as int));
        assert(m.take(i + 1).last() == m[i as int]);
        i = i + 1;
    }
    assert(m.take(entries.len() as int) =~= m);
    out
}

/// The first entry with a key is at the first position holding it.
pub proof fn lemma_obj_get_first(s: Seq<(Seq<char>, Json)>, k: Seq<char>, i: int)
    requires
        is_first_key(s, k, i),
    ensures
        obj_get(s, k) == Some(s[i].1),
    decreases s.len(),
{
    if i > 0 {
        assert(s[0].0 != k);
        assert(is_first_key(s.drop_first(), k, i - 1)) by {
            assert forall|j: int| 0 <= j < i - 1 implies s.drop_first()[j].0 != k by {
                assert(s[j + 1].0 != k);
            }
        }
        lemma_obj_get_first(s.drop_first(), k, i - 1);
    }
}

/// Storing a value under a key and reading that key gives the value back;
/// every other key reads as before.
pub proof fn law_object_insert_then_get(s: Seq<(Seq<char>, Json)>, k: Seq<char>, v: Json, other: Seq<char>)
    ensures
        obj_get(obj_insert(s, k, v), k) == Some(v),
        other != k ==> obj_get(obj_insert(s, k, v), other) == obj_get(s, other),
    decreases s.len(),
{
    let t = obj_insert(s, k, v);
    if exists|i: int| is_first_key(s, k, i) {
        let i = choose|i: int| is_first_key(s, k, i);
        assert(is_first_key(t, k, i));
        lemma_obj_get_first(t, k, i);
        if other != k {
            lemma_obj_get_update_other(s, i, (k, v), other);
        }
    } else {
        assert(is_first_key(t, k, s.len() as int)) by {
            assert forall|j: int| 0 <= j < s.len() implies t[j].0 != k by {
                if s[j].0 == k {
                    let m = first_index_of(s, k, j);
                    assert(is_first_key(s, k, m));
                }
            }
        }
        lemma_obj_get_first(t, k, s.len() as int);
        if other != k {
            lemma_obj_get_push_other(s, (k, v), other);
        }
    }
}

/// The first position at or before `j` that holds `k`, when `j` holds it.
proof fn first_index_of(s: Seq<(Seq<char>, Json)>, k: Seq<char>, j: int) -> (m: int)
    requires
        0 <= j < s.len(),
        s[j].0 == k,
    ensures
        is_first_key(s, k, m),
    decreases j,
{
    if exists|q: int| 0 <= q < j && s[q].0 == k {
        let q = choose|q: int| 0 <= q < j && s[q].0 == k;
        first_index_of(s, k, q)
    } else {
        j
    }
}

/// Replacing the entry at a position keeps reads of other keys.
proof fn lemma_obj_get_update_other(s: Seq<(Seq<char>, Json)>, i: int, e: (Seq<char>, Json), other: Seq<char>)
    requires
        0 <= i < s.len(),
        s[i].0 == e.0,
        other != e.0,
    ensures
        obj_get(s.update(i, e), other) == obj_get(s, other),
    decreases s.len(),
{
    if s.len() > 0 {
        if i == 0 {
            assert(s.update(i, e).drop_first() =~= s.drop_first());
        } else {
            assert(s.update(i, e).drop_first() =~= s.drop_first().update(i - 1, e));
            lemma_obj_get_update_other(s.drop_first(), i - 1, e, other);
        }
    }
}

/// Appending an entry keeps reads of other keys.
proof fn lemma_obj_get_push_other(s: Seq<(Seq<char>, Json)>, e: (Seq<char>, Json), other: Seq<char>)
    requires
        other != e.0,
    ensures
        obj_get(s.push(e), other) == obj_get(s, other),
    decreases s.len(),
{
    if s.len() > 0 {
        assert(s.push(e)[0] == s[0]);
        assert(s.push(e).drop_first() =~= s.drop_first().push(e));
        lemma_obj_get_push_other(s.drop_first(), e, other);
    } else {
        assert(s.push(e)[0] == e);
        assert(s.push(e).drop_first() =~= Seq::<(Seq<char>, Json)>::empty());
        assert(obj_get(Seq::<(Seq<char>, Json)>::empty(), other) is None);
    }
}
} // verus!
