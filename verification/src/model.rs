//! The flag configuration model: feature flags, the result of parsing a
//! flag set, and the parser that resolves shared evaluator references.

use vstd::prelude::*;
use crate::error::FlagdEvaluationError;
use crate::json::{Json, JsonValue, obj_get, json_get, entries_model, lemma_entries_model,
    lemma_view_parts, rebuild, rebuild_entries, items_model, lemma_items_model, json_same, same_members,
    same_document, lemma_json_same_reflexive, lemma_json_same_symmetric};
use crate::cache::{entry_map, keys_distinct, lemma_entry_map_update, lemma_push_distinct};
use crate::cache::in_memory::find_entry;
use vstd::string::StringExecFns;

verus! {

broadcast use vstd::string::group_string_axioms;

/// A feature flag: its state, its default variant, its variants by name, an
/// optional targeting rule and metadata.
#[derive(Debug)]
pub struct FeatureFlag {
    pub state: String,
    pub default_variant: String,
    pub variants: Vec<(String, JsonValue)>,
    pub targeting: Option<JsonValue>,
    pub metadata: Vec<(String, JsonValue)>,
}

/// The model of a feature flag.
pub struct FlagModel {
    pub state: Seq<char>,
    pub default_variant: Seq<char>,
    pub variants: Seq<(Seq<char>, Json)>,
    pub targeting: Option<Json>,
    pub metadata: Seq<(Seq<char>, Json)>,
}

impl View for FeatureFlag {
    type V = FlagModel;

    open spec fn view(&self) -> FlagModel {
        FlagModel {
            state: self.state@,
            default_variant: self.default_variant@,
            variants: entries_model(self.variants@),
            targeting: match self.targeting {
                Some(t) => Some(t@),
                None => None,
            },
            metadata: entries_model(self.metadata@),
        }
    }
}

/// The flag a JSON object describes, or `None` when it describes none: it
/// needs the strings `state` and `defaultVariant` and the object
/// `variants`; `targeting` may be absent or null (no rule); `metadata` may
/// be absent (none) and is otherwise an object. Other members are ignored.
pub open spec fn decode_flag(j: Json) -> Option<FlagModel> {
    match j {
        Json::Object(es) => match (obj_get(es, "state"@), obj_get(es, "defaultVariant"@), obj_get(es, "variants"@)) {
            (Some(Json::Str(st)), Some(Json::Str(dv)), Some(Json::Object(vs))) => {
                let targeting = match obj_get(es, "targeting"@) {
                    Some(Json::Null) => None,
                    Some(t) => Some(t),
                    None => None,
                };
                match obj_get(es, "metadata"@) {
                    None => Some(FlagModel { state: st, default_variant: dv, variants: rebuild(vs), targeting, metadata: Seq::empty() }),
                    Some(Json::Object(ms)) => Some(FlagModel { state: st, default_variant: dv, variants: rebuild(vs), targeting, metadata: rebuild(ms) }),
                    _ => None,
                }
            },
            _ => None,
        },
        _ => None,
    }
}

/// The entries of `j` when it is an object.
pub open spec fn object_entries(j: Option<Json>) -> Option<Seq<(Seq<char>, Json)>> {
    match j {
        Some(Json::Object(es)) => Some(es),
        _ => None,
    }
}

/// A copy of the string under `key`, if `data` holds one there.
fn string_member(data: &JsonValue, key: &str) -> (r: Option<String>)
    ensures
        match json_get(data@, key@) {
            Some(Json::Str(s)) => r matches Some(x) && x@ == s,
            _ => r is None,
        },
{
    match data.get(key) {
        Some(v) => {
            proof {
                lemma_view_parts(v);
            }
            match v {
                JsonValue::Str(s) => Some(s.clone()),
                _ => None,
            }
        },
        None => None,
    }
}

/// The entries of the object under `key`, if `data` holds one there.
pub fn object_member<'a>(data: &'a JsonValue, key: &str) -> (r: Option<&'a Vec<(String, JsonValue)>>)
    ensures
        match object_entries(json_get(data@, key@)) {
            Some(es) => r matches Some(x) && entries_model(x@) == es,
            None => r is None,
        },
{
    match data.get(key) {
        Some(v) => {
            proof {
                lemma_view_parts(v);
            }
            match v {
                JsonValue::Object(es) => {
                    proof {
                        lemma_entries_model(es@);
                    }
                    assert(v@->Object_0 =~= entries_model(es@));
                    Some(es)
                },
                _ => None,
            }
        },
        None => None,
    }
}

impl FeatureFlag {
    /// The flag a JSON object describes, or a JSON error when it describes
    /// none.
    pub fn from_json(j: &JsonValue) -> (r: Result<FeatureFlag, FlagdEvaluationError>)
        ensures
            match decode_flag(j@) {
                Some(f) => r matches Ok(x) && x@ == f,
                None => r matches Err(FlagdEvaluationError::Json(_)),
            },
    {
        proof {
            lemma_view_parts(j);
        }
        if !matches!(j, JsonValue::Object(_)) {
            return Err(FlagdEvaluationError::Json("invalid type: expected struct FeatureFlag".to_string()));
        }
        let state = match string_member(j, "state") {
            Some(s) => s,
            None => {
                return Err(FlagdEvaluationError::Json("missing or invalid field `state`".to_string()));
            },
        };
        let default_variant = match string_member(j, "defaultVariant") {
            Some(s) => s,
            None => {
                return Err(FlagdEvaluationError::Json("missing or invalid field `defaultVariant`".to_string()));
            },
        };
        let variants = match object_member(j, "variants") {
            Some(es) => rebuild_entries(es),
            None => {
                return Err(FlagdEvaluationError::Json("missing or invalid field `variants`".to_string()));
            },
        };
        let metadata = match j.get("metadata") {
            None => {
                let empty: Vec<(String, JsonValue)> = Vec::new();
                assert(entries_model(empty@) =~= Seq::<(Seq<char>, Json)>::empty());
                empty
            },
            Some(_) => match object_member(j, "metadata") {
                Some(es) => rebuild_entries(es),
                None => {
                    return Err(FlagdEvaluationError::Json("invalid field `metadata`".to_string()));
                },
            },
        };
        let targeting = match j.get("targeting") {
            Some(t) => {
                proof {
                    lemma_view_parts(t);
                }
                match t {
                    JsonValue::Null => None,
                    _ => Some(t.deep_clone()),
                }
            },
            None => None,
        };
        Ok(FeatureFlag { state, default_variant, variants, targeting, metadata })
    }

    /// The targeting rule, or an empty object when there is none.
    pub fn get_targeting(&self) -> (r: JsonValue)
        ensures
            r@ == match self@.targeting {
                Some(t) => t,
                None => Json::Object(Seq::empty()),
            },
    {
        match &self.targeting {
            Some(t) => t.deep_clone(),
            None => {
                let empty: Vec<(String, JsonValue)> = Vec::new();
                assert(entries_model(empty@) =~= Seq::<(Seq<char>, Json)>::empty());
                JsonValue::Object(empty)
            },
        }
    }

    /// Whether the flag has a targeting rule other than an empty object.
    pub fn has_targeting(&self) -> (r: bool)
        ensures
            r == (self@.targeting is Some && self@.targeting != Some(Json::Object(Seq::empty()))),
    {
        match &self.targeting {
            Some(t) => {
                proof {
                    lemma_view_parts(t);
                }
                match t {
                    JsonValue::Object(es) => {
                        proof {
                            if es.len() != 0 {
                                assert(t@->Object_0.len() != 0);
                            }
                        }
                        es.len() != 0
                    },
                    _ => true,
                }
            },
            None => false,
        }
    }
}

/// Whether two flags are the same flag: the same state and default
/// variant, the same variants and the same metadata by name whatever their
/// order, and the same targeting rule, documents compared as `json_same`
/// compares them.
pub open spec fn flag_same(a: FlagModel, b: FlagModel) -> bool {
    &&& a.state == b.state
    &&& a.default_variant == b.default_variant
    &&& json_same(Json::Object(a.variants), Json::Object(b.variants))
    &&& json_same(Json::Object(a.metadata), Json::Object(b.metadata))
    &&& match (a.targeting, b.targeting) {
        (Some(x), Some(y)) => json_same(x, y),
        (None, None) => true,
        _ => false,
    }
}

/// Every flag is the same as itself, and sameness goes both ways.
pub proof fn law_flag_same_reflexive_symmetric(a: FlagModel, b: FlagModel)
    ensures
        flag_same(a, a),
        flag_same(a, b) == flag_same(b, a),
{
    lemma_json_same_reflexive(Json::Object(a.variants));
    lemma_json_same_reflexive(Json::Object(a.metadata));
    if let Some(t) = a.targeting {
        lemma_json_same_reflexive(t);
    }
    if flag_same(a, b) {
        lemma_json_same_symmetric(Json::Object(a.variants), Json::Object(b.variants));
        lemma_json_same_symmetric(Json::Object(a.metadata), Json::Object(b.metadata));
        if let (Some(x), Some(y)) = (a.targeting, b.targeting) {
            lemma_json_same_symmetric(x, y);
        }
    }
    if flag_same(b, a) {
        lemma_json_same_symmetric(Json::Object(b.variants), Json::Object(a.variants));
        lemma_json_same_symmetric(Json::Object(b.metadata), Json::Object(a.metadata));
        if let (Some(x), Some(y)) = (b.targeting, a.targeting) {
            lemma_json_same_symmetric(x, y);
        }
    }
}

/// Whether two flags are the same flag.
pub fn flag_equal(a: &FeatureFlag, b: &FeatureFlag) -> (r: bool)
    ensures
        r == flag_same(a@, b@),
{
    if !crate::text::str_eq(a.state.as_str(), b.state.as_str()) {
        return false;
    }
    if !crate::text::str_eq(a.default_variant.as_str(), b.default_variant.as_str()) {
        return false;
    }
    if !same_members(&a.variants, &b.variants) {
        return false;
    }
    if !same_members(&a.metadata, &b.metadata) {
        return false;
    }
    match (&a.targeting, &b.targeting) {
        (Some(x), Some(y)) => same_document(x, y),
        (None, None) => true,
        _ => false,
    }
}


/// Why resolving evaluator references failed: a reference that leads back
/// to itself, or a name that no evaluator has.
pub enum RefError {
    Circular(Seq<char>),
    Missing(Seq<char>),
}

/// The message of a reference error.
pub open spec fn ref_error_message(e: RefError) -> Seq<char> {
    match e {
        RefError::Circular(name) => "Circular evaluator reference detected: "@ + name,
        RefError::Missing(name) => "Evaluator reference '"@ + name + "' was not found"@,
    }
}

/// The evaluator a document refers to: an object whose single member is
/// `$ref` with a string value.
pub open spec fn ref_name(j: Json) -> Option<Seq<char>> {
    match j {
        Json::Object(es) => if es.len() == 1 && es[0].0 == "$ref"@ {
            match es[0].1 {
                Json::Str(name) => Some(name),
                _ => None,
            }
        } else {
            None
        },
        _ => None,
    }
}

/// The names being resolved: distinct names of evaluators.
pub open spec fn stack_ok(evs: Seq<(Seq<char>, Json)>, stack: Seq<Seq<char>>) -> bool {
    &&& stack.no_duplicates()
    &&& forall|i: int| 0 <= i < stack.len() ==> #[trigger] obj_get(evs, stack[i]) is Some
}

/// An object holds a key exactly when one of its entries has it.
pub proof fn lemma_obj_get_some(es: Seq<(Seq<char>, Json)>, k: Seq<char>)
    ensures
        obj_get(es, k) is Some <==> exists|i: int| 0 <= i < es.len() && es[i].0 == k,
    decreases es.len(),
{
    if es.len() > 0 {
        lemma_obj_get_some(es.drop_first(), k);
        if es[0].0 != k {
            if exists|i: int| 0 <= i < es.len() && es[i].0 == k {
                let i = choose|i: int| 0 <= i < es.len() && es[i].0 == k;
                assert(es.drop_first()[i - 1].0 == k);
            }
            if obj_get(es, k) is Some {
                let i = choose|i: int| 0 <= i < es.drop_first().len() && es.drop_first()[i].0 == k;
                assert(es[i + 1].0 == k);
            }
        }
    }
}

/// The names being resolved are never more than the evaluators.
pub proof fn lemma_stack_bound(evs: Seq<(Seq<char>, Json)>, stack: Seq<Seq<char>>)
    requires
        stack_ok(evs, stack),
    ensures
        stack.len() <= evs.len(),
{
    let keys = evs.map_values(|e: (Seq<char>, Json)| e.0);
    assert forall|x: Seq<char>| stack.to_set().contains(x) implies keys.to_set().contains(x) by {
        let i = choose|i: int| 0 <= i < stack.len() && stack[i] == x;
        assert(obj_get(evs, stack[i]) is Some);
        lemma_obj_get_some(evs, x);
        let j = choose|j: int| 0 <= j < evs.len() && evs[j].0 == x;
        assert(keys[j] == x);
    }
    stack.unique_seq_to_set();
    keys.lemma_cardinality_of_set();
    vstd::set_lib::lemma_len_subset(stack.to_set(), keys.to_set());
}

/// Resolving one more evaluator keeps the names distinct and leaves fewer
/// evaluators to resolve.
pub proof fn lemma_stack_push(evs: Seq<(Seq<char>, Json)>, stack: Seq<Seq<char>>, name: Seq<char>)
    requires
        stack_ok(evs, stack),
        !stack.contains(name),
        obj_get(evs, name) is Some,
    ensures
        stack_ok(evs, stack.push(name)),
        stack.len() < evs.len(),
{
    let s2 = stack.push(name);
    assert forall|i: int, j: int| 0 <= i < s2.len() && 0 <= j < s2.len() && i != j implies s2[i] != s2[j] by {
        if i < stack.len() && j < stack.len() {
        } else if i == stack.len() {
            assert(stack[j] == s2[j]);
        } else {
            assert(stack[i] == s2[i]);
        }
    }
    assert forall|i: int| 0 <= i < s2.len() implies #[trigger] obj_get(evs, s2[i]) is Some by {
        if i < stack.len() {
            assert(s2[i] == stack[i]);
        }
    }
    lemma_stack_bound(evs, s2);
}

/// A document with every evaluator reference replaced by the evaluator it
/// names, itself resolved; or the first reference that fails.
pub open spec fn resolve_json(v: Json, evs: Seq<(Seq<char>, Json)>, stack: Seq<Seq<char>>) -> Result<Json, RefError>
    decreases evs.len() - stack.len(), v, 0int
    when stack_ok(evs, stack)
{
    match ref_name(v) {
        Some(name) => if stack.contains(name) {
            Err(RefError::Circular(name))
        } else {
            match obj_get(evs, name) {
                None => Err(RefError::Missing(name)),
                Some(rep) => {
                    proof {
                        lemma_stack_push(evs, stack, name);
                    }
                    resolve_json(rep, evs, stack.push(name))
                },
            }
        },
        None => match v {
            Json::Object(es) => match resolve_entries(es, evs, stack) {
                Ok(es2) => Ok(Json::Object(es2)),
                Err(e) => Err(e),
            },
            Json::Array(items) => match resolve_items(items, evs, stack) {
                Ok(items2) => Ok(Json::Array(items2)),
                Err(e) => Err(e),
            },
            _ => Ok(v),
        },
    }
}

/// The entries of an object, each value resolved in order.
pub open spec fn resolve_entries(es: Seq<(Seq<char>, Json)>, evs: Seq<(Seq<char>, Json)>, stack: Seq<Seq<char>>) -> Result<Seq<(Seq<char>, Json)>, RefError>
    decreases evs.len() - stack.len(), es, 1int
    when stack_ok(evs, stack)
{
    if es.len() == 0 {
        Ok(Seq::empty())
    } else {
        proof {
            assert(decreases_to!(es => es[0]));
            assert(decreases_to!(es[0] => es[0].1));
        }
        match resolve_json(es[0].1, evs, stack) {
            Err(e) => Err(e),
            Ok(v0) => match resolve_entries(es.subrange(1, es.len() as int), evs, stack) {
                Ok(rest) => Ok(seq![(es[0].0, v0)] + rest),
                Err(e) => Err(e),
            },
        }
    }
}

/// The items of an array, each resolved in order.
pub open spec fn resolve_items(items: Seq<Json>, evs: Seq<(Seq<char>, Json)>, stack: Seq<Seq<char>>) -> Result<Seq<Json>, RefError>
    decreases evs.len() - stack.len(), items, 1int
    when stack_ok(evs, stack)
{
    if items.len() == 0 {
        Ok(Seq::empty())
    } else {
        match resolve_json(items[0], evs, stack) {
            Err(e) => Err(e),
            Ok(v0) => match resolve_items(items.subrange(1, items.len() as int), evs, stack) {
                Ok(rest) => Ok(seq![v0] + rest),
                Err(e) => Err(e),
            },
        }
    }
}


/// The names of a list of strings.
pub open spec fn names(s: Seq<String>) -> Seq<Seq<char>> {
    s.map_values(|x: String| x@)
}

/// A result with entries prepended to its success.
pub open spec fn prepend_entries(pre: Seq<(Seq<char>, Json)>, r: Result<Seq<(Seq<char>, Json)>, RefError>) -> Result<Seq<(Seq<char>, Json)>, RefError> {
    match r {
        Ok(rest) => Ok(pre + rest),
        Err(e) => Err(e),
    }
}

/// A result with items prepended to its success.
pub open spec fn prepend_items(pre: Seq<Json>, r: Result<Seq<Json>, RefError>) -> Result<Seq<Json>, RefError> {
    match r {
        Ok(rest) => Ok(pre + rest),
        Err(e) => Err(e),
    }
}

/// The evaluator name a document refers to, if it is a reference.
fn ref_target(v: &JsonValue) -> (r: Option<&String>)
    ensures
        match ref_name(v@) {
            Some(n) => r matches Some(x) && x@ == n,
            None => r is None,
        },
{
    proof {
        lemma_view_parts(v);
    }
    match v {
        JsonValue::Object(es) => {
            if es.len() == 1 && crate::text::str_eq(es[0].0.as_str(), "$ref") {
                proof {
                    lemma_view_parts(&es[0].1);
                }
                match &es[0].1 {
                    JsonValue::Str(name) => Some(name),
                    _ => None,
                }
            } else {
                None
            }
        },
        _ => None,
    }
}

/// Whether `name` is among the names being resolved.
fn stack_contains(stack: &Vec<String>, name: &String) -> (r: bool)
    ensures
        r == names(stack@).contains(name@),
{
    let mut i: usize = 0;
    while i < stack.len()
        invariant
            i <= stack.len(),
            forall|j: int| 0 <= j < i ==> stack@[j]@ != name@,
        decreases stack.len() - i,
    {
        if crate::text::str_eq(stack[i].as_str(), name.as_str()) {
            assert(names(stack@)[i as int] == name@);
            return true;
        }
        i = i + 1;
    }
    assert forall|j: int| 0 <= j < names(stack@).len() implies names(stack@)[j] != name@ by {
        assert(names(stack@)[j] == stack@[j]@);
    }
    false
}

/// The evaluator called `name`, if there is one.
fn evaluator<'a>(evs: &'a Vec<(String, JsonValue)>, name: &String) -> (r: Option<&'a JsonValue>)
    ensures
        match obj_get(entries_model(evs@), name@) {
            Some(j) => r matches Some(x) && x@ == j,
            None => r is None,
        },
{
    proof {
        lemma_entries_model(evs@);
    }
    let ghost m = entries_model(evs@);
    let mut i: usize = 0;
    assert(m.subrange(0, m.len() as int) =~= m);
    while i < evs.len()
        invariant
            i <= evs.len(),
            m == entries_model(evs@),
            m.len() == evs.len(),
            forall|j: int| 0 <= j < evs.len() ==> #[trigger] m[j] == (evs@[j].0@, evs@[j].1@),
            obj_get(m, name@) == obj_get(m.subrange(i as int, m.len() as int), name@),
        decreases evs.len() - i,
    {
        let ghost rest = m.subrange(i as int, m.len() as int);
        assert(rest[0] == m[i as int]);
        if crate::text::str_eq(evs[i].0.as_str(), name.as_str()) {
            return Some(&evs[i].1);
        }
        assert(rest.drop_first() =~= m.subrange(i + 1, m.len() as int));
        i = i + 1;
    }
    None
}

/// A reference error as an engine parse error.
fn ref_error(circular: bool, name: &String) -> (r: FlagdEvaluationError)
    ensures
        r matches FlagdEvaluationError::Parse(m) && m@ == ref_error_message(
            if circular {
                RefError::Circular(name@)
            } else {
                RefError::Missing(name@)
            },
        ),
{
    if circular {
        let mut m = "Circular evaluator reference detected: ".to_string();
        m.append(name.as_str());
        FlagdEvaluationError::Parse(m)
    } else {
        let mut m = "Evaluator reference '".to_string();
        m.append(name.as_str());
        m.append("' was not found");
        FlagdEvaluationError::Parse(m)
    }
}

/// Resolves the evaluator references of a document.
#[verifier::loop_isolation(false)]
fn resolve_value(v: &JsonValue, evs: &Vec<(String, JsonValue)>, stack: &Vec<String>) -> (r: Result<JsonValue, FlagdEvaluationError>)
    requires
        stack_ok(entries_model(evs@), names(stack@)),
    ensures
        match resolve_json(v@, entries_model(evs@), names(stack@)) {
            Ok(j) => r matches Ok(x) && x@ == j,
            Err(e) => r matches Err(FlagdEvaluationError::Parse(m)) && m@ == ref_error_message(e),
        },
    decreases evs@.len() - stack@.len(), v,
{
    let ghost evm = entries_model(evs@);
    let ghost st = names(stack@);
    proof {
        lemma_entries_model(evs@);
        lemma_view_parts(v);
        lemma_stack_bound(evm, st);
    }
    if let Some(name) = ref_target(v) {
        if stack_contains(stack, name) {
            return Err(ref_error(true, name));
        }
        match evaluator(evs, name) {
            None => {
                return Err(ref_error(false, name));
            },
            Some(rep) => {
                proof {
                    lemma_stack_push(evm, st, name@);
                }
                let mut next: Vec<String> = Vec::new();
                let mut i: usize = 0;
                while i < stack.len()
                    invariant
                        i <= stack.len(),
                        names(next@) == names(stack@).take(i as int),
                    decreases stack.len() - i,
                {
                    next.push(stack[i].clone());
                    assert(names(next@) =~= names(stack@).take(i + 1));
                    i = i + 1;
                }
                assert(names(stack@).take(stack.len() as int) =~= st);
                let ghost next_before = next@;
                next.push(name.clone());
                assert(next@.drop_last() =~= next_before);
                assert(names(next@) =~= st.push(name@));
                return resolve_value(rep, evs, &next);
            },
        }
    }
    match v {
        JsonValue::Object(es) => {
            let ghost em = v@->Object_0;
            let mut out: Vec<(String, JsonValue)> = Vec::new();
            let mut i: usize = 0;
            assert(em.subrange(0, em.len() as int) =~= em);
            assert(entries_model(out@) =~= Seq::<(Seq<char>, Json)>::empty());
            while i < es.len()
                invariant
                    i <= es.len(),
                    em.len() == es.len(),
                    forall|j: int| 0 <= j < es.len() ==> #[trigger] em[j] == (es@[j].0@, es@[j].1@),
                    resolve_entries(em, evm, st) == prepend_entries(
                        entries_model(out@),
                        resolve_entries(em.subrange(i as int, em.len() as int), evm, st),
                    ),
                decreases es.len() - i,
            {
                let ghost rest = em.subrange(i as int, em.len() as int);
                assert(rest[0] == em[i as int]);
                assert(rest.subrange(1, rest.len() as int) =~= em.subrange(i + 1, em.len() as int));
                proof {
                    vstd::std_specs::vec::axiom_vec_index_decreases(*es, i as int);
                }
                let child = resolve_value(&es[i].1, evs, stack);
                match child {
                    Ok(c) => {
                        let ghost before = entries_model(out@);
                        let ghost before_vec = out@;
                        let k = es[i].0.clone();
                        let ghost kc = (k@, c@);
                        out.push((k, c));
                        assert(out@.drop_last() =~= before_vec);
                        assert(entries_model(out@) =~= before.push(kc));
                        assert forall|tail: Seq<(Seq<char>, Json)>| before + (seq![kc] + tail) =~= before.push(kc) + tail by {
                        }
                    },
                    Err(e) => {
                        return Err(e);
                    },
                }
                i = i + 1;
            }
            assert(em.subrange(es.len() as int, em.len() as int) =~= Seq::<(Seq<char>, Json)>::empty());
            assert(entries_model(out@) + Seq::<(Seq<char>, Json)>::empty() =~= entries_model(out@));
            Ok(JsonValue::Object(out))
        },
        JsonValue::Array(items) => {
            let ghost im = v@->Array_0;
            let mut out: Vec<JsonValue> = Vec::new();
            let mut i: usize = 0;
            assert(im.subrange(0, im.len() as int) =~= im);
            assert(items_model(out@) =~= Seq::<Json>::empty());
            while i < items.len()
                invariant
                    i <= items.len(),
                    im.len() == items.len(),
                    forall|j: int| 0 <= j < items.len() ==> #[trigger] im[j] == items@[j]@,
                    resolve_items(im, evm, st) == prepend_items(
                        items_model(out@),
                        resolve_items(im.subrange(i as int, im.len() as int), evm, st),
                    ),
                decreases items.len() - i,
            {
                let ghost rest = im.subrange(i as int, im.len() as int);
                assert(rest[0] == im[i as int]);
                assert(rest.subrange(1, rest.len() as int) =~= im.subrange(i + 1, im.len() as int));
                proof {
                    vstd::std_specs::vec::axiom_vec_index_decreases(*items, i as int);
                }
                let child = resolve_value(&items[i], evs, stack);
                match child {
                    Ok(c) => {
                        let ghost before = items_model(out@);
                        let ghost before_vec = out@;
                        let ghost cv = c@;
                        out.push(c);
                        assert(out@.drop_last() =~= before_vec);
                        assert(items_model(out@) =~= before.push(cv));
                        assert forall|tail: Seq<Json>| before + (seq![cv] + tail) =~= before.push(cv) + tail by {
                        }
                    },
                    Err(e) => {
                        return Err(e);
                    },
                }
                i = i + 1;
            }
            assert(im.subrange(items.len() as int, im.len() as int) =~= Seq::<Json>::empty());
            assert(items_model(out@) + Seq::<Json>::empty() =~= items_model(out@));
            Ok(JsonValue::Array(out))
        },
        _ => Ok(v.deep_clone()),
    }
}


/// The targeting member of a flag document, if it is an object with one.
pub open spec fn targeting_of(f: Json) -> Option<Json> {
    match f {
        Json::Object(es) => obj_get(es, "targeting"@),
        _ => None,
    }
}

/// The targeting rules of the flags, in order, each with its evaluator
/// references resolved; or the first reference that fails.
pub open spec fn resolve_targetings(fs: Seq<(Seq<char>, Json)>, evs: Seq<(Seq<char>, Json)>) -> Result<Seq<Option<Json>>, RefError>
    decreases fs.len(),
{
    if fs.len() == 0 {
        Ok(Seq::empty())
    } else {
        let first = match targeting_of(fs[0].1) {
            None => Ok(None),
            Some(t) => match resolve_json(t, evs, Seq::empty()) {
                Ok(t2) => Ok(Some(t2)),
                Err(e) => Err(e),
            },
        };
        match first {
            Err(e) => Err(e),
            Ok(t) => match resolve_targetings(fs.subrange(1, fs.len() as int), evs) {
                Ok(rest) => Ok(seq![t] + rest),
                Err(e) => Err(e),
            },
        }
    }
}

/// A decoded flag with its targeting rule taken from `t` instead.
pub open spec fn with_targeting(f: FlagModel, t: Option<Json>) -> FlagModel {
    FlagModel {
        targeting: match t {
            Some(Json::Null) => None,
            Some(x) => Some(x),
            None => None,
        },
        ..f
    }
}

/// The flags by key, each decoded with its (resolved) targeting rule, a
/// later flag replacing an earlier one with the same key; `None` when a
/// flag does not decode.
pub open spec fn decode_flags(fs: Seq<(Seq<char>, Json)>, ts: Seq<Option<Json>>) -> Option<Map<Seq<char>, FlagModel>>
    decreases fs.len(),
{
    if fs.len() == 0 {
        Some(Map::empty())
    } else {
        match (decode_flags(fs.drop_last(), ts.drop_last()), decode_flag(fs.last().1)) {
            (Some(m), Some(f)) => Some(m.insert(fs.last().0, with_targeting(f, ts.last()))),
            _ => None,
        }
    }
}

/// The targeting rules of the flags as they stand.
pub open spec fn plain_targetings(fs: Seq<(Seq<char>, Json)>) -> Seq<Option<Json>> {
    fs.map_values(|e: (Seq<char>, Json)| targeting_of(e.1))
}

/// What parsing a flag configuration document gives.
pub enum ParseOutcome {
    /// An evaluator reference failed.
    Reference(RefError),
    /// The document is no object.
    NotObject,
    /// The document has no `flags` object.
    NoFlags,
    /// A flag does not decode.
    BadFlag,
    /// The flags by key and the flag set's metadata.
    Parsed(Map<Seq<char>, FlagModel>, Seq<(Seq<char>, Json)>),
}

/// Parses a flag configuration document: `flags` maps keys to flag
/// documents, `metadata` (optional) holds the flag set's metadata, and,
/// when `transpose` holds, the `$evaluators` object holds rules that
/// targeting rules may refer to with `{"$ref": name}`.
pub open spec fn parse_flag_set(config: Json, transpose: bool) -> ParseOutcome {
    let evs = match object_entries(json_get(config, "$evaluators"@)) {
        Some(es) => es,
        None => Seq::empty(),
    };
    match config {
        Json::Object(root) => match object_entries(obj_get(root, "flags"@)) {
            Some(fs) => {
                let ts = if transpose {
                    resolve_targetings(fs, evs)
                } else {
                    Ok(plain_targetings(fs))
                };
                match ts {
                    Err(e) => ParseOutcome::Reference(e),
                    Ok(ts) => match decode_flags(fs, ts) {
                        None => ParseOutcome::BadFlag,
                        Some(m) => ParseOutcome::Parsed(
                            m,
                            match object_entries(obj_get(root, "metadata"@)) {
                                Some(ms) => rebuild(ms),
                                None => Seq::empty(),
                            },
                        ),
                    },
                }
            },
            None => ParseOutcome::NoFlags,
        },
        _ => ParseOutcome::NotObject,
    }
}

/// Whether a document holds no evaluator reference at any depth.
pub open spec fn ref_free(v: Json) -> bool
    decreases v, 0int,
{
    ref_name(v) is None && match v {
        Json::Object(es) => entries_ref_free(es),
        Json::Array(items) => items_ref_free(items),
        _ => true,
    }
}

/// Whether no value of the entries holds an evaluator reference.
pub open spec fn entries_ref_free(es: Seq<(Seq<char>, Json)>) -> bool
    decreases es, 1int,
{
    if es.len() == 0 {
        true
    } else {
        proof {
            assert(decreases_to!(es => es[0]));
            assert(decreases_to!(es[0] => es[0].1));
        }
        ref_free(es[0].1) && entries_ref_free(es.subrange(1, es.len() as int))
    }
}

/// Whether no item holds an evaluator reference.
pub open spec fn items_ref_free(items: Seq<Json>) -> bool
    decreases items, 1int,
{
    if items.len() == 0 {
        true
    } else {
        ref_free(items[0]) && items_ref_free(items.subrange(1, items.len() as int))
    }
}

/// Whether every flag's targeting rule is free of evaluator references.
pub open spec fn targetings_ref_free(fs: Seq<(Seq<char>, Json)>) -> bool {
    forall|i: int|
        0 <= i < fs.len() ==> match #[trigger] targeting_of(fs[i].1) {
            Some(t) => ref_free(t),
            None => true,
        }
}

/// Resolution leaves a document without references as it is.
pub proof fn lemma_resolve_ref_free(v: Json, evs: Seq<(Seq<char>, Json)>, stack: Seq<Seq<char>>)
    requires
        stack_ok(evs, stack),
        ref_free(v),
    ensures
        resolve_json(v, evs, stack) == Ok::<Json, RefError>(v),
    decreases v, 0int,
{
    match v {
        Json::Object(es) => lemma_resolve_entries_ref_free(es, evs, stack),
        Json::Array(items) => lemma_resolve_items_ref_free(items, evs, stack),
        _ => {},
    }
}

/// Resolution leaves entries without references as they are.
pub proof fn lemma_resolve_entries_ref_free(
    es: Seq<(Seq<char>, Json)>,
    evs: Seq<(Seq<char>, Json)>,
    stack: Seq<Seq<char>>,
)
    requires
        stack_ok(evs, stack),
        entries_ref_free(es),
    ensures
        resolve_entries(es, evs, stack) == Ok::<Seq<(Seq<char>, Json)>, RefError>(es),
    decreases es, 1int,
{
    if es.len() > 0 {
        assert(decreases_to!(es => es[0]));
        assert(decreases_to!(es[0] => es[0].1));
        lemma_resolve_ref_free(es[0].1, evs, stack);
        lemma_resolve_entries_ref_free(es.subrange(1, es.len() as int), evs, stack);
        assert(seq![(es[0].0, es[0].1)] + es.subrange(1, es.len() as int) =~= es);
    } else {
        assert(es =~= Seq::<(Seq<char>, Json)>::empty());
    }
}

/// Resolution leaves items without references as they are.
pub proof fn lemma_resolve_items_ref_free(
    items: Seq<Json>,
    evs: Seq<(Seq<char>, Json)>,
    stack: Seq<Seq<char>>,
)
    requires
        stack_ok(evs, stack),
        items_ref_free(items),
    ensures
        resolve_items(items, evs, stack) == Ok::<Seq<Json>, RefError>(items),
    decreases items, 1int,
{
    if items.len() > 0 {
        lemma_resolve_ref_free(items[0], evs, stack);
        lemma_resolve_items_ref_free(items.subrange(1, items.len() as int), evs, stack);
        assert(seq![items[0]] + items.subrange(1, items.len() as int) =~= items);
    } else {
        assert(items =~= Seq::<Json>::empty());
    }
}

/// Resolving the targeting rules of flags without references gives the
/// rules as they stand.
proof fn lemma_resolve_targetings_ref_free(fs: Seq<(Seq<char>, Json)>, evs: Seq<(Seq<char>, Json)>)
    requires
        targetings_ref_free(fs),
    ensures
        resolve_targetings(fs, evs) == Ok::<Seq<Option<Json>>, RefError>(plain_targetings(fs)),
    decreases fs.len(),
{
    if fs.len() > 0 {
        let rest = fs.subrange(1, fs.len() as int);
        assert forall|i: int| 0 <= i < rest.len() implies match #[trigger] targeting_of(rest[i].1) {
            Some(t) => ref_free(t),
            None => true,
        } by {
            assert(rest[i] == fs[i + 1]);
            assert(match targeting_of(fs[i + 1].1) {
                Some(t) => ref_free(t),
                None => true,
            });
        }
        lemma_resolve_targetings_ref_free(rest, evs);
        assert(match targeting_of(fs[0].1) {
            Some(t) => ref_free(t),
            None => true,
        });
        assert(stack_ok(evs, Seq::<Seq<char>>::empty()));
        if let Some(t) = targeting_of(fs[0].1) {
            lemma_resolve_ref_free(t, evs, Seq::empty());
        }
        assert(seq![targeting_of(fs[0].1)] + plain_targetings(rest) =~= plain_targetings(fs));
    } else {
        assert(plain_targetings(fs) =~= Seq::<Option<Json>>::empty());
    }
}

/// Transposing evaluator references changes nothing for a configuration
/// whose targeting rules hold no reference: it parses to the same flags and
/// metadata, or fails the same way, with or without transposition.
pub proof fn law_ref_free_configuration_parses_unchanged(config: Json)
    requires
        config matches Json::Object(root) ==> (object_entries(obj_get(root, "flags"@)) matches Some(
            fs,
        ) ==> targetings_ref_free(fs)),
    ensures
        parse_flag_set(config, true) == parse_flag_set(config, false),
{
    let evs = match object_entries(json_get(config, "$evaluators"@)) {
        Some(es) => es,
        None => Seq::empty(),
    };
    if let Json::Object(root) = config {
        if let Some(fs) = object_entries(obj_get(root, "flags"@)) {
            lemma_resolve_targetings_ref_free(fs, evs);
        }
    }
}

/// The flags of a parsed flag set and its metadata.
#[derive(Debug)]
pub struct ParsingResult {
    pub flags: Vec<(String, FeatureFlag)>,
    pub flag_set_metadata: Vec<(String, JsonValue)>,
}

/// The models of flags by key, a later entry replacing an earlier one.
pub open spec fn flag_models(s: Seq<(String, FeatureFlag)>) -> Map<Seq<char>, FlagModel> {
    entry_map(s).map_values(|f: FeatureFlag| f@)
}

impl ParsingResult {
    /// The flags by key.
    pub open spec fn flags_model(&self) -> Map<Seq<char>, FlagModel> {
        flag_models(self.flags@)
    }

    /// The flag set's metadata.
    pub open spec fn metadata_model(&self) -> Seq<(Seq<char>, Json)> {
        entries_model(self.flag_set_metadata@)
    }
}

/// The resolved targeting rules of the flags, in order.
fn resolve_all_targetings(fs: &Vec<(String, JsonValue)>, evs: &Vec<(String, JsonValue)>) -> (r: Result<Vec<Option<JsonValue>>, FlagdEvaluationError>)
    ensures
        match resolve_targetings(entries_model(fs@), entries_model(evs@)) {
            Ok(ts) => r matches Ok(x) && x@.len() == ts.len() && forall|i: int|
                #![trigger x@[i]]
                0 <= i < ts.len() ==> match (x@[i], ts[i]) {
                    (Some(a), Some(b)) => a@ == b,
                    (None, None) => true,
                    _ => false,
                },
            Err(e) => r matches Err(FlagdEvaluationError::Parse(m)) && m@ == ref_error_message(e),
        },
{
    proof {
        lemma_entries_model(fs@);
    }
    let ghost fm = entries_model(fs@);
    let ghost evm = entries_model(evs@);
    let ghost empty_stack = Seq::<Seq<char>>::empty();
    let stack: Vec<String> = Vec::new();
    assert(names(stack@) =~= empty_stack);
    let mut out: Vec<Option<JsonValue>> = Vec::new();
    let ghost mut done: Seq<Option<Json>> = Seq::empty();
    let mut i: usize = 0;
    assert(fm.subrange(0, fm.len() as int) =~= fm);
    while i < fs.len()
        invariant
            i <= fs.len(),
            fm == entries_model(fs@),
            evm == entries_model(evs@),
            fm.len() == fs.len(),
            names(stack@) == empty_stack,
            empty_stack == Seq::<Seq<char>>::empty(),
            forall|j: int| 0 <= j < fs.len() ==> #[trigger] fm[j] == (fs@[j].0@, fs@[j].1@),
            out@.len() == done.len(),
            forall|j: int|
                #![trigger out@[j]]
                0 <= j < done.len() ==> match (out@[j], done[j]) {
                    (Some(a), Some(b)) => a@ == b,
                    (None, None) => true,
                    _ => false,
                },
            resolve_targetings(fm, evm) == match resolve_targetings(fm.subrange(i as int, fm.len() as int), evm) {
                Ok(rest) => Ok(done + rest),
                Err(e) => Err(e),
            },
        decreases fs.len() - i,
    {
        let ghost rest = fm.subrange(i as int, fm.len() as int);
        assert(rest[0] == fm[i as int]);
        assert(rest.subrange(1, rest.len() as int) =~= fm.subrange(i + 1, fm.len() as int));
        let f = &fs[i].1;
        proof {
            lemma_view_parts(f);
        }
        let t: Option<&JsonValue> = match f {
            JsonValue::Object(_) => f.get("targeting"),
            _ => None,
        };
        assert(t is Some == targeting_of(f@) is Some);
        assert(t matches Some(tv) ==> targeting_of(f@) == Some(tv@));
        assert(f@ == fm[i as int].1);
        match t {
            None => {
                out.push(None);
                proof {
                    let d2 = done.push(None);
                    assert forall|tail: Seq<Option<Json>>| done + (seq![None] + tail) =~= d2 + tail by {}
                    done = d2;
                }
            },
            Some(tv) => {
                proof {
                    assert(stack_ok(evm, empty_stack));
                }
                match resolve_value(tv, evs, &stack) {
                    Ok(rv) => {
                        let ghost rj = rv@;
                        out.push(Some(rv));
                        proof {
                            let d2 = done.push(Some(rj));
                            assert forall|tail: Seq<Option<Json>>| done + (seq![Some(rj)] + tail) =~= d2 + tail by {}
                            done = d2;
                        }
                    },
                    Err(e) => {
                        return Err(e);
                    },
                }
            },
        }
        i = i + 1;
    }
    assert(fm.subrange(fs.len() as int, fm.len() as int) =~= Seq::<(Seq<char>, Json)>::empty());
    assert(done + Seq::<Option<Json>>::empty() =~= done);
    Ok(out)
}

/// Stores a flag under its key, replacing a flag with the same key.
fn insert_flag(flags: &mut Vec<(String, FeatureFlag)>, key: String, flag: FeatureFlag)
    requires
        keys_distinct(old(flags)@),
    ensures
        keys_distinct(final(flags)@),
        flag_models(final(flags)@) == flag_models(old(flags)@).insert(key@, flag@),
{
    let ghost before = flags@;
    let ghost kv = key@;
    let ghost fv = flag@;
    match find_entry(flags, &key) {
        Some(i) => {
            proof {
                lemma_entry_map_update(before, i as int, (key, flag));
            }
            flags.set(i, (key, flag));
            assert(flag_models(flags@) =~= flag_models(before).insert(kv, fv));
        },
        None => {
            proof {
                lemma_push_distinct(before, (key, flag));
            }
            flags.push((key, flag));
            assert(flag_models(flags@) =~= flag_models(before).insert(kv, fv));
        },
    }
}

/// Whether exec targeting rules stand for the given ones.
pub open spec fn targetings_match(x: Seq<Option<JsonValue>>, ts: Seq<Option<Json>>) -> bool {
    &&& x.len() == ts.len()
    &&& forall|j: int|
        #![trigger x[j]]
        0 <= j < ts.len() ==> match (x[j], ts[j]) {
            (Some(a), Some(b)) => a@ == b,
            (None, None) => true,
            _ => false,
        }
}

/// The targeting rules of the flags as they stand, in order.
fn plain_targetings_of(fs: &Vec<(String, JsonValue)>) -> (r: Vec<Option<JsonValue>>)
    ensures
        targetings_match(r@, plain_targetings(entries_model(fs@))),
{
    proof {
        lemma_entries_model(fs@);
    }
    let ghost fm = entries_model(fs@);
    let mut ts: Vec<Option<JsonValue>> = Vec::new();
    let mut i: usize = 0;
    while i < fs.len()
        invariant
            i <= fs.len(),
            fm == entries_model(fs@),
            fm.len() == fs.len(),
            forall|j: int| 0 <= j < fs.len() ==> #[trigger] fm[j] == (fs@[j].0@, fs@[j].1@),
            ts@.len() == i,
            forall|j: int|
                #![trigger ts@[j]]
                0 <= j < i ==> match (ts@[j], targeting_of(fm[j].1)) {
                    (Some(a), Some(b)) => a@ == b,
                    (None, None) => true,
                    _ => false,
                },
        decreases fs.len() - i,
    {
        let f = &fs[i].1;
        proof {
            lemma_view_parts(f);
        }
        let t: Option<JsonValue> = match f {
            JsonValue::Object(_) => match f.get("targeting") {
                Some(tv) => Some(tv.deep_clone()),
                None => None,
            },
            _ => None,
        };
        ts.push(t);
        i = i + 1;
    }
    ts
}

/// The flags, each decoded with its targeting rule, by key.
fn decode_all(fs: &Vec<(String, JsonValue)>, targetings: &Vec<Option<JsonValue>>, Ghost(tsm): Ghost<Seq<Option<Json>>>) -> (r: Result<Vec<(String, FeatureFlag)>, FlagdEvaluationError>)
    requires
        targetings_match(targetings@, tsm),
        tsm.len() == fs.len(),
    ensures
        match decode_flags(entries_model(fs@), tsm) {
            Some(m) => r matches Ok(x) && flag_models(x@) == m && keys_distinct(x@),
            None => r matches Err(FlagdEvaluationError::Json(_)),
        },
{
    proof {
        lemma_entries_model(fs@);
    }
    let ghost fm = entries_model(fs@);
    let mut flags: Vec<(String, FeatureFlag)> = Vec::new();
    assert(flag_models(flags@) =~= Map::<Seq<char>, FlagModel>::empty());
    let mut i: usize = 0;
    while i < fs.len()
        invariant
            i <= fs.len(),
            fm == entries_model(fs@),
            fm.len() == fs.len(),
            forall|j: int| 0 <= j < fs.len() ==> #[trigger] fm[j] == (fs@[j].0@, fs@[j].1@),
            targetings_match(targetings@, tsm),
            tsm.len() == fs.len(),
            keys_distinct(flags@),
            decode_flags(fm.take(i as int), tsm.take(i as int)) == Some(flag_models(flags@)),
        decreases fs.len() - i,
    {
        assert(fm.take(i + 1).drop_last() =~= fm.take(i as int));
        assert(tsm.take(i + 1).drop_last() =~= tsm.take(i as int));
        let mut flag = match FeatureFlag::from_json(&fs[i].1) {
            Ok(f) => f,
            Err(e) => {
                proof {
                    lemma_decode_flags_fails(fm, tsm, i as int);
                }
                return Err(e);
            },
        };
        flag.targeting = match &targetings[i] {
            Some(t) => {
                proof {
                    lemma_view_parts(t);
                }
                match t {
                    JsonValue::Null => None,
                    _ => Some(t.deep_clone()),
                }
            },
            None => None,
        };
        let key = fs[i].0.clone();
        insert_flag(&mut flags, key, flag);
        i = i + 1;
    }
    assert(fm.take(fs.len() as int) =~= fm);
    assert(tsm.take(fs.len() as int) =~= tsm);
    Ok(flags)
}

/// The parser of flag configuration documents.
pub struct FlagParser;

impl FlagParser {
    /// Parses a flag configuration document, resolving `$ref` references
    /// in targeting rules to the rules under `$evaluators` when
    /// `transpose` holds.
    pub fn parse(config: &JsonValue, transpose: bool) -> (r: Result<ParsingResult, FlagdEvaluationError>)
        ensures
            match parse_flag_set(config@, transpose) {
                ParseOutcome::Reference(e) => r matches Err(FlagdEvaluationError::Parse(m)) && m@ == ref_error_message(e),
                ParseOutcome::NotObject => r matches Err(FlagdEvaluationError::Parse(m)) && m@ == "Invalid JSON structure"@,
                ParseOutcome::NoFlags => r matches Err(FlagdEvaluationError::Parse(m)) && m@ == "No flag configurations found in the payload"@,
                ParseOutcome::BadFlag => r matches Err(FlagdEvaluationError::Json(_)),
                ParseOutcome::Parsed(m, md) => r matches Ok(p) && p.flags_model() == m && p.metadata_model() == md
                    && keys_distinct(p.flags@),
            },
    {
        proof {
            lemma_view_parts(config);
        }
        if !matches!(config, JsonValue::Object(_)) {
            return Err(FlagdEvaluationError::Parse("Invalid JSON structure".to_string()));
        }
        let fs = match object_member(config, "flags") {
            Some(fs) => fs,
            None => {
                return Err(FlagdEvaluationError::Parse("No flag configurations found in the payload".to_string()));
            },
        };
        let ghost fm = entries_model(fs@);
        let ghost evs_spec = match object_entries(json_get(config@, "$evaluators"@)) {
            Some(es) => es,
            None => Seq::empty(),
        };
        let empty_evs: Vec<(String, JsonValue)> = Vec::new();
        assert(entries_model(empty_evs@) =~= Seq::<(Seq<char>, Json)>::empty());
        let targetings: Vec<Option<JsonValue>> = if transpose {
            let evs = match object_member(config, "$evaluators") {
                Some(es) => es,
                None => &empty_evs,
            };
            match resolve_all_targetings(fs, evs) {
                Ok(ts) => ts,
                Err(e) => {
                    return Err(e);
                },
            }
        } else {
            plain_targetings_of(fs)
        };
        let ghost tsm: Seq<Option<Json>> = if transpose {
            resolve_targetings(fm, evs_spec)->Ok_0
        } else {
            plain_targetings(fm)
        };
        proof {
            lemma_resolve_targetings_len(fm, evs_spec);
            lemma_entries_model(fs@);
        }
        assert(targetings_match(targetings@, tsm));
        let flags = match decode_all(fs, &targetings, Ghost(tsm)) {
            Ok(f) => f,
            Err(e) => {
                return Err(e);
            },
        };
        let metadata = match object_member(config, "metadata") {
            Some(ms) => rebuild_entries(ms),
            None => {
                let empty: Vec<(String, JsonValue)> = Vec::new();
                assert(entries_model(empty@) =~= Seq::<(Seq<char>, Json)>::empty());
                empty
            },
        };
        Ok(ParsingResult { flags, flag_set_metadata: metadata })
    }
}

/// When a flag does not decode, neither do the flags that include it.
proof fn lemma_decode_flags_fails(fs: Seq<(Seq<char>, Json)>, ts: Seq<Option<Json>>, i: int)
    requires
        0 <= i < fs.len(),
        ts.len() == fs.len(),
        decode_flag(fs[i].1) is None,
    ensures
        decode_flags(fs, ts) is None,
    decreases fs.len(),
{
    if i < fs.len() - 1 {
        lemma_decode_flags_fails(fs.drop_last(), ts.drop_last(), i);
    }
}


/// Resolved targeting rules come one per flag.
proof fn lemma_resolve_targetings_len(fs: Seq<(Seq<char>, Json)>, evs: Seq<(Seq<char>, Json)>)
    ensures
        resolve_targetings(fs, evs) matches Ok(ts) ==> ts.len() == fs.len(),
    decreases fs.len(),
{
    if fs.len() > 0 {
        lemma_resolve_targetings_len(fs.subrange(1, fs.len() as int), evs);
    }
}


/// A copy of the entries of an object.
pub fn clone_entries(entries: &Vec<(String, JsonValue)>) -> (r: Vec<(String, JsonValue)>)
    ensures
        entries_model(r@) == entries_model(entries@),
{
    proof {
        lemma_entries_model(entries@);
    }
    let mut out: Vec<(String, JsonValue)> = Vec::new();
    let mut i: usize = 0;
    while i < entries.len()
        invariant
            i <= entries.len(),
            entries_model(entries@).len() == entries.len(),
            forall|j: int| 0 <= j < entries.len() ==> #[trigger] entries_model(entries@)[j] == (entries@[j].0@, entries@[j].1@),
            entries_model(out@) == entries_model(entries@).take(i as int),
        decreases entries.len() - i,
    {
        let k = entries[i].0.clone();
        let v = entries[i].1.deep_clone();
        let ghost before = out@;
        out.push((k, v));
        assert(out@.drop_last() =~= before);
        assert(entries_model(out@) =~= entries_model(entries@).take(i + 1));
        i = i + 1;
    }
    assert(entries_model(entries@).take(entries.len() as int) =~= entries_model(entries@));
    out
}

impl FeatureFlag {
    /// A copy of this flag.
    pub fn duplicate(&self) -> (r: FeatureFlag)
        ensures
            r@ == self@,
    {
        FeatureFlag {
            state: self.state.clone(),
            default_variant: self.default_variant.clone(),
            variants: clone_entries(&self.variants),
            targeting: match &self.targeting {
                Some(t) => Some(t.deep_clone()),
                None => None,
            },
            metadata: clone_entries(&self.metadata),
        }
    }
}

} // verus!
