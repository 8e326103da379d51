//! Flag values as evaluation results carry them, and their JSON form.

use vstd::prelude::*;
use crate::json::{Json, JsonValue, obj_insert, object_insert, entries_model, items_model,
    lemma_items_model, lemma_entries_model, lemma_view_parts, is_finite_bits, finite_bits};

verus! {

/// A flag value: a boolean, an integer, a double (by its bits), a string, an
/// array, or a structure of named fields.
#[derive(Debug, PartialEq)]
pub enum FlagValue {
    Bool(bool),
    Int(i64),
    Float(u64),
    Str(String),
    Array(Vec<FlagValue>),
    Struct(Vec<(String, FlagValue)>),
}

/// The JSON form of a flag value. A double that is not finite has no JSON
/// form and becomes null; the fields of a structure are stored one after
/// the other, a later field replacing an earlier one of the same name.
pub open spec fn flag_value_json(v: FlagValue) -> Json
    decreases v,
{
    match v {
        FlagValue::Bool(b) => Json::Bool(b),
        FlagValue::Int(i) => Json::Int(i),
        FlagValue::Float(f) => if is_finite_bits(f) {
            Json::Float(f)
        } else {
            Json::Null
        },
        FlagValue::Str(s) => Json::Str(s@),
        FlagValue::Array(items) => Json::Array(values_json(items@)),
        FlagValue::Struct(fields) => Json::Object(fields_json(fields@)),
    }
}

/// The JSON forms of the items of an array.
pub open spec fn values_json(s: Seq<FlagValue>) -> Seq<Json>
    decreases s,
{
    if s.len() == 0 {
        Seq::empty()
    } else {
        values_json(s.drop_last()).push(flag_value_json(s.last()))
    }
}

/// The JSON object entries of the fields of a structure.
pub open spec fn fields_json(s: Seq<(String, FlagValue)>) -> Seq<(Seq<char>, Json)>
    decreases s,
{
    if s.len() == 0 {
        Seq::empty()
    } else {
        obj_insert(fields_json(s.drop_last()), s.last().0@, flag_value_json(s.last().1))
    }
}

impl FlagValue {
    /// The JSON form of this value.
    #[verifier::loop_isolation(false)]
    pub fn to_json(&self) -> (r: JsonValue)
        ensures
            r@ == flag_value_json(*self),
        decreases self,
    {
        match self {
            FlagValue::Bool(b) => JsonValue::Bool(*b),
            FlagValue::Int(i) => JsonValue::Int(*i),
            FlagValue::Float(f) => {
                if finite_bits(*f) {
                    JsonValue::Float(*f)
                } else {
                    JsonValue::Null
                }
            },
            FlagValue::Str(s) => JsonValue::Str(s.clone()),
            FlagValue::Array(items) => {
                let mut out: Vec<JsonValue> = Vec::new();
                let mut i: usize = 0;
                while i < items.len()
                    invariant
                        i <= items.len(),
                        items_model(out@) == values_json(items@.take(i as int)),
                    decreases items.len() - i,
                {
                    proof {
                        vstd::std_specs::vec::axiom_vec_index_decreases(*items, i as int);
                    }
                    let c = items[i].to_json();
                    let ghost before = out@;
                    out.push(c);
                    assert(out@.drop_last() =~= before);
                    assert(items@.take(i + 1).drop_last() =~= items@.take(i as int));
                    i = i + 1;
                }
                assert(items@.take(items@.len() as int) =~= items@);
                let r = JsonValue::Array(out);
                r
            },
            FlagValue::Struct(fields) => {
                let mut out: Vec<(String, JsonValue)> = Vec::new();
                let mut i: usize = 0;
                assert(entries_model(out@) =~= Seq::<(Seq<char>, Json)>::empty());
                while i < fields.len()
                    invariant
                        i <= fields.len(),
                        entries_model(out@) == fields_json(fields@.take(i as int)),
                    decreases fields.len() - i,
                {
                    proof {
                        vstd::std_specs::vec::axiom_vec_index_decreases(*fields, i as int);
                    }
                    let k = fields[i].0.clone();
                    let c = fields[i].1.to_json();
                    object_insert(&mut out, k, c);
                    assert(fields@.take(i + 1).drop_last() =~= fields@.take(i as int));
                    i = i + 1;
                }
                assert(fields@.take(fields@.len() as int) =~= fields@);
                JsonValue::Object(out)
            },
        }
    }

    /// The value as a flat JSON value: arrays and structures become empty
    /// ones, and a double that is not finite becomes null.
    pub fn to_serde_json(&self) -> (r: JsonValue)
        ensures
            r@ == match *self {
                FlagValue::Array(_) => Json::Array(Seq::empty()),
                FlagValue::Struct(_) => Json::Object(Seq::empty()),
                _ => flag_value_json(*self),
            },
    {
        match self {
            FlagValue::Array(_) => {
                let r = JsonValue::Array(Vec::new());
                proof {
                    lemma_view_parts(&r);
                }
                assert(r@->Array_0 =~= Seq::<Json>::empty());
                r
            },
            FlagValue::Struct(_) => {
                let r = JsonValue::Object(Vec::new());
                proof {
                    lemma_view_parts(&r);
                }
                assert(r@->Object_0 =~= Seq::<(Seq<char>, Json)>::empty());
                r
            },
            _ => self.to_json(),
        }
    }

    /// The flag value a flat JSON value stands for: strings, booleans and
    /// numbers; nothing for null, arrays and objects.
    pub fn from_serde_json(value: &JsonValue) -> (r: Option<FlagValue>)
        ensures
            match value@ {
                Json::Str(s) => r matches Some(FlagValue::Str(x)) && x@ == s,
                Json::Bool(b) => r == Some(FlagValue::Bool(b)),
                Json::Int(i) => r == Some(FlagValue::Int(i)),
                Json::Float(f) => r == Some(FlagValue::Float(f)),
                _ => r is None,
            },
    {
        proof {
            lemma_view_parts(value);
        }
        match value {
            JsonValue::Str(s) => Some(FlagValue::Str(s.clone())),
            JsonValue::Bool(b) => Some(FlagValue::Bool(*b)),
            JsonValue::Int(i) => Some(FlagValue::Int(*i)),
            JsonValue::Float(f) => Some(FlagValue::Float(*f)),
            _ => None,
        }
    }
}

} // verus!
