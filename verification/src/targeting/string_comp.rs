//! The `starts_with` and `ends_with` string operators.

use vstd::prelude::*;
use crate::error::FlagdError;
use crate::json::{Json, JsonValue, json_str, items_model, lemma_items_model};
use crate::text::{starts_with, ends_with};

verus! {

/// Which end of the first string the second one is compared with.
#[derive(Debug)]
pub enum StringCompType {
    StartsWith,
    EndsWith,
}

/// The string comparison operators.
pub struct StringComp;

/// What a string comparison yields for its evaluated arguments: whether the
/// first string starts (ends) with the second, or null unless there are
/// exactly two string arguments.
pub open spec fn string_comp_result(comp: StringCompType, args: Seq<Json>) -> Json {
    if args.len() != 2 {
        Json::Null
    } else {
        match (json_str(args[0]), json_str(args[1])) {
            (Some(a), Some(b)) => match comp {
                StringCompType::StartsWith => Json::Bool(b.is_prefix_of(a)),
                StringCompType::EndsWith => Json::Bool(b.is_suffix_of(a)),
            },
            _ => Json::Null,
        }
    }
}

impl StringComp {
    /// Evaluates a string comparison on its evaluated arguments; the result
    /// is always `Ok`.
    pub fn evaluate(comp_type: StringCompType, args: &[JsonValue]) -> (r: Result<JsonValue, FlagdError>)
        ensures
            r matches Ok(v) && v@ == string_comp_result(comp_type, items_model(args@)),
    {
        proof {
            lemma_items_model(args@);
        }
        if args.len() != 2 {
            return Ok(JsonValue::Null);
        }
        let a = match args[0].as_str() {
            Some(s) => s,
            None => {
                return Ok(JsonValue::Null);
            },
        };
        let b = match args[1].as_str() {
            Some(s) => s,
            None => {
                return Ok(JsonValue::Null);
            },
        };
        let result = match comp_type {
            StringCompType::StartsWith => starts_with(a, b),
            StringCompType::EndsWith => ends_with(a, b),
        };
        Ok(JsonValue::Bool(result))
    }
}

/// `starts_with` is true exactly when the first string is the second
/// followed by some text, and `ends_with` exactly when it is some text
/// followed by the second.
pub proof fn law_string_comp_meaning(a: Seq<char>, b: Seq<char>)
    ensures
        string_comp_result(StringCompType::StartsWith, seq![Json::Str(a), Json::Str(b)]) == Json::Bool(
            exists|x: Seq<char>| a == b + x,
        ),
        string_comp_result(StringCompType::EndsWith, seq![Json::Str(a), Json::Str(b)]) == Json::Bool(
            exists|x: Seq<char>| a == x + b,
        ),
{
    if b.is_prefix_of(a) {
        let x = a.subrange(b.len() as int, a.len() as int);
        assert(a =~= b + x);
    }
    if exists|x: Seq<char>| a == b + x {
        let x = choose|x: Seq<char>| a == b + x;
        assert(a.subrange(0, b.len() as int) =~= b);
    }
    if b.is_suffix_of(a) {
        let x = a.subrange(0, a.len() - b.len());
        assert(a =~= x + b);
    }
    if exists|x: Seq<char>| a == x + b {
        let x = choose|x: Seq<char>| a == x + b;
        assert(a.subrange(a.len() - b.len(), a.len() as int) =~= b);
    }
}

} // verus!
