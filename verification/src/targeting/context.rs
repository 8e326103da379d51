//! The evaluation context of a flag evaluation and the JSON data that
//! targeting rules read from it.

use vstd::prelude::*;
use crate::json::{Json, JsonValue, obj_get, json_get, obj_insert, object_insert, entries_model, lemma_entries_model,
    is_finite_bits, finite_bits};
use crate::value::{FlagValue, fields_json};

verus! {

broadcast use vstd::string::group_string_axioms;

/// The value of one field of an evaluation context. A double is held by
/// its bits; a date and time by its text; a structure by its fields when it
/// holds flag values, and without them when it holds anything else.
#[derive(Debug, PartialEq)]
pub enum ContextValue {
    Bool(bool),
    Int(i64),
    Float(u64),
    Str(String),
    DateTime(String),
    Struct(Option<Vec<(String, FlagValue)>>),
}

/// The context a flag is evaluated in: an optional targeting key and named
/// fields.
#[derive(Debug)]
pub struct EvalContext {
    pub targeting_key: Option<String>,
    pub custom_fields: Vec<(String, ContextValue)>,
}

/// The JSON form of a context field for targeting rules: a double that is
/// not finite becomes null, a structure of flag values becomes an object of
/// its fields, any other structure an empty object.
pub open spec fn context_field_json(v: ContextValue) -> Json {
    match v {
        ContextValue::Bool(b) => Json::Bool(b),
        ContextValue::Int(i) => Json::Int(i),
        ContextValue::Float(f) => if is_finite_bits(f) {
            Json::Float(f)
        } else {
            Json::Null
        },
        ContextValue::Str(s) => Json::Str(s@),
        ContextValue::DateTime(s) => Json::Str(s@),
        ContextValue::Struct(Some(fields)) => Json::Object(fields_json(fields@)),
        ContextValue::Struct(None) => Json::Object(Seq::empty()),
    }
}

/// The JSON form of a context field for the in-process evaluator: a double
/// that is not finite becomes zero, and every structure an empty object.
pub open spec fn plain_field_json(v: ContextValue) -> Json {
    match v {
        ContextValue::Float(f) => if is_finite_bits(f) {
            Json::Float(f)
        } else {
            Json::Float(0)
        },
        ContextValue::Struct(_) => Json::Object(Seq::empty()),
        _ => context_field_json(v),
    }
}

/// Object entries after storing each field in turn, with `rich` choosing
/// the JSON form of targeting rules over that of the in-process evaluator.
pub open spec fn with_fields(base: Seq<(Seq<char>, Json)>, fields: Seq<(String, ContextValue)>, rich: bool) -> Seq<(Seq<char>, Json)>
    decreases fields.len(),
{
    if fields.len() == 0 {
        base
    } else {
        let v = if rich {
            context_field_json(fields.last().1)
        } else {
            plain_field_json(fields.last().1)
        };
        obj_insert(with_fields(base, fields.drop_last(), rich), fields.last().0@, v)
    }
}

/// The entry for the targeting key, if the context has one.
pub open spec fn targeting_entries(key: Option<String>) -> Seq<(Seq<char>, Json)> {
    match key {
        Some(t) => seq![("targetingKey"@, Json::Str(t@))],
        None => Seq::empty(),
    }
}

/// The `$flagd` object: the flag's key and the evaluation time in seconds
/// since the Unix epoch.
pub open spec fn flagd_properties(flag_key: Seq<char>, timestamp: i64) -> Json {
    Json::Object(seq![("flagKey"@, Json::Str(flag_key)), ("timestamp"@, Json::Int(timestamp))])
}

/// The data a targeting rule is evaluated against.
pub open spec fn context_data(flag_key: Seq<char>, ctx: EvalContext, timestamp: i64) -> Json {
    Json::Object(
        with_fields(
            obj_insert(targeting_entries(ctx.targeting_key), "$flagd"@, flagd_properties(flag_key, timestamp)),
            ctx.custom_fields@,
            true,
        ),
    )
}

/// The data the in-process evaluator reads: the targeting key and the
/// fields, without `$flagd`.
pub open spec fn evaluator_context_data(ctx: EvalContext) -> Json {
    Json::Object(with_fields(targeting_entries(ctx.targeting_key), ctx.custom_fields@, false))
}

impl ContextValue {
    /// The JSON form of this field for targeting rules.
    pub fn to_json(&self) -> (r: JsonValue)
        ensures
            r@ == context_field_json(*self),
    {
        match self {
            ContextValue::Bool(b) => JsonValue::Bool(*b),
            ContextValue::Int(i) => JsonValue::Int(*i),
            ContextValue::Float(f) => {
                if finite_bits(*f) {
                    JsonValue::Float(*f)
                } else {
                    JsonValue::Null
                }
            },
            ContextValue::Str(s) => JsonValue::Str(s.clone()),
            ContextValue::DateTime(s) => JsonValue::Str(s.clone()),
            ContextValue::Struct(Some(fields)) => FlagValue::Struct(clone_fields(fields)).to_json(),
            ContextValue::Struct(None) => {
                let empty: Vec<(String, JsonValue)> = Vec::new();
                assert(entries_model(empty@) =~= Seq::<(Seq<char>, Json)>::empty());
                JsonValue::Object(empty)
            },
        }
    }

    /// The JSON form of this field for the in-process evaluator.
    pub fn to_plain_json(&self) -> (r: JsonValue)
        ensures
            r@ == plain_field_json(*self),
    {
        match self {
            ContextValue::Float(f) => {
                if finite_bits(*f) {
                    JsonValue::Float(*f)
                } else {
                    JsonValue::Float(0)
                }
            },
            ContextValue::Struct(_) => {
                let empty: Vec<(String, JsonValue)> = Vec::new();
                assert(entries_model(empty@) =~= Seq::<(Seq<char>, Json)>::empty());
                JsonValue::Object(empty)
            },
            _ => self.to_json(),
        }
    }
}

/// A copy of the fields of a structure.
fn clone_fields(fields: &Vec<(String, FlagValue)>) -> (r: Vec<(String, FlagValue)>)
    ensures
        fields_json(r@) == fields_json(fields@),
{
    let mut out: Vec<(String, FlagValue)> = Vec::new();
    let mut i: usize = 0;
    while i < fields.len()
        invariant
            i <= fields.len(),
            fields_json(out@) == fields_json(fields@.take(i as int)),
        decreases fields.len() - i,
    {
        let k = fields[i].0.clone();
        let v = clone_value(&fields[i].1);
        let ghost before = out@;
        out.push((k, v));
        assert(out@.drop_last() =~= before);
        assert(fields@.take(i + 1).drop_last() =~= fields@.take(i as int));
        i = i + 1;
    }
    assert(fields@.take(fields@.len() as int) =~= fields@);
    out
}

/// A copy of a flag value with the same JSON form.
#[verifier::loop_isolation(false)]
fn clone_value(v: &FlagValue) -> (r: FlagValue)
    ensures
        crate::value::flag_value_json(r) == crate::value::flag_value_json(*v),
    decreases v,
{
    match v {
        FlagValue::Bool(b) => FlagValue::Bool(*b),
        FlagValue::Int(i) => FlagValue::Int(*i),
        FlagValue::Float(f) => FlagValue::Float(*f),
        FlagValue::Str(s) => FlagValue::Str(s.clone()),
        FlagValue::Array(items) => {
            let mut out: Vec<FlagValue> = Vec::new();
            let mut i: usize = 0;
            while i < items.len()
                invariant
                    i <= items.len(),
                    crate::value::values_json(out@) == crate::value::values_json(items@.take(i as int)),
                decreases items.len() - i,
            {
                proof {
                    vstd::std_specs::vec::axiom_vec_index_decreases(*items, i as int);
                }
                let c = clone_value(&items[i]);
                let ghost before = out@;
                out.push(c);
                assert(out@.drop_last() =~= before);
                assert(items@.take(i + 1).drop_last() =~= items@.take(i as int));
                i = i + 1;
            }
            assert(items@.take(items@.len() as int) =~= items@);
            FlagValue::Array(out)
        },
        FlagValue::Struct(fields) => {
            let mut out: Vec<(String, FlagValue)> = Vec::new();
            let mut i: usize = 0;
            while i < fields.len()
                invariant
                    i <= fields.len(),
                    fields_json(out@) == fields_json(fields@.take(i as int)),
                decreases fields.len() - i,
            {
                proof {
                    vstd::std_specs::vec::axiom_vec_index_decreases(*fields, i as int);
                }
                let k = fields[i].0.clone();
                let c = clone_value(&fields[i].1);
                let ghost before = out@;
                out.push((k, c));
                assert(out@.drop_last() =~= before);
                assert(fields@.take(i + 1).drop_last() =~= fields@.take(i as int));
                i = i + 1;
            }
            assert(fields@.take(fields@.len() as int) =~= fields@);
            FlagValue::Struct(out)
        },
    }
}

/// The entry for the targeting key, if the context has one.
fn targeting_entry(key: &Option<String>) -> (r: Vec<(String, JsonValue)>)
    ensures
        entries_model(r@) == targeting_entries(*key),
{
    let mut out: Vec<(String, JsonValue)> = Vec::new();
    match key {
        Some(t) => {
            out.push(("targetingKey".to_string(), JsonValue::Str(t.clone())));
            proof {
                lemma_entries_model(out@);
            }
            assert(entries_model(out@) =~= targeting_entries(*key));
        },
        None => {
            assert(entries_model(out@) =~= targeting_entries(*key));
        },
    }
    out
}

/// Stores each field of the context in turn.
fn add_fields(entries: &mut Vec<(String, JsonValue)>, fields: &Vec<(String, ContextValue)>, rich: bool)
    ensures
        entries_model(final(entries)@) == with_fields(entries_model(old(entries)@), fields@, rich),
{
    let ghost base = entries_model(entries@);
    let mut i: usize = 0;
    while i < fields.len()
        invariant
            i <= fields.len(),
            base == entries_model(old(entries)@),
            entries_model(entries@) == with_fields(base, fields@.take(i as int), rich),
        decreases fields.len() - i,
    {
        let k = fields[i].0.clone();
        let v = if rich {
            fields[i].1.to_json()
        } else {
            fields[i].1.to_plain_json()
        };
        object_insert(entries, k, v);
        assert(fields@.take(i + 1).drop_last() =~= fields@.take(i as int));
        i = i + 1;
    }
    assert(fields@.take(fields@.len() as int) =~= fields@);
}

/// Builds the data a targeting rule is evaluated against: the targeting
/// key, `$flagd` with the flag key and the evaluation time, and the
/// context's fields, later entries replacing earlier ones with the same key.
pub fn build_context(flag_key: &str, ctx: &EvalContext, timestamp: i64) -> (r: JsonValue)
    ensures
        r@ == context_data(flag_key@, *ctx, timestamp),
{
    let mut root = targeting_entry(&ctx.targeting_key);
    let mut props: Vec<(String, JsonValue)> = Vec::new();
    props.push(("flagKey".to_string(), JsonValue::Str(flag_key.to_string())));
    props.push(("timestamp".to_string(), JsonValue::Int(timestamp)));
    proof {
        lemma_entries_model(props@);
    }
    assert(entries_model(props@) =~= seq![("flagKey"@, Json::Str(flag_key@)), ("timestamp"@, Json::Int(timestamp))]);
    let flagd = JsonValue::Object(props);
    assert(flagd@ == flagd_properties(flag_key@, timestamp));
    object_insert(&mut root, "$flagd".to_string(), flagd);
    add_fields(&mut root, &ctx.custom_fields, true);
    JsonValue::Object(root)
}

/// Builds the data the in-process evaluator reads: the targeting key and
/// the context's fields.
pub fn build_context_json(ctx: &EvalContext) -> (r: JsonValue)
    ensures
        r@ == evaluator_context_data(*ctx),
{
    let mut root = targeting_entry(&ctx.targeting_key);
    add_fields(&mut root, &ctx.custom_fields, false);
    JsonValue::Object(root)
}

/// A field that no later field overrides reads back from the entries.
proof fn lemma_with_fields_get(base: Seq<(Seq<char>, Json)>, fields: Seq<(String, ContextValue)>, i: int)
    requires
        0 <= i < fields.len(),
        forall|j: int| i < j < fields.len() ==> #[trigger] fields[j].0@ != fields[i].0@,
    ensures
        obj_get(with_fields(base, fields, true), fields[i].0@) == Some(context_field_json(fields[i].1)),
    decreases fields.len(),
{
    let last = fields.last();
    crate::json::law_object_insert_then_get(
        with_fields(base, fields.drop_last(), true),
        last.0@,
        context_field_json(last.1),
        fields[i].0@,
    );
    if i < fields.len() - 1 {
        assert(fields[fields.len() - 1].0@ != fields[i].0@);
        assert forall|j: int| i < j < fields.drop_last().len() implies #[trigger] fields.drop_last()[j].0@
            != fields.drop_last()[i].0@ by {
            assert(fields[j].0@ != fields[i].0@);
        }
        lemma_with_fields_get(base, fields.drop_last(), i);
    }
}

/// A key that no field names keeps what the base entries hold.
proof fn lemma_with_fields_base(base: Seq<(Seq<char>, Json)>, fields: Seq<(String, ContextValue)>, k: Seq<char>)
    requires
        forall|j: int| 0 <= j < fields.len() ==> #[trigger] fields[j].0@ != k,
    ensures
        obj_get(with_fields(base, fields, true), k) == obj_get(base, k),
    decreases fields.len(),
{
    if fields.len() > 0 {
        let last = fields.last();
        assert(fields[fields.len() - 1].0@ != k);
        crate::json::law_object_insert_then_get(
            with_fields(base, fields.drop_last(), true),
            last.0@,
            context_field_json(last.1),
            k,
        );
        assert forall|j: int| 0 <= j < fields.drop_last().len() implies #[trigger] fields.drop_last()[j].0@ != k by {
            assert(fields[j].0@ != k);
        }
        lemma_with_fields_base(base, fields.drop_last(), k);
    }
}

/// The data a rule reads holds every field of the context under its name
/// (the last field of a name winning): a boolean as that boolean, an
/// integer as that integer, a string or a date and time as its text, a
/// finite double by its bits, a structure as an object. Unless a field
/// takes their names, it also holds the targeting key under
/// `targetingKey` and the flag's key and the time under `$flagd`.
pub proof fn law_rule_data_holds_the_context(flag_key: Seq<char>, ctx: EvalContext, timestamp: i64, i: int)
    requires
        0 <= i < ctx.custom_fields@.len(),
        forall|j: int| i < j < ctx.custom_fields@.len() ==> #[trigger] ctx.custom_fields@[j].0@ != ctx.custom_fields@[i].0@,
    ensures
        ({
            let got = json_get(context_data(flag_key, ctx, timestamp), ctx.custom_fields@[i].0@);
            match ctx.custom_fields@[i].1 {
                ContextValue::Bool(b) => got == Some(Json::Bool(b)),
                ContextValue::Int(n) => got == Some(Json::Int(n)),
                ContextValue::Str(s) => got == Some(Json::Str(s@)),
                ContextValue::DateTime(s) => got == Some(Json::Str(s@)),
                ContextValue::Float(f) => is_finite_bits(f) ==> got == Some(Json::Float(f)),
                ContextValue::Struct(_) => got matches Some(Json::Object(_)),
            }
        }),
        (forall|j: int| 0 <= j < ctx.custom_fields@.len() ==> #[trigger] ctx.custom_fields@[j].0@ != "$flagd"@)
            ==> json_get(context_data(flag_key, ctx, timestamp), "$flagd"@) == Some(
            Json::Object(seq![("flagKey"@, Json::Str(flag_key)), ("timestamp"@, Json::Int(timestamp))]),
        ),
        (forall|j: int| 0 <= j < ctx.custom_fields@.len() ==> #[trigger] ctx.custom_fields@[j].0@ != "targetingKey"@)
            ==> (ctx.targeting_key matches Some(t) ==> json_get(context_data(flag_key, ctx, timestamp), "targetingKey"@)
            == Some(Json::Str(t@))),
{
    let base = obj_insert(targeting_entries(ctx.targeting_key), "$flagd"@, flagd_properties(flag_key, timestamp));
    lemma_with_fields_get(base, ctx.custom_fields@, i);
    crate::json::law_object_insert_then_get(
        targeting_entries(ctx.targeting_key),
        "$flagd"@,
        flagd_properties(flag_key, timestamp),
        "targetingKey"@,
    );
    if forall|j: int| 0 <= j < ctx.custom_fields@.len() ==> #[trigger] ctx.custom_fields@[j].0@ != "$flagd"@ {
        lemma_with_fields_base(base, ctx.custom_fields@, "$flagd"@);
    }
    if forall|j: int| 0 <= j < ctx.custom_fields@.len() ==> #[trigger] ctx.custom_fields@[j].0@ != "targetingKey"@ {
        lemma_with_fields_base(base, ctx.custom_fields@, "targetingKey"@);
        reveal_strlit("targetingKey");
        reveal_strlit("$flagd");
        assert("targetingKey"@ != "$flagd"@) by {
            assert("targetingKey"@[0] != "$flagd"@[0]);
        }
        if let Some(t) = ctx.targeting_key {
            assert(obj_get(seq![("targetingKey"@, Json::Str(t@))], "targetingKey"@) == Some(Json::Str(t@)));
        }
    }
}

/// Calls `std::time::SystemTime::now` and gives the whole seconds since the
/// Unix epoch (zero for a clock set before it). Nothing is claimed of the
/// result: it is the time.
#[verifier::external_body]
pub(crate) fn unix_time_secs() -> (r: i64) {
    match std::time::SystemTime::now().duration_since(std::time::UNIX_EPOCH) {
        Ok(d) => d.as_secs() as i64,
        Err(_) => 0,
    }
}

/// Builds the data a targeting rule is evaluated against, at the current
/// time.
pub fn build_context_now(flag_key: &str, ctx: &EvalContext) -> (r: JsonValue)
    ensures
        exists|t: i64| r@ == context_data(flag_key@, *ctx, t),
{
    let t = unix_time_secs();
    build_context(flag_key, ctx, t)
}

} // verus!
