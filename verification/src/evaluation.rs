//! Resolving a flag to a typed value: which variant applies, what value it
//! has, and how errors and reasons are reported.

use vstd::prelude::*;
use crate::error::{FlagdError, error_display};
use crate::json::{Json, JsonValue, obj_get, entries_model, lemma_entries_model, lemma_view_parts,
    items_model, lemma_items_model};
use crate::model::{FeatureFlag, FlagModel};
use crate::value::{FlagValue, flag_value_json};
use crate::json::is_finite_bits;
use vstd::string::StringExecFns;

verus! {

broadcast use vstd::string::group_string_axioms;

/// Why an evaluation failed.
#[derive(Debug, PartialEq)]
pub enum ErrorCode {
    ProviderNotReady,
    FlagNotFound,
    ParseError,
    TypeMismatch,
    TargetingKeyMissing,
    InvalidContext,
    General(String),
}

/// A failed evaluation: its code and message.
#[derive(Debug)]
pub struct EvaluationFailure {
    pub code: ErrorCode,
    pub message: Option<String>,
}

/// Why an evaluation gave its value.
#[derive(Debug, PartialEq)]
pub enum Reason {
    Static,
    Default,
    TargetingMatch,
    Split,
    Cached,
    Disabled,
    Unknown,
    Error,
    Other(String),
}

/// The type of value an evaluation asks for.
#[derive(Clone, Copy, PartialEq, Eq, Structural, Debug)]
pub enum ValueKind {
    Boolean,
    Integer,
    Float,
    Str,
    Struct,
}

/// A field of a structured value: a string, an integer, a double (by its
/// bits), a boolean, or any other document, which stands for its JSON text.
#[derive(Debug, PartialEq)]
pub enum StructField {
    Str(String),
    Int(i64),
    Float(u64),
    Bool(bool),
    Text(JsonValue),
}

/// A typed flag value. An integer document asked for as a double is
/// `Number` holding the integer, which stands for its double value.
#[derive(Debug, PartialEq)]
pub enum ResolvedValue {
    Bool(bool),
    Int(i64),
    Float(u64),
    Number(i64),
    Str(String),
    Struct(Vec<(String, StructField)>),
}

/// A successful resolution.
#[derive(Debug)]
pub struct Resolution {
    pub value: ResolvedValue,
    pub variant: Option<String>,
    pub reason: Option<Reason>,
}

/// Whether a failure carries the message `msg`.
pub open spec fn has_message(f: EvaluationFailure, msg: Seq<char>) -> bool {
    match f.message {
        Some(m) => m@ == msg,
        None => false,
    }
}

/// A "not found" failure with the message `msg`.
pub open spec fn not_found(f: EvaluationFailure, msg: Seq<char>) -> bool {
    f.code == ErrorCode::FlagNotFound && has_message(f, msg)
}

/// A general failure whose code and message both carry `text`.
pub open spec fn general_failure(f: EvaluationFailure, text: Seq<char>) -> bool {
    &&& match f.code {
        ErrorCode::General(g) => g@ == text,
        _ => false,
    }
    &&& has_message(f, text)
}

/// The name of a value kind in messages.
pub open spec fn kind_name(kind: ValueKind) -> Seq<char> {
    match kind {
        ValueKind::Boolean => "boolean"@,
        ValueKind::Integer => "integer"@,
        ValueKind::Float => "float"@,
        ValueKind::Str => "string"@,
        ValueKind::Struct => "struct"@,
    }
}

/// Whether a document holds a value of the kind asked for.
pub open spec fn converts(j: Json, kind: ValueKind) -> bool {
    match kind {
        ValueKind::Boolean => j is Bool,
        ValueKind::Integer => j is Int,
        ValueKind::Float => j is Int || j is Float,
        ValueKind::Str => j is Str,
        ValueKind::Struct => j is Object,
    }
}

/// The field a document member becomes in a structured value.
pub open spec fn field_matches(f: StructField, j: Json) -> bool {
    match j {
        Json::Str(s) => f matches StructField::Str(x) && x@ == s,
        Json::Int(i) => f == StructField::Int(i),
        Json::Float(b) => f == StructField::Float(b),
        Json::Bool(b) => f == StructField::Bool(b),
        _ => f matches StructField::Text(t) && t@ == j,
    }
}

/// Whether a typed value is what a document gives for a kind.
pub open spec fn value_matches(v: ResolvedValue, j: Json, kind: ValueKind) -> bool {
    match (kind, j) {
        (ValueKind::Boolean, Json::Bool(b)) => v == ResolvedValue::Bool(b),
        (ValueKind::Integer, Json::Int(i)) => v == ResolvedValue::Int(i),
        (ValueKind::Float, Json::Int(i)) => v == ResolvedValue::Number(i),
        (ValueKind::Float, Json::Float(b)) => v == ResolvedValue::Float(b),
        (ValueKind::Str, Json::Str(s)) => v matches ResolvedValue::Str(x) && x@ == s,
        (ValueKind::Struct, Json::Object(es)) => v matches ResolvedValue::Struct(fs) && fs@.len() == es.len()
            && forall|i: int|
            #![trigger fs@[i]]
            0 <= i < es.len() ==> fs@[i].0@ == es[i].0 && field_matches(fs@[i].1, es[i].1),
        _ => false,
    }
}

/// The field a document member becomes in a structured value.
fn to_field(j: &JsonValue) -> (r: StructField)
    ensures
        field_matches(r, j@),
{
    proof {
        lemma_view_parts(j);
    }
    match j {
        JsonValue::Str(s) => StructField::Str(s.clone()),
        JsonValue::Int(i) => StructField::Int(*i),
        JsonValue::Float(b) => StructField::Float(*b),
        JsonValue::Bool(b) => StructField::Bool(*b),
        _ => StructField::Text(j.deep_clone()),
    }
}

/// The typed value a document holds for a kind, if it holds one.
pub fn convert_value(j: &JsonValue, kind: ValueKind) -> (r: Option<ResolvedValue>)
    ensures
        r is Some == converts(j@, kind),
        r matches Some(v) ==> value_matches(v, j@, kind),
{
    proof {
        lemma_view_parts(j);
    }
    match (kind, j) {
        (ValueKind::Boolean, JsonValue::Bool(b)) => Some(ResolvedValue::Bool(*b)),
        (ValueKind::Integer, JsonValue::Int(i)) => Some(ResolvedValue::Int(*i)),
        (ValueKind::Float, JsonValue::Int(i)) => Some(ResolvedValue::Number(*i)),
        (ValueKind::Float, JsonValue::Float(b)) => Some(ResolvedValue::Float(*b)),
        (ValueKind::Str, JsonValue::Str(s)) => Some(ResolvedValue::Str(s.clone())),
        (ValueKind::Struct, JsonValue::Object(es)) => {
            let ghost em = j@->Object_0;
            let mut fields: Vec<(String, StructField)> = Vec::new();
            let mut i: usize = 0;
            while i < es.len()
                invariant
                    i <= es.len(),
                    em.len() == es.len(),
                    forall|q: int| 0 <= q < es.len() ==> #[trigger] em[q] == (es@[q].0@, es@[q].1@),
                    fields@.len() == i,
                    forall|q: int|
                        #![trigger fields@[q]]
                        0 <= q < i ==> fields@[q].0@ == em[q].0 && field_matches(fields@[q].1, em[q].1),
                decreases es.len() - i,
            {
                let k = es[i].0.clone();
                let f = to_field(&es[i].1);
                fields.push((k, f));
                i = i + 1;
            }
            Some(ResolvedValue::Struct(fields))
        },
        _ => None,
    }
}

/// What a flag lookup leads to: a failure, the default variant, or the
/// evaluation of the flag's targeting rule.
#[derive(Debug)]
pub enum FlagDecision {
    Fail(EvaluationFailure),
    UseDefault,
    Evaluate(JsonValue),
}

/// The message for a flag that is missing or disabled.
pub open spec fn flag_message(flag_key: Seq<char>, disabled: bool) -> Seq<char> {
    if disabled {
        "Flag "@ + flag_key + " is disabled"@
    } else {
        "Flag "@ + flag_key + " not found"@
    }
}

/// Whether a flag has a targeting rule to evaluate: one other than an empty
/// object.
pub open spec fn has_rule(f: FlagModel) -> bool {
    f.targeting is Some && f.targeting != Some(Json::Object(Seq::empty()))
}

/// "Flag {key} not found" or "Flag {key} is disabled".
fn flag_failure(flag_key: &str, disabled: bool) -> (r: EvaluationFailure)
    ensures
        not_found(r, flag_message(flag_key@, disabled)),
{
    let mut m = "Flag ".to_string();
    m.append(flag_key);
    if disabled {
        m.append(" is disabled");
    } else {
        m.append(" not found");
    }
    EvaluationFailure { code: ErrorCode::FlagNotFound, message: Some(m) }
}

/// Decides what a flag lookup leads to: a missing flag and a disabled one
/// fail as not found; a flag with a targeting rule has it evaluated; any
/// other flag takes its default variant.
pub fn decide_flag(flag_key: &str, flag: Option<&FeatureFlag>) -> (r: FlagDecision)
    ensures
        match flag {
            None => r matches FlagDecision::Fail(e) && not_found(e, flag_message(flag_key@, false)),
            Some(f) => if f@.state == "DISABLED"@ {
                r matches FlagDecision::Fail(e) && not_found(e, flag_message(flag_key@, true))
            } else if has_rule(f@) {
                r matches FlagDecision::Evaluate(rule) && Some(rule@) == f@.targeting
            } else {
                r is UseDefault
            },
        },
{
    match flag {
        None => FlagDecision::Fail(flag_failure(flag_key, false)),
        Some(f) => {
            if crate::text::str_eq(f.state.as_str(), "DISABLED") {
                FlagDecision::Fail(flag_failure(flag_key, true))
            } else if f.has_targeting() {
                FlagDecision::Evaluate(f.get_targeting())
            } else {
                FlagDecision::UseDefault
            }
        },
    }
}

/// The variant that applies: the one the targeting rule chose, else the
/// default variant; a failed rule evaluation is a general error.
pub fn select_variant(flag: &FeatureFlag, outcome: Option<Result<Option<String>, FlagdError>>) -> (r: Result<String, EvaluationFailure>)
    ensures
        match outcome {
            None => r matches Ok(v) && v@ == flag@.default_variant,
            Some(Ok(None)) => r matches Ok(v) && v@ == flag@.default_variant,
            Some(Ok(Some(chosen))) => r matches Ok(v) && v@ == chosen@,
            Some(Err(e)) => r matches Err(f) && general_failure(f, error_display(e)),
        },
{
    match outcome {
        None => Ok(flag.default_variant.clone()),
        Some(Ok(None)) => Ok(flag.default_variant.clone()),
        Some(Ok(Some(chosen))) => Ok(chosen),
        Some(Err(e)) => {
            let text = e.to_string();
            Err(EvaluationFailure { code: ErrorCode::General(text.clone()), message: Some(text) })
        },
    }
}

/// "Value for flag {key} is not a {kind}".
fn mismatch_failure(flag_key: &str, kind: ValueKind) -> (r: EvaluationFailure)
    ensures
        r.code == ErrorCode::TypeMismatch,
        has_message(r, mismatch_message(flag_key@, kind)),
{
    let mut m = "Value for flag ".to_string();
    m.append(flag_key);
    m.append(" is not a ");
    match kind {
        ValueKind::Boolean => m.append("boolean"),
        ValueKind::Integer => m.append("integer"),
        ValueKind::Float => m.append("float"),
        ValueKind::Str => m.append("string"),
        ValueKind::Struct => m.append("struct"),
    }
    EvaluationFailure { code: ErrorCode::TypeMismatch, message: Some(m) }
}

/// The document of a variant, if the flag has one by that name.
pub fn variant_value<'a>(flag: &'a FeatureFlag, variant: &str) -> (r: Option<&'a JsonValue>)
    ensures
        match obj_get(flag@.variants, variant@) {
            Some(j) => r matches Some(x) && x@ == j,
            None => r is None,
        },
{
    proof {
        lemma_entries_model(flag.variants@);
    }
    let ghost m = flag@.variants;
    let mut i: usize = 0;
    assert(m.subrange(0, m.len() as int) =~= m);
    while i < flag.variants.len()
        invariant
            i <= flag.variants.len(),
            m == entries_model(flag.variants@),
            m.len() == flag.variants.len(),
            forall|j: int| 0 <= j < flag.variants.len() ==> #[trigger] m[j] == (flag.variants@[j].0@, flag.variants@[j].1@),
            obj_get(m, variant@) == obj_get(m.subrange(i as int, m.len() as int), variant@),
        decreases flag.variants.len() - i,
    {
        let ghost rest = m.subrange(i as int, m.len() as int);
        assert(rest[0] == m[i as int]);
        if crate::text::str_eq(flag.variants[i].0.as_str(), variant) {
            return Some(&flag.variants[i].1);
        }
        assert(rest.drop_first() =~= m.subrange(i + 1, m.len() as int));
        i = i + 1;
    }
    None
}

/// "Value for flag {key} is not a {kind}".
pub open spec fn mismatch_message(flag_key: Seq<char>, kind: ValueKind) -> Seq<char> {
    "Value for flag "@ + flag_key + " is not a "@ + kind_name(kind)
}

/// A resolution to the value a document gives for a kind, by a variant,
/// with the reason of a targeting match.
pub open spec fn resolved_to(res: Resolution, j: Json, kind: ValueKind, variant: Seq<char>) -> bool {
    &&& value_matches(res.value, j, kind)
    &&& match res.variant {
        Some(v) => v@ == variant,
        None => false,
    }
    &&& res.reason == Some(Reason::TargetingMatch)
}

/// What resolving a found, enabled flag by a variant gives.
pub open spec fn resolution_ok(flag_key: Seq<char>, flag: FlagModel, variant: Seq<char>, kind: ValueKind, r: Result<Resolution, EvaluationFailure>) -> bool {
    match obj_get(flag.variants, variant) {
        Some(j) => if converts(j, kind) {
            r matches Ok(res) && resolved_to(res, j, kind, variant)
        } else {
            r matches Err(f) && f.code == ErrorCode::TypeMismatch && has_message(f, mismatch_message(flag_key, kind))
        },
        None => r matches Err(f) && f.code == ErrorCode::TypeMismatch && has_message(f, mismatch_message(flag_key, kind)),
    }
}

/// Resolves a found, enabled flag: the variant that applies is looked up
/// and its document converted to the kind asked for, the reason being a
/// targeting match; a missing variant or a document of another kind is a
/// type mismatch.
pub fn resolve_variant(flag_key: &str, flag: &FeatureFlag, variant: String, kind: ValueKind) -> (r: Result<Resolution, EvaluationFailure>)
    ensures
        resolution_ok(flag_key@, flag@, variant@, kind, r),
{
    let value = match variant_value(flag, variant.as_str()) {
        Some(j) => convert_value(j, kind),
        None => None,
    };
    match value {
        Some(v) => Ok(Resolution { value: v, variant: Some(variant), reason: Some(Reason::TargetingMatch) }),
        None => Err(mismatch_failure(flag_key, kind)),
    }
}

/// Resolves a flag looked up in the store: `outcome` is what evaluating its
/// targeting rule gave, when `decide_flag` asked for that.
pub fn resolve_flag(
    flag_key: &str,
    flag: Option<&FeatureFlag>,
    outcome: Option<Result<Option<String>, FlagdError>>,
    kind: ValueKind,
) -> (r: Result<Resolution, EvaluationFailure>)
    ensures
        match flag {
            None => r matches Err(e) && not_found(e, flag_message(flag_key@, false)),
            Some(f) => if f@.state == "DISABLED"@ {
                r matches Err(e) && not_found(e, flag_message(flag_key@, true))
            } else {
                let chosen = if has_rule(f@) {
                    outcome
                } else {
                    None
                };
                match chosen {
                    Some(Err(e)) => r matches Err(g) && general_failure(g, error_display(e)),
                    Some(Ok(Some(v))) => resolution_ok(flag_key@, f@, v@, kind, r),
                    _ => resolution_ok(flag_key@, f@, f@.default_variant, kind, r),
                }
            },
        },
{
    match decide_flag(flag_key, flag) {
        FlagDecision::Fail(e) => Err(e),
        FlagDecision::UseDefault => {
            let f = flag.unwrap();
            let variant = select_variant(f, None)?;
            resolve_variant(flag_key, f, variant, kind)
        },
        FlagDecision::Evaluate(_) => {
            let f = flag.unwrap();
            let variant = match select_variant(f, outcome) {
                Ok(v) => v,
                Err(e) => {
                    return Err(e);
                },
            };
            resolve_variant(flag_key, f, variant, kind)
        },
    }
}

/// Whether the value of a variant document is cached: booleans, strings
/// and numbers are; other documents are not.
pub open spec fn cacheable(j: Json) -> bool {
    j is Bool || j is Str || j is Int || j is Float
}

/// Whether `c` is the cached form of the document `j`.
pub open spec fn cached_form(j: Json, c: FlagValue) -> bool {
    match j {
        Json::Bool(b) => c == FlagValue::Bool(b),
        Json::Str(s) => c matches FlagValue::Str(x) && x@ == s,
        Json::Int(i) => c == FlagValue::Int(i),
        Json::Float(b) => c == FlagValue::Float(b),
        _ => false,
    }
}

/// Whether an answer is the boolean `b` given by the variant named `v`.
pub open spec fn answers_bool(r: Result<Resolution, EvaluationFailure>, b: bool, v: Seq<char>) -> bool {
    r matches Ok(res) && res.value == ResolvedValue::Bool(b) && (res.variant matches Some(x) && x@ == v)
}

/// Whether an answer is a failure with the given code.
pub open spec fn fails_with(r: Result<Resolution, EvaluationFailure>, code: ErrorCode) -> bool {
    r matches Err(e) && e.code == code
}

/// Whether a rule's evaluation failed.
pub open spec fn rule_failed(outcome: Option<Result<Option<String>, FlagdError>>) -> bool {
    outcome matches Some(Err(_))
}

/// Whether an answer is a general failure.
pub open spec fn fails_in_general(r: Result<Resolution, EvaluationFailure>) -> bool {
    r matches Err(e) && e.code is General
}

/// Whether a rule's outcome names the variant `v`.
pub open spec fn names_variant(outcome: Option<Result<Option<String>, FlagdError>>, v: Seq<char>) -> bool {
    outcome matches Some(Ok(Some(c))) && c@ == v
}

/// What resolving a flag answers: a missing or disabled flag is not found;
/// a rule whose evaluation failed is a general error; otherwise the value
/// is the document of the variant the rule named, or of the default
/// variant when the flag has no rule or the rule named none, and the
/// answer names that variant.
pub proof fn law_resolution_follows_the_chosen_variant(
    flag_key: &str,
    flag: Option<&FeatureFlag>,
    outcome: Option<Result<Option<String>, FlagdError>>,
    kind: ValueKind,
    r: Result<Resolution, EvaluationFailure>,
    b: bool,
    chosen: Seq<char>,
)
    requires
        call_ensures(resolve_flag, (flag_key, flag, outcome, kind), r),
    ensures
        flag is None ==> fails_with(r, ErrorCode::FlagNotFound),
        flag matches Some(f) ==> (f@.state == "DISABLED"@ ==> fails_with(r, ErrorCode::FlagNotFound)),
        flag matches Some(f) ==> ((f@.state != "DISABLED"@ && has_rule(f@) && rule_failed(outcome)) ==> fails_in_general(
            r,
        )),
        flag matches Some(f) ==> ((f@.state != "DISABLED"@ && f@.targeting is None && kind == ValueKind::Boolean
            && obj_get(f@.variants, f@.default_variant) == Some(Json::Bool(b))) ==> answers_bool(
            r,
            b,
            f@.default_variant,
        )),
        flag matches Some(f) ==> ((f@.state != "DISABLED"@ && has_rule(f@) && kind == ValueKind::Boolean
            && names_variant(outcome, chosen) && obj_get(f@.variants, chosen) == Some(Json::Bool(b))) ==> answers_bool(
            r,
            b,
            chosen,
        )),
        flag matches Some(f) ==> ((f@.state != "DISABLED"@ && has_rule(f@) && kind == ValueKind::Boolean
            && outcome == Some(Ok::<Option<String>, FlagdError>(None)) && obj_get(f@.variants, f@.default_variant)
            == Some(Json::Bool(b))) ==> answers_bool(r, b, f@.default_variant)),
{
}

/// The value cached for an in-process evaluation: booleans, strings and
/// numbers are cached; other documents are not.
pub fn in_process_cache_value(j: &JsonValue) -> (r: Option<FlagValue>)
    ensures
        r is Some == cacheable(j@),
        r matches Some(c) ==> cached_form(j@, c),
{
    proof {
        lemma_view_parts(j);
    }
    match j {
        JsonValue::Bool(b) => Some(FlagValue::Bool(*b)),
        JsonValue::Str(s) => Some(FlagValue::Str(s.clone())),
        JsonValue::Int(i) => Some(FlagValue::Int(*i)),
        JsonValue::Float(b) => Some(FlagValue::Float(*b)),
        _ => None,
    }
}

/// What an evaluation leaves in the cache: after a successful resolution,
/// the cached form of the chosen variant's document, when it has one;
/// after a failure, nothing.
pub open spec fn cache_after(flag: FlagModel, r: Result<Resolution, EvaluationFailure>, c: Option<FlagValue>) -> bool {
    match r {
        Ok(res) => match res.variant {
            Some(v) => match obj_get(flag.variants, v@) {
                Some(j) => (c is Some == cacheable(j)) && (c matches Some(x) ==> cached_form(j, x)),
                None => c is None,
            },
            None => c is None,
        },
        Err(_) => c is None,
    }
}

/// The value to cache after resolving a flag: only a successful
/// resolution is cached, by the cached form of its variant's document.
pub fn value_to_cache(flag: &FeatureFlag, r: &Result<Resolution, EvaluationFailure>) -> (c: Option<FlagValue>)
    ensures
        cache_after(flag@, *r, c),
{
    match r {
        Ok(res) => match &res.variant {
            Some(v) => match variant_value(flag, v.as_str()) {
                Some(j) => in_process_cache_value(j),
                None => None,
            },
            None => None,
        },
        Err(_) => None,
    }
}

/// The answer a cache hit gives for the kind asked for: the cached value
/// converted as a fresh evaluation converts its variant's document, with
/// the cached reason and no variant; nothing when it does not convert.
pub open spec fn cache_answer(c: FlagValue, kind: ValueKind, r: Option<Resolution>) -> bool {
    match r {
        Some(res) => {
            &&& converts(flag_value_json(c), kind)
            &&& value_matches(res.value, flag_value_json(c), kind)
            &&& res.variant is None
            &&& res.reason == Some(Reason::Cached)
        },
        None => !converts(flag_value_json(c), kind),
    }
}

/// The answer a cached value gives for the kind asked for, if any; when it
/// gives none the flag is evaluated afresh.
pub fn answer_from_cache(cached: &FlagValue, kind: ValueKind) -> (r: Option<Resolution>)
    ensures
        cache_answer(*cached, kind, r),
{
    let j = cached.to_json();
    match convert_value(&j, kind) {
        Some(v) => Some(Resolution { value: v, variant: None, reason: Some(Reason::Cached) }),
        None => None,
    }
}

/// A cache hit answers with the value a fresh evaluation gave: the cached
/// form of a variant document reads back as that document, so the hit
/// converts to the kind asked for exactly when the document does, and to
/// the same value, with the cached reason.
pub proof fn law_cache_hit_agrees(j: Json, c: FlagValue, kind: ValueKind, hit: Option<Resolution>)
    requires
        cached_form(j, c),
        j is Float ==> is_finite_bits(j->Float_0),
        cache_answer(c, kind, hit),
    ensures
        flag_value_json(c) == j,
        hit is Some == converts(j, kind),
        hit matches Some(res) ==> value_matches(res.value, j, kind) && res.reason == Some(Reason::Cached),
{
}

/// What is cached after a successful resolution reads back as the same
/// answer: a later hit for the same kind gives the value the resolution
/// gave, from the same variant document, with the cached reason.
pub proof fn law_cached_resolution_reads_back(
    flag_key: Seq<char>,
    flag: FlagModel,
    variant: Seq<char>,
    kind: ValueKind,
    r: Result<Resolution, EvaluationFailure>,
    c: FlagValue,
    hit: Option<Resolution>,
)
    requires
        resolution_ok(flag_key, flag, variant, kind, r),
        r is Ok,
        cache_after(flag, r, Some(c)),
        cache_answer(c, kind, hit),
        obj_get(flag.variants, variant) matches Some(Json::Float(b)) ==> is_finite_bits(b),
    ensures
        obj_get(flag.variants, variant) matches Some(j) && hit matches Some(h) && value_matches(
            r->Ok_0.value,
            j,
            kind,
        ) && value_matches(h.value, j, kind) && h.reason == Some(Reason::Cached) && h.variant is None,
{
    let j = obj_get(flag.variants, variant)->Some_0;
    law_cache_hit_agrees(j, c, kind, hit);
}

/// The name of a gRPC status code; numbers outside the codes read as
/// `Unknown`.
pub open spec fn grpc_code_name(code: i32) -> Seq<char> {
    if code == 0 { "Ok"@ }
    else if code == 1 { "Cancelled"@ }
    else if code == 3 { "InvalidArgument"@ }
    else if code == 4 { "DeadlineExceeded"@ }
    else if code == 5 { "NotFound"@ }
    else if code == 6 { "AlreadyExists"@ }
    else if code == 7 { "PermissionDenied"@ }
    else if code == 8 { "ResourceExhausted"@ }
    else if code == 9 { "FailedPrecondition"@ }
    else if code == 10 { "Aborted"@ }
    else if code == 11 { "OutOfRange"@ }
    else if code == 12 { "Unimplemented"@ }
    else if code == 13 { "Internal"@ }
    else if code == 14 { "Unavailable"@ }
    else if code == 15 { "DataLoss"@ }
    else if code == 16 { "Unauthenticated"@ }
    else { "Unknown"@ }
}

/// The name of a gRPC status code.
fn code_name(code: i32) -> (r: String)
    ensures
        r@ == grpc_code_name(code),
{
    let s = if code == 0 { "Ok" }
    else if code == 1 { "Cancelled" }
    else if code == 3 { "InvalidArgument" }
    else if code == 4 { "DeadlineExceeded" }
    else if code == 5 { "NotFound" }
    else if code == 6 { "AlreadyExists" }
    else if code == 7 { "PermissionDenied" }
    else if code == 8 { "ResourceExhausted" }
    else if code == 9 { "FailedPrecondition" }
    else if code == 10 { "Aborted" }
    else if code == 11 { "OutOfRange" }
    else if code == 12 { "Unimplemented" }
    else if code == 13 { "Internal" }
    else if code == 14 { "Unavailable" }
    else if code == 15 { "DataLoss" }
    else if code == 16 { "Unauthenticated" }
    else { "Unknown" };
    s.to_string()
}

/// A general error code carrying `text`.
pub open spec fn general_code(r: ErrorCode, text: Seq<char>) -> bool {
    match r {
        ErrorCode::General(m) => m@ == text,
        _ => false,
    }
}

/// Whether `r` is the evaluation error code for the gRPC status code
/// `code`: not found, invalid argument and failed precondition have
/// counterparts; the others are general errors, described by kind or named
/// after the code.
pub open spec fn grpc_code_matches(code: i32, r: ErrorCode) -> bool {
    if code == 5 {
        r == ErrorCode::FlagNotFound
    } else if code == 3 {
        r == ErrorCode::InvalidContext
    } else if code == 9 {
        r == ErrorCode::TypeMismatch
    } else if code == 16 || code == 7 {
        general_code(r, "authentication/authorization error"@)
    } else if code == 4 || code == 1 {
        general_code(r, "request timeout or cancelled"@)
    } else if code == 14 {
        general_code(r, "service unavailable"@)
    } else {
        general_code(r, grpc_code_name(code))
    }
}

/// The evaluation error code a gRPC status code stands for.
pub fn grpc_error_code(code: i32) -> (r: ErrorCode)
    ensures
        grpc_code_matches(code, r),
{
    if code == 5 {
        ErrorCode::FlagNotFound
    } else if code == 3 {
        ErrorCode::InvalidContext
    } else if code == 16 || code == 7 {
        ErrorCode::General("authentication/authorization error".to_string())
    } else if code == 9 {
        ErrorCode::TypeMismatch
    } else if code == 4 || code == 1 {
        ErrorCode::General("request timeout or cancelled".to_string())
    } else if code == 14 {
        ErrorCode::General("service unavailable".to_string())
    } else {
        ErrorCode::General(code_name(code))
    }
}


/// Why the in-process evaluator gave its value.
#[derive(Clone, Copy, PartialEq, Eq, Structural, Debug)]
pub enum EvaluatorReason {
    Static,
    Default,
    TargetingMatch,
    Disabled,
    Error,
    FlagNotFound,
    Fallback,
}

/// Why the in-process evaluator failed.
#[derive(Clone, Copy, PartialEq, Eq, Structural, Debug)]
pub enum EvaluatorErrorCode {
    FlagNotFound,
    ParseError,
    TypeMismatch,
    General,
}

/// The reason an evaluator reason is reported as: the evaluator's failures
/// and fallbacks are errors.
pub fn map_reason(reason: EvaluatorReason) -> (r: Option<Reason>)
    ensures
        r == Some(match reason {
            EvaluatorReason::Static => Reason::Static,
            EvaluatorReason::Default => Reason::Default,
            EvaluatorReason::TargetingMatch => Reason::TargetingMatch,
            EvaluatorReason::Disabled => Reason::Disabled,
            _ => Reason::Error,
        }),
{
    match reason {
        EvaluatorReason::Static => Some(Reason::Static),
        EvaluatorReason::Default => Some(Reason::Default),
        EvaluatorReason::TargetingMatch => Some(Reason::TargetingMatch),
        EvaluatorReason::Disabled => Some(Reason::Disabled),
        EvaluatorReason::Error | EvaluatorReason::FlagNotFound | EvaluatorReason::Fallback => Some(Reason::Error),
    }
}

/// The error code an evaluator error code is reported as.
pub fn map_error_code(code: EvaluatorErrorCode) -> (r: ErrorCode)
    ensures
        code == EvaluatorErrorCode::FlagNotFound ==> r == ErrorCode::FlagNotFound,
        code == EvaluatorErrorCode::ParseError ==> r == ErrorCode::ParseError,
        code == EvaluatorErrorCode::TypeMismatch ==> r == ErrorCode::TypeMismatch,
        code == EvaluatorErrorCode::General ==> (r matches ErrorCode::General(m) && m@ == "Evaluation error"@),
{
    match code {
        EvaluatorErrorCode::FlagNotFound => ErrorCode::FlagNotFound,
        EvaluatorErrorCode::ParseError => ErrorCode::ParseError,
        EvaluatorErrorCode::TypeMismatch => ErrorCode::TypeMismatch,
        EvaluatorErrorCode::General => ErrorCode::General("Evaluation error".to_string()),
    }
}

/// A metadata value: a string, an integer, a double (by its bits) or a
/// boolean.
#[derive(Debug, PartialEq)]
pub enum MetadataValue {
    Str(String),
    Int(i64),
    Float(u64),
    Bool(bool),
}

/// The metadata value a document stands for; only primitives have one.
pub fn json_to_metadata_value(j: &JsonValue) -> (r: Option<MetadataValue>)
    ensures
        match j@ {
            Json::Str(s) => r matches Some(MetadataValue::Str(x)) && x@ == s,
            Json::Int(i) => r == Some(MetadataValue::Int(i)),
            Json::Float(b) => r == Some(MetadataValue::Float(b)),
            Json::Bool(b) => r == Some(MetadataValue::Bool(b)),
            _ => r is None,
        },
{
    proof {
        lemma_view_parts(j);
    }
    match j {
        JsonValue::Str(s) => Some(MetadataValue::Str(s.clone())),
        JsonValue::Int(i) => Some(MetadataValue::Int(*i)),
        JsonValue::Float(b) => Some(MetadataValue::Float(*b)),
        JsonValue::Bool(b) => Some(MetadataValue::Bool(*b)),
        _ => None,
    }
}

/// The flag value a document stands for: null becomes the empty string,
/// objects become structures and arrays arrays, member by member.
pub open spec fn json_value_of(j: Json, v: FlagValue) -> bool
    decreases j,
{
    match j {
        Json::Null => v matches FlagValue::Str(s) && s@ == Seq::<char>::empty(),
        Json::Bool(b) => v == FlagValue::Bool(b),
        Json::Int(i) => v == FlagValue::Int(i),
        Json::Float(b) => v == FlagValue::Float(b),
        Json::Str(s) => v matches FlagValue::Str(x) && x@ == s,
        Json::Array(items) => v matches FlagValue::Array(vs) && vs@.len() == items.len() && forall|i: int|
            #![trigger vs@[i]]
            0 <= i < items.len() ==> json_value_of(items[i], vs@[i]),
        Json::Object(es) => v matches FlagValue::Struct(fs) && fs@.len() == es.len() && forall|i: int|
            #![trigger fs@[i]]
            0 <= i < es.len() ==> fs@[i].0@ == es[i].0 && json_value_of(es[i].1, fs@[i].1),
    }
}

/// The flag value a document stands for.
#[verifier::loop_isolation(false)]
pub fn json_to_value(j: &JsonValue) -> (r: FlagValue)
    ensures
        json_value_of(j@, r),
    decreases j,
{
    proof {
        lemma_view_parts(j);
    }
    match j {
        JsonValue::Null => FlagValue::Str(String::new()),
        JsonValue::Bool(b) => FlagValue::Bool(*b),
        JsonValue::Int(i) => FlagValue::Int(*i),
        JsonValue::Float(b) => FlagValue::Float(*b),
        JsonValue::Str(s) => FlagValue::Str(s.clone()),
        JsonValue::Array(items) => {
            let ghost im = j@->Array_0;
            let mut out: Vec<FlagValue> = Vec::new();
            let mut i: usize = 0;
            while i < items.len()
                invariant
                    i <= items.len(),
                    im.len() == items.len(),
                    forall|q: int| 0 <= q < items.len() ==> #[trigger] im[q] == items@[q]@,
                    out@.len() == i,
                    forall|q: int| #![trigger out@[q]] 0 <= q < i ==> json_value_of(im[q], out@[q]),
                decreases items.len() - i,
            {
                proof {
                    vstd::std_specs::vec::axiom_vec_index_decreases(*items, i as int);
                }
                let c = json_to_value(&items[i]);
                out.push(c);
                i = i + 1;
            }
            FlagValue::Array(out)
        },
        JsonValue::Object(es) => {
            let ghost em = j@->Object_0;
            let mut out: Vec<(String, FlagValue)> = Vec::new();
            let mut i: usize = 0;
            while i < es.len()
                invariant
                    i <= es.len(),
                    em.len() == es.len(),
                    forall|q: int| 0 <= q < es.len() ==> #[trigger] em[q] == (es@[q].0@, es@[q].1@),
                    out@.len() == i,
                    forall|q: int|
                        #![trigger out@[q]]
                        0 <= q < i ==> out@[q].0@ == em[q].0 && json_value_of(em[q].1, out@[q].1),
                decreases es.len() - i,
            {
                proof {
                    vstd::std_specs::vec::axiom_vec_index_decreases(*es, i as int);
                }
                let k = es[i].0.clone();
                let c = json_to_value(&es[i].1);
                out.push((k, c));
                i = i + 1;
            }
            FlagValue::Struct(out)
        },
    }
}

/// The outcome of an in-process evaluation.
#[derive(Debug)]
pub struct EvaluationResult {
    pub value: JsonValue,
    pub variant: Option<String>,
    pub reason: EvaluatorReason,
    pub error_code: Option<EvaluatorErrorCode>,
    pub error_message: Option<String>,
    pub flag_metadata: Option<Vec<(String, JsonValue)>>,
}

/// The error code an evaluator error code is reported as.
pub open spec fn code_for(code: ErrorCode, c: EvaluatorErrorCode) -> bool {
    match c {
        EvaluatorErrorCode::FlagNotFound => code == ErrorCode::FlagNotFound,
        EvaluatorErrorCode::ParseError => code == ErrorCode::ParseError,
        EvaluatorErrorCode::TypeMismatch => code == ErrorCode::TypeMismatch,
        EvaluatorErrorCode::General => code matches ErrorCode::General(m) && m@ == "Evaluation error"@,
    }
}

/// Resolution details with metadata: the resolution and its primitive
/// metadata entries.
#[derive(Debug)]
pub struct ResolutionDetails {
    pub value: ResolvedValue,
    pub variant: Option<String>,
    pub reason: Option<Reason>,
    pub flag_metadata: Option<Vec<(String, MetadataValue)>>,
}

/// Whether a document is a string, a number or a boolean.
pub open spec fn is_primitive(j: Json) -> bool {
    j is Str || j is Int || j is Float || j is Bool
}

/// The entries whose documents are primitive, in order.
pub open spec fn primitive_entries(s: Seq<(Seq<char>, Json)>) -> Seq<(Seq<char>, Json)>
    decreases s.len(),
{
    if s.len() == 0 {
        Seq::empty()
    } else {
        let rest = primitive_entries(s.drop_last());
        if is_primitive(s.last().1) {
            rest.push(s.last())
        } else {
            rest
        }
    }
}

/// The metadata value a primitive document stands for.
pub open spec fn metadata_matches(m: MetadataValue, j: Json) -> bool {
    match j {
        Json::Str(s) => m matches MetadataValue::Str(x) && x@ == s,
        Json::Int(i) => m == MetadataValue::Int(i),
        Json::Float(b) => m == MetadataValue::Float(b),
        Json::Bool(b) => m == MetadataValue::Bool(b),
        _ => false,
    }
}

/// Metadata values standing for primitive entries.
pub open spec fn metadata_of(r: Seq<(String, MetadataValue)>, pe: Seq<(Seq<char>, Json)>) -> bool {
    &&& r.len() == pe.len()
    &&& forall|i: int| #![trigger r[i]] 0 <= i < r.len() ==> r[i].0@ == pe[i].0 && metadata_matches(r[i].1, pe[i].1)
}

/// The primitive entries of metadata, in order.
fn primitive_metadata(md: &Vec<(String, JsonValue)>) -> (r: Vec<(String, MetadataValue)>)
    ensures
        metadata_of(r@, primitive_entries(entries_model(md@))),
{
    proof {
        lemma_entries_model(md@);
    }
    let ghost m = entries_model(md@);
    let mut out: Vec<(String, MetadataValue)> = Vec::new();
    let mut i: usize = 0;
    assert(m.take(0) =~= Seq::<(Seq<char>, Json)>::empty());
    while i < md.len()
        invariant
            i <= md.len(),
            m == entries_model(md@),
            m.len() == md.len(),
            forall|q: int| 0 <= q < md.len() ==> #[trigger] m[q] == (md@[q].0@, md@[q].1@),
            metadata_of(out@, primitive_entries(m.take(i as int))),
        decreases md.len() - i,
    {
        assert(m.take(i + 1).drop_last() =~= m.take(i as int));
        assert(m.take(i + 1).last() == m[i as int]);
        match json_to_metadata_value(&md[i].1) {
            Some(v) => {
                out.push((md[i].0.clone(), v));
            },
            None => {},
        }
        i = i + 1;
    }
    assert(m.take(md.len() as int) =~= m);
    out
}

/// Turns an in-process evaluation outcome into resolution details: an error
/// code fails with its mapped code and message; otherwise the value is
/// converted to the kind asked for, a document of another kind failing as
/// a type mismatch.
pub fn result_to_details(result: &EvaluationResult, kind: ValueKind) -> (r: Result<ResolutionDetails, EvaluationFailure>)
    ensures
        result.error_code matches Some(c) ==> (r matches Err(f) && code_for(f.code, c) && has_message(
            f,
            match result.error_message {
                Some(m) => m@,
                None => Seq::empty(),
            },
        )),
        result.error_code is None ==> (r is Ok <==> converts(result.value@, kind)),
        r matches Ok(d) ==> match (d.flag_metadata, result.flag_metadata) {
            (Some(a), Some(b)) => metadata_of(a@, primitive_entries(entries_model(b@))),
            (None, None) => true,
            _ => false,
        },
        r matches Ok(d) ==> value_matches(d.value, result.value@, kind) && d.variant == result.variant
            && d.reason == Some(match result.reason {
                EvaluatorReason::Static => Reason::Static,
                EvaluatorReason::Default => Reason::Default,
                EvaluatorReason::TargetingMatch => Reason::TargetingMatch,
                EvaluatorReason::Disabled => Reason::Disabled,
                _ => Reason::Error,
            }) && d.flag_metadata is Some == result.flag_metadata is Some,
        result.error_code is None && !converts(result.value@, kind) ==> (r matches Err(f) && f.code
            == ErrorCode::TypeMismatch && has_message(f, "Value type mismatch"@)),
{
    if let Some(code) = result.error_code {
        let message = match &result.error_message {
            Some(m) => m.clone(),
            None => String::new(),
        };
        return Err(EvaluationFailure { code: map_error_code(code), message: Some(message) });
    }
    let value = match convert_value(&result.value, kind) {
        Some(v) => v,
        None => {
            return Err(EvaluationFailure { code: ErrorCode::TypeMismatch, message: Some("Value type mismatch".to_string()) });
        },
    };
    let variant = match &result.variant {
        Some(v) => Some(v.clone()),
        None => None,
    };
    let flag_metadata = match &result.flag_metadata {
        Some(md) => Some(primitive_metadata(md)),
        None => None,
    };
    Ok(ResolutionDetails { value, variant, reason: map_reason(result.reason), flag_metadata })
}

} // verus!
