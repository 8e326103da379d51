//! Evaluating a targeting rule: the rule text is checked to be JSON,
//! compiled by the JSONLogic engine, and evaluated against the JSON text
//! of the evaluation context; the result names the variant.

use vstd::prelude::*;
use crate::error::FlagdError;
use crate::json_text::{json_text, to_json_text};
use crate::targeting::context::{EvalContext, build_context, context_data, unix_time_secs};
use crate::targeting::outcome::rule_compile_failure;

verus! {

broadcast use vstd::string::group_string_axioms;

#[verifier::external_type_specification]
#[verifier::external_body]
pub struct ExEngine(datalogic_rs::Engine);

#[verifier::external_type_specification]
#[verifier::external_body]
pub struct ExLogic(datalogic_rs::Logic);

/// Whether `serde_json` reads a text as a JSON document.
pub uninterp spec fn json_text_valid(text: Seq<char>) -> bool;

/// Calls `serde_json::from_str` for a `serde_json::Value`. The contract
/// claims that whether the text parses is a function of the text, named
/// `json_text_valid`; on failure it gives the parser's message, of which
/// nothing is stated.
#[verifier::external_body]
fn check_json(text: &str) -> (r: Result<(), String>)
    ensures
        r is Ok == json_text_valid(text@),
{
    match serde_json::from_str::<serde_json::Value>(text) {
        Ok(_) => Ok(()),
        Err(e) => Err(e.to_string()),
    }
}

/// Calls `datalogic_rs::Engine::compile` on the rule text, giving the
/// compiled rule or the compiler's error in its debug form. Nothing is
/// claimed: which rules compile depends on the operators registered with
/// the engine.
#[verifier::external_body]
fn compile_rule(engine: &datalogic_rs::Engine, rule: &str) -> (r: Result<datalogic_rs::Logic, String>) {
    match engine.compile(rule) {
        Ok(logic) => Ok(logic),
        Err(e) => Err(format!("{:?}", e)),
    }
}

/// What a rule evaluated to: a string, null, or any other value by its
/// JSON text.
#[derive(Debug)]
pub enum RuleValue {
    Str(String),
    Null,
    Other(String),
}

/// Calls `datalogic_rs::Engine::evaluate` on a compiled rule with the data
/// given as JSON text, and reads the result: a string as its characters,
/// null, or any other value by `to_json_string`; a failed evaluation gives
/// the error in its debug form. Nothing is claimed of the outcome: it
/// depends on the operators registered with the engine.
#[verifier::external_body]
fn evaluate_rule(engine: &datalogic_rs::Engine, logic: &datalogic_rs::Logic, data: &str) -> (r: Result<RuleValue, String>) {
    let arena = datalogic_rs::bumpalo::Bump::new();
    match engine.evaluate(logic, data, &arena) {
        Ok(datalogic_rs::DataValue::String(s)) => Ok(RuleValue::Str(s.to_string())),
        Ok(datalogic_rs::DataValue::Null) => Ok(RuleValue::Null),
        Ok(other) => Ok(RuleValue::Other(other.to_json_string())),
        Err(e) => Err(format!("{:?}", e)),
    }
}

/// How a run of a rule ended: it did not compile, its evaluation failed,
/// or it gave a value.
#[derive(Debug)]
pub enum RuleRun {
    NotCompiled(String),
    Failed(String),
    Value(RuleValue),
}

/// Compiles a rule and evaluates it against the data text.
pub fn run_rule(engine: &datalogic_rs::Engine, rule: &str, data: &str) -> (r: RuleRun) {
    match compile_rule(engine, rule) {
        Err(m) => RuleRun::NotCompiled(m),
        Ok(logic) => match evaluate_rule(engine, &logic, data) {
            Ok(v) => RuleRun::Value(v),
            Err(m) => RuleRun::Failed(m),
        },
    }
}

/// Runs a rule with `run`, for the run's outcome to be one that `run`
/// gives on these arguments.
fn run_with<F: Fn(&datalogic_rs::Engine, &str, &str) -> RuleRun>(
    run: F,
    engine: &datalogic_rs::Engine,
    rule: &str,
    data: &str,
) -> (r: RuleRun)
    requires
        call_requires(run, (engine, rule, data)),
    ensures
        call_ensures(run, (engine, rule, data), r),
{
    run(engine, rule, data)
}

/// What a run of a rule means for variant selection: a rule that did not
/// compile is a provider error carrying the compiler's message; a failed
/// evaluation and null name no variant (the default applies); a string
/// names the variant; any other value names the variant spelled as its
/// JSON text.
pub open spec fn outcome_of(run: RuleRun, r: Result<Option<String>, FlagdError>) -> bool {
    match run {
        RuleRun::NotCompiled(m) => r matches Err(FlagdError::Provider(e)) && e@
            == "Failed to compile targeting rule: "@ + m@,
        RuleRun::Failed(_) => r matches Ok(None),
        RuleRun::Value(RuleValue::Null) => r matches Ok(None),
        RuleRun::Value(RuleValue::Str(s)) => r matches Ok(Some(x)) && x@ == s@,
        RuleRun::Value(RuleValue::Other(t)) => r matches Ok(Some(x)) && x@ == t@,
    }
}

/// The variant a run of a rule names, or the error it ends in.
pub fn rule_outcome(run: RuleRun) -> (r: Result<Option<String>, FlagdError>)
    ensures
        outcome_of(run, r),
{
    match run {
        RuleRun::NotCompiled(m) => Err(rule_compile_failure(m.as_str())),
        RuleRun::Failed(_) => Ok(None),
        RuleRun::Value(RuleValue::Null) => Ok(None),
        RuleRun::Value(RuleValue::Str(s)) => Ok(Some(s)),
        RuleRun::Value(RuleValue::Other(t)) => Ok(Some(t)),
    }
}

/// The data text a rule is evaluated against: the JSON text of the
/// evaluation context's data.
pub fn rule_data(flag_key: &str, ctx: &EvalContext, timestamp: i64) -> (r: String)
    ensures
        r@ == json_text(context_data(flag_key@, *ctx, timestamp)),
{
    let data = build_context(flag_key, ctx, timestamp);
    to_json_text(&data)
}

/// The variant a targeting rule chooses for a flag in a context at the
/// time `timestamp`. Rule text that is no JSON is a JSON error with the
/// parser's message; otherwise the rule is compiled and evaluated against
/// `rule_data` of the flag, context and time, and the run's outcome is as
/// `rule_outcome` says: a provider error when it did not compile, else the
/// variant named (none when the evaluation failed or gave null).
pub fn apply_rule(
    engine: &datalogic_rs::Engine,
    flag_key: &str,
    rule: &str,
    ctx: &EvalContext,
    timestamp: i64,
) -> (r: Result<Option<String>, FlagdError>)
    ensures
        !json_text_valid(rule@) <==> r matches Err(FlagdError::Json(_)),
        json_text_valid(rule@) ==> exists|run: RuleRun| outcome_of(run, r),
        json_text_valid(rule@) ==> exists|data: &str, run: RuleRun|
            #![trigger call_ensures(run_rule, (engine, rule, data), run)]
            data@ == json_text(context_data(flag_key@, *ctx, timestamp))
                && call_ensures(run_rule, (engine, rule, data), run) && outcome_of(run, r),
        r matches Err(e) ==> (e is Json || (e matches FlagdError::Provider(m)
            && "Failed to compile targeting rule: "@.is_prefix_of(m@))),
{
    match check_json(rule) {
        Err(m) => {
            return Err(FlagdError::Json(m));
        },
        Ok(()) => {},
    }
    let data = rule_data(flag_key, ctx, timestamp);
    let run = run_with(run_rule, engine, rule, data.as_str());
    let ghost g = run;
    let r = rule_outcome(run);
    proof {
        reveal_strlit("Failed to compile targeting rule: ");
        if let RuleRun::NotCompiled(m) = g {
            let p = "Failed to compile targeting rule: "@;
            assert((p + m@).subrange(0, p.len() as int) =~= p);
        }
    }
    r
}

/// For rule text that is JSON, what `apply_rule` answers is the outcome of
/// running the rule with the engine against the JSON text of the whole
/// context document of the flag, the context and the time, every field
/// of the context included; for any other rule text it is a JSON error.
pub proof fn law_apply_rule_runs_on_the_context(
    engine: &datalogic_rs::Engine,
    flag_key: &str,
    rule: &str,
    ctx: &EvalContext,
    timestamp: i64,
    r: Result<Option<String>, FlagdError>,
)
    requires
        call_ensures(apply_rule, (engine, flag_key, rule, ctx, timestamp), r),
    ensures
        json_text_valid(rule@) ==> exists|data: &str, run: RuleRun|
            #![trigger call_ensures(run_rule, (engine, rule, data), run)]
            data@ == json_text(context_data(flag_key@, *ctx, timestamp))
                && call_ensures(run_rule, (engine, rule, data), run) && outcome_of(run, r),
        !json_text_valid(rule@) ==> r is Err && r->Err_0 is Json,
{
}

/// The variant a targeting rule chooses for a flag in a context now, as
/// `apply_rule` gives it at the current time.
pub fn apply_rule_now(engine: &datalogic_rs::Engine, flag_key: &str, rule: &str, ctx: &EvalContext) -> (r: Result<
    Option<String>,
    FlagdError,
>)
    ensures
        !json_text_valid(rule@) <==> r matches Err(FlagdError::Json(_)),
        json_text_valid(rule@) ==> exists|run: RuleRun| outcome_of(run, r),
        json_text_valid(rule@) ==> exists|t: i64, data: &str, run: RuleRun|
            #![trigger call_ensures(run_rule, (engine, rule, data), run), context_data(flag_key@, *ctx, t)]
            data@ == json_text(context_data(flag_key@, *ctx, t))
                && call_ensures(run_rule, (engine, rule, data), run) && outcome_of(run, r),
        r matches Err(e) ==> (e is Json || (e matches FlagdError::Provider(m)
            && "Failed to compile targeting rule: "@.is_prefix_of(m@))),
{
    let t = unix_time_secs();
    apply_rule(engine, flag_key, rule, ctx, t)
}

} // verus!
