//! Flags read from environment variables: a variable named by the flag key
//! holds the flag's value as text.

use vstd::prelude::*;
use crate::evaluation::{ErrorCode, EvaluationFailure, Reason, has_message};
use crate::text::{parse_bool, parse_i64, parse_i64_spec};

verus! {

broadcast use vstd::string::group_string_axioms;

/// The message of every failed environment variable evaluation.
pub open spec fn env_error_message() -> Seq<char> {
    "Error evaluating environment variable"@
}

/// A failure with the given code and the environment variable message.
pub fn env_failure(code: ErrorCode) -> (r: EvaluationFailure)
    ensures
        r.code == code,
        has_message(r, env_error_message()),
{
    EvaluationFailure { code, message: Some("Error evaluating environment variable".to_string()) }
}

/// A flag value read from an environment variable, with why it was given:
/// a value read from the environment is static.
#[derive(Debug)]
pub struct EnvResolution<T> {
    pub value: T,
    pub reason: Reason,
}

/// What evaluating a flag gives when its variable holds `value` (none when
/// unset) and `parsed` is what reading that text as the asked type gave:
/// an unset variable is not found; text that does not read as the type is
/// a type mismatch; else the value read, with the static reason.
pub open spec fn env_outcome<T>(value: Option<Seq<char>>, parsed: Option<T>, r: Result<EnvResolution<T>, EvaluationFailure>) -> bool {
    match value {
        None => r matches Err(f) && f.code == ErrorCode::FlagNotFound && has_message(f, env_error_message()),
        Some(_) => match parsed {
            Some(x) => r matches Ok(d) && d.value == x && d.reason == Reason::Static,
            None => r matches Err(f) && f.code == ErrorCode::TypeMismatch && has_message(f, env_error_message()),
        },
    }
}

/// The model of an optional string.
pub open spec fn opt_text(value: Option<&str>) -> Option<Seq<char>> {
    match value {
        Some(v) => Some(v@),
        None => None,
    }
}

/// Evaluates a flag from its variable's text `value` (none when unset),
/// given what reading that text as the asked type gave.
pub fn resolve_env_parsed<T>(value: Option<&str>, parsed: Option<T>) -> (r: Result<EnvResolution<T>, EvaluationFailure>)
    ensures
        env_outcome(opt_text(value), parsed, r),
{
    match value {
        None => Err(env_failure(ErrorCode::FlagNotFound)),
        Some(_) => match parsed {
            Some(x) => Ok(EnvResolution { value: x, reason: Reason::Static }),
            None => Err(env_failure(ErrorCode::TypeMismatch)),
        },
    }
}

/// A boolean flag: `true` and `false` are the values.
pub fn resolve_env_bool(value: Option<&str>) -> (r: Result<EnvResolution<bool>, EvaluationFailure>)
    ensures
        env_outcome(
            opt_text(value),
            match value {
                Some(v) => if v@ == "true"@ {
                    Some(true)
                } else if v@ == "false"@ {
                    Some(false)
                } else {
                    None
                },
                None => None,
            },
            r,
        ),
{
    let parsed = match value {
        Some(v) => parse_bool(v),
        None => None,
    };
    resolve_env_parsed(value, parsed)
}

/// An integer flag: a decimal `i64` is the value.
pub fn resolve_env_int(value: Option<&str>) -> (r: Result<EnvResolution<i64>, EvaluationFailure>)
    ensures
        env_outcome(
            opt_text(value),
            match value {
                Some(v) => match parse_i64_spec(v@) {
                    Some(n) => Some(n as i64),
                    None => None,
                },
                None => None,
            },
            r,
        ),
{
    let parsed = match value {
        Some(v) => parse_i64(v),
        None => None,
    };
    resolve_env_parsed(value, parsed)
}

/// A string flag: any text is the value.
pub fn resolve_env_string(value: Option<&str>) -> (r: Result<EnvResolution<String>, EvaluationFailure>)
    ensures
        match value {
            None => r matches Err(f) && f.code == ErrorCode::FlagNotFound && has_message(f, env_error_message()),
            Some(v) => r matches Ok(d) && d.value@ == v@ && d.reason == Reason::Static,
        },
{
    let parsed = match value {
        Some(v) => Some(v.to_string()),
        None => None,
    };
    resolve_env_parsed(value, parsed)
}

/// A structured flag: environment variables hold no structures.
pub fn resolve_env_struct() -> (r: EvaluationFailure)
    ensures
        r.code matches ErrorCode::General(m) && m@ == "Structs are not supported"@,
        has_message(r, env_error_message()),
{
    env_failure(ErrorCode::General("Structs are not supported".to_string()))
}

} // verus!
