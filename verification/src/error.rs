//! Errors of the provider and of the evaluation engine, and how one kind
//! maps to the other.

use vstd::prelude::*;
use vstd::string::StringExecFns;

verus! {

broadcast use vstd::string::group_string_axioms;

/// Errors of the provider.
#[derive(Debug)]
pub enum FlagdError {
    Provider(String),
    Connection(String),
    Config(String),
    Sync(String),
    Parse(String),
    Timeout(String),
    Io(String),
    Json(String),
    Channel(String),
}

/// Errors of the evaluation engine.
#[derive(Debug)]
pub enum FlagdEvaluationError {
    Provider(String),
    Config(String),
    Parse(String),
    Io(String),
    Json(String),
}

/// The engine error that a provider error becomes: the variants that both
/// have carry over, every other one becomes a provider error with the same
/// message.
pub open spec fn engine_error_of(e: FlagdError) -> FlagdEvaluationError {
    match e {
        FlagdError::Provider(s) => FlagdEvaluationError::Provider(s),
        FlagdError::Config(s) => FlagdEvaluationError::Config(s),
        FlagdError::Parse(s) => FlagdEvaluationError::Parse(s),
        FlagdError::Io(s) => FlagdEvaluationError::Io(s),
        FlagdError::Json(s) => FlagdEvaluationError::Json(s),
        FlagdError::Connection(s) => FlagdEvaluationError::Provider(s),
        FlagdError::Sync(s) => FlagdEvaluationError::Provider(s),
        FlagdError::Channel(s) => FlagdEvaluationError::Provider(s),
        FlagdError::Timeout(s) => FlagdEvaluationError::Provider(s),
    }
}

/// The provider error that an engine error becomes: the same variant with
/// the same message.
pub open spec fn provider_error_of(e: FlagdEvaluationError) -> FlagdError {
    match e {
        FlagdEvaluationError::Provider(s) => FlagdError::Provider(s),
        FlagdEvaluationError::Config(s) => FlagdError::Config(s),
        FlagdEvaluationError::Parse(s) => FlagdError::Parse(s),
        FlagdEvaluationError::Io(s) => FlagdError::Io(s),
        FlagdEvaluationError::Json(s) => FlagdError::Json(s),
    }
}

impl From<FlagdError> for FlagdEvaluationError {
    fn from(e: FlagdError) -> (r: FlagdEvaluationError) {
        match e {
            FlagdError::Provider(s) => FlagdEvaluationError::Provider(s),
            FlagdError::Config(s) => FlagdEvaluationError::Config(s),
            FlagdError::Parse(s) => FlagdEvaluationError::Parse(s),
            FlagdError::Io(s) => FlagdEvaluationError::Io(s),
            FlagdError::Json(s) => FlagdEvaluationError::Json(s),
            FlagdError::Connection(s) => FlagdEvaluationError::Provider(s),
            FlagdError::Sync(s) => FlagdEvaluationError::Provider(s),
            FlagdError::Channel(s) => FlagdEvaluationError::Provider(s),
            FlagdError::Timeout(s) => FlagdEvaluationError::Provider(s),
        }
    }
}

impl vstd::std_specs::convert::FromSpecImpl<FlagdError> for FlagdEvaluationError {
    open spec fn obeys_from_spec() -> bool {
        true
    }

    open spec fn from_spec(v: FlagdError) -> FlagdEvaluationError {
        engine_error_of(v)
    }
}

impl From<FlagdEvaluationError> for FlagdError {
    fn from(e: FlagdEvaluationError) -> (r: FlagdError) {
        match e {
            FlagdEvaluationError::Provider(s) => FlagdError::Provider(s),
            FlagdEvaluationError::Config(s) => FlagdError::Config(s),
            FlagdEvaluationError::Parse(s) => FlagdError::Parse(s),
            FlagdEvaluationError::Io(s) => FlagdError::Io(s),
            FlagdEvaluationError::Json(s) => FlagdError::Json(s),
        }
    }
}

impl vstd::std_specs::convert::FromSpecImpl<FlagdEvaluationError> for FlagdError {
    open spec fn obeys_from_spec() -> bool {
        true
    }

    open spec fn from_spec(v: FlagdEvaluationError) -> FlagdError {
        provider_error_of(v)
    }
}

/// Converting an engine error to a provider error and back gives the
/// engine error it started from.
pub proof fn law_engine_error_round_trip(e: FlagdEvaluationError)
    ensures
        engine_error_of(provider_error_of(e)) == e,
{
}

/// How a provider error reads: its kind, then its message.
pub open spec fn error_display(e: FlagdError) -> Seq<char> {
    match e {
        FlagdError::Provider(s) => "Provider error: "@ + s@,
        FlagdError::Connection(s) => "Connection error: "@ + s@,
        FlagdError::Config(s) => "Invalid configuration: "@ + s@,
        FlagdError::Sync(s) => "Sync error: "@ + s@,
        FlagdError::Parse(s) => "Parse error: "@ + s@,
        FlagdError::Timeout(s) => "Timeout: "@ + s@,
        FlagdError::Io(s) => "IO error: "@ + s@,
        FlagdError::Json(s) => "JSON error: "@ + s@,
        FlagdError::Channel(s) => "Channel send error: "@ + s@,
    }
}

impl FlagdError {
    /// How the error reads: its kind, then its message.
    pub fn to_string(&self) -> (r: String)
        ensures
            r@ == error_display(*self),
    {
        let (mut text, message) = match self {
            FlagdError::Provider(s) => ("Provider error: ".to_string(), s),
            FlagdError::Connection(s) => ("Connection error: ".to_string(), s),
            FlagdError::Config(s) => ("Invalid configuration: ".to_string(), s),
            FlagdError::Sync(s) => ("Sync error: ".to_string(), s),
            FlagdError::Parse(s) => ("Parse error: ".to_string(), s),
            FlagdError::Timeout(s) => ("Timeout: ".to_string(), s),
            FlagdError::Io(s) => ("IO error: ".to_string(), s),
            FlagdError::Json(s) => ("JSON error: ".to_string(), s),
            FlagdError::Channel(s) => ("Channel send error: ".to_string(), s),
        };
        text.append(message.as_str());
        text
    }

    /// The message the error carries.
    pub fn message(&self) -> (r: &String)
        ensures
            r == match self {
                FlagdError::Provider(s) => s,
                FlagdError::Connection(s) => s,
                FlagdError::Config(s) => s,
                FlagdError::Sync(s) => s,
                FlagdError::Parse(s) => s,
                FlagdError::Timeout(s) => s,
                FlagdError::Io(s) => s,
                FlagdError::Json(s) => s,
                FlagdError::Channel(s) => s,
            },
    {
        match self {
            FlagdError::Provider(s) => s,
            FlagdError::Connection(s) => s,
            FlagdError::Config(s) => s,
            FlagdError::Sync(s) => s,
            FlagdError::Parse(s) => s,
            FlagdError::Timeout(s) => s,
            FlagdError::Io(s) => s,
            FlagdError::Json(s) => s,
            FlagdError::Channel(s) => s,
        }
    }
}

} // verus!
