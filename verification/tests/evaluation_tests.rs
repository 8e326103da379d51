use open_feature_flagd::error::FlagdError;
use open_feature_flagd::evaluation::{
    answer_from_cache, in_process_cache_value, value_to_cache, decide_flag, grpc_error_code, json_to_value, map_error_code, map_reason, resolve_flag, result_to_details,
    ErrorCode, EvaluationResult, EvaluatorErrorCode, EvaluatorReason, FlagDecision, Reason, ResolvedValue, StructField,
    ValueKind,
};
use open_feature_flagd::json::JsonValue;
use open_feature_flagd::model::FeatureFlag;
use open_feature_flagd::resolver::rpc::{map_grpc_status_to_error_code, GrpcStatus};
use open_feature_flagd::value::FlagValue;
use tonic::Code;

fn flag(state: &str, targeting: Option<JsonValue>) -> FeatureFlag {
    FeatureFlag {
        state: state.to_string(),
        default_variant: "off".to_string(),
        variants: vec![
            ("on".to_string(), JsonValue::Bool(true)),
            ("off".to_string(), JsonValue::Bool(false)),
            ("num".to_string(), JsonValue::Int(42)),
            (
                "obj".to_string(),
                JsonValue::Object(vec![
                    ("k".to_string(), JsonValue::Str("v".to_string())),
                    ("n".to_string(), JsonValue::Null),
                ]),
            ),
        ],
        targeting,
        metadata: vec![],
    }
}

#[test]
fn missing_and_disabled_flags_are_not_found() {
    let r = resolve_flag("f", None, None, ValueKind::Boolean).unwrap_err();
    assert_eq!(r.code, ErrorCode::FlagNotFound);
    assert_eq!(r.message.as_deref(), Some("Flag f not found"));
    let disabled = flag("DISABLED", None);
    let r = resolve_flag("f", Some(&disabled), None, ValueKind::Boolean).unwrap_err();
    assert_eq!(r.message.as_deref(), Some("Flag f is disabled"));
}

#[test]
fn default_variant_without_targeting() {
    let f = flag("ENABLED", None);
    assert!(matches!(decide_flag("f", Some(&f)), FlagDecision::UseDefault));
    let r = resolve_flag("f", Some(&f), None, ValueKind::Boolean).unwrap();
    assert_eq!(r.value, ResolvedValue::Bool(false));
    assert_eq!(r.variant.as_deref(), Some("off"));
    assert_eq!(r.reason, Some(Reason::TargetingMatch));
    let empty_rule = flag("ENABLED", Some(JsonValue::Object(vec![])));
    assert!(matches!(decide_flag("f", Some(&empty_rule)), FlagDecision::UseDefault));
}

#[test]
fn targeting_outcome_selects_variant() {
    let rule = JsonValue::Object(vec![("var".to_string(), JsonValue::Str("x".to_string()))]);
    let f = flag("ENABLED", Some(rule));
    assert!(matches!(decide_flag("f", Some(&f)), FlagDecision::Evaluate(_)));
    let r = resolve_flag("f", Some(&f), Some(Ok(Some("on".to_string()))), ValueKind::Boolean).unwrap();
    assert_eq!(r.value, ResolvedValue::Bool(true));
    let r = resolve_flag("f", Some(&f), Some(Ok(None)), ValueKind::Boolean).unwrap();
    assert_eq!(r.variant.as_deref(), Some("off"));
    let e = resolve_flag("f", Some(&f), Some(Err(FlagdError::Provider("bad rule".to_string()))), ValueKind::Boolean)
        .unwrap_err();
    assert_eq!(e.code, ErrorCode::General("Provider error: bad rule".to_string()));
    assert_eq!(e.message.as_deref(), Some("Provider error: bad rule"));
    let e = resolve_flag("f", Some(&f), Some(Ok(Some("nope".to_string()))), ValueKind::Boolean).unwrap_err();
    assert_eq!(e.code, ErrorCode::TypeMismatch);
    assert_eq!(e.message.as_deref(), Some("Value for flag f is not a boolean"));
}

#[test]
fn values_convert_by_kind() {
    let rule = JsonValue::Object(vec![("var".to_string(), JsonValue::Str("x".to_string()))]);
    let f = flag("ENABLED", Some(rule));
    let r = resolve_flag("f", Some(&f), Some(Ok(Some("num".to_string()))), ValueKind::Integer).unwrap();
    assert_eq!(r.value, ResolvedValue::Int(42));
    let r = resolve_flag("f", Some(&f), Some(Ok(Some("num".to_string()))), ValueKind::Float).unwrap();
    assert_eq!(r.value, ResolvedValue::Number(42));
    let e = resolve_flag("f", Some(&f), Some(Ok(Some("num".to_string()))), ValueKind::Str).unwrap_err();
    assert_eq!(e.message.as_deref(), Some("Value for flag f is not a string"));
    let r = resolve_flag("f", Some(&f), Some(Ok(Some("obj".to_string()))), ValueKind::Struct).unwrap();
    match r.value {
        ResolvedValue::Struct(fields) => {
            assert_eq!(fields[0], ("k".to_string(), StructField::Str("v".to_string())));
            assert_eq!(fields[1], ("n".to_string(), StructField::Text(JsonValue::Null)));
        },
        _ => panic!("expected a structure"),
    }
}

#[test]
fn grpc_codes_map_to_error_codes() {
    assert_eq!(grpc_error_code(5), ErrorCode::FlagNotFound);
    assert_eq!(grpc_error_code(3), ErrorCode::InvalidContext);
    assert_eq!(grpc_error_code(16), ErrorCode::General("authentication/authorization error".to_string()));
    assert_eq!(grpc_error_code(9), ErrorCode::TypeMismatch);
    assert_eq!(grpc_error_code(4), ErrorCode::General("request timeout or cancelled".to_string()));
    assert_eq!(grpc_error_code(14), ErrorCode::General("service unavailable".to_string()));
    assert_eq!(grpc_error_code(13), ErrorCode::General("Internal".to_string()));
}

#[test]
fn test_grpc_error_code_mapping() {

    let status = GrpcStatus { code: Code::NotFound as i32, message: "Flag not found".to_string() };
    let error_code = map_grpc_status_to_error_code(&status);
    assert!(matches!(error_code, ErrorCode::FlagNotFound));

    let status = GrpcStatus { code: Code::InvalidArgument as i32, message: "Invalid context".to_string() };
    let error_code = map_grpc_status_to_error_code(&status);
    assert!(matches!(error_code, ErrorCode::InvalidContext));

    let status = GrpcStatus { code: Code::Unauthenticated as i32, message: "Not authenticated".to_string() };
    let error_code = map_grpc_status_to_error_code(&status);
    assert!(matches!(error_code, ErrorCode::General(_)));

    let status = GrpcStatus { code: Code::PermissionDenied as i32, message: "Access denied".to_string() };
    let error_code = map_grpc_status_to_error_code(&status);
    assert!(matches!(error_code, ErrorCode::General(_)));

    let status = GrpcStatus { code: Code::FailedPrecondition as i32, message: "Type mismatch".to_string() };
    let error_code = map_grpc_status_to_error_code(&status);
    assert!(matches!(error_code, ErrorCode::TypeMismatch));

    let status = GrpcStatus { code: Code::DeadlineExceeded as i32, message: "Timeout".to_string() };
    let error_code = map_grpc_status_to_error_code(&status);
    assert!(matches!(error_code, ErrorCode::General(_)));

    let status = GrpcStatus { code: Code::Unavailable as i32, message: "Service unavailable".to_string() };
    let error_code = map_grpc_status_to_error_code(&status);
    assert!(matches!(error_code, ErrorCode::General(_)));

    let status = GrpcStatus { code: Code::Unavailable as i32, message: "Service unavailable".to_string() };
    assert_eq!(map_grpc_status_to_error_code(&status), ErrorCode::General("service unavailable".to_string()));
    let status = GrpcStatus { code: Code::Internal as i32, message: "boom".to_string() };
    assert_eq!(map_grpc_status_to_error_code(&status), ErrorCode::General("Internal".to_string()));
}

#[test]
fn evaluator_results_map_to_details() {
    assert_eq!(map_reason(EvaluatorReason::Fallback), Some(Reason::Error));
    assert_eq!(map_reason(EvaluatorReason::Static), Some(Reason::Static));
    assert_eq!(map_error_code(EvaluatorErrorCode::General), ErrorCode::General("Evaluation error".to_string()));
    let ok = EvaluationResult {
        value: JsonValue::Int(3),
        variant: Some("v".to_string()),
        reason: EvaluatorReason::TargetingMatch,
        error_code: None,
        error_message: None,
        flag_metadata: Some(vec![
            ("a".to_string(), JsonValue::Int(1)),
            ("b".to_string(), JsonValue::Array(vec![])),
        ]),
    };
    let d = result_to_details(&ok, ValueKind::Integer).unwrap();
    assert_eq!(d.value, ResolvedValue::Int(3));
    assert_eq!(d.flag_metadata.unwrap().len(), 1);
    assert!(result_to_details(&ok, ValueKind::Boolean).is_err());
    let failed = EvaluationResult {
        value: JsonValue::Null,
        variant: None,
        reason: EvaluatorReason::Error,
        error_code: Some(EvaluatorErrorCode::ParseError),
        error_message: Some("broken".to_string()),
        flag_metadata: None,
    };
    let e = result_to_details(&failed, ValueKind::Integer).unwrap_err();
    assert_eq!(e.code, ErrorCode::ParseError);
    assert_eq!(e.message.as_deref(), Some("broken"));
}

#[test]
fn json_values_become_flag_values() {
    assert_eq!(json_to_value(&JsonValue::Null), FlagValue::Str(String::new()));
    assert_eq!(
        json_to_value(&JsonValue::Array(vec![JsonValue::Int(1), JsonValue::Bool(false)])),
        FlagValue::Array(vec![FlagValue::Int(1), FlagValue::Bool(false)])
    );
}

#[test]
fn provider_errors_read_with_their_kind() {
    assert_eq!(FlagdError::Provider("x".to_string()).to_string(), "Provider error: x");
    assert_eq!(FlagdError::Connection("x".to_string()).to_string(), "Connection error: x");
    assert_eq!(FlagdError::Config("x".to_string()).to_string(), "Invalid configuration: x");
    assert_eq!(FlagdError::Sync("x".to_string()).to_string(), "Sync error: x");
    assert_eq!(FlagdError::Parse("x".to_string()).to_string(), "Parse error: x");
    assert_eq!(FlagdError::Timeout("x".to_string()).to_string(), "Timeout: x");
    assert_eq!(FlagdError::Io("x".to_string()).to_string(), "IO error: x");
    assert_eq!(FlagdError::Json("x".to_string()).to_string(), "JSON error: x");
    assert_eq!(FlagdError::Channel("x".to_string()).to_string(), "Channel send error: x");
}

#[test]
fn cache_hits_answer_with_the_cached_reason() {
    let hit = answer_from_cache(&FlagValue::Bool(true), ValueKind::Boolean).unwrap();
    assert_eq!(hit.value, ResolvedValue::Bool(true));
    assert_eq!(hit.reason, Some(Reason::Cached));
    assert_eq!(hit.variant, None);
    let hit = answer_from_cache(&FlagValue::Str("hello".to_string()), ValueKind::Str).unwrap();
    assert_eq!(hit.value, ResolvedValue::Str("hello".to_string()));
    let hit = answer_from_cache(&FlagValue::Int(7), ValueKind::Float).unwrap();
    assert_eq!(hit.value, ResolvedValue::Number(7));
    assert!(answer_from_cache(&FlagValue::Int(7), ValueKind::Boolean).is_none());
    assert!(answer_from_cache(&FlagValue::Str("true".to_string()), ValueKind::Boolean).is_none());
}

#[test]
fn only_successful_primitive_resolutions_are_cached() {
    let f = flag("ENABLED", None);
    let ok = resolve_flag("k", Some(&f), None, ValueKind::Boolean);
    assert_eq!(value_to_cache(&f, &ok), Some(FlagValue::Bool(false)));
    let failed = resolve_flag("k", Some(&f), None, ValueKind::Str);
    assert!(failed.is_err());
    assert_eq!(value_to_cache(&f, &failed), None);
    let rule = JsonValue::Object(vec![("var".to_string(), JsonValue::Str("x".to_string()))]);
    let f = flag("ENABLED", Some(rule));
    let chosen = resolve_flag("k", Some(&f), Some(Ok(Some("obj".to_string()))), ValueKind::Struct);
    assert!(chosen.is_ok());
    assert_eq!(value_to_cache(&f, &chosen), None);
    let num = resolve_flag("k", Some(&f), Some(Ok(Some("num".to_string()))), ValueKind::Integer);
    let cached = value_to_cache(&f, &num).unwrap();
    assert_eq!(cached, FlagValue::Int(42));
    let hit = answer_from_cache(&cached, ValueKind::Integer).unwrap();
    assert_eq!(hit.value, num.unwrap().value);
    assert_eq!(in_process_cache_value(&JsonValue::Null), None);
}
