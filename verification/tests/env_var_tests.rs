use open_feature_flagd::env_var::{
    resolve_env_bool, resolve_env_int, resolve_env_parsed, resolve_env_string, resolve_env_struct,
};
use open_feature_flagd::evaluation::{ErrorCode, Reason};
use open_feature_flagd::text::{parse_bool, parse_i64};

#[test]
fn env_bool_values() {
    let d = resolve_env_bool(Some("true")).unwrap();
    assert_eq!(d.value, true);
    assert_eq!(d.reason, Reason::Static);
    assert_eq!(resolve_env_bool(Some("false")).unwrap().value, false);
    let e = resolve_env_bool(Some("TRUE")).unwrap_err();
    assert_eq!(e.code, ErrorCode::TypeMismatch);
    assert_eq!(e.message.as_deref(), Some("Error evaluating environment variable"));
    assert_eq!(resolve_env_bool(None).unwrap_err().code, ErrorCode::FlagNotFound);
}

#[test]
fn env_int_values() {
    let max = i64::MAX.to_string();
    let d = resolve_env_int(Some(&max)).unwrap();
    assert_eq!(d.value, i64::MAX);
    assert_eq!(d.reason, Reason::Static);
    let min = i64::MIN.to_string();
    assert_eq!(resolve_env_int(Some(&min)).unwrap().value, i64::MIN);
    assert_eq!(resolve_env_int(Some("+42")).unwrap().value, 42);
    assert_eq!(resolve_env_int(Some("9223372036854775808")).unwrap_err().code, ErrorCode::TypeMismatch);
    assert_eq!(resolve_env_int(Some("1.5")).unwrap_err().code, ErrorCode::TypeMismatch);
    assert_eq!(resolve_env_int(None).unwrap_err().code, ErrorCode::FlagNotFound);
}

#[test]
fn env_string_and_struct() {
    let d = resolve_env_string(Some("flag_value")).unwrap();
    assert_eq!(d.value, "flag_value");
    assert_eq!(d.reason, Reason::Static);
    assert_eq!(resolve_env_string(None).unwrap_err().code, ErrorCode::FlagNotFound);
    let e = resolve_env_struct();
    assert_eq!(e.code, ErrorCode::General("Structs are not supported".to_string()));
}

#[test]
fn parsers_agree_with_std() {
    for t in ["0", "-0", "+7", "-", "+", "", "12a", "-9223372036854775808", "9223372036854775807", "99999999999999999999", " 1"] {
        assert_eq!(parse_i64(t), t.parse::<i64>().ok(), "{:?}", t);
    }
    for t in ["true", "false", "True", "", "1", "false "] {
        assert_eq!(parse_bool(t), t.parse::<bool>().ok(), "{:?}", t);
    }
}

#[test]
fn env_parsed_outcomes() {
    let d = resolve_env_parsed(Some("1.5"), Some(1.5f64)).unwrap();
    assert_eq!(d.value, 1.5);
    assert_eq!(d.reason, Reason::Static);
    let e = resolve_env_parsed::<f64>(Some("abc"), None).unwrap_err();
    assert_eq!(e.code, ErrorCode::TypeMismatch);
    assert_eq!(e.message.as_deref(), Some("Error evaluating environment variable"));
    let e = resolve_env_parsed::<f64>(None, None).unwrap_err();
    assert_eq!(e.code, ErrorCode::FlagNotFound);
}
