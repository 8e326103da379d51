use datalogic_rs::Engine;
use open_feature_flagd::error::FlagdError;
use open_feature_flagd::json::JsonValue;
use open_feature_flagd::json_text::{float_json_text, to_json_text};
use open_feature_flagd::targeting::context::{ContextValue, EvalContext};
use open_feature_flagd::targeting::rule::{apply_rule, rule_data, rule_outcome, run_rule, RuleRun, RuleValue};

fn ctx() -> EvalContext {
    EvalContext {
        targeting_key: Some("user-1".to_string()),
        custom_fields: vec![
            ("color".to_string(), ContextValue::Str("red".to_string())),
            ("score".to_string(), ContextValue::Float(1.5f64.to_bits())),
        ],
    }
}

#[test]
fn rule_text_that_is_no_json_is_a_json_error() {
    let engine = Engine::new();
    match apply_rule(&engine, "f", "{not json", &ctx(), 0) {
        Err(FlagdError::Json(m)) => assert!(!m.is_empty()),
        other => panic!("expected a JSON error, got {:?}", other),
    }
}

#[test]
fn rules_read_the_context() {
    let engine = Engine::new();
    assert_eq!(apply_rule(&engine, "f", r#"{"var": "color"}"#, &ctx(), 0).unwrap(), Some("red".to_string()));
    let rule = r#"{"if": [{"==": [{"var": "targetingKey"}, "user-1"]}, "on", null]}"#;
    assert_eq!(apply_rule(&engine, "f", rule, &ctx(), 0).unwrap(), Some("on".to_string()));
    let rule = r#"{"if": [{"==": [{"var": "targetingKey"}, "user-2"]}, "on", null]}"#;
    assert_eq!(apply_rule(&engine, "f", rule, &ctx(), 0).unwrap(), None);
    let rule = r#"{">": [{"var": "score"}, 1.4]}"#;
    assert_eq!(apply_rule(&engine, "f", rule, &ctx(), 0).unwrap(), Some("true".to_string()));
    let rule = r#"{"<": [{"var": "score"}, 1.5]}"#;
    assert_eq!(apply_rule(&engine, "f", rule, &ctx(), 0).unwrap(), Some("false".to_string()));
    let rule = r#"{"var": "$flagd.flagKey"}"#;
    assert_eq!(apply_rule(&engine, "my-flag", rule, &ctx(), 7).unwrap(), Some("my-flag".to_string()));
    let rule = r#"{"var": "$flagd.timestamp"}"#;
    assert_eq!(apply_rule(&engine, "my-flag", rule, &ctx(), 7).unwrap(), Some("7".to_string()));
}

#[test]
fn rule_data_is_the_context_document() {
    let text = rule_data("f", &ctx(), 3);
    let parsed: serde_json::Value = serde_json::from_str(&text).unwrap();
    assert_eq!(parsed["targetingKey"], "user-1");
    assert_eq!(parsed["$flagd"]["flagKey"], "f");
    assert_eq!(parsed["$flagd"]["timestamp"], 3);
    assert_eq!(parsed["color"], "red");
    assert_eq!(parsed["score"].as_f64(), Some(1.5));
}

#[test]
fn rule_outcomes() {
    match rule_outcome(RuleRun::NotCompiled("bad".to_string())) {
        Err(FlagdError::Provider(m)) => assert_eq!(m, "Failed to compile targeting rule: bad"),
        other => panic!("unexpected {:?}", other),
    }
    assert_eq!(rule_outcome(RuleRun::Failed("x".to_string())).unwrap(), None);
    assert_eq!(rule_outcome(RuleRun::Value(RuleValue::Null)).unwrap(), None);
    assert_eq!(rule_outcome(RuleRun::Value(RuleValue::Str("v".to_string()))).unwrap(), Some("v".to_string()));
    assert_eq!(rule_outcome(RuleRun::Value(RuleValue::Other("42".to_string()))).unwrap(), Some("42".to_string()));
    let engine = Engine::new();
    assert!(matches!(run_rule(&engine, r#"{"var": "a"}"#, r#"{"a": 1}"#), RuleRun::Value(RuleValue::Other(ref t)) if t == "1"));
    assert!(matches!(run_rule(&engine, r#"{"var": "a"}"#, r#"{"a": "s"}"#), RuleRun::Value(RuleValue::Str(ref t)) if t == "s"));
}

#[test]
fn failed_evaluations_name_no_variant() {
    let engine = Engine::new();
    assert_eq!(apply_rule(&engine, "f", r#"{"no_such_operator": [1, 2]}"#, &ctx(), 0).unwrap(), None);
    assert!(matches!(run_rule(&engine, r#"{"no_such_operator": [1, 2]}"#, "{}"), RuleRun::Failed(_)));
}

#[test]
fn doubles_are_written_exactly() {
    for x in [0.0f64, -0.0, 1.0, 1.5, -2.25, 0.1, 1e300, 5e-324, 123456.789, f64::MAX, f64::MIN_POSITIVE, 3.0e20] {
        let text = float_json_text(x.to_bits());
        let back: f64 = text.parse().unwrap();
        assert_eq!(back.to_bits(), x.to_bits(), "{} -> {}", x, text);
    }
    assert_eq!(float_json_text(0.0f64.to_bits()), "0E-1074");
    assert_eq!(float_json_text(1.0f64.to_bits()), format!("1{}E-52", "0".repeat(52)));
    assert_eq!(float_json_text(9007199254740992.0f64.to_bits()), "9007199254740992");
    assert_eq!(float_json_text((-9007199254740992.0f64).to_bits()), "-9007199254740992");
}

#[test]
fn documents_are_written_as_json() {
    let doc = JsonValue::Object(vec![
        ("s".to_string(), JsonValue::Str("a\"b\\c\nd\u{1}é".to_string())),
        ("a".to_string(), JsonValue::Array(vec![JsonValue::Int(-5), JsonValue::Bool(true), JsonValue::Null])),
        ("f".to_string(), JsonValue::Float(0.5f64.to_bits())),
        ("n".to_string(), JsonValue::Float(f64::NAN.to_bits())),
        ("e".to_string(), JsonValue::Object(vec![])),
    ]);
    let text = to_json_text(&doc);
    let parsed: serde_json::Value = serde_json::from_str(&text).unwrap();
    assert_eq!(parsed["s"], "a\"b\\c\nd\u{1}é");
    assert_eq!(
        parsed["a"],
        serde_json::Value::Array(vec![serde_json::Value::from(-5), serde_json::Value::Bool(true), serde_json::Value::Null])
    );
    assert_eq!(parsed["f"].as_f64(), Some(0.5));
    assert!(parsed["n"].is_null());
    assert_eq!(parsed["e"], serde_json::Value::Object(serde_json::Map::new()));
    assert!(text.starts_with("{\"s\":\"a\\\"b\\\\c\\u000ad\\u0001é\","), "{}", text);
}
