use open_feature_flagd::error::FlagdEvaluationError;
use open_feature_flagd::json::JsonValue;
use open_feature_flagd::model::{FeatureFlag, FlagParser, ParsingResult};

fn convert(v: &serde_json::Value) -> JsonValue {
    match v {
        serde_json::Value::Null => JsonValue::Null,
        serde_json::Value::Bool(b) => JsonValue::Bool(*b),
        serde_json::Value::Number(n) => match n.as_i64() {
            Some(i) => JsonValue::Int(i),
            None => JsonValue::Float(n.as_f64().unwrap().to_bits()),
        },
        serde_json::Value::String(s) => JsonValue::Str(s.clone()),
        serde_json::Value::Array(items) => JsonValue::Array(items.iter().map(convert).collect()),
        serde_json::Value::Object(map) => {
            JsonValue::Object(map.iter().map(|(k, v)| (k.clone(), convert(v))).collect())
        },
    }
}

fn json(text: &str) -> JsonValue {
    convert(&serde_json::from_str::<serde_json::Value>(text).unwrap())
}

fn parse_string(config: &str) -> Result<ParsingResult, FlagdEvaluationError> {
    FlagParser::parse(&json(config), true)
}

fn flag<'a>(result: &'a ParsingResult, key: &str) -> &'a FeatureFlag {
    &result.flags.iter().find(|(k, _)| k == key).unwrap().1
}

fn member<'a>(entries: &'a [(String, JsonValue)], key: &str) -> &'a JsonValue {
    &entries.iter().find(|(k, _)| k == key).unwrap().1
}

#[test]
fn parse_string_transposes_evaluator_refs() {
    let config = r#"{
        "$evaluators": {
            "emailSuffix": { "ends_with": [{ "var": "email" }, "@example.com"] }
        },
        "flags": {
            "my-flag": {
                "state": "ENABLED",
                "variants": {
                    "variant-a": "a",
                    "variant-b": "b"
                },
                "defaultVariant": "variant-b",
                "targeting": {
                    "if": [{ "$ref": "emailSuffix" }, "variant-a", "variant-b"]
                }
            }
        }
    }"#;

    let result = parse_string(config).unwrap();
    let flag = flag(&result, "my-flag");

    assert_eq!(
        flag.targeting.as_ref().unwrap(),
        &json(
            r#"{
            "if": [
                { "ends_with": [{ "var": "email" }, "@example.com"] },
                "variant-a",
                "variant-b"
            ]
        }"#
        )
    );
}

#[test]
fn parse_string_rejects_missing_evaluator_refs() {
    let config = r#"{
        "flags": {
            "my-flag": {
                "state": "ENABLED",
                "variants": {
                    "variant-a": "a",
                    "variant-b": "b"
                },
                "defaultVariant": "variant-b",
                "targeting": {
                    "if": [{ "$ref": "emailSuffix" }, "variant-a", "variant-b"]
                }
            }
        }
    }"#;

    let result = parse_string(config);

    assert!(result.is_err());
}

#[test]
fn parse_string_only_transposes_refs_in_targeting_rules() {
    let config = r#"{
        "$evaluators": {
            "emailSuffix": { "ends_with": [{ "var": "email" }, "@example.com"] }
        },
        "flags": {
            "my-flag": {
                "state": "ENABLED",
                "variants": {
                    "variant-a": { "$ref": "external-id" },
                    "variant-b": "b"
                },
                "defaultVariant": "variant-b",
                "metadata": {
                    "owner": { "$ref": "external-owner" }
                },
                "targeting": {
                    "if": [{ "$ref": "emailSuffix" }, "variant-a", "variant-b"]
                }
            }
        },
        "metadata": {
            "source": { "$ref": "external-source" }
        }
    }"#;

    let result = parse_string(config).unwrap();
    let flag = flag(&result, "my-flag");

    assert_eq!(member(&flag.variants, "variant-a"), &json(r#"{ "$ref": "external-id" }"#));
    assert_eq!(member(&flag.metadata, "owner"), &json(r#"{ "$ref": "external-owner" }"#));
    assert_eq!(member(&result.flag_set_metadata, "source"), &json(r#"{ "$ref": "external-source" }"#));
    assert_eq!(
        flag.targeting.as_ref().unwrap(),
        &json(
            r#"{
            "if": [
                { "ends_with": [{ "var": "email" }, "@example.com"] },
                "variant-a",
                "variant-b"
            ]
        }"#
        )
    );
}

#[test]
fn parse_rejects_circular_references() {
    let config = r#"{
        "$evaluators": { "a": { "$ref": "b" }, "b": { "$ref": "a" } },
        "flags": { "f": { "state": "ENABLED", "variants": {"on": true}, "defaultVariant": "on",
                          "targeting": { "$ref": "a" } } }
    }"#;
    match parse_string(config) {
        Err(FlagdEvaluationError::Parse(m)) => assert_eq!(m, "Circular evaluator reference detected: a"),
        other => panic!("unexpected: {:?}", other.is_ok()),
    }
    let missing = r#"{ "flags": { "f": { "state": "ENABLED", "variants": {}, "defaultVariant": "on",
                          "targeting": { "$ref": "x" } } } }"#;
    match parse_string(missing) {
        Err(FlagdEvaluationError::Parse(m)) => assert_eq!(m, "Evaluator reference 'x' was not found"),
        other => panic!("unexpected: {:?}", other.is_ok()),
    }
}

#[test]
fn parse_reports_structure_errors() {
    match parse_string("[]") {
        Err(FlagdEvaluationError::Parse(m)) => assert_eq!(m, "Invalid JSON structure"),
        _ => panic!("expected a parse error"),
    }
    match parse_string("{}") {
        Err(FlagdEvaluationError::Parse(m)) => assert_eq!(m, "No flag configurations found in the payload"),
        _ => panic!("expected a parse error"),
    }
    let bad = r#"{ "flags": { "f": { "state": "ENABLED", "variants": {} } } }"#;
    assert!(matches!(parse_string(bad), Err(FlagdEvaluationError::Json(_))));
    let bad_metadata = r#"{ "flags": { "f": { "state": "ENABLED", "defaultVariant": "on", "variants": {}, "metadata": null } } }"#;
    assert!(matches!(parse_string(bad_metadata), Err(FlagdEvaluationError::Json(_))));
}

#[test]
fn parse_without_transposition_keeps_references() {
    let config = r#"{ "flags": { "f": { "state": "ENABLED", "variants": {"on": true}, "defaultVariant": "on",
                          "targeting": { "$ref": "x" } } } }"#;
    let result = FlagParser::parse(&json(config), false).unwrap();
    assert_eq!(flag(&result, "f").targeting.as_ref().unwrap(), &json(r#"{ "$ref": "x" }"#));
}

#[test]
fn null_targeting_is_no_rule() {
    let config = r#"{ "flags": { "f": { "state": "ENABLED", "variants": {"on": true}, "defaultVariant": "on",
                          "targeting": null } } }"#;
    let result = parse_string(config).unwrap();
    let f = flag(&result, "f");
    assert!(f.targeting.is_none());
    assert!(!f.has_targeting());
    assert_eq!(f.get_targeting(), JsonValue::Object(vec![]));
}

#[test]
fn configuration_without_references_parses_the_same_either_way() {
    let config = json(r#"{
        "$evaluators": { "unused": { "==": [1, 1] } },
        "flags": {
            "a": {
                "state": "ENABLED",
                "variants": { "on": true, "off": false },
                "defaultVariant": "off",
                "targeting": { "if": [{ "==": [{ "var": "email" }, "x@y.z"] }, "on", "off"] }
            },
            "b": { "state": "DISABLED", "variants": { "v": 1 }, "defaultVariant": "v" }
        },
        "metadata": { "version": "1" }
    }"#);
    let with = FlagParser::parse(&config, true).unwrap();
    let without = FlagParser::parse(&config, false).unwrap();
    assert_eq!(with.flags.len(), without.flags.len());
    for ((k1, f1), (k2, f2)) in with.flags.iter().zip(without.flags.iter()) {
        assert_eq!(k1, k2);
        assert_eq!(f1.targeting, f2.targeting);
        assert_eq!(f1.variants, f2.variants);
        assert_eq!(f1.state, f2.state);
    }
    assert_eq!(with.flag_set_metadata, without.flag_set_metadata);
}
