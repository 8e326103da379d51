use open_feature_flagd::json::JsonValue;
use open_feature_flagd::targeting::context::{build_context, build_context_json, ContextValue, EvalContext};
use open_feature_flagd::targeting::fractional::{bucket_for, fractional_fn, FractionalOperator};
use open_feature_flagd::targeting::semver::SemVerOperator;
use open_feature_flagd::targeting::string_comp::{StringComp, StringCompType};
use open_feature_flagd::value::FlagValue;

fn s(x: &str) -> JsonValue {
    JsonValue::Str(x.to_string())
}

fn obj(entries: Vec<(&str, JsonValue)>) -> JsonValue {
    JsonValue::Object(entries.into_iter().map(|(k, v)| (k.to_string(), v)).collect())
}

fn get<'a>(v: &'a JsonValue, key: &str) -> Option<&'a JsonValue> {
    v.get(key)
}

#[test]
fn bucket_for_uses_signed_murmurhash_ratio() {
    let (hash, point) = bucket_for("flag-user");
    let bucket = point as f64 / i32::MAX as f64 * 100.0;

    assert_eq!(hash, 2_410_693_464);
    assert!((bucket - 87.74333786579935).abs() < 1e-9);
}

fn data(flag_key: &str, targeting_key: &str) -> JsonValue {
    obj(vec![
        ("targetingKey", s(targeting_key)),
        ("$flagd", obj(vec![("flagKey", s(flag_key)), ("timestamp", JsonValue::Int(0))])),
    ])
}

#[test]
fn fractional_picks_bucket_by_point() {
    // "flag-user" has point 87.74...% of i32::MAX
    let op = FractionalOperator;
    let args = vec![
        JsonValue::Array(vec![s("a"), JsonValue::Int(50)]),
        JsonValue::Array(vec![s("b"), JsonValue::Int(50)]),
    ];
    assert_eq!(op.evaluate(&args, &data("flag", "-user")), s("b"));
    let args = vec![
        JsonValue::Array(vec![s("a"), JsonValue::Int(90)]),
        JsonValue::Array(vec![s("b"), JsonValue::Int(10)]),
    ];
    assert_eq!(op.evaluate(&args, &data("flag", "-user")), s("a"));
    // an explicit bucketing key comes first
    let args = vec![
        s("flag-user"),
        JsonValue::Array(vec![s("a"), JsonValue::Int(88)]),
        JsonValue::Array(vec![s("b"), JsonValue::Int(12)]),
    ];
    assert_eq!(op.evaluate(&args, &JsonValue::Null), s("a"));
}

#[test]
fn fractional_edge_cases() {
    let op = FractionalOperator;
    assert_eq!(op.evaluate(&[], &JsonValue::Null), JsonValue::Null);
    assert_eq!(op.evaluate(&[s("key")], &JsonValue::Null), JsonValue::Null);
    let zero = vec![JsonValue::Array(vec![s("a"), JsonValue::Int(0)])];
    assert_eq!(op.evaluate(&zero, &data("f", "u")), JsonValue::Null);
    // a bucket without a weight weighs one
    let single = vec![JsonValue::Array(vec![s("only")])];
    assert_eq!(op.evaluate(&single, &data("f", "u")), s("only"));
}

#[test]
fn fractional_fn_uses_unsigned_share() {
    // 2410693464 / 4294967295 = 56.13%
    let args = vec![
        s("flag-user"),
        JsonValue::Array(vec![s("a"), JsonValue::Int(56)]),
        JsonValue::Array(vec![s("b"), JsonValue::Int(44)]),
    ];
    assert_eq!(fractional_fn(&args, &JsonValue::Null).unwrap(), s("b"));
    let args = vec![
        s("flag-user"),
        JsonValue::Array(vec![s("a"), JsonValue::Int(57)]),
        JsonValue::Array(vec![s("b"), JsonValue::Int(43)]),
    ];
    assert_eq!(fractional_fn(&args, &JsonValue::Null).unwrap(), s("a"));
    // entries need a weight
    let args = vec![s("k"), JsonValue::Array(vec![s("a")])];
    assert_eq!(fractional_fn(&args, &JsonValue::Null).unwrap(), JsonValue::Null);
    // a zero total picks a first bucket of positive weight
    let args = vec![
        s("k"),
        JsonValue::Array(vec![s("a"), JsonValue::Int(5)]),
        JsonValue::Array(vec![s("b"), JsonValue::Int(-5)]),
    ];
    assert_eq!(fractional_fn(&args, &JsonValue::Null).unwrap(), s("a"));
}

#[test]
fn semver_comparisons() {
    let op = SemVerOperator;
    let cmp = |a: &str, o: &str, b: &str| op.evaluate(&[s(a), s(o), s(b)], &JsonValue::Null);
    assert_eq!(cmp("1.0.0", "=", "1.0.0"), JsonValue::Bool(true));
    assert_eq!(cmp("1.0.0", "!=", "1.0.1"), JsonValue::Bool(true));
    assert_eq!(cmp("1.2.3", "<", "1.10.0"), JsonValue::Bool(true));
    assert_eq!(cmp("2.0.0", "<=", "1.9.9"), JsonValue::Bool(false));
    assert_eq!(cmp("1.0.0", ">", "1.0.0-alpha"), JsonValue::Bool(true));
    assert_eq!(cmp("1.0.0", ">=", "1.0.0"), JsonValue::Bool(true));
    assert_eq!(cmp("1.5.0", "^", "1.0.0"), JsonValue::Bool(true));
    assert_eq!(cmp("1.5.0", "~", "1.4.0"), JsonValue::Bool(false));
    assert_eq!(cmp("1.0", "=", "1.0.0"), JsonValue::Null);
    assert_eq!(cmp("1.0.0", "<>", "1.0.0"), JsonValue::Null);
    assert_eq!(op.evaluate(&[s("1.0.0"), s("=")], &JsonValue::Null), JsonValue::Null);
}

#[test]
fn semver_resolves_variable_references() {
    let op = SemVerOperator;
    let data = obj(vec![
        ("version", s("2.1.0")),
        ("$flagd", obj(vec![("flagKey", s("3.0.0"))])),
    ]);
    let var = |name: &str| obj(vec![("var", s(name))]);
    assert_eq!(op.evaluate(&[var("version"), s(">="), s("2.0.0")], &data), JsonValue::Bool(true));
    assert_eq!(op.evaluate(&[var("$flagd.flagKey"), s(">"), var("version")], &data), JsonValue::Bool(true));
    assert_eq!(op.evaluate(&[var("missing"), s("="), s("1.0.0")], &data), JsonValue::Null);
}

#[test]
fn string_comparisons() {
    let r = StringComp::evaluate(StringCompType::StartsWith, &[s("user@example.com"), s("user")]).unwrap();
    assert_eq!(r, JsonValue::Bool(true));
    let r = StringComp::evaluate(StringCompType::EndsWith, &[s("user@example.com"), s("@example.com")]).unwrap();
    assert_eq!(r, JsonValue::Bool(true));
    let r = StringComp::evaluate(StringCompType::EndsWith, &[s("a"), s("ab")]).unwrap();
    assert_eq!(r, JsonValue::Bool(false));
    let r = StringComp::evaluate(StringCompType::StartsWith, &[s("a"), JsonValue::Int(1)]).unwrap();
    assert_eq!(r, JsonValue::Null);
    let r = StringComp::evaluate(StringCompType::StartsWith, &[s("a")]).unwrap();
    assert_eq!(r, JsonValue::Null);
}

#[test]
fn mod_test_build_context_with_targeting_key() {
    let ctx = EvalContext { targeting_key: Some("user-123".to_string()), custom_fields: vec![] };

    let result = build_context("test-flag", &ctx, 1700000000);

    assert!(matches!(result, JsonValue::Object(_)));
    assert_eq!(get(&result, "targetingKey"), Some(&s("user-123")));
    assert!(get(&result, "$flagd").is_some());

    let flagd = get(&result, "$flagd").unwrap();
    assert_eq!(get(flagd, "flagKey"), Some(&s("test-flag")));
    assert!(get(flagd, "timestamp").is_some());
}

#[test]
fn mod_test_build_context_with_custom_fields() {
    let ctx = EvalContext {
        targeting_key: None,
        custom_fields: vec![
            ("string_field".to_string(), ContextValue::Str("value".to_string())),
            ("int_field".to_string(), ContextValue::Int(42)),
            ("bool_field".to_string(), ContextValue::Bool(true)),
            ("float_field".to_string(), ContextValue::Float(3.14f64.to_bits())),
        ],
    };

    let result = build_context("test-flag", &ctx, 0);

    assert_eq!(get(&result, "string_field"), Some(&s("value")));
    assert_eq!(get(&result, "int_field"), Some(&JsonValue::Int(42)));
    assert_eq!(get(&result, "bool_field"), Some(&JsonValue::Bool(true)));
    assert_eq!(get(&result, "float_field"), Some(&JsonValue::Float(3.14f64.to_bits())));
}

#[test]
fn build_context_fields_replace_earlier_entries() {
    let ctx = EvalContext {
        targeting_key: Some("a".to_string()),
        custom_fields: vec![
            ("targetingKey".to_string(), ContextValue::Str("b".to_string())),
            ("nan".to_string(), ContextValue::Float(f64::NAN.to_bits())),
        ],
    };
    let result = build_context("f", &ctx, 7);
    assert_eq!(get(&result, "targetingKey"), Some(&s("b")));
    assert_eq!(get(&result, "nan"), Some(&JsonValue::Null));
    let plain = build_context_json(&ctx);
    assert!(get(&plain, "$flagd").is_none());
    assert_eq!(get(&plain, "nan"), Some(&JsonValue::Float(0)));
}

#[test]
fn mod_test_open_feature_value_to_json_primitives() {
    assert_eq!(FlagValue::Str("test".to_string()).to_json(), s("test"));
    assert_eq!(FlagValue::Bool(true).to_json(), JsonValue::Bool(true));
    assert_eq!(FlagValue::Int(42).to_json(), JsonValue::Int(42));
    assert_eq!(FlagValue::Float(3.14f64.to_bits()).to_json(), JsonValue::Float(3.14f64.to_bits()));
}

#[test]
fn mod_test_struct_value_to_json() {
    let fields = vec![
        ("name".to_string(), FlagValue::Str("test".to_string())),
        ("count".to_string(), FlagValue::Int(5)),
        ("enabled".to_string(), FlagValue::Bool(true)),
    ];
    let result = FlagValue::Struct(fields).to_json();

    assert!(matches!(result, JsonValue::Object(_)));
    assert_eq!(get(&result, "name"), Some(&s("test")));
    assert_eq!(get(&result, "count"), Some(&JsonValue::Int(5)));
    assert_eq!(get(&result, "enabled"), Some(&JsonValue::Bool(true)));
}

#[test]
fn mod_test_nested_struct_value_to_json() {
    let inner = FlagValue::Struct(vec![("inner_key".to_string(), FlagValue::Str("inner_value".to_string()))]);
    let outer = FlagValue::Struct(vec![
        ("outer_key".to_string(), FlagValue::Str("outer_value".to_string())),
        ("nested".to_string(), inner),
    ]);
    let result = outer.to_json();

    assert!(matches!(result, JsonValue::Object(_)));
    assert_eq!(get(&result, "outer_key"), Some(&s("outer_value")));

    let nested = get(&result, "nested").unwrap();
    assert_eq!(get(nested, "inner_key"), Some(&s("inner_value")));
}

#[test]
fn mod_test_array_value_to_json() {
    let array = vec![FlagValue::Str("a".to_string()), FlagValue::Int(1), FlagValue::Bool(true)];

    let result = FlagValue::Array(array).to_json();

    match result {
        JsonValue::Array(arr) => {
            assert_eq!(arr.len(), 3);
            assert_eq!(arr[0], s("a"));
            assert_eq!(arr[1], JsonValue::Int(1));
            assert_eq!(arr[2], JsonValue::Bool(true));
        },
        _ => panic!("expected an array"),
    }
}

#[test]
fn fractional_with_positive_weights_always_picks_a_listed_variant() {
    let op = FractionalOperator;
    let args = vec![
        JsonValue::Array(vec![s("red"), JsonValue::Int(25)]),
        JsonValue::Array(vec![s("blue"), JsonValue::Int(25)]),
        JsonValue::Array(vec![s("green"), JsonValue::Int(25)]),
        JsonValue::Array(vec![s("grey"), JsonValue::Int(25)]),
    ];
    let listed = [s("red"), s("blue"), s("green"), s("grey")];
    for i in 0..200 {
        let r = op.evaluate(&args, &data("color-palette-experiment", &format!("session-{}", i)));
        assert!(listed.contains(&r), "{:?}", r);
    }
}

#[test]
fn fractional_color_palette_scenario() {
    // the subject "sessionId-123" of the flag "color-palette-experiment"
    let op = FractionalOperator;
    let args = vec![
        JsonValue::Array(vec![s("red"), JsonValue::Int(25)]),
        JsonValue::Array(vec![s("blue"), JsonValue::Int(25)]),
        JsonValue::Array(vec![s("green"), JsonValue::Int(25)]),
        JsonValue::Array(vec![s("grey"), JsonValue::Int(25)]),
    ];
    assert_eq!(op.evaluate(&args, &data("color-palette-experiment", "sessionId-123")), s("green"));
}

#[test]
fn semver_complementary_operators_disagree() {
    let op = SemVerOperator;
    let cmp = |a: &str, o: &str, b: &str| op.evaluate(&[s(a), s(o), s(b)], &JsonValue::Null);
    for (a, b) in [("1.0.0", "1.0.1"), ("2.0.0", "1.9.9"), ("1.0.0-alpha", "1.0.0"), ("3.1.4", "3.1.4")] {
        assert_ne!(cmp(a, "=", b), cmp(a, "!=", b));
        assert_ne!(cmp(a, "<", b), cmp(a, ">=", b));
        assert_ne!(cmp(a, ">", b), cmp(a, "<=", b));
    }
    assert_eq!(cmp("1.2.3", "~", "1.2.9"), JsonValue::Bool(true));
    assert_eq!(cmp("1.2.3", "^", "1.9.0"), JsonValue::Bool(true));
}
