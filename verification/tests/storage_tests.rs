use open_feature_flagd::json::JsonValue;
use open_feature_flagd::model::{flag_equal, FeatureFlag};
use open_feature_flagd::storage::{compute_changed_flags, FlagStoreState, QueuePayloadType, StorageState};

fn create_test_flag(state: &str, default_variant: &str) -> FeatureFlag {
    FeatureFlag {
        state: state.to_string(),
        default_variant: default_variant.to_string(),
        variants: vec![
            ("off".to_string(), JsonValue::Bool(false)),
            ("on".to_string(), JsonValue::Bool(true)),
        ],
        targeting: None,
        metadata: vec![],
    }
}

#[test]
fn test_compute_changed_flags_no_changes() {
    let flags = vec![
        ("flag1".to_string(), create_test_flag("ENABLED", "on")),
        ("flag2".to_string(), create_test_flag("ENABLED", "off")),
    ];
    let changed = compute_changed_flags(&flags, &flags);
    assert!(changed.is_empty(), "Expected no changes for identical flags");
}

#[test]
fn test_compute_changed_flags_added_flag() {
    let old_flags = vec![];
    let new_flags = vec![("flag1".to_string(), create_test_flag("ENABLED", "on"))];
    let changed = compute_changed_flags(&old_flags, &new_flags);
    assert_eq!(changed.len(), 1);
    assert!(changed.contains(&"flag1".to_string()));
}

#[test]
fn test_compute_changed_flags_removed_flag() {
    let old_flags = vec![("flag1".to_string(), create_test_flag("ENABLED", "on"))];
    let new_flags = vec![];
    let changed = compute_changed_flags(&old_flags, &new_flags);
    assert_eq!(changed.len(), 1);
    assert!(changed.contains(&"flag1".to_string()));
}

#[test]
fn test_compute_changed_flags_modified_flag() {
    let old_flags = vec![("flag1".to_string(), create_test_flag("ENABLED", "on"))];
    let new_flags = vec![("flag1".to_string(), create_test_flag("ENABLED", "off"))];
    let changed = compute_changed_flags(&old_flags, &new_flags);
    assert_eq!(changed.len(), 1);
    assert!(changed.contains(&"flag1".to_string()));
}

#[test]
fn test_compute_changed_flags_mixed_changes() {
    let old_flags = vec![
        ("flag1".to_string(), create_test_flag("ENABLED", "on")),
        ("flag2".to_string(), create_test_flag("ENABLED", "on")),
        ("flag3".to_string(), create_test_flag("ENABLED", "on")),
    ];
    let new_flags = vec![
        ("flag1".to_string(), create_test_flag("ENABLED", "on")),
        ("flag2".to_string(), create_test_flag("DISABLED", "on")),
        ("flag4".to_string(), create_test_flag("ENABLED", "on")),
    ];
    let changed = compute_changed_flags(&old_flags, &new_flags);
    assert_eq!(changed.len(), 3);
    assert!(changed.contains(&"flag2".to_string()));
    assert!(changed.contains(&"flag3".to_string()));
    assert!(changed.contains(&"flag4".to_string()));
    assert!(!changed.contains(&"flag1".to_string()));
}

#[test]
fn test_storage_state_equality() {
    assert_eq!(StorageState::Okay, StorageState::Okay);
    assert_ne!(StorageState::Okay, StorageState::Error);
    assert_ne!(StorageState::Error, StorageState::Stale);
}

fn flags_doc(default_variant: &str) -> JsonValue {
    JsonValue::Object(vec![(
        "flags".to_string(),
        JsonValue::Object(vec![(
            "f".to_string(),
            JsonValue::Object(vec![
                ("state".to_string(), JsonValue::Str("ENABLED".to_string())),
                ("defaultVariant".to_string(), JsonValue::Str(default_variant.to_string())),
                (
                    "variants".to_string(),
                    JsonValue::Object(vec![
                        ("on".to_string(), JsonValue::Bool(true)),
                        ("off".to_string(), JsonValue::Bool(false)),
                    ]),
                ),
            ]),
        )]),
    )])
}

#[test]
fn flag_store_initial_sync_and_updates() {
    let mut store = FlagStoreState::new();
    let change = store.initial_sync(QueuePayloadType::Data, "", Ok(flags_doc("on")), None).unwrap();
    assert_eq!(change.storage_state, StorageState::Okay);
    assert_eq!(change.changed_flags_keys, vec!["f".to_string()]);
    let found = store.get_flag(&"f".to_string());
    assert_eq!(found.feature_flag.unwrap().default_variant, "on");
    assert!(store.get_flag(&"g".to_string()).feature_flag.is_none());

    let same = store.apply_update(QueuePayloadType::Data, Ok(flags_doc("on")), None);
    assert_eq!(same.storage_state, StorageState::Okay);
    assert!(same.changed_flags_keys.is_empty());

    let changed = store.apply_update(QueuePayloadType::Data, Ok(flags_doc("off")), None);
    assert_eq!(changed.changed_flags_keys, vec!["f".to_string()]);

    let failed = store.apply_update(QueuePayloadType::Data, Ok(JsonValue::Int(3)), None);
    assert_eq!(failed.storage_state, StorageState::Error);
    assert_eq!(store.get_flag(&"f".to_string()).feature_flag.unwrap().default_variant, "off");

    let error = store.apply_update(QueuePayloadType::Error, Err("down".to_string()), None);
    assert_eq!(error.storage_state, StorageState::Error);
}

#[test]
fn flag_store_initial_sync_errors() {
    let mut store = FlagStoreState::new();
    let r = store.initial_sync(QueuePayloadType::Error, "boom", Err("x".to_string()), None);
    match r {
        Err(open_feature_flagd::error::FlagdError::Sync(m)) => assert_eq!(m, "Error in initial sync: boom"),
        _ => panic!("expected a sync error"),
    }
    let r = store.initial_sync(QueuePayloadType::Data, "", Ok(JsonValue::Null), None);
    assert!(r.is_err());
}

#[test]
fn reordered_members_are_no_change() {
    let a = FeatureFlag {
        state: "ENABLED".to_string(),
        default_variant: "on".to_string(),
        variants: vec![
            ("on".to_string(), JsonValue::Bool(true)),
            (
                "obj".to_string(),
                JsonValue::Object(vec![
                    ("x".to_string(), JsonValue::Int(1)),
                    ("y".to_string(), JsonValue::Array(vec![JsonValue::Int(2), JsonValue::Int(3)])),
                ]),
            ),
        ],
        targeting: None,
        metadata: vec![("a".to_string(), JsonValue::Int(1)), ("b".to_string(), JsonValue::Str("s".to_string()))],
    };
    let b = FeatureFlag {
        state: "ENABLED".to_string(),
        default_variant: "on".to_string(),
        variants: vec![
            (
                "obj".to_string(),
                JsonValue::Object(vec![
                    ("y".to_string(), JsonValue::Array(vec![JsonValue::Int(2), JsonValue::Int(3)])),
                    ("x".to_string(), JsonValue::Int(1)),
                ]),
            ),
            ("on".to_string(), JsonValue::Bool(true)),
        ],
        targeting: None,
        metadata: vec![("b".to_string(), JsonValue::Str("s".to_string())), ("a".to_string(), JsonValue::Int(1))],
    };
    assert!(flag_equal(&a, &b));
    assert!(flag_equal(&b, &a));
    let old = vec![("f".to_string(), a.duplicate())];
    let new = vec![("f".to_string(), b.duplicate())];
    assert!(compute_changed_flags(&old, &new).is_empty());
    // an array is ordered: swapping its items is a change
    let mut c = b.duplicate();
    c.variants[0].1 = JsonValue::Object(vec![
        ("y".to_string(), JsonValue::Array(vec![JsonValue::Int(3), JsonValue::Int(2)])),
        ("x".to_string(), JsonValue::Int(1)),
    ]);
    assert!(!flag_equal(&a, &c));
    // a missing member is a change
    let mut d = b.duplicate();
    d.metadata.pop();
    assert!(!flag_equal(&a, &d));
    assert!(!flag_equal(&d, &a));
}
