use open_feature_flagd::cache::in_memory::InMemoryCache;
use open_feature_flagd::cache::lru::LruCacheImpl;
use open_feature_flagd::cache::service::{CacheService, CacheSettings, CacheType};
use open_feature_flagd::cache::Cache;
use open_feature_flagd::targeting::context::{ContextValue, EvalContext};

#[test]
fn test_in_memory_cache_operations() {
    let mut cache = InMemoryCache::<String, i32>::new();

    assert_eq!(cache.add("key1".to_string(), 1), false);
    assert_eq!(cache.get(&"key1".to_string()), Some(&1));

    assert_eq!(cache.remove(&"key1".to_string()), true);
    assert_eq!(cache.get(&"key1".to_string()), None);
}

#[test]
fn test_in_memory_cache_purge() {
    let mut cache = InMemoryCache::<String, i32>::new();

    cache.add("key1".to_string(), 1);
    cache.add("key2".to_string(), 2);

    cache.purge();
    assert_eq!(cache.get(&"key1".to_string()), None);
    assert_eq!(cache.get(&"key2".to_string()), None);
}

#[test]
fn test_lru_cache_operations() {
    let mut cache = LruCacheImpl::<String, i32>::new(2);

    assert_eq!(cache.add("key1".to_string(), 1), false);
    assert_eq!(cache.get(&"key1".to_string()), Some(&1));

    assert_eq!(cache.remove(&"key1".to_string()), true);
    assert_eq!(cache.get(&"key1".to_string()), None);
}

#[test]
fn test_lru_cache_capacity() {
    let mut cache = LruCacheImpl::<String, i32>::new(2);

    cache.add("key1".to_string(), 1);
    cache.add("key2".to_string(), 2);
    cache.add("key3".to_string(), 3);

    assert_eq!(cache.get(&"key1".to_string()), None);
    assert_eq!(cache.get(&"key2".to_string()), Some(&2));
    assert_eq!(cache.get(&"key3".to_string()), Some(&3));
}

#[test]
fn test_lru_cache_update_order() {
    let mut cache = LruCacheImpl::<String, i32>::new(2);

    cache.add("key1".to_string(), 1);
    cache.add("key2".to_string(), 2);

    // Access key1, making key2 the least recently used
    cache.get(&"key1".to_string());

    // Add key3, should evict key2
    cache.add("key3".to_string(), 3);

    assert_eq!(cache.get(&"key1".to_string()), Some(&1));
    assert_eq!(cache.get(&"key2".to_string()), None);
    assert_eq!(cache.get(&"key3".to_string()), Some(&3));
}

#[test]
fn in_memory_cache_add_replaces_value() {
    let mut cache = InMemoryCache::<String, i32>::new();
    assert_eq!(cache.add("k".to_string(), 1), false);
    assert_eq!(cache.add("k".to_string(), 2), true);
    assert_eq!(cache.get(&"k".to_string()), Some(&2));
    assert_eq!(cache.len(), 1);
    assert_eq!(cache.remove(&"missing".to_string()), false);
}

#[test]
fn lru_cache_update_existing_key_does_not_evict() {
    let mut cache = LruCacheImpl::<String, i32>::new(2);
    cache.add("a".to_string(), 1);
    cache.add("b".to_string(), 2);
    assert_eq!(cache.add("a".to_string(), 10), true);
    assert_eq!(cache.len(), 2);
    // "b" is now least recently used and goes first
    cache.add("c".to_string(), 3);
    assert_eq!(cache.get(&"b".to_string()), None);
    assert_eq!(cache.get(&"a".to_string()), Some(&10));
    assert_eq!(cache.get(&"c".to_string()), Some(&3));
}

#[test]
fn lru_cache_of_one_keeps_only_the_latest() {
    let mut cache = LruCacheImpl::<u64, &str>::new(1);
    cache.add(1, "one");
    cache.add(2, "two");
    assert_eq!(cache.len(), 1);
    assert_eq!(cache.get(&1), None);
    assert_eq!(cache.get(&2), Some(&"two"));
    cache.purge();
    assert_eq!(cache.len(), 0);
}

fn context(targeting_key: &str, email: &str) -> EvalContext {
    EvalContext {
        targeting_key: Some(targeting_key.to_string()),
        custom_fields: vec![("email".to_string(), ContextValue::Str(email.to_string()))],
    }
}

#[test]
fn cache_service_expires_entries_after_ttl() {
    let settings = CacheSettings { cache_type: CacheType::InMemory, max_size: 10, ttl: Some(1_000_000_000) };
    let mut service = CacheService::<String>::new(settings);
    let c = context("user1", "x");
    service.add("key1", &c, "value1".to_string(), 5);
    assert_eq!(service.get("key1", &c, 1_000_000_005), Some("value1".to_string()));
    assert_eq!(service.get("key1", &c, 2_000_000_006), None);
    // the expired entry is gone
    assert_eq!(service.get("key1", &c, 5), None);
}

#[test]
fn cache_service_disabled_caches_nothing() {
    let settings = CacheSettings { cache_type: CacheType::Disabled, max_size: 2, ttl: None };
    let mut service = CacheService::<String>::new(settings);
    let c = context("user1", "x");
    assert_eq!(service.add("key1", &c, "value1".to_string(), 0), false);
    assert_eq!(service.get("key1", &c, 0), None);
}

#[test]
fn cache_service_disable_and_purge() {
    let settings = CacheSettings { cache_type: CacheType::InMemory, max_size: 2, ttl: None };
    let mut service = CacheService::<i32>::new(settings);
    let c = context("u", "e");
    service.add("f", &c, 7, 0);
    service.purge();
    assert_eq!(service.get("f", &c, 0), None);
    service.add("f", &c, 8, 0);
    service.disable();
    assert_eq!(service.get("f", &c, 0), None);
}

#[test]
fn cache_type_names() {
    assert_eq!(CacheType::from_name("LRU"), CacheType::Lru);
    assert_eq!(CacheType::from_name("Mem"), CacheType::InMemory);
    assert_eq!(CacheType::from_name("DISABLED"), CacheType::Disabled);
    assert_eq!(CacheType::from_name("other"), CacheType::Lru);
    assert_eq!(CacheType::InMemory.as_str(), "mem");
    assert_eq!(CacheType::Disabled.as_str(), "disabled");
}

#[test]
fn cache_settings_from_values() {
    let s = CacheSettings::from_values(None, None, None);
    assert_eq!(s.cache_type, CacheType::Lru);
    assert_eq!(s.max_size, 1000);
    assert_eq!(s.ttl, Some(60_000_000_000));
    let s = CacheSettings::from_values(Some("mem"), Some("25"), Some("2"));
    assert_eq!(s.cache_type, CacheType::InMemory);
    assert_eq!(s.max_size, 25);
    assert_eq!(s.ttl, Some(2_000_000_000));
    let s = CacheSettings::from_values(Some("disabled"), Some("x"), Some("-1"));
    assert_eq!(s.cache_type, CacheType::Disabled);
    assert_eq!(s.max_size, 1000);
    assert_eq!(s.ttl, Some(60_000_000_000));
}

#[test]
fn test_cache_service_lru() {
    let settings = CacheSettings { cache_type: CacheType::Lru, max_size: 2, ttl: None };
    let mut service = CacheService::<String>::new(settings);
    let context1 = context("user1", "test1@example.com");
    let context2 = context("user2", "test2@example.com");
    service.add("key1", &context1, "value1".to_string(), 0);
    service.add("key1", &context2, "value2".to_string(), 0);
    assert_eq!(service.get("key1", &context1, 0), Some("value1".to_string()));
    assert_eq!(service.get("key1", &context2, 0), Some("value2".to_string()));
}

#[test]
fn test_cache_service_ttl() {
    let second: u128 = 1_000_000_000;
    let settings = CacheSettings { cache_type: CacheType::InMemory, max_size: 10, ttl: Some(second) };
    let mut service = CacheService::<String>::new(settings);
    let context = EvalContext {
        targeting_key: Some("user1".to_string()),
        custom_fields: vec![("version".to_string(), ContextValue::Str("1.0.0".to_string()))],
    };
    let start: u128 = 42;
    service.add("key1", &context, "value1".to_string(), start);
    assert_eq!(service.get("key1", &context, start), Some("value1".to_string()));
    // two seconds later
    assert_eq!(service.get("key1", &context, start + 2 * second), None);
}

#[test]
fn test_cache_service_disabled() {
    let settings = CacheSettings { cache_type: CacheType::Disabled, max_size: 2, ttl: None };
    let mut service = CacheService::<String>::new(settings);
    let context = EvalContext { targeting_key: Some("user1".to_string()), custom_fields: vec![] };
    service.add("key1", &context, "value1".to_string(), 0);
    assert_eq!(service.get("key1", &context, 0), None);
}

#[test]
fn test_different_contexts_same_flag() {
    let settings = CacheSettings { cache_type: CacheType::InMemory, max_size: 10, ttl: None };
    let mut service = CacheService::<String>::new(settings);
    let context1 = context("user1", "test1@example.com");
    let context2 = context("user1", "test2@example.com");
    service.add("feature-flag", &context1, "variant1".to_string(), 0);
    service.add("feature-flag", &context2, "variant2".to_string(), 0);
    assert_eq!(service.get("feature-flag", &context1, 0), Some("variant1".to_string()));
    assert_eq!(service.get("feature-flag", &context2, 0), Some("variant2".to_string()));
}

#[test]
fn cache_type_names_read_back() {
    for t in [CacheType::Lru, CacheType::InMemory, CacheType::Disabled] {
        assert_eq!(CacheType::from_name(t.as_str()), t);
        assert_eq!(CacheType::from_name(&t.as_str().to_uppercase()), t);
    }
}

#[test]
fn in_memory_service_keeps_values_across_writes() {
    let settings = CacheSettings { cache_type: CacheType::InMemory, max_size: 1, ttl: None };
    let mut service = CacheService::<i32>::new(settings);
    for i in 0..50 {
        service.add(&format!("flag{}", i), &context("u", "e"), i, 0);
    }
    for i in 0..50 {
        assert_eq!(service.get(&format!("flag{}", i), &context("u", "e"), 0), Some(i));
    }
}

#[test]
fn lru_service_evicts_least_recently_used() {
    let settings = CacheSettings { cache_type: CacheType::Lru, max_size: 2, ttl: None };
    let mut service = CacheService::<i32>::new(settings);
    let c = context("u", "e");
    service.add("a", &c, 1, 0);
    service.add("b", &c, 2, 0);
    // reading "a" makes "b" the least recently used
    assert_eq!(service.get("a", &c, 0), Some(1));
    service.add("c", &c, 3, 0);
    assert_eq!(service.get("b", &c, 0), None);
    assert_eq!(service.get("a", &c, 0), Some(1));
    assert_eq!(service.get("c", &c, 0), Some(3));
}

#[test]
fn lru_remove_keeps_recency_of_the_rest() {
    let mut cache = LruCacheImpl::new(3);
    cache.add(1u64, "one");
    cache.add(2u64, "two");
    cache.add(3u64, "three");
    cache.remove(&2);
    cache.add(4u64, "four");
    // full again: 1 is the least recently used and leaves next
    cache.add(5u64, "five");
    assert_eq!(cache.get(&1), None);
    assert_eq!(cache.get(&3), Some(&"three"));
    assert_eq!(cache.get(&4), Some(&"four"));
    assert_eq!(cache.get(&5), Some(&"five"));
}
