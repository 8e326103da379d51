use open_feature_flagd::cache::service::CacheType;
use open_feature_flagd::options::{EnvValues, FlagdOptions, ResolverType};

fn empty_env() -> EnvValues {
    EnvValues {
        resolver: None,
        host: None,
        port: None,
        target_uri: None,
        tls: None,
        cert_path: None,
        deadline_ms: None,
        retry_backoff_ms: None,
        retry_backoff_max_ms: None,
        retry_grace_period: None,
        stream_deadline_ms: None,
        socket_path: None,
        selector: None,
        cache: None,
        max_cache_size: None,
        cache_ttl: None,
        offline_flag_source_path: None,
        offline_poll_ms: None,
    }
}

#[test]
fn defaults_without_configuration() {
    let o = FlagdOptions::from_env_values(&empty_env());
    assert_eq!(o.host, "localhost");
    assert_eq!(o.port, 8013);
    assert_eq!(o.resolver_type, ResolverType::Rpc);
    assert!(!o.tls);
    assert_eq!(o.deadline_ms, 500);
    assert_eq!(o.retry_backoff_ms, 1000);
    assert_eq!(o.retry_backoff_max_ms, 120000);
    assert_eq!(o.retry_grace_period, 5);
    assert_eq!(o.stream_deadline_ms, 600000);
    assert_eq!(o.offline_poll_interval_ms, Some(5000));
    let cache = o.cache_settings.unwrap();
    assert_eq!(cache.cache_type, CacheType::Lru);
    assert_eq!(cache.max_size, 1000);
}

#[test]
fn configuration_values_override_defaults() {
    let mut env = empty_env();
    env.resolver = Some("in-process".to_string());
    env.host = Some("flagd".to_string());
    env.tls = Some("TRUE".to_string());
    env.deadline_ms = Some("250".to_string());
    env.retry_grace_period = Some("not a number".to_string());
    env.cache = Some("disabled".to_string());
    let o = FlagdOptions::from_env_values(&env);
    assert_eq!(o.resolver_type, ResolverType::InProcess);
    assert_eq!(o.port, 8015);
    assert_eq!(o.host, "flagd");
    assert!(o.tls);
    assert_eq!(o.deadline_ms, 250);
    assert_eq!(o.retry_grace_period, 5);
    assert_eq!(o.cache_settings.unwrap().cache_type, CacheType::Disabled);
}

#[test]
fn resolver_names_and_ports() {
    assert_eq!(ResolverType::from_name("rest"), ResolverType::Rest);
    assert_eq!(ResolverType::from_name("INPROCESS"), ResolverType::InProcess);
    assert_eq!(ResolverType::from_name("offline"), ResolverType::File);
    assert_eq!(ResolverType::from_name("unknown"), ResolverType::Rpc);
    let mut env = empty_env();
    env.resolver = Some("rest".to_string());
    env.port = Some("9000".to_string());
    assert_eq!(FlagdOptions::from_env_values(&env).port, 9000);
    env.port = Some("70000".to_string());
    assert_eq!(FlagdOptions::from_env_values(&env).port, 8016);
}

#[test]
fn source_file_selects_file_resolver_unless_rpc() {
    let mut env = empty_env();
    env.offline_flag_source_path = Some("flags.json".to_string());
    assert_eq!(FlagdOptions::from_env_values(&env).resolver_type, ResolverType::Rpc);
    env.resolver = Some("in-process".to_string());
    let o = FlagdOptions::from_env_values(&env);
    assert_eq!(o.resolver_type, ResolverType::File);
    assert_eq!(o.source_configuration.as_deref(), Some("flags.json"));
}

#[test]
fn resolver_names_in_any_case() {
    for name in ["rest", "REST", "Rest", "rEsT"] {
        let mut env = empty_env();
        env.resolver = Some(name.to_string());
        let o = FlagdOptions::from_env_values(&env);
        assert_eq!(o.resolver_type, ResolverType::Rest);
        assert_eq!(o.port, 8016);
    }
    let mut env = empty_env();
    env.resolver = Some("In-Process".to_string());
    assert_eq!(FlagdOptions::from_env_values(&env).resolver_type, ResolverType::InProcess);
    assert_eq!(ResolverType::from_name("OFFLINE"), ResolverType::File);
    assert_eq!(ResolverType::from_name("grpc"), ResolverType::Rpc);
}

#[test]
fn offline_path_selects_file_unless_rpc() {
    for (name, expected) in [("rest", ResolverType::File), ("in-process", ResolverType::File), ("rpc", ResolverType::Rpc)] {
        let mut env = empty_env();
        env.resolver = Some(name.to_string());
        env.offline_flag_source_path = Some("/flags.json".to_string());
        assert_eq!(FlagdOptions::from_env_values(&env).resolver_type, expected);
    }
}
