use open_feature_flagd::options::{EnvValues, FlagdOptions};
use open_feature_flagd::resolver::connect::{envoy_authority_of, rpc_connection, rpc_target_of, RpcConnection};
use open_feature_flagd::storage::{file_read_payload, reloads_on, FileEventKind, QueuePayloadType};
use open_feature_flagd::targeting::outcome::rule_compile_failure;
use open_feature_flagd::targeting::rule::{rule_outcome, RuleRun, RuleValue};
use open_feature_flagd::error::FlagdError;

fn options() -> FlagdOptions {
    FlagdOptions::from_env_values(&EnvValues {
        resolver: None,
        host: None,
        port: None,
        target_uri: None,
        tls: None,
        cert_path: None,
        deadline_ms: None,
        retry_backoff_ms: None,
        retry_backoff_max_ms: None,
        retry_grace_period: None,
        stream_deadline_ms: None,
        socket_path: None,
        selector: None,
        cache: None,
        max_cache_size: None,
        cache_ttl: None,
        offline_flag_source_path: None,
        offline_poll_ms: None,
    })
}

#[test]
fn rpc_target_defaults_to_host_and_port() {
    let mut o = options();
    assert_eq!(rpc_target_of(&o), "localhost:8013");
    o.host = "flagd.example".to_string();
    o.port = 9090;
    assert_eq!(rpc_target_of(&o), "flagd.example:9090");
    o.target_uri = Some("envoy://localhost:9211/flagd-sidecar".to_string());
    assert_eq!(rpc_target_of(&o), "envoy://localhost:9211/flagd-sidecar");
}

#[test]
fn envoy_authority_is_the_second_segment() {
    assert_eq!(envoy_authority_of(&Some("envoy://localhost:9211/flagd-sidecar".to_string())), Some("flagd-sidecar".to_string()));
    assert_eq!(envoy_authority_of(&Some("envoy://host:1/a/b".to_string())), Some("a".to_string()));
    assert_eq!(envoy_authority_of(&Some("envoy://envoy://host:1/svc".to_string())), Some("svc".to_string()));
    assert_eq!(envoy_authority_of(&Some("envoy://host:1".to_string())), None);
    assert_eq!(envoy_authority_of(&Some("http://host:1/svc".to_string())), None);
    assert_eq!(envoy_authority_of(&None), None);
}

#[test]
fn rpc_connection_prefers_the_socket() {
    let mut o = options();
    o.socket_path = Some("/var/run/flagd.sock".to_string());
    match rpc_connection(&o, None) {
        Ok(RpcConnection::Unix(p)) => assert_eq!(p, "/var/run/flagd.sock"),
        _ => panic!("expected a socket connection"),
    }
}

#[test]
fn rpc_connection_over_tcp() {
    let mut o = options();
    o.deadline_ms = 250;
    match rpc_connection(&o, None) {
        Ok(RpcConnection::Tcp { upstream, origin, timeout_ms }) => {
            assert_eq!(timeout_ms, 250);
            assert!(origin.is_none());
            assert_eq!(upstream.authority(), None);
            assert_eq!(upstream.endpoint().uri().to_string(), "http://localhost:8013/");
        }
        _ => panic!("expected a TCP connection"),
    }
}

#[test]
fn rpc_connection_presents_the_envoy_service() {
    let mut o = options();
    o.target_uri = Some("envoy://localhost:9211/flagd-sidecar".to_string());
    match rpc_connection(&o, None) {
        Ok(RpcConnection::Tcp { upstream, origin, .. }) => {
            assert_eq!(upstream.authority(), Some("flagd-sidecar".to_string()));
            assert_eq!(origin.unwrap().host(), Some("flagd-sidecar".to_string()));
        }
        _ => panic!("expected a TCP connection"),
    }
}

#[test]
fn rpc_connection_rejects_an_empty_service() {
    let mut o = options();
    o.target_uri = Some("envoy://localhost:9211/".to_string());
    assert!(matches!(rpc_connection(&o, None), Err(FlagdError::Config(_))));
}

#[test]
fn file_events_that_reload() {
    assert!(reloads_on(FileEventKind::Create));
    assert!(reloads_on(FileEventKind::Modify));
    assert!(reloads_on(FileEventKind::Remove));
    assert!(!reloads_on(FileEventKind::Access));
    assert!(!reloads_on(FileEventKind::Any));
    assert!(!reloads_on(FileEventKind::Other));
}

#[test]
fn file_read_payloads() {
    let p = file_read_payload(Ok("{\"flags\":{}}".to_string()));
    assert_eq!(p.payload_type, QueuePayloadType::Data);
    assert_eq!(p.flag_data, "{\"flags\":{}}");
    assert!(p.metadata.is_none());
    let e = file_read_payload(Err("No such file or directory (os error 2)".to_string()));
    assert_eq!(e.payload_type, QueuePayloadType::Error);
    assert_eq!(e.flag_data, "No such file or directory (os error 2)");
}

#[test]
fn rule_results_name_variants() {
    assert_eq!(rule_outcome(RuleRun::Value(RuleValue::Str("on".to_string()))).unwrap(), Some("on".to_string()));
    assert_eq!(rule_outcome(RuleRun::Value(RuleValue::Null)).unwrap(), None);
    assert_eq!(rule_outcome(RuleRun::Failed("bad".to_string())).unwrap(), None);
    assert_eq!(rule_outcome(RuleRun::Value(RuleValue::Other("true".to_string()))).unwrap(), Some("true".to_string()));
    assert_eq!(rule_outcome(RuleRun::Value(RuleValue::Other("7".to_string()))).unwrap(), Some("7".to_string()));
}

#[test]
fn malformed_rule_is_a_provider_error() {
    match rule_compile_failure("unknown operator") {
        FlagdError::Provider(m) => assert_eq!(m, "Failed to compile targeting rule: unknown operator"),
        _ => panic!("expected a provider error"),
    }
}
