use open_feature_flagd::error::FlagdError;
use open_feature_flagd::resolver::name::{CertFile, EnvoyNameResolver, TlsRoots, UpstreamConfig};

#[test]
fn name_resolvers_test_envoy_resolution() {
    let (endpoint, uri) =
        EnvoyNameResolver::new("envoy://localhost:9211/foo.service".to_string(), false).unwrap();

    assert_eq!(endpoint.endpoint().uri().to_string(), "http://localhost:9211/");
    assert_eq!(uri.uri().to_string(), "http://foo.service/");
}

#[test]
fn test_standard_resolution() {
    let (endpoint, uri) = EnvoyNameResolver::new("localhost:8013".to_string(), false).unwrap();

    assert_eq!(endpoint.endpoint().uri().to_string(), "http://localhost:8013/");
    assert_eq!(uri.uri().to_string(), "http://localhost/");
}

#[test]
fn test_default_ports() {
    let (rpc_endpoint, _) = EnvoyNameResolver::new("localhost".to_string(), false).unwrap();
    assert_eq!(rpc_endpoint.endpoint().uri().to_string(), "http://localhost:8013/");

    let (in_process_endpoint, _) = EnvoyNameResolver::new("localhost".to_string(), true).unwrap();
    assert_eq!(in_process_endpoint.endpoint().uri().to_string(), "http://localhost:8015/");
}

#[test]
fn test_empty_service_name() {
    let result = EnvoyNameResolver::new("envoy://localhost:9211/".to_string(), false);
    assert!(result.is_err());
}

#[test]
fn test_invalid_uri() {
    let result = EnvoyNameResolver::new("envoy://".to_string(), false);
    assert!(result.is_err());
}

#[test]
fn test_custom_port() {
    let (endpoint, uri) =
        EnvoyNameResolver::new("envoy://localhost:9999/test.service".to_string(), false).unwrap();

    assert_eq!(endpoint.endpoint().uri().to_string(), "http://localhost:9999/");
    assert_eq!(uri.uri().to_string(), "http://test.service/");
}

#[test]
fn name_plan_texts() {
    let (e, o) = EnvoyNameResolver::plan("example.com:1234", false).unwrap();
    assert_eq!(e, "http://example.com:1234");
    assert_eq!(o, "http://example.com");
    let (e, _) = EnvoyNameResolver::plan("example.com:notaport", true).unwrap();
    assert_eq!(e, "http://example.com:8015");
    let (e, o) = EnvoyNameResolver::plan("http://a.b:1", false).unwrap();
    assert_eq!(e, "http://a.b:1");
    assert_eq!(o, "http://a.b:1");
    let (e, o) = EnvoyNameResolver::plan("envoy://host/svc", true).unwrap();
    assert_eq!(e, "http://host:8015");
    assert_eq!(o, "http://svc");
}

#[test]
fn test_tls_disabled_uses_http_scheme() {
    let config = UpstreamConfig::new("localhost:8013".to_string(), false, false, None).unwrap();
    assert!(config.endpoint().uri().to_string().starts_with("http://"));
    assert_eq!(config.endpoint().uri().to_string(), "http://localhost:8013/");
}

#[test]
fn test_tls_enabled_uses_https_scheme() {
    let config = UpstreamConfig::new("localhost:8013".to_string(), false, true, None).unwrap();
    assert!(config.endpoint().uri().to_string().starts_with("https://"));
    assert_eq!(config.endpoint().uri().to_string(), "https://localhost:8013/");
}

#[test]
fn test_in_process_default_port_with_tls() {
    let config = UpstreamConfig::new("localhost".to_string(), true, true, None).unwrap();
    assert_eq!(config.endpoint().uri().to_string(), "https://localhost:8015/");
}

#[test]
fn test_rpc_default_port_with_tls() {
    let config = UpstreamConfig::new("localhost".to_string(), false, true, None).unwrap();
    assert_eq!(config.endpoint().uri().to_string(), "https://localhost:8013/");
}

#[test]
fn test_explicit_http_url_preserved() {
    let config = UpstreamConfig::new("http://example.com:9000".to_string(), false, true, None).unwrap();
    assert_eq!(config.endpoint().uri().to_string(), "http://example.com:9000/");
}

#[test]
fn test_explicit_https_url_preserved() {
    let config = UpstreamConfig::new("https://example.com:9000".to_string(), false, false, None).unwrap();
    assert_eq!(config.endpoint().uri().to_string(), "https://example.com:9000/");
}

#[test]
fn test_envoy_target_with_tls() {
    let config =
        UpstreamConfig::new("envoy://localhost:9211/my-service".to_string(), false, true, None).unwrap();
    assert!(config.endpoint().uri().to_string().starts_with("https://"));
    assert_eq!(config.authority(), Some("my-service".to_string()));
}

#[test]
fn test_envoy_target_without_tls() {
    let config =
        UpstreamConfig::new("envoy://localhost:9211/my-service".to_string(), false, false, None).unwrap();
    assert!(config.endpoint().uri().to_string().starts_with("http://"));
    assert_eq!(config.authority(), Some("my-service".to_string()));
}

#[test]
fn test_tls_with_no_cert_path_uses_system_roots() {
    let config = UpstreamConfig::new("localhost:8013".to_string(), false, true, None).unwrap();
    assert!(config.endpoint().uri().to_string().starts_with("https://"));
    assert!(matches!(config.tls_roots(), Some(TlsRoots::System)));
}

#[test]
fn upstream_tls_roots_follow_scheme_and_cert_path() {
    let pem = b"-----BEGIN CERTIFICATE-----\n".to_vec();
    let cert = CertFile { path: "/ca.pem".to_string(), read: Ok(pem.clone()) };
    let config = UpstreamConfig::new("localhost:8013".to_string(), false, true, Some(cert)).unwrap();
    assert!(matches!(config.tls_roots(), Some(TlsRoots::CustomCa(p)) if *p == pem));
    let cert = CertFile { path: "/ca.pem".to_string(), read: Err("not read".to_string()) };
    let config = UpstreamConfig::new("http://h:1".to_string(), false, true, Some(cert)).unwrap();
    assert!(config.tls_roots().is_none());
    let config = UpstreamConfig::new("envoy://h:1/svc".to_string(), false, false, None).unwrap();
    assert!(config.tls_roots().is_none());
    assert!(UpstreamConfig::new("envoy://h:1/".to_string(), false, false, None).is_err());
}

#[test]
fn test_cert_path_file_not_found() {
    // the read of "/nonexistent/path/to/cert.pem" failed
    let cert = CertFile {
        path: "/nonexistent/path/to/cert.pem".to_string(),
        read: Err("No such file or directory (os error 2)".to_string()),
    };
    let result = UpstreamConfig::new("localhost:8013".to_string(), false, true, Some(cert));
    assert!(result.is_err());
    let err = result.err().unwrap();
    assert!(err.to_string().contains("Failed to read certificate file"));
    assert_eq!(
        err.to_string(),
        "Invalid configuration: Failed to read certificate file '/nonexistent/path/to/cert.pem': No such file or directory (os error 2)"
    );
}

#[test]
fn unread_certificate_does_not_matter_without_tls() {
    let cert = CertFile { path: "/missing.pem".to_string(), read: Err("gone".to_string()) };
    assert!(UpstreamConfig::new("localhost:8013".to_string(), false, false, Some(cert)).is_ok());
}

#[test]
fn upstream_errors_carry_the_parser_detail() {
    match UpstreamConfig::new("http://bad host".to_string(), false, false, None) {
        Err(FlagdError::Config(m)) => {
            assert!(m.starts_with("Invalid endpoint: "), "{}", m);
            assert!(m.len() > "Invalid endpoint: ".len());
        }
        _ => panic!("expected a configuration error"),
    }
    match UpstreamConfig::new("envoy://bad host/svc".to_string(), false, false, None) {
        Err(FlagdError::Config(m)) => {
            assert!(m.starts_with("Failed to parse target URI: "), "{}", m);
            assert!(m.len() > "Failed to parse target URI: ".len());
        }
        _ => panic!("expected a configuration error"),
    }
}
