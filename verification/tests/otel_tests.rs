use open_feature_flagd::otel::{
    evaluation_attributes, evaluation_error_attributes, evaluation_span_name, extract_service_method,
    grpc_span_name, grpc_status_label, http_span_name, http_status_label, record_evaluation_error,
    record_evaluation_success, record_evaluation_success_no_variant, record_grpc_status, record_http_error,
    record_http_response, record_http_status, EvaluationTimer, FlagSpan, OtelGrpcLayer,
};

#[test]
fn service_and_method_from_path() {
    assert_eq!(
        extract_service_method("/flagd.evaluation.v1.Service/ResolveBoolean"),
        ("flagd.evaluation.v1.Service".to_string(), "ResolveBoolean".to_string())
    );
    assert_eq!(extract_service_method("//a//b/c"), ("a".to_string(), "b".to_string()));
    assert_eq!(extract_service_method("/only"), ("only".to_string(), "unknown".to_string()));
    assert_eq!(extract_service_method("/"), ("unknown".to_string(), "unknown".to_string()));
}

#[test]
fn status_labels() {
    assert_eq!(grpc_status_label(0), "OK");
    assert_eq!(grpc_status_label(14), "ERROR");
    assert_eq!(http_status_label(200), "OK");
    assert_eq!(http_status_label(299), "OK");
    assert_eq!(http_status_label(300), "ERROR");
    assert_eq!(http_status_label(404), "ERROR");
}

#[test]
fn span_names_and_attributes() {
    assert_eq!(evaluation_span_name("my-flag"), "evaluate my-flag");
    assert_eq!(grpc_span_name("svc", "Method"), "svc/Method");
    assert_eq!(http_span_name("POST", "/ofrep"), "POST /ofrep");
    let attrs = evaluation_attributes("f", "rpc", "on", "STATIC");
    assert_eq!(attrs.len(), 6);
    assert_eq!(attrs[0], ("feature_flag.key", "f".to_string()));
    assert_eq!(attrs[5], ("resolver_type", "rpc".to_string()));
    let attrs = evaluation_error_attributes("f", "rpc", "FLAG_NOT_FOUND");
    assert_eq!(attrs[4], ("error.type", "FLAG_NOT_FOUND".to_string()));
}

#[test]
fn recording_on_spans_does_not_fail() {
    let mut span = FlagSpan::new(tracing::Span::none());
    record_evaluation_success(&mut span, "variant-a");
    record_evaluation_success_no_variant(&mut span);
    record_evaluation_error(&mut span, "FLAG_NOT_FOUND");
    record_grpc_status(&mut span, 5);
    record_http_status(&mut span, 404);
    record_http_response(&mut span, 200);
    record_http_error(&mut span, "connection_refused");
    assert!(span.span().is_none());
}

#[test]
fn timer_and_layer() {
    let timer = EvaluationTimer::start();
    let first = timer.elapsed();
    let second = timer.elapsed();
    assert!(second >= first);
    let layer = OtelGrpcLayer::new("localhost".to_string(), 8013);
    let service = layer.layer(5u8);
    assert_eq!(service.server_host(), "localhost");
    assert_eq!(service.server_port(), 8013);
}
