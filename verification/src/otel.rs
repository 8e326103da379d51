//! Telemetry for flag evaluations: span names and outcomes, the status
//! attributes recorded on spans, the gRPC instrumentation layer's
//! configuration, metric attributes and evaluation timing.

use vstd::prelude::*;
use crate::text::{split_once, split_once_spec, trim_start_char, trim_start_spec};
use vstd::string::StringExecFns;

verus! {

broadcast use vstd::string::group_string_axioms;

/// The provider version reported in telemetry.
pub const PROVIDER_VERSION: &'static str = "0.1.0";

#[verifier::external_type_specification]
#[verifier::external_body]
pub struct ExSpan(tracing::Span);

#[verifier::external_type_specification]
#[verifier::external_body]
pub struct ExInstant(std::time::Instant);

/// A value recorded on a span field.
pub enum SpanValue {
    Text(Seq<char>),
    Int(int),
}

/// A span together with the fields the library records on it: the model is
/// the last value recorded through this handle for each field name (the
/// fields given when the span was made are not in it). tracing keeps a
/// recorded value only for a field the span declared.
pub struct FlagSpan {
    span: tracing::Span,
    recorded: Ghost<Map<Seq<char>, SpanValue>>,
}

impl FlagSpan {
    /// The last value recorded through this handle for each field.
    pub closed spec fn fields(&self) -> Map<Seq<char>, SpanValue> {
        self.recorded@
    }

    /// The span the handle records on.
    pub closed spec fn inner(&self) -> tracing::Span {
        self.span
    }

    /// A handle on `span` through which nothing was recorded yet.
    pub fn new(span: tracing::Span) -> (r: Self)
        ensures
            r.fields() == Map::<Seq<char>, SpanValue>::empty(),
            r.inner() == span,
    {
        FlagSpan { span, recorded: Ghost(Map::empty()) }
    }

    /// The span itself.
    pub fn span(&self) -> (r: &tracing::Span)
        ensures
            *r == self.inner(),
    {
        &self.span
    }
}

/// Calls `tracing::Span::record` with a text value. The contract claims
/// that the value is recorded for the field: the handle's model takes it.
#[verifier::external_body]
fn record_text(span: &mut FlagSpan, field: &str, value: &str)
    ensures
        final(span).fields() == old(span).fields().insert(field@, SpanValue::Text(value@)),
        final(span).inner() == old(span).inner(),
{
    span.span.record(field, value);
}

/// Calls `tracing::Span::record` with a signed integer value. The contract
/// claims that the value is recorded for the field.
#[verifier::external_body]
fn record_signed(span: &mut FlagSpan, field: &str, value: i64)
    ensures
        final(span).fields() == old(span).fields().insert(field@, SpanValue::Int(value as int)),
        final(span).inner() == old(span).inner(),
{
    span.span.record(field, value);
}

/// Calls `tracing::Span::record` with an unsigned integer value. The
/// contract claims that the value is recorded for the field.
#[verifier::external_body]
fn record_unsigned(span: &mut FlagSpan, field: &str, value: u64)
    ensures
        final(span).fields() == old(span).fields().insert(field@, SpanValue::Int(value as int)),
        final(span).inner() == old(span).inner(),
{
    span.span.record(field, value);
}

/// The span status for a gRPC status code: "OK" for code 0, else "ERROR".
pub fn grpc_status_label(status_code: i32) -> (r: &'static str)
    ensures
        r@ == if status_code == 0 {
            "OK"@
        } else {
            "ERROR"@
        },
{
    if status_code == 0 {
        "OK"
    } else {
        "ERROR"
    }
}

/// The span status for an HTTP status code: "OK" for 2xx, else "ERROR".
pub fn http_status_label(status_code: u16) -> (r: &'static str)
    ensures
        r@ == if 200 <= status_code < 300 {
            "OK"@
        } else {
            "ERROR"@
        },
{
    if 200 <= status_code && status_code < 300 {
        "OK"
    } else {
        "ERROR"
    }
}

/// Records a successful evaluation on a span: its variant and an OK status.
pub fn record_evaluation_success(span: &mut FlagSpan, variant: &str)
    ensures
        final(span).fields() == old(span).fields().insert("feature_flag.variant"@, SpanValue::Text(variant@)).insert(
            "otel.status_code"@,
            SpanValue::Text("OK"@),
        ),
        final(span).inner() == old(span).inner(),
{
    record_text(span, "feature_flag.variant", variant);
    record_text(span, "otel.status_code", "OK");
}

/// Records a successful evaluation without a variant on a span.
pub fn record_evaluation_success_no_variant(span: &mut FlagSpan)
    ensures
        final(span).fields() == old(span).fields().insert("otel.status_code"@, SpanValue::Text("OK"@)),
        final(span).inner() == old(span).inner(),
{
    record_text(span, "otel.status_code", "OK");
}

/// Records a failed evaluation on a span: an error status and the error.
pub fn record_evaluation_error(span: &mut FlagSpan, error: &str)
    ensures
        final(span).fields() == old(span).fields().insert("otel.status_code"@, SpanValue::Text("ERROR"@)).insert(
            "error.type"@,
            SpanValue::Text(error@),
        ),
        final(span).inner() == old(span).inner(),
{
    record_text(span, "otel.status_code", "ERROR");
    record_text(span, "error.type", error);
}

/// Records a gRPC status on a span, with the status that
/// `grpc_status_label` gives.
pub fn record_grpc_status(span: &mut FlagSpan, status_code: i32)
    ensures
        final(span).fields() == old(span).fields().insert("rpc.grpc.status_code"@, SpanValue::Int(status_code as int)).insert(
            "otel.status_code"@,
            SpanValue::Text(
                if status_code == 0 {
                    "OK"@
                } else {
                    "ERROR"@
                },
            ),
        ),
        final(span).inner() == old(span).inner(),
{
    record_signed(span, "rpc.grpc.status_code", status_code as i64);
    record_text(span, "otel.status_code", grpc_status_label(status_code));
}

/// The fields an HTTP response status records.
pub open spec fn http_status_fields(before: Map<Seq<char>, SpanValue>, status_code: u16) -> Map<Seq<char>, SpanValue> {
    before.insert("http.response.status_code"@, SpanValue::Int(status_code as int)).insert(
        "otel.status_code"@,
        SpanValue::Text(
            if 200 <= status_code < 300 {
                "OK"@
            } else {
                "ERROR"@
            },
        ),
    )
}

/// Records an HTTP response status on a span, with the status that
/// `http_status_label` gives.
pub fn record_http_status(span: &mut FlagSpan, status_code: u16)
    ensures
        final(span).fields() == http_status_fields(old(span).fields(), status_code),
        final(span).inner() == old(span).inner(),
{
    record_unsigned(span, "http.response.status_code", status_code as u64);
    record_text(span, "otel.status_code", http_status_label(status_code));
}

/// Records an HTTP response on a span: the same fields as
/// `record_http_status`.
pub fn record_http_response(span: &mut FlagSpan, status_code: u16)
    ensures
        final(span).fields() == http_status_fields(old(span).fields(), status_code),
        final(span).inner() == old(span).inner(),
{
    record_http_status(span, status_code);
}

/// Records an HTTP error on a span: an error status and the error.
pub fn record_http_error(span: &mut FlagSpan, error: &str)
    ensures
        final(span).fields() == old(span).fields().insert("otel.status_code"@, SpanValue::Text("ERROR"@)).insert(
            "error.type"@,
            SpanValue::Text(error@),
        ),
        final(span).inner() == old(span).inner(),
{
    record_text(span, "otel.status_code", "ERROR");
    record_text(span, "error.type", error);
}

/// The first non-empty `/`-separated segment of a path, and what follows
/// it.
pub open spec fn first_segment(s: Seq<char>) -> Option<(Seq<char>, Seq<char>)> {
    let t = trim_start_spec(s, '/');
    if t.len() == 0 {
        None
    } else {
        match split_once_spec(t, '/') {
            Some(p) => Some(p),
            None => Some((t, Seq::empty())),
        }
    }
}

/// The gRPC service and method a request path names: its first two
/// non-empty segments, each "unknown" when missing.
pub open spec fn service_method(path: Seq<char>) -> (Seq<char>, Seq<char>) {
    match first_segment(path) {
        Some(p) => (
            p.0,
            match first_segment(p.1) {
                Some(q) => q.0,
                None => "unknown"@,
            },
        ),
        None => ("unknown"@, "unknown"@),
    }
}

/// The first non-empty segment of a path, and what follows it.
fn next_segment(path: &str) -> (r: Option<(String, String)>)
    ensures
        match first_segment(path@) {
            Some(p) => r matches Some(q) && q.0@ == p.0 && q.1@ == p.1,
            None => r is None,
        },
{
    let t = trim_start_char(path, '/');
    if t.as_str().unicode_len() == 0 {
        return None;
    }
    match split_once(t.as_str(), '/') {
        Some(p) => Some(p),
        None => {
            let empty = String::new();
            assert(empty@ =~= Seq::<char>::empty());
            Some((t, empty))
        },
    }
}

/// The gRPC service and method a request path names.
pub fn extract_service_method(path: &str) -> (r: (String, String))
    ensures
        r.0@ == service_method(path@).0,
        r.1@ == service_method(path@).1,
{
    match next_segment(path) {
        Some((service, rest)) => {
            let method = match next_segment(rest.as_str()) {
                Some((m, _)) => m,
                None => "unknown".to_string(),
            };
            (service, method)
        },
        None => ("unknown".to_string(), "unknown".to_string()),
    }
}

/// The name of a flag evaluation span: "evaluate {flag key}".
pub fn evaluation_span_name(flag_key: &str) -> (r: String)
    ensures
        r@ == "evaluate "@ + flag_key@,
{
    let mut s = "evaluate ".to_string();
    s.append(flag_key);
    s
}

/// The name of a gRPC client span: "{service}/{method}".
pub fn grpc_span_name(service: &str, method: &str) -> (r: String)
    ensures
        r@ == service@ + "/"@ + method@,
{
    let mut s = service.to_string();
    s.append("/");
    s.append(method);
    s
}

/// The name of an HTTP client span: "{method} {url}".
pub fn http_span_name(method: &str, url: &str) -> (r: String)
    ensures
        r@ == method@ + " "@ + url@,
{
    let mut s = method.to_string();
    s.append(" ");
    s.append(url);
    s
}

/// The attributes of a successful evaluation's metrics.
pub fn evaluation_attributes(flag_key: &str, resolver_type: &str, variant: &str, reason: &str) -> (r: Vec<(&'static str, String)>)
    ensures
        r@.len() == 6,
        r@[0].0@ == "feature_flag.key"@ && r@[0].1@ == flag_key@,
        r@[1].0@ == "feature_flag.provider_name"@ && r@[1].1@ == "flagd"@,
        r@[2].0@ == "feature_flag.provider_version"@ && r@[2].1@ == PROVIDER_VERSION@,
        r@[3].0@ == "feature_flag.variant"@ && r@[3].1@ == variant@,
        r@[4].0@ == "feature_flag.reason"@ && r@[4].1@ == reason@,
        r@[5].0@ == "resolver_type"@ && r@[5].1@ == resolver_type@,
{
    let mut r: Vec<(&'static str, String)> = Vec::new();
    r.push(("feature_flag.key", flag_key.to_string()));
    r.push(("feature_flag.provider_name", "flagd".to_string()));
    r.push(("feature_flag.provider_version", PROVIDER_VERSION.to_string()));
    r.push(("feature_flag.variant", variant.to_string()));
    r.push(("feature_flag.reason", reason.to_string()));
    r.push(("resolver_type", resolver_type.to_string()));
    r
}

/// The attributes of a failed evaluation's metrics.
pub fn evaluation_error_attributes(flag_key: &str, resolver_type: &str, error_type: &str) -> (r: Vec<(&'static str, String)>)
    ensures
        r@.len() == 5,
        r@[0].0@ == "feature_flag.key"@ && r@[0].1@ == flag_key@,
        r@[1].0@ == "feature_flag.provider_name"@ && r@[1].1@ == "flagd"@,
        r@[2].0@ == "feature_flag.provider_version"@ && r@[2].1@ == PROVIDER_VERSION@,
        r@[3].0@ == "resolver_type"@ && r@[3].1@ == resolver_type@,
        r@[4].0@ == "error.type"@ && r@[4].1@ == error_type@,
{
    let mut r: Vec<(&'static str, String)> = Vec::new();
    r.push(("feature_flag.key", flag_key.to_string()));
    r.push(("feature_flag.provider_name", "flagd".to_string()));
    r.push(("feature_flag.provider_version", PROVIDER_VERSION.to_string()));
    r.push(("resolver_type", resolver_type.to_string()));
    r.push(("error.type", error_type.to_string()));
    r
}

/// Calls `std::time::Instant::now`. Nothing is claimed of the result: it is
/// the time.
#[verifier::external_body]
fn instant_now() -> (r: std::time::Instant) {
    std::time::Instant::now()
}

/// Calls `std::time::Instant::elapsed`. Nothing is claimed of the result:
/// it depends on the time.
#[verifier::external_body]
fn instant_elapsed(start: &std::time::Instant) -> (r: std::time::Duration) {
    start.elapsed()
}

/// Measures how long an evaluation takes.
pub struct EvaluationTimer {
    start: std::time::Instant,
}

impl EvaluationTimer {
    /// A timer started now.
    pub fn start() -> (r: Self) {
        EvaluationTimer { start: instant_now() }
    }

    /// The time since the timer started.
    pub fn elapsed(&self) -> (r: std::time::Duration) {
        instant_elapsed(&self.start)
    }
}

/// The configuration of the gRPC instrumentation layer: the host and port
/// of the server its spans name.
pub struct OtelGrpcLayer {
    host: String,
    port: u16,
}

/// A gRPC service instrumented by the layer: the inner service and the
/// server's host and port.
pub struct OtelGrpcService<S> {
    inner: S,
    host: String,
    port: u16,
}

impl OtelGrpcLayer {
    /// A layer for the server at `host` and `port`.
    pub fn new(host: String, port: u16) -> (r: Self)
        ensures
            r.host() == host@,
            r.port() == port,
    {
        OtelGrpcLayer { host, port }
    }

    /// The server's host.
    pub closed spec fn host(&self) -> Seq<char> {
        self.host@
    }

    /// The server's port.
    pub closed spec fn port(&self) -> u16 {
        self.port
    }

    /// Wraps a service so that its calls are instrumented for this layer's
    /// server.
    pub fn layer<S>(&self, inner: S) -> (r: OtelGrpcService<S>)
        ensures
            r.inner() == inner,
            r.host() == self.host(),
            r.port() == self.port(),
    {
        OtelGrpcService { inner, host: self.host.clone(), port: self.port }
    }
}

impl<S> OtelGrpcService<S> {
    /// The wrapped service.
    pub closed spec fn inner(&self) -> S {
        self.inner
    }

    /// The server's host.
    pub closed spec fn host(&self) -> Seq<char> {
        self.host@
    }

    /// The server's port.
    pub closed spec fn port(&self) -> u16 {
        self.port
    }

    /// The wrapped service, for making calls.
    pub fn inner_mut(&mut self) -> (r: &mut S)
        ensures
            *r == old(self).inner(),
            final(self).inner() == *final(r),
            final(self).host() == old(self).host(),
            final(self).port() == old(self).port(),
    {
        &mut self.inner
    }

    /// The server's host.
    pub fn server_host(&self) -> (r: &String)
        ensures
            r@ == self.host(),
    {
        &self.host
    }

    /// The server's port.
    pub fn server_port(&self) -> (r: u16)
        ensures
            r == self.port(),
    {
        self.port
    }
}

} // verus!
