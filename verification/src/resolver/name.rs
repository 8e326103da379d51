//! Resolving a target to the endpoint to connect to and the authority to
//! present, for plain `host:port` targets, HTTP(S) URLs and Envoy targets.

use vstd::prelude::*;
use std::str::FromStr;
use crate::error::FlagdError;
use crate::text::{starts_with, split_once, split_once_spec, trim_start_char, trim_start_spec,
    parse_i32, parse_i32_spec, u64_text, i32_text, decimal_text, signed_text};
use vstd::string::StringExecFns;

verus! {

broadcast use vstd::string::group_string_axioms;

#[verifier::external_type_specification]
#[verifier::external_body]
pub struct ExEndpoint(tonic::transport::Endpoint);

#[verifier::external_type_specification]
#[verifier::external_body]
pub struct ExUri(tonic::transport::Uri);

/// The parts of a parsed URI that resolution reads: its path, its host and
/// its port.
pub type UriModel = (Seq<char>, Option<Seq<char>>, Option<u16>);

/// A parsed URI with the parts that resolution reads.
pub struct ParsedUri {
    path: String,
    host: Option<String>,
    port: Option<u16>,
    text: String,
    uri: tonic::transport::Uri,
}

impl View for ParsedUri {
    type V = UriModel;

    closed spec fn view(&self) -> UriModel {
        (
            self.path@,
            match self.host {
                Some(h) => Some(h@),
                None => None,
            },
            self.port,
        )
    }
}

impl ParsedUri {
    /// The text the URI was parsed from.
    pub closed spec fn source(&self) -> Seq<char> {
        self.text@
    }

    /// The URI's host, if it has one.
    pub fn host(&self) -> (r: Option<String>)
        ensures
            match self@.1 {
                Some(h) => r matches Some(x) && x@ == h,
                None => r is None,
            },
    {
        match &self.host {
            Some(h) => Some(h.clone()),
            None => None,
        }
    }

    /// The URI's path.
    pub fn path(&self) -> (r: &String)
        ensures
            r@ == self@.0,
    {
        &self.path
    }

    /// The URI that was parsed.
    pub closed spec fn parsed_uri(&self) -> tonic::transport::Uri {
        self.uri
    }

    /// The parsed URI itself.
    pub fn uri(&self) -> (r: &tonic::transport::Uri)
        ensures
            *r == self.parsed_uri(),
    {
        &self.uri
    }
}

/// What `Uri::from_str` makes of a text: its path, host and port, or
/// `None` when the text is no URI.
pub uninterp spec fn uri_parse(text: Seq<char>) -> Option<UriModel>;

/// Whether `Endpoint::from_shared` accepts a text.
pub uninterp spec fn endpoint_accepts(text: Seq<char>) -> bool;

/// Calls `http::Uri::from_str` and reads the path, host and port of the
/// result, keeping the text it parsed. The contract claims that the outcome
/// is a function of the text alone, named `uri_parse`, and that the URI
/// held is the one made from this text; which texts parse, and how, is not
/// stated. On failure it gives the parser's error message, of which
/// nothing is stated.
#[verifier::external_body]
pub(crate) fn parse_uri(text: &str) -> (r: Result<ParsedUri, String>)
    ensures
        match uri_parse(text@) {
            Some(m) => r matches Ok(p) && p@ == m && p.source() == text@,
            None => r is Err,
        },
{
    match tonic::transport::Uri::from_str(text) {
        Ok(uri) => Ok(ParsedUri {
            path: uri.path().to_string(),
            host: match uri.host() {
                Some(h) => Some(h.to_string()),
                None => None,
            },
            port: uri.port_u16(),
            text: text.to_string(),
            uri,
        }),
        Err(e) => Err(e.to_string()),
    }
}

/// An endpoint with the text it was made from.
pub struct CheckedEndpoint {
    endpoint: tonic::transport::Endpoint,
    text: String,
}

impl View for CheckedEndpoint {
    type V = Seq<char>;

    /// The text the endpoint was made from.
    closed spec fn view(&self) -> Seq<char> {
        self.text@
    }
}

impl CheckedEndpoint {
    /// The endpoint held.
    pub closed spec fn held(&self) -> tonic::transport::Endpoint {
        self.endpoint
    }

    /// The endpoint itself.
    pub fn endpoint(&self) -> (r: &tonic::transport::Endpoint)
        ensures
            *r == self.held(),
    {
        &self.endpoint
    }
}

/// Calls `tonic::transport::Endpoint::from_shared`, keeping the text. The
/// contract claims that whether it succeeds is a function of the text,
/// named `endpoint_accepts`, and that the endpoint held is the one made
/// from this text. On failure it gives the error's message, of which
/// nothing is stated.
#[verifier::external_body]
fn endpoint_from(text: String) -> (r: Result<CheckedEndpoint, String>)
    ensures
        r is Ok == endpoint_accepts(text@),
        r matches Ok(e) ==> e@ == text@,
{
    match tonic::transport::Endpoint::from_shared(text.clone()) {
        Ok(endpoint) => Ok(CheckedEndpoint { endpoint, text }),
        Err(e) => Err(e.to_string()),
    }
}

/// "<prefix><detail>", the message of a configuration error that carries
/// the detail an outside parser gave.
pub(crate) fn with_detail(prefix: &str, detail: &str) -> (r: FlagdError)
    ensures
        r matches FlagdError::Config(m) && m@ == prefix@ + detail@,
{
    let mut m = prefix.to_string();
    m.append(detail);
    FlagdError::Config(m)
}

/// The host and port texts of a plain `host[:port[:...]]` target.
pub open spec fn target_parts(target: Seq<char>) -> (Seq<char>, Option<Seq<char>>) {
    match split_once_spec(target, ':') {
        Some(p) => (
            p.0,
            Some(
                match split_once_spec(p.1, ':') {
                    Some(q) => q.0,
                    None => p.1,
                },
            ),
        ),
        None => (target, None),
    }
}

/// The port of a plain target: its port text read as a number, or the
/// default port.
pub open spec fn target_port(port: Option<Seq<char>>, in_process: bool) -> int {
    match port {
        Some(p) => match parse_i32_spec(p) {
            Some(n) => n,
            None => if in_process { 8015 } else { 8013 },
        },
        None => if in_process { 8015 } else { 8013 },
    }
}

/// How a target resolves: the endpoint text and the authority, or `None`
/// when it does not. An HTTP URL is its own endpoint and authority; an
/// Envoy target connects to its host and port (localhost and the resolver's
/// port by default) and presents its path as the service name, which must
/// not be empty; any other target is `host[:port]` and presents its host.
pub open spec fn name_plan(target: Seq<char>, in_process: bool) -> Option<(Seq<char>, Seq<char>)> {
    let default_port: u16 = if in_process { 8015 } else { 8013 };
    if "http://"@.is_prefix_of(target) {
        Some((target, target))
    } else if "envoy://"@.is_prefix_of(target) {
        match uri_parse(target) {
            None => None,
            Some(u) => {
                let authority = trim_start_spec(u.0, '/');
                if authority.len() == 0 {
                    None
                } else {
                    let host = match u.1 {
                        Some(h) => h,
                        None => "localhost"@,
                    };
                    let port = match u.2 {
                        Some(p) => p,
                        None => default_port,
                    };
                    Some(("http://"@ + host + ":"@ + decimal_text(port as nat), "http://"@ + authority))
                }
            },
        }
    } else {
        let (host, port) = target_parts(target);
        Some(("http://"@ + host + ":"@ + signed_text(target_port(port, in_process)), "http://"@ + host))
    }
}

/// The parts of a text around its first colon, when the text before it
/// holds none.
proof fn lemma_split_at_first_colon(a: Seq<char>, b: Seq<char>)
    requires
        forall|q: int| 0 <= q < a.len() ==> #[trigger] a[q] != ':',
    ensures
        split_once_spec(a + seq![':'] + b, ':') == Some((a, b)),
{
    let t = a + seq![':'] + b;
    assert(crate::text::is_first_index(t, ':', a.len() as int));
    assert forall|i: int| crate::text::is_first_index(t, ':', i) implies i == a.len() by {
        if i < a.len() {
            assert(t[i] == a[i]);
        } else if i > a.len() {
            assert(t[a.len() as int] == ':');
        }
    }
    assert(t.take(a.len() as int) =~= a);
    assert(t.skip(a.len() as int + 1) =~= b);
}

/// A text without colons has no parts around one.
proof fn lemma_split_no_colon(a: Seq<char>)
    requires
        forall|q: int| 0 <= q < a.len() ==> #[trigger] a[q] != ':',
    ensures
        split_once_spec(a, ':') is None,
{
    assert forall|i: int| !crate::text::is_first_index(a, ':', i) by {
        if 0 <= i < a.len() {
            assert(a[i] != ':');
        }
    }
}

/// A plain target is reached over HTTP at its host: a host alone on the
/// default port, 8013 for remote evaluation and 8015 for in-process sync,
/// and `host:port` on that port; in both cases the host is the authority
/// presented.
pub proof fn law_plain_target_resolution(host: Seq<char>, port: i32, in_process: bool)
    requires
        forall|q: int| 0 <= q < host.len() ==> #[trigger] host[q] != ':',
        !"http://"@.is_prefix_of(host) && !"envoy://"@.is_prefix_of(host),
        !"http://"@.is_prefix_of(host + ":"@ + signed_text(port as int)),
        !"envoy://"@.is_prefix_of(host + ":"@ + signed_text(port as int)),
    ensures
        name_plan(host, in_process) == Some(
            (
                "http://"@ + host + ":"@ + signed_text(
                    if in_process {
                        8015
                    } else {
                        8013
                    },
                ),
                "http://"@ + host,
            ),
        ),
        name_plan(host + ":"@ + signed_text(port as int), in_process) == Some(
            ("http://"@ + host + ":"@ + signed_text(port as int), "http://"@ + host),
        ),
{
    reveal_strlit(":");
    lemma_split_no_colon(host);
    let pt = signed_text(port as int);
    crate::text::lemma_signed_text_has_no_colon(port as int);
    lemma_split_at_first_colon(host, pt);
    assert(host + ":"@ + pt == host + seq![':'] + pt) by {
        assert(":"@ =~= seq![':']);
    }
    lemma_split_no_colon(pt);
    crate::text::law_signed_round_trip(port);
}

/// The resolver for flagd targets.
pub struct EnvoyNameResolver;

impl EnvoyNameResolver {
    /// How a target resolves: the endpoint text and the origin text.
    pub fn plan(target: &str, is_in_process: bool) -> (r: Result<(String, String), FlagdError>)
        ensures
            match name_plan(target@, is_in_process) {
                Some(p) => r matches Ok(q) && q.0@ == p.0 && q.1@ == p.1,
                None => r is Err,
            },
            r is Err ==> r matches Err(FlagdError::Config(_)),
    {
        let default_port: u16 = if is_in_process {
            8015
        } else {
            8013
        };
        if starts_with(target, "http://") {
            return Ok((target.to_string(), target.to_string()));
        }
        if starts_with(target, "envoy://") {
            let uri = match parse_uri(target) {
                Ok(u) => u,
                Err(_) => {
                    return Err(FlagdError::Config("Failed to parse target URI".to_string()));
                },
            };
            let authority = trim_start_char(uri.path.as_str(), '/');
            if authority.as_str().unicode_len() == 0 {
                return Err(FlagdError::Config("Service name (authority) cannot be empty".to_string()));
            }
            let mut endpoint = "http://".to_string();
            match &uri.host {
                Some(h) => endpoint.append(h.as_str()),
                None => endpoint.append("localhost"),
            }
            endpoint.append(":");
            let port: u16 = match uri.port {
                Some(p) => p,
                None => default_port,
            };
            let port_text = u64_text(port as u64);
            endpoint.append(port_text.as_str());
            let mut origin = "http://".to_string();
            origin.append(authority.as_str());
            return Ok((endpoint, origin));
        }
        let (host, port_text): (String, Option<String>) = match split_once(target, ':') {
            Some((h, rest)) => match split_once(rest.as_str(), ':') {
                Some((p, _)) => (h, Some(p)),
                None => (h, Some(rest)),
            },
            None => (target.to_string(), None),
        };
        let port: i32 = match &port_text {
            Some(p) => match parse_i32(p.as_str()) {
                Some(n) => n,
                None => default_port as i32,
            },
            None => default_port as i32,
        };
        let mut endpoint = "http://".to_string();
        endpoint.append(host.as_str());
        endpoint.append(":");
        let pt = i32_text(port);
        endpoint.append(pt.as_str());
        let mut origin = "http://".to_string();
        origin.append(host.as_str());
        Ok((endpoint, origin))
    }

    /// Resolves a target to the endpoint to connect to and the origin to
    /// present; a target that does not resolve, an endpoint text the
    /// endpoint parser refuses and an origin that is no URI are errors.
    pub fn new(target: String, is_in_process: bool) -> (r: Result<(CheckedEndpoint, ParsedUri), FlagdError>)
        ensures
            r is Ok <==> match name_plan(target@, is_in_process) {
                Some(p) => endpoint_accepts(p.0) && uri_parse(p.1) is Some,
                None => false,
            },
            r matches Ok((e, u)) ==> ({
                let p = name_plan(target@, is_in_process)->Some_0;
                &&& e@ == p.0
                &&& u.source() == p.1
                &&& Some(u@) == uri_parse(p.1)
            }),
            r is Err ==> r matches Err(FlagdError::Config(_)),
    {
        let (endpoint_text, origin_text) = match Self::plan(target.as_str(), is_in_process) {
            Ok(p) => p,
            Err(e) => {
                return Err(e);
            },
        };
        if starts_with(target.as_str(), "http://") {
            let origin = match parse_uri(origin_text.as_str()) {
                Ok(u) => u,
                Err(e) => {
                    return Err(FlagdError::Config(e));
                },
            };
            let endpoint = match endpoint_from(endpoint_text) {
                Ok(e) => e,
                Err(e) => {
                    return Err(FlagdError::Config(e));
                },
            };
            return Ok((endpoint, origin));
        }
        let endpoint = match endpoint_from(endpoint_text) {
            Ok(e) => e,
            Err(e) => {
                return Err(FlagdError::Config(e));
            },
        };
        let origin = match parse_uri(origin_text.as_str()) {
            Ok(u) => u,
            Err(e) => {
                return Err(FlagdError::Config(e));
            },
        };
        Ok((endpoint, origin))
    }
}


/// The trust roots of a TLS connection: the system's, or a CA certificate
/// given by its PEM bytes.
#[derive(Debug)]
pub enum TlsRoots {
    System,
    CustomCa(Vec<u8>),
}

/// A CA certificate file: its path and what reading it gave, its bytes or
/// the reader's error message.
#[derive(Debug)]
pub struct CertFile {
    pub path: String,
    pub read: Result<Vec<u8>, String>,
}

/// "Failed to read certificate file '<path>': <message>".
pub open spec fn cert_read_message(path: Seq<char>, message: Seq<char>) -> Seq<char> {
    "Failed to read certificate file '"@ + path + "': "@ + message
}

/// The message for a certificate file that could not be read.
pub open spec fn cert_failure(cert: Option<CertFile>) -> Seq<char> {
    match cert {
        Some(c) => match c.read {
            Err(m) => cert_read_message(c.path@, m@),
            Ok(_) => Seq::empty(),
        },
        None => Seq::empty(),
    }
}

/// Whether the certificate a TLS connection needs can be had: no file was
/// named, or it was read.
pub open spec fn cert_ok(cert: Option<CertFile>) -> bool {
    match cert {
        Some(c) => c.read is Ok,
        None => true,
    }
}

/// How a target is reached with TLS on or off: the endpoint text, the
/// authority to present (for Envoy targets), and whether the connection
/// uses TLS. HTTP(S) URLs are used as they are, with TLS exactly for
/// `https://`; Envoy targets default to localhost and port 9211; other
/// targets are `host[:port]`.
pub open spec fn upstream_plan(target: Seq<char>, in_process: bool, tls: bool) -> Option<(Seq<char>, Option<Seq<char>>, bool)> {
    let scheme = if tls { "https"@ } else { "http"@ };
    if "http://"@.is_prefix_of(target) || "https://"@.is_prefix_of(target) {
        Some((target, None, "https://"@.is_prefix_of(target)))
    } else if "envoy://"@.is_prefix_of(target) {
        match uri_parse(target) {
            None => None,
            Some(u) => {
                let authority = trim_start_spec(u.0, '/');
                if authority.len() == 0 {
                    None
                } else {
                    let host = match u.1 {
                        Some(h) => h,
                        None => "localhost"@,
                    };
                    let port: u16 = match u.2 {
                        Some(p) => p,
                        None => 9211,
                    };
                    Some((scheme + "://"@ + host + ":"@ + decimal_text(port as nat), Some(authority), tls))
                }
            },
        }
    } else {
        let (host, port) = target_parts(target);
        Some((scheme + "://"@ + host + ":"@ + signed_text(target_port(port, in_process)), None, tls))
    }
}

/// The endpoint of a flagd connection, the authority it presents, and its
/// TLS trust roots when it uses TLS.
pub struct UpstreamConfig {
    endpoint: CheckedEndpoint,
    authority: Option<String>,
    tls: Option<TlsRoots>,
}

/// The TLS roots for a certificate file that was read, or the system's.
fn roots_of(cert: Option<CertFile>) -> (r: Result<TlsRoots, FlagdError>)
    ensures
        match cert {
            None => r matches Ok(TlsRoots::System),
            Some(c) => match c.read {
                Ok(pem) => r matches Ok(TlsRoots::CustomCa(x)) && x@ == pem@,
                Err(m) => r matches Err(FlagdError::Config(e)) && e@ == cert_read_message(c.path@, m@),
            },
        },
{
    match cert {
        None => Ok(TlsRoots::System),
        Some(c) => match c.read {
            Ok(pem) => Ok(TlsRoots::CustomCa(pem)),
            Err(m) => {
                let mut e = "Failed to read certificate file '".to_string();
                e.append(c.path.as_str());
                e.append("': ");
                e.append(m.as_str());
                Err(FlagdError::Config(e))
            },
        },
    }
}

impl UpstreamConfig {
    /// The authority the connection presents.
    pub closed spec fn authority_spec(&self) -> Option<Seq<char>> {
        match self.authority {
            Some(a) => Some(a@),
            None => None,
        }
    }

    /// Whether the connection uses TLS, and with which roots.
    pub closed spec fn tls_spec(&self) -> Option<TlsRoots> {
        self.tls
    }

    /// The text the endpoint was made from.
    pub closed spec fn endpoint_text(&self) -> Seq<char> {
        self.endpoint@
    }

    /// The endpoint the configuration holds.
    pub closed spec fn endpoint_spec(&self) -> tonic::transport::Endpoint {
        self.endpoint.held()
    }

    /// The configuration for connecting to a target: the endpoint made from
    /// the text the target resolves to, the authority of an Envoy target,
    /// and, when TLS is used, the roots to trust: the CA certificate read
    /// from `cert` (the system's roots without one). A target that does not
    /// resolve, an endpoint text the endpoint parser refuses, and (when TLS
    /// is used) a certificate file that could not be read are
    /// configuration errors, in that order.
    pub fn new(target: String, is_in_process: bool, tls: bool, cert: Option<CertFile>) -> (r: Result<UpstreamConfig, FlagdError>)
        ensures
            r is Ok <==> match upstream_plan(target@, is_in_process, tls) {
                Some(p) => endpoint_accepts(p.0) && (p.2 ==> cert_ok(cert)),
                None => false,
            },
            r is Err ==> r matches Err(FlagdError::Config(_)),
            (match upstream_plan(target@, is_in_process, tls) {
                Some(p) => endpoint_accepts(p.0) && p.2 && !cert_ok(cert),
                None => false,
            }) ==> (r matches Err(FlagdError::Config(e)) && e@ == cert_failure(cert)),
            (match upstream_plan(target@, is_in_process, tls) {
                Some(p) => !endpoint_accepts(p.0),
                None => false,
            }) ==> (r matches Err(FlagdError::Config(e)) && "Invalid endpoint: "@.is_prefix_of(e@)),
            ("envoy://"@.is_prefix_of(target@) && uri_parse(target@) is None) ==> (r matches Err(
                FlagdError::Config(e),
            ) && "Failed to parse target URI: "@.is_prefix_of(e@)),
            r matches Ok(c) ==> ({
                let p = upstream_plan(target@, is_in_process, tls)->Some_0;
                &&& c.endpoint_text() == p.0
                &&& c.authority_spec() == p.1
                &&& if p.2 {
                    c.tls_spec() matches Some(roots) && match cert {
                        Some(f) => roots matches TlsRoots::CustomCa(x) && x@ == f.read->Ok_0@,
                        None => roots is System,
                    }
                } else {
                    c.tls_spec() is None
                }
            }),
    {
        let default_port: i32 = if is_in_process {
            8015
        } else {
            8013
        };
        let is_http = starts_with(target.as_str(), "http://");
        let is_https = starts_with(target.as_str(), "https://");
        if is_http || is_https {
            proof {
                reveal_strlit("envoy://");
                reveal_strlit("http://");
                reveal_strlit("https://");
                if "envoy://"@.is_prefix_of(target@) {
                    assert(target@[0] == "envoy://"@[0]);
                    if is_http {
                        assert(target@[0] == "http://"@[0]);
                    } else {
                        assert(target@[0] == "https://"@[0]);
                    }
                }
            }
            let endpoint = match endpoint_from(target) {
                Ok(e) => e,
                Err(e) => {
                    return Err(with_detail("Invalid endpoint: ", e.as_str()));
                },
            };
            let tls_roots = if is_https {
                match roots_of(cert) {
                Ok(roots) => Some(roots),
                Err(e) => {
                    return Err(e);
                },
            }
            } else {
                None
            };
            return Ok(UpstreamConfig { endpoint, authority: None, tls: tls_roots });
        }
        let mut endpoint_text = if tls {
            "https://".to_string()
        } else {
            "http://".to_string()
        };
        proof {
            reveal_strlit("https://");
            reveal_strlit("http://");
            reveal_strlit("https");
            reveal_strlit("http");
            reveal_strlit("://");
        }
        let ghost scheme = if tls { "https"@ } else { "http"@ };
        assert(endpoint_text@ =~= scheme + "://"@);
        let authority: Option<String> = if starts_with(target.as_str(), "envoy://") {
            let uri = match parse_uri(target.as_str()) {
                Ok(u) => u,
                Err(e) => {
                    return Err(with_detail("Failed to parse target URI: ", e.as_str()));
                },
            };
            let authority = trim_start_char(uri.path.as_str(), '/');
            if authority.as_str().unicode_len() == 0 {
                return Err(FlagdError::Config("Service name (authority) cannot be empty".to_string()));
            }
            match &uri.host {
                Some(h) => endpoint_text.append(h.as_str()),
                None => endpoint_text.append("localhost"),
            }
            endpoint_text.append(":");
            let port: u16 = match uri.port {
                Some(p) => p,
                None => 9211,
            };
            let port_text = u64_text(port as u64);
            endpoint_text.append(port_text.as_str());
            Some(authority)
        } else {
            let (host, port_text): (String, Option<String>) = match split_once(target.as_str(), ':') {
                Some((h, rest)) => match split_once(rest.as_str(), ':') {
                    Some((p, _)) => (h, Some(p)),
                    None => (h, Some(rest)),
                },
                None => (target.clone(), None),
            };
            let port: i32 = match &port_text {
                Some(p) => match parse_i32(p.as_str()) {
                    Some(n) => n,
                    None => default_port,
                },
                None => default_port,
            };
            endpoint_text.append(host.as_str());
            endpoint_text.append(":");
            let pt = i32_text(port);
            endpoint_text.append(pt.as_str());
            None
        };
        assert(endpoint_text@ =~= upstream_plan(target@, is_in_process, tls)->Some_0.0);
        let endpoint = match endpoint_from(endpoint_text) {
            Ok(e) => e,
            Err(e) => {
                return Err(with_detail("Invalid endpoint: ", e.as_str()));
            },
        };
        let tls_roots = if tls {
            match roots_of(cert) {
                Ok(roots) => Some(roots),
                Err(e) => {
                    return Err(e);
                },
            }
        } else {
            None
        };
        Ok(UpstreamConfig { endpoint, authority, tls: tls_roots })
    }

    /// The endpoint to connect to.
    pub fn endpoint(&self) -> (r: &tonic::transport::Endpoint)
        ensures
            *r == self.endpoint_spec(),
    {
        self.endpoint.endpoint()
    }

    /// The authority the connection presents, if any.
    pub fn authority(&self) -> (r: Option<String>)
        ensures
            match r {
                Some(a) => self.authority_spec() == Some(a@),
                None => self.authority_spec() is None,
            },
    {
        match &self.authority {
            Some(a) => Some(a.clone()),
            None => None,
        }
    }

    /// The TLS trust roots, when the connection uses TLS.
    pub fn tls_roots(&self) -> (r: Option<&TlsRoots>)
        ensures
            match r {
                Some(x) => self.tls_spec() == Some(*x),
                None => self.tls_spec() is None,
            },
    {
        match &self.tls {
            Some(t) => Some(t),
            None => None,
        }
    }
}
} // verus!
