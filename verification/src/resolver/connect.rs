//! How a remote-evaluation (RPC) connection is set up from the provider's
//! options: through a Unix socket, or over TCP to the configured target,
//! presenting the service named by an Envoy target as the origin.

use vstd::prelude::*;
use crate::error::FlagdError;
use crate::options::FlagdOptions;
use crate::resolver::name::{with_detail, CertFile, ParsedUri, UpstreamConfig, cert_ok, parse_uri, uri_parse, upstream_plan,
    endpoint_accepts};
use crate::text::{starts_with, split_once, split_once_spec, u64_text, decimal_text};
use vstd::string::StringExecFns;

verus! {

broadcast use vstd::string::group_string_axioms;

/// `s` with every leading copy of a non-empty prefix `p` removed.
pub open spec fn strip_all(s: Seq<char>, p: Seq<char>) -> Seq<char>
    decreases s.len(),
{
    if p.len() > 0 && p.is_prefix_of(s) {
        strip_all(s.skip(p.len() as int), p)
    } else {
        s
    }
}

/// The target an RPC connection goes to: the target URI when one is set,
/// else `host:port`.
pub open spec fn rpc_target(options: FlagdOptions) -> Seq<char> {
    match options.target_uri {
        Some(t) => t@,
        None => options.host@ + ":"@ + decimal_text(options.port as nat),
    }
}

/// The service an `envoy://<host:port>/<service>` target URI names: the
/// second `/`-separated segment after the scheme, if there is one.
pub open spec fn envoy_authority(target_uri: Option<String>) -> Option<Seq<char>> {
    match target_uri {
        Some(t) => if "envoy://"@.is_prefix_of(t@) {
            match split_once_spec(strip_all(t@, "envoy://"@), '/') {
                Some(p) => Some(
                    match split_once_spec(p.1, '/') {
                        Some(q) => q.0,
                        None => p.1,
                    },
                ),
                None => None,
            }
        } else {
            None
        },
        None => None,
    }
}

/// The target of an RPC connection.
pub fn rpc_target_of(options: &FlagdOptions) -> (r: String)
    ensures
        r@ == rpc_target(*options),
{
    match &options.target_uri {
        Some(t) => t.clone(),
        None => {
            let mut s = options.host.clone();
            s.append(":");
            let port = u64_text(options.port as u64);
            s.append(port.as_str());
            proof {
                reveal_strlit(":");
            }
            s
        },
    }
}

/// `s` without its leading copies of `envoy://`.
fn strip_envoy(s: &str) -> (r: String)
    ensures
        r@ == strip_all(s@, "envoy://"@),
{
    proof {
        reveal_strlit("envoy://");
    }
    let mut rest = s.to_string();
    while starts_with(rest.as_str(), "envoy://")
        invariant
            "envoy://"@.len() == 8,
            strip_all(s@, "envoy://"@) == strip_all(rest@, "envoy://"@),
        decreases rest@.len(),
    {
        let n = rest.as_str().unicode_len();
        let next = rest.as_str().substring_char(8, n).to_string();
        assert(next@ =~= rest@.skip(8));
        rest = next;
    }
    rest
}

/// The service an Envoy target URI names, if any.
pub fn envoy_authority_of(target_uri: &Option<String>) -> (r: Option<String>)
    ensures
        match envoy_authority(*target_uri) {
            Some(a) => r matches Some(x) && x@ == a,
            None => r is None,
        },
{
    match target_uri {
        Some(t) => {
            if !starts_with(t.as_str(), "envoy://") {
                return None;
            }
            let rest = strip_envoy(t.as_str());
            match split_once(rest.as_str(), '/') {
                Some((_, tail)) => match split_once(tail.as_str(), '/') {
                    Some((segment, _)) => Some(segment),
                    None => Some(tail),
                },
                None => None,
            }
        },
        None => None,
    }
}

/// How an RPC connection is made.
pub enum RpcConnection {
    /// Through the Unix domain socket at this path.
    Unix(String),
    /// Over TCP to the upstream, with the origin to present when the target
    /// names a service, and the request timeout in milliseconds.
    Tcp { upstream: UpstreamConfig, origin: Option<ParsedUri>, timeout_ms: u32 },
}

/// How the RPC resolver connects: a socket path, when set, takes precedence;
/// otherwise the target is resolved to an upstream with `cert`, the CA
/// certificate file named by the options as read (failing as
/// `UpstreamConfig::new` fails), and an Envoy target's service becomes the
/// origin `http://<service>`, a configuration error when that is no URI.
pub fn rpc_connection(options: &FlagdOptions, cert: Option<CertFile>) -> (r: Result<RpcConnection, FlagdError>)
    ensures
        options.socket_path matches Some(p) ==> (r matches Ok(RpcConnection::Unix(x)) && x@ == p@),
        options.socket_path is None ==> (r is Ok <==> ({
            &&& match upstream_plan(rpc_target(*options), false, options.tls) {
                Some(p) => endpoint_accepts(p.0) && (p.2 ==> cert_ok(cert)),
                None => false,
            }
            &&& match envoy_authority(options.target_uri) {
                Some(a) => uri_parse("http://"@ + a) is Some,
                None => true,
            }
        })),
        options.socket_path is None ==> (r is Err ==> r matches Err(FlagdError::Config(_))),
        (options.socket_path is None && (match upstream_plan(rpc_target(*options), false, options.tls) {
            Some(p) => endpoint_accepts(p.0) && (p.2 ==> cert_ok(cert)),
            None => false,
        }) && (envoy_authority(options.target_uri) matches Some(a) && uri_parse("http://"@ + a) is None))
            ==> (r matches Err(FlagdError::Config(m)) && "Invalid authority URI: "@.is_prefix_of(m@)),
        r matches Ok(RpcConnection::Tcp { upstream, origin, timeout_ms }) ==> ({
            &&& timeout_ms == options.deadline_ms
            &&& upstream.endpoint_text() == upstream_plan(rpc_target(*options), false, options.tls)->Some_0.0
            &&& upstream.authority_spec() == upstream_plan(rpc_target(*options), false, options.tls)->Some_0.1
            &&& match envoy_authority(options.target_uri) {
                Some(a) => origin matches Some(o) && Some(o@) == uri_parse("http://"@ + a) && o.source() == "http://"@ + a,
                None => origin is None,
            }
        }),
{
    if let Some(path) = &options.socket_path {
        return Ok(RpcConnection::Unix(path.clone()));
    }
    let target = rpc_target_of(options);
    let upstream = match UpstreamConfig::new(target, false, options.tls, cert) {
        Ok(u) => u,
        Err(e) => {
            return Err(e);
        },
    };
    let origin = match envoy_authority_of(&options.target_uri) {
        Some(a) => {
            let mut text = "http://".to_string();
            text.append(a.as_str());
            match parse_uri(text.as_str()) {
                Ok(u) => Some(u),
                Err(e) => {
                    return Err(with_detail("Invalid authority URI: ", e.as_str()));
                },
            }
        },
        None => None,
    };
    Ok(RpcConnection::Tcp { upstream, origin, timeout_ms: options.deadline_ms })
}

} // verus!
