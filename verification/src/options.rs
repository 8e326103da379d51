//! Provider configuration: which resolver to use and how to reach flagd,
//! from explicit values or from the `FLAGD_*` configuration variables.

use vstd::prelude::*;
use crate::cache::service::{CacheSettings, CacheType, ascii_lower_is, same_letter, settings_from};
use crate::text::{chars_of, parse_unsigned, parse_unsigned_spec, str_eq};

verus! {

broadcast use vstd::string::group_string_axioms;

/// How flags are evaluated.
#[derive(Clone, Copy, PartialEq, Eq, Structural, Debug)]
pub enum ResolverType {
    /// Remote evaluation over gRPC.
    Rpc,
    /// Remote evaluation over HTTP (OFREP).
    Rest,
    /// Local evaluation of flags synced over gRPC.
    InProcess,
    /// Local evaluation of flags read from a file.
    File,
}

/// The configuration of the provider.
#[derive(Debug)]
pub struct FlagdOptions {
    pub host: String,
    pub port: u16,
    pub target_uri: Option<String>,
    pub resolver_type: ResolverType,
    pub tls: bool,
    pub cert_path: Option<String>,
    pub deadline_ms: u32,
    pub cache_settings: Option<CacheSettings>,
    pub retry_backoff_ms: u32,
    pub retry_backoff_max_ms: u32,
    pub retry_grace_period: u32,
    pub selector: Option<String>,
    pub socket_path: Option<String>,
    pub source_configuration: Option<String>,
    pub stream_deadline_ms: u32,
    pub offline_poll_interval_ms: Option<u32>,
}

/// The values of the configuration variables, each absent or set.
#[derive(Debug)]
pub struct EnvValues {
    pub resolver: Option<String>,
    pub host: Option<String>,
    pub port: Option<String>,
    pub target_uri: Option<String>,
    pub tls: Option<String>,
    pub cert_path: Option<String>,
    pub deadline_ms: Option<String>,
    pub retry_backoff_ms: Option<String>,
    pub retry_backoff_max_ms: Option<String>,
    pub retry_grace_period: Option<String>,
    pub stream_deadline_ms: Option<String>,
    pub socket_path: Option<String>,
    pub selector: Option<String>,
    pub cache: Option<String>,
    pub max_cache_size: Option<String>,
    pub cache_ttl: Option<String>,
    pub offline_flag_source_path: Option<String>,
    pub offline_poll_ms: Option<String>,
}

/// What `str::to_uppercase` gives for a text.
pub uninterp spec fn uppercase_of(s: Seq<char>) -> Seq<char>;

/// Whether every character of a text is ASCII.
pub open spec fn is_ascii_text(s: Seq<char>) -> bool {
    forall|i: int| 0 <= i < s.len() ==> (#[trigger] s[i] as u32) < 128
}

/// An ASCII character in upper case: `a` to `z` become `A` to `Z`, any
/// other character stays.
pub open spec fn ascii_upper_char(c: char) -> char {
    if 'a' <= c <= 'z' {
        ((c as u32) - 32) as char
    } else {
        c
    }
}

/// A text with its ASCII letters in upper case.
pub open spec fn ascii_upper(s: Seq<char>) -> Seq<char> {
    s.map_values(|c: char| ascii_upper_char(c))
}

/// Calls `str::to_uppercase`. The contract names the result as a function
/// of the text alone; of the Unicode case mapping it states only the ASCII
/// part, which maps `a` to `z` to `A` to `Z` and keeps every other ASCII
/// character.
#[verifier::external_body]
fn to_uppercase(s: &str) -> (r: String)
    ensures
        r@ == uppercase_of(s@),
        is_ascii_text(s@) ==> r@ == ascii_upper(s@),
{
    s.to_uppercase()
}

/// The resolver type a name stands for in any case: an ASCII name by its
/// ASCII upper case, any other name by its Unicode upper case.
pub open spec fn named_resolver(name: Seq<char>) -> ResolverType {
    if is_ascii_text(name) {
        resolver_named(ascii_upper(name))
    } else {
        resolver_named(uppercase_of(name))
    }
}

/// The resolver type an upper-cased name stands for; any other name stands
/// for RPC.
pub open spec fn resolver_named(upper: Seq<char>) -> ResolverType {
    if upper == "REST"@ {
        ResolverType::Rest
    } else if upper == "IN-PROCESS"@ || upper == "INPROCESS"@ {
        ResolverType::InProcess
    } else if upper == "FILE"@ || upper == "OFFLINE"@ {
        ResolverType::File
    } else {
        ResolverType::Rpc
    }
}

impl ResolverType {
    /// The resolver type a name stands for, in any case: "rpc", "rest",
    /// "in-process" or "inprocess", "file" or "offline"; any other name
    /// stands for RPC.
    pub fn from_name(name: &str) -> (r: ResolverType)
        ensures
            r == named_resolver(name@),
    {
        let upper = to_uppercase(name);
        let u = upper.as_str();
        if str_eq(u, "REST") {
            ResolverType::Rest
        } else if str_eq(u, "IN-PROCESS") || str_eq(u, "INPROCESS") {
            ResolverType::InProcess
        } else if str_eq(u, "FILE") || str_eq(u, "OFFLINE") {
            ResolverType::File
        } else {
            ResolverType::Rpc
        }
    }

    /// The port a resolver type connects to when none is configured.
    pub fn default_port(&self) -> (r: u16)
        ensures
            r == match *self {
                ResolverType::InProcess => 8015u16,
                ResolverType::Rest => 8016u16,
                _ => 8013u16,
            },
    {
        match self {
            ResolverType::InProcess => 8015,
            ResolverType::Rest => 8016,
            _ => 8013,
        }
    }
}

/// A number read from an optional value, or the default.
pub open spec fn number_or(v: Option<String>, max: nat, default: nat) -> nat {
    match v {
        Some(s) => match parse_unsigned_spec(s@, max) {
            Some(n) => n,
            None => default,
        },
        None => default,
    }
}

/// A copy of an optional string.
fn clone_opt(v: &Option<String>) -> (r: Option<String>)
    ensures
        r == *v,
{
    match v {
        Some(s) => Some(s.clone()),
        None => None,
    }
}

/// A `u32` read from an optional value, or the default.
fn u32_or(v: &Option<String>, default: u32) -> (r: u32)
    ensures
        r == number_or(*v, u32::MAX as nat, default as nat),
{
    match v {
        Some(s) => match parse_unsigned(s.as_str(), u32::MAX as u64) {
            Some(n) => n as u32,
            None => default,
        },
        None => default,
    }
}

/// The options the configuration variables give.
pub open spec fn options_from(env: EnvValues, r: FlagdOptions) -> bool {
    let named = match env.resolver {
        Some(s) => named_resolver(s@),
        None => ResolverType::Rpc,
    };
    let default_port: nat = match named {
        ResolverType::InProcess => 8015,
        ResolverType::Rest => 8016,
        _ => 8013,
    };
    &&& r.resolver_type == if env.offline_flag_source_path is Some && named != ResolverType::Rpc {
        ResolverType::File
    } else {
        named
    }
    &&& r.host@ == match env.host {
        Some(h) => h@,
        None => "localhost"@,
    }
    &&& r.port == number_or(env.port, u16::MAX as nat, default_port)
    &&& r.target_uri == env.target_uri
    &&& r.tls == match env.tls {
        Some(t) => ascii_lower_is(t@, "true"@),
        None => false,
    }
    &&& r.cert_path == env.cert_path
    &&& r.deadline_ms == number_or(env.deadline_ms, u32::MAX as nat, 500)
    &&& r.retry_backoff_ms == number_or(env.retry_backoff_ms, u32::MAX as nat, 1000)
    &&& r.retry_backoff_max_ms == number_or(env.retry_backoff_max_ms, u32::MAX as nat, 120000)
    &&& r.retry_grace_period == number_or(env.retry_grace_period, u32::MAX as nat, 5)
    &&& r.stream_deadline_ms == number_or(env.stream_deadline_ms, u32::MAX as nat, 600000)
    &&& r.socket_path == env.socket_path
    &&& r.selector == env.selector
    &&& r.source_configuration == env.offline_flag_source_path
    &&& r.offline_poll_interval_ms == Some(number_or(env.offline_poll_ms, u32::MAX as nat, 5000) as u32)
    &&& r.cache_settings matches Some(cs) && settings_from(
        match env.cache {
            Some(s) => Some(s@),
            None => None,
        },
        match env.max_cache_size {
            Some(s) => Some(s@),
            None => None,
        },
        match env.cache_ttl {
            Some(s) => Some(s@),
            None => None,
        },
        cs,
    )
}

impl FlagdOptions {
    /// The options the configuration variables give: each option takes its
    /// variable's value when it is set (and, for numbers, reads as one),
    /// else its default; a flag source file with any resolver but RPC
    /// selects the file resolver.
    pub fn from_env_values(env: &EnvValues) -> (r: FlagdOptions)
        ensures
            options_from(*env, r),
    {
        let named = match &env.resolver {
            Some(s) => ResolverType::from_name(s.as_str()),
            None => ResolverType::Rpc,
        };
        let default_port = named.default_port();
        let port: u16 = match &env.port {
            Some(p) => match parse_unsigned(p.as_str(), u16::MAX as u64) {
                Some(n) => n as u16,
                None => default_port,
            },
            None => default_port,
        };
        let tls = match &env.tls {
            Some(t) => {
                let cs = chars_of(t.as_str());
                let is_true = crate::cache::service::lower_equals(&cs, "true");
                is_true
            },
            None => false,
        };
        let cache_settings = CacheSettings::from_values(
            match &env.cache {
                Some(s) => Some(s.as_str()),
                None => None,
            },
            match &env.max_cache_size {
                Some(s) => Some(s.as_str()),
                None => None,
            },
            match &env.cache_ttl {
                Some(s) => Some(s.as_str()),
                None => None,
            },
        );
        let resolver_type = if env.offline_flag_source_path.is_some() && named != ResolverType::Rpc {
            ResolverType::File
        } else {
            named
        };
        FlagdOptions {
            host: match &env.host {
                Some(h) => h.clone(),
                None => "localhost".to_string(),
            },
            port,
            target_uri: clone_opt(&env.target_uri),
            resolver_type,
            tls,
            cert_path: clone_opt(&env.cert_path),
            deadline_ms: u32_or(&env.deadline_ms, 500),
            cache_settings: Some(cache_settings),
            retry_backoff_ms: u32_or(&env.retry_backoff_ms, 1000),
            retry_backoff_max_ms: u32_or(&env.retry_backoff_max_ms, 120000),
            retry_grace_period: u32_or(&env.retry_grace_period, 5),
            selector: clone_opt(&env.selector),
            socket_path: clone_opt(&env.socket_path),
            source_configuration: clone_opt(&env.offline_flag_source_path),
            stream_deadline_ms: u32_or(&env.stream_deadline_ms, 600000),
            offline_poll_interval_ms: Some(u32_or(&env.offline_poll_ms, 5000)),
        }
    }
}


/// A text that reads as a lower-case ASCII word in any case has that word's
/// upper case as its ASCII upper case.
proof fn lemma_ascii_upper_word(s: Seq<char>, word: Seq<char>, upper: Seq<char>)
    requires
        ascii_lower_is(s, word),
        upper.len() == word.len(),
        forall|i: int| 0 <= i < word.len() ==> 'a' <= #[trigger] word[i] <= 'z' || word[i] == '-',
        forall|i: int| 0 <= i < word.len() ==> #[trigger] upper[i] == ascii_upper_char(word[i]),
    ensures
        is_ascii_text(s),
        ascii_upper(s) == upper,
{
    assert forall|i: int| 0 <= i < s.len() implies (#[trigger] s[i] as u32) < 128 by {
        assert(same_letter(s[i], word[i]));
    }
    assert forall|i: int| 0 <= i < s.len() implies #[trigger] ascii_upper(s)[i] == upper[i] by {
        assert(same_letter(s[i], word[i]));
    }
    assert(ascii_upper(s) =~= upper);
}

/// Resolver names are read in any case: "rest" in any ASCII case selects
/// the REST resolver, "in-process" or "inprocess" the in-process one, and
/// "file" or "offline" the file resolver.
pub proof fn law_resolver_names_any_case(s: Seq<char>)
    ensures
        ascii_lower_is(s, "rest"@) ==> named_resolver(s) == ResolverType::Rest,
        ascii_lower_is(s, "in-process"@) || ascii_lower_is(s, "inprocess"@) ==> named_resolver(s)
            == ResolverType::InProcess,
        ascii_lower_is(s, "file"@) || ascii_lower_is(s, "offline"@) ==> named_resolver(s) == ResolverType::File,
{
    reveal_strlit("rest");
    reveal_strlit("REST");
    reveal_strlit("in-process");
    reveal_strlit("IN-PROCESS");
    reveal_strlit("inprocess");
    reveal_strlit("INPROCESS");
    reveal_strlit("file");
    reveal_strlit("FILE");
    reveal_strlit("offline");
    reveal_strlit("OFFLINE");
    assert("IN-PROCESS"@.len() != "REST"@.len());
    assert("INPROCESS"@.len() != "REST"@.len());
    assert("OFFLINE"@.len() != "REST"@.len());
    assert("OFFLINE"@.len() != "IN-PROCESS"@.len() && "OFFLINE"@.len() != "INPROCESS"@.len());
    assert("FILE"@.len() != "IN-PROCESS"@.len() && "FILE"@.len() != "INPROCESS"@.len());
    assert("FILE"@[0] != "REST"@[0]);
    if ascii_lower_is(s, "rest"@) {
        lemma_ascii_upper_word(s, "rest"@, "REST"@);
    }
    if ascii_lower_is(s, "in-process"@) {
        lemma_ascii_upper_word(s, "in-process"@, "IN-PROCESS"@);
    }
    if ascii_lower_is(s, "inprocess"@) {
        lemma_ascii_upper_word(s, "inprocess"@, "INPROCESS"@);
    }
    if ascii_lower_is(s, "file"@) {
        lemma_ascii_upper_word(s, "file"@, "FILE"@);
    }
    if ascii_lower_is(s, "offline"@) {
        lemma_ascii_upper_word(s, "offline"@, "OFFLINE"@);
    }
}

/// With the resolver named "rest" in any ASCII case, no port set and no
/// flag source file, the options select the REST resolver on port 8016; with
/// a flag source file and any resolver name but RPC's, the file resolver.
pub proof fn law_rest_and_offline_selection(env: EnvValues, r: FlagdOptions)
    requires
        options_from(env, r),
    ensures
        (env.resolver matches Some(s) && ascii_lower_is(s@, "rest"@)) && env.port is None
            && env.offline_flag_source_path is None ==> r.resolver_type == ResolverType::Rest && r.port == 8016,
        (env.resolver matches Some(s) && named_resolver(s@) != ResolverType::Rpc)
            && env.offline_flag_source_path is Some ==> r.resolver_type == ResolverType::File,
{
    if let Some(s) = env.resolver {
        law_resolver_names_any_case(s@);
    }
}

} // verus!
