//! OpenCode cloud provider (`/zen` endpoints) with optional front-proxy
//! routing: a key may pin the provider's domain to a front-proxy exit IP.
//!
//! The upstream free tier fingerprint-checks every chat request: a fresh
//! `x-session-id` of the official shape, a `User-Agent` that parses to
//! `opencode/<version>`, `Authorization: Bearer public`, and the
//! `bash` / `glob` / `grep` / `read` tools in the body.
//!
//! Two checks belong to other parts of the gateway and come in as
//! functions: whether an IP address is private or reserved, and whether an
//! API format is an alias of `openai:chat`.
use vstd::prelude::*;

use crate::free_tier::{ensure_opencode_free_tier_tools, spec_ensure_free_tier_tools};
use crate::ip::{parse_ip_addr_chars, spec_parse_ip_addr, IpValue};
use crate::json::{
    as_str, as_u64, entries_data, entries_map, entries_set, get, insert_entry, json_as_str,
    json_as_u64, json_get, lemma_entries_set_map, lemma_object_data, JsonData, JsonValue,
};
use crate::session::{
    fallback_session_bytes, has_session_id_shape, opt_bytes, os_random_bytes, session_id_text_with,
    session_id_with, spec_fallback_bytes,
};
use crate::text::{
    chars_of, eq_ignore_ascii_case, eq_ignore_ascii_case_chars, is_ws, is_ws_exec, owned,
    push_chars, string_from_chars, trim, trim_str,
};
use crate::transport::{
    profile_opt_view, GatewayProviderTransportSnapshot, HeaderMap, ProfileView,
    ResolvedTransportProfile, TransportProfileNames,
};
use crate::url::{
    default_port, parse_url, port_or_known_default, spec_url_parse, url_parts_wf, UrlParts, UrlPartsView,
};

verus! {

pub const OPENCODE_PROVIDER_TYPE: &'static str = "opencode";

/// Base URL of the OpenCode official cloud service.
pub const OPENCODE_BASE_URL: &'static str = "https://opencode.ai";

/// The official direct domain.  When the front proxy is switched off the
/// endpoint points here, and an exit IP must not be applied.
pub const OPENCODE_ORIGINAL_DOMAIN: &'static str = "opencode.ai";

/// Path of the OpenAI-compatible chat endpoint.
pub const OPENCODE_CHAT_PATH: &'static str = "/zen/v1/chat/completions";

/// Lowest client version the upstream accepts (below it answers 426).
pub const OPENCODE_MIN_CLIENT_VERSION: &'static str = "1.17.0";

/// Client version sent by default.
pub const OPENCODE_DEFAULT_CLIENT_VERSION: &'static str = "1.18.31";

/// The part of the `User-Agent` after `opencode/<version> `.
pub const OPENCODE_USER_AGENT_SUFFIX: &'static str = "ai-sdk/provider-utils/4.0.23 runtime/bun/1.3.14";

/// The fixed bearer token of the public free tier.
pub const OPENCODE_CHAT_AUTHORIZATION: &'static str = "Bearer public";

/// A provider type names OpenCode: `opencode`, ignoring ASCII case and
/// surrounding whitespace.
pub open spec fn is_opencode_provider_type(t: Seq<char>) -> bool {
    eq_ignore_ascii_case(trim(t), "opencode"@)
}

/// Whether the transport belongs to the `opencode` provider type.
pub fn is_opencode_provider_transport(transport: &GatewayProviderTransportSnapshot) -> (b: bool)
    ensures
        b == is_opencode_provider_type(transport.provider.provider_type@),
{
    let t = trim_str(transport.provider.provider_type.as_str());
    let o = chars_of(OPENCODE_PROVIDER_TYPE);
    eq_ignore_ascii_case_chars(&t, &o)
}

/// What parsing `text` as an exit IP gives, given the answers of the
/// reserved-address check: the address when `text` (trimmed) is an IP
/// address that the check does not call reserved.
pub open spec fn exit_ip_outcome<F: Fn(IpValue) -> bool>(
    text: Seq<char>,
    is_reserved: F,
    r: Option<IpValue>,
) -> bool {
    match spec_parse_ip_addr(trim(text)) {
        None => r is None,
        Some(ip) => match r {
            Some(x) => x == ip && is_reserved.ensures((ip,), false),
            None => is_reserved.ensures((ip,), true),
        },
    }
}

/// Parses and validates a public front-proxy exit IP.
///
/// Only public addresses are accepted: a loopback or private address would
/// turn the key metadata into a way around the provider DNS policy.
pub fn parse_opencode_exit_ip<F: Fn(IpValue) -> bool>(value: &str, is_reserved: &F) -> (r: Option<
    IpValue,
>)
    requires
        forall|ip: IpValue| #[trigger] is_reserved.requires((ip,)),
    ensures
        exit_ip_outcome(value@, *is_reserved, r),
{
    let t = trim_str(value);
    match parse_ip_addr_chars(&t) {
        Some(ip) => {
            if is_reserved(ip) {
                None
            } else {
                Some(ip)
            }
        },
        None => None,
    }
}

/// The exit IP text configured on an OpenCode key: the string
/// `upstream_metadata.opencode_exit_ip`.
pub open spec fn exit_ip_text(t: GatewayProviderTransportSnapshot) -> Option<Seq<char>> {
    if !is_opencode_provider_type(t.provider.provider_type@) {
        None
    } else {
        match t.key.upstream_metadata {
            None => None,
            Some(m) => match json_get(m.data(), "opencode_exit_ip"@) {
                Some(v) => json_as_str(v),
                None => None,
            },
        }
    }
}

/// The exit IP configured on an OpenCode key (`upstream_metadata` field
/// `opencode_exit_ip`).  Missing, invalid or reserved values, and keys of
/// other providers, give `None`: the request then goes out as without one.
pub fn opencode_key_exit_ip<F: Fn(IpValue) -> bool>(
    transport: &GatewayProviderTransportSnapshot,
    is_reserved: &F,
) -> (r: Option<IpValue>)
    requires
        forall|ip: IpValue| #[trigger] is_reserved.requires((ip,)),
    ensures
        match exit_ip_text(*transport) {
            None => r is None,
            Some(text) => exit_ip_outcome(text, *is_reserved, r),
        },
{
    if !is_opencode_provider_transport(transport) {
        return None;
    }
    let metadata = match &transport.key.upstream_metadata {
        Some(m) => m,
        None => return None,
    };
    let value = match get(metadata, "opencode_exit_ip") {
        Some(v) => v,
        None => return None,
    };
    let text = match as_str(value) {
        Some(s) => s,
        None => return None,
    };
    parse_opencode_exit_ip(text.as_str(), is_reserved)
}

/// A DNS pin as plain values: (host, ip, port).
pub open spec fn pin_view(r: Option<(String, IpValue, u16)>) -> Option<(Seq<char>, IpValue, u16)> {
    match r {
        Some((h, ip, p)) => Some((h@, ip, p)),
        None => None,
    }
}

pub open spec fn url_view(u: Option<UrlParts>) -> Option<UrlPartsView> {
    match u {
        Some(x) => Some(x@),
        None => None,
    }
}

/// The pin for a base URL and an exit IP: an `https` URL without user,
/// password, query or fragment, whose host (trimmed) is a name other than
/// the official domain, with a nonzero port.
pub open spec fn spec_pin_from_url(u: Option<UrlPartsView>, ip: IpValue) -> Option<
    (Seq<char>, IpValue, u16),
> {
    match u {
        None => None,
        Some(u) => if u.scheme != "https"@ || u.username.len() > 0 || u.has_password || u.has_query
            || u.has_fragment {
            None
        } else {
            match u.host {
                None => None,
                Some(h) => {
                    let host = trim(h);
                    if host.len() == 0 || spec_parse_ip_addr(host) is Some || eq_ignore_ascii_case(
                        host,
                        "opencode.ai"@,
                    ) {
                        None
                    } else {
                        match port_or_known_default(u) {
                            Some(p) => if p != 0 {
                                Some((host, ip, p))
                            } else {
                                None
                            },
                            None => None,
                        }
                    }
                },
            }
        },
    }
}

/// The DNS pin for a parsed base URL and an exit IP.
pub fn dns_pin_from_url(url: Option<UrlParts>, ip: IpValue) -> (r: Option<(String, IpValue, u16)>)
    ensures
        pin_view(r) == spec_pin_from_url(url_view(url), ip),
{
    let u = match url {
        Some(u) => u,
        None => return None,
    };
    let scheme = chars_of(u.scheme.as_str());
    let https = chars_of("https");
    if !crate::text::chars_eq(&scheme, &https) || !u.username.as_str().is_empty() || u.has_password
        || u.has_query || u.has_fragment {
        return None;
    }
    let host = match &u.host {
        Some(h) => trim_str(h.as_str()),
        None => return None,
    };
    if host.len() == 0 {
        return None;
    }
    if parse_ip_addr_chars(&host).is_some() {
        return None;
    }
    let official = chars_of(OPENCODE_ORIGINAL_DOMAIN);
    if eq_ignore_ascii_case_chars(&host, &official) {
        return None;
    }
    let port = match u.port_or_known_default() {
        Some(p) => p,
        None => return None,
    };
    if port == 0 {
        return None;
    }
    Some((string_from_chars(&host), ip, port))
}

/// The exit IP of a transport and the outcome of its pin.
pub open spec fn pin_outcome<F: Fn(IpValue) -> bool>(
    t: GatewayProviderTransportSnapshot,
    is_reserved: F,
    r: Option<(String, IpValue, u16)>,
) -> bool {
    match exit_ip_text(t) {
        None => r is None,
        Some(text) => match spec_parse_ip_addr(trim(text)) {
            None => r is None,
            Some(ip) => {
                let parsed = spec_url_parse(trim(t.endpoint.base_url@));
                let pin = spec_pin_from_url(parsed, ip);
                &&& r is Some ==> is_reserved.ensures((ip,), false) && pin_view(r) == pin && (
                parsed matches Some(u) ==> url_parts_wf(u))
                &&& r is None ==> is_reserved.ensures((ip,), true) || pin is None
            },
        },
    }
}

/// The front-proxy DNS pin of a transport: `(host, ip, port)`.
///
/// The host is the endpoint's domain (TLS/SNI and HTTP Host keep it), the
/// IP is the key's exit IP and the port is the base URL's.  A pin to the
/// official domain is never made: the pool's IPs are front-proxy nodes, and
/// a handshake with the official name would fail on them.
pub fn opencode_dns_pin<F: Fn(IpValue) -> bool>(
    transport: &GatewayProviderTransportSnapshot,
    is_reserved: &F,
) -> (r: Option<(String, IpValue, u16)>)
    requires
        forall|ip: IpValue| #[trigger] is_reserved.requires((ip,)),
    ensures
        pin_outcome(*transport, *is_reserved, r),
{
    let ip = match opencode_key_exit_ip(transport, is_reserved) {
        Some(ip) => ip,
        None => return None,
    };
    let base = trim_str(transport.endpoint.base_url.as_str());
    let base_text = string_from_chars(&base);
    let url = parse_url(base_text.as_str());
    dns_pin_from_url(url, ip)
}

/// The profile id of a pinned transport profile: `opencode:<host>`.
pub fn opencode_profile_id(host: &str) -> (id: String)
    ensures
        id@ == "opencode:"@ + host@,
{
    let mut id = owned("opencode:");
    let h = chars_of(host);
    push_chars(&mut id, &h);
    id
}

/// `{"opencode_dns_pin": {"host": <host>, "ip": <ip text>, "port": <port>}}`.
pub open spec fn spec_pin_extra(host: Seq<char>, ip: IpValue, port: u16) -> JsonData {
    JsonData::Object(
        seq![
            (
                "opencode_dns_pin"@,
                JsonData::Object(
                    seq![
                        ("host"@, JsonData::Str(host)),
                        ("ip"@, JsonData::Str(crate::ip::ip_text(ip))),
                        ("port"@, JsonData::Number(crate::json::JsonNumber::PosInt(port as u64))),
                    ],
                ),
            ),
        ],
    )
}

/// The `extra` of a pinned transport profile, which carries the pin to the
/// execution layer.
pub fn opencode_dns_pin_extra(host: &str, ip: IpValue, port: u16) -> (v: JsonValue)
    ensures
        v.data() == spec_pin_extra(host@, ip, port),
{
    let mut pin: Vec<(String, JsonValue)> = Vec::new();
    pin.push((owned("host"), JsonValue::Str(owned(host))));
    pin.push((owned("ip"), JsonValue::Str(ip.to_text())));
    pin.push((owned("port"), JsonValue::Number(crate::json::JsonNumber::PosInt(port as u64))));
    proof {
        lemma_object_data(pin);
    }
    let ghost pin_data = JsonValue::Object(pin).data();
    assert(pin_data == JsonData::Object(
        seq![
            ("host"@, JsonData::Str(host@)),
            ("ip"@, JsonData::Str(crate::ip::ip_text(ip))),
            ("port"@, JsonData::Number(crate::json::JsonNumber::PosInt(port as u64))),
        ],
    )) by {
        assert(entries_data(pin@) =~= seq![
            ("host"@, JsonData::Str(host@)),
            ("ip"@, JsonData::Str(crate::ip::ip_text(ip))),
            ("port"@, JsonData::Number(crate::json::JsonNumber::PosInt(port as u64))),
        ]);
    }
    let mut outer: Vec<(String, JsonValue)> = Vec::new();
    outer.push((owned("opencode_dns_pin"), JsonValue::Object(pin)));
    proof {
        lemma_object_data(outer);
        assert(entries_data(outer@) =~= seq![("opencode_dns_pin"@, pin_data)]);
    }
    JsonValue::Object(outer)
}

/// The transport profile that carries a pin: id `opencode:<host>`, the
/// given backend, HTTP mode and pool scope, no header fingerprint, and the
/// pin in `extra`.
pub open spec fn spec_pinned_profile(
    pin: (Seq<char>, IpValue, u16),
    names: (Seq<char>, Seq<char>, Seq<char>),
) -> ProfileView {
    ProfileView {
        profile_id: "opencode:"@ + pin.0,
        backend: names.0,
        http_mode: names.1,
        pool_scope: names.2,
        header_fingerprint: None,
        extra: Some(spec_pin_extra(pin.0, pin.1, pin.2)),
    }
}

/// The profile of a pin, when there is one.
pub open spec fn spec_profile_of_pin(
    pin: Option<(Seq<char>, IpValue, u16)>,
    names: (Seq<char>, Seq<char>, Seq<char>),
) -> Option<ProfileView> {
    match pin {
        Some(p) => Some(spec_pinned_profile(p, names)),
        None => None,
    }
}

/// The transport profile that carries a pin to the execution layer.
pub fn pinned_transport_profile(
    host: &str,
    ip: IpValue,
    port: u16,
    names: &TransportProfileNames,
) -> (p: ResolvedTransportProfile)
    ensures
        p@ == spec_pinned_profile((host@, ip, port), names@),
{
    ResolvedTransportProfile {
        profile_id: opencode_profile_id(host),
        backend: owned(names.backend.as_str()),
        http_mode: owned(names.http_mode.as_str()),
        pool_scope: owned(names.pool_scope.as_str()),
        header_fingerprint: None,
        extra: Some(opencode_dns_pin_extra(host, ip, port)),
    }
}

/// The transport profile of an OpenCode transport with a front-proxy pin
/// (the connection goes to the key's exit IP, TLS/SNI and Host keep the
/// front-proxy domain, and connections are pooled per key); `None` when
/// there is no pin.
pub fn opencode_resolved_transport_profile<F: Fn(IpValue) -> bool>(
    transport: &GatewayProviderTransportSnapshot,
    is_reserved: &F,
    names: &TransportProfileNames,
) -> (r: Option<ResolvedTransportProfile>)
    requires
        forall|ip: IpValue| #[trigger] is_reserved.requires((ip,)),
    ensures
        exists|pin: Option<(String, IpValue, u16)>|
            #[trigger] pin_outcome(*transport, *is_reserved, pin) && profile_opt_view(r)
                == spec_profile_of_pin(pin_view(pin), names@),
{
    let pin = opencode_dns_pin(transport, is_reserved);
    let ghost g = pin;
    let r = match pin {
        Some((host, ip, port)) => Some(pinned_transport_profile(host.as_str(), ip, port, names)),
        None => None,
    };
    assert(pin_outcome(*transport, *is_reserved, g));
    r
}

/// A pin host is refused when it is empty, an IP address, or holds
/// whitespace or one of `/ \ ? # @`.
pub open spec fn pin_host_refused(host: Seq<char>) -> bool {
    ||| host.len() == 0
    ||| spec_parse_ip_addr(host) is Some
    ||| exists|i: int|
        0 <= i < host.len() && (is_ws(#[trigger] host[i]) || host[i] == '/' || host[i] == '\\'
            || host[i] == '?' || host[i] == '#' || host[i] == '@')
}

/// The pin fields of an `extra` value: the object `opencode_dns_pin` with
/// string `host` (trimmed, not refused), string `ip` and integer `port`.
pub open spec fn spec_pin_fields(extra: Option<JsonData>) -> Option<(Seq<char>, Seq<char>, u64)> {
    match extra {
        None => None,
        Some(v) => match json_get(v, "opencode_dns_pin"@) {
            Some(JsonData::Object(e)) => {
                let pin = JsonData::Object(e);
                match json_get(pin, "host"@) {
                    Some(h) => match json_as_str(h) {
                        Some(hs) => if pin_host_refused(trim(hs)) {
                            None
                        } else {
                            match json_get(pin, "ip"@) {
                                Some(i) => match json_as_str(i) {
                                    Some(is) => match json_get(pin, "port"@) {
                                        Some(p) => match json_as_u64(p) {
                                            Some(pn) => Some((trim(hs), is, pn)),
                                            None => None,
                                        },
                                        None => None,
                                    },
                                    None => None,
                                },
                                None => None,
                            }
                        },
                        None => None,
                    },
                    None => None,
                }
            },
            _ => None,
        },
    }
}

/// What reading a pin back gives, given the reserved-address answers.
pub open spec fn pin_read_outcome<F: Fn(IpValue) -> bool>(
    extra: Option<JsonData>,
    is_reserved: F,
    r: Option<(String, IpValue, u16)>,
) -> bool {
    match spec_pin_fields(extra) {
        None => r is None,
        Some((host, ip_text, port)) => match spec_parse_ip_addr(trim(ip_text)) {
            None => r is None,
            Some(ip) => {
                &&& r is Some ==> is_reserved.ensures((ip,), false) && 0 < port <= 65535 && pin_view(
                    r,
                ) == Some((host, ip, port as u16))
                &&& r is None ==> is_reserved.ensures((ip,), true) || port == 0 || port > 65535
            },
        },
    }
}

fn host_has_refused_char(host: &Vec<char>) -> (b: bool)
    ensures
        b == exists|i: int|
            0 <= i < host@.len() && (is_ws(#[trigger] host@[i]) || host@[i] == '/' || host@[i]
                == '\\' || host@[i] == '?' || host@[i] == '#' || host@[i] == '@'),
{
    let n = host.len();
    let mut i: usize = 0;
    while i < n
        invariant
            n == host@.len(),
            i <= n,
            forall|j: int|
                0 <= j < i ==> !(is_ws(#[trigger] host@[j]) || host@[j] == '/' || host@[j] == '\\'
                    || host@[j] == '?' || host@[j] == '#' || host@[j] == '@'),
        decreases n - i,
    {
        let c = host[i];
        if is_ws_exec(c) || c == '/' || c == '\\' || c == '?' || c == '#' || c == '@' {
            assert(is_ws(host@[i as int]) || host@[i as int] == '/' || host@[i as int] == '\\'
                || host@[i as int] == '?' || host@[i as int] == '#' || host@[i as int] == '@');
            return true;
        }
        i = i + 1;
    }
    false
}

/// Reads a pin back from a transport profile's `extra` value, defensively.
pub fn opencode_dns_pin_from_json_value<F: Fn(IpValue) -> bool>(
    extra: Option<&JsonValue>,
    is_reserved: &F,
) -> (r: Option<(String, IpValue, u16)>)
    requires
        forall|ip: IpValue| #[trigger] is_reserved.requires((ip,)),
    ensures
        pin_read_outcome(
            match extra {
                Some(v) => Some(v.data()),
                None => None,
            },
            *is_reserved,
            r,
        ),
{
    let value = match extra {
        Some(v) => v,
        None => return None,
    };
    let pin = match get(value, "opencode_dns_pin") {
        Some(p) => p,
        None => return None,
    };
    match pin {
        JsonValue::Object(_) => {},
        _ => return None,
    }
    let host_value = match get(pin, "host") {
        Some(h) => h,
        None => return None,
    };
    let host_text = match as_str(host_value) {
        Some(s) => s,
        None => return None,
    };
    let host = trim_str(host_text.as_str());
    if host.len() == 0 || parse_ip_addr_chars(&host).is_some() || host_has_refused_char(&host) {
        return None;
    }
    let ip_value = match get(pin, "ip") {
        Some(i) => i,
        None => return None,
    };
    let ip_text = match as_str(ip_value) {
        Some(s) => s,
        None => return None,
    };
    let ip = match parse_opencode_exit_ip(ip_text.as_str(), is_reserved) {
        Some(ip) => ip,
        None => {
            proof {
                assert(spec_parse_ip_addr(trim(ip_text@)) is None || is_reserved.ensures(
                    (spec_parse_ip_addr(trim(ip_text@))->0,),
                    true,
                ));
            }
            return None;
        },
    };
    let port_value = match get(pin, "port") {
        Some(p) => p,
        None => return None,
    };
    let port = match as_u64(port_value) {
        Some(p) => p,
        None => return None,
    };
    if port > 65535 || port == 0 {
        return None;
    }
    Some((string_from_chars(&host), ip, port as u16))
}

/// `opencode/<default version> <suffix>`.
pub open spec fn spec_opencode_user_agent() -> Seq<char> {
    "opencode/"@ + OPENCODE_DEFAULT_CLIENT_VERSION@ + " "@ + OPENCODE_USER_AGENT_SUFFIX@
}

/// The `User-Agent` of the OpenCode client.
pub fn opencode_user_agent() -> (ua: String)
    ensures
        ua@ == spec_opencode_user_agent(),
{
    let mut ua = owned("opencode/");
    let v = chars_of(OPENCODE_DEFAULT_CLIENT_VERSION);
    push_chars(&mut ua, &v);
    let sp = chars_of(" ");
    push_chars(&mut ua, &sp);
    let suffix = chars_of(OPENCODE_USER_AGENT_SUFFIX);
    push_chars(&mut ua, &suffix);
    ua
}

/// The bytes of the version-4 UUID that
/// `uuid::Builder::from_random_bytes` makes of 16 random bytes: the same
/// bytes, but for the version nibble (`4`, high half of byte 6) and the
/// RFC 4122 variant bits (`10`, top of byte 8).
#[verifier::external_body]
fn uuid_v4_from_random_bytes(random: &[u8]) -> (uuid: Vec<u8>)
    requires
        random@.len() == 16,
    ensures
        uuid@ == uuid_v4_bytes_of(random@),
{
    let mut raw = [0u8; 16];
    raw.copy_from_slice(random);
    uuid::Builder::from_random_bytes(raw).into_uuid().into_bytes().to_vec()
}

/// The 16 bytes of a version-4 UUID made of the 16 random bytes `r`.
pub open spec fn uuid_v4_bytes_of(r: Seq<u8>) -> Seq<u8> {
    Seq::new(
        16,
        |i: int|
            if i == 6 {
                (r[6] & 0x0fu8) | 0x40u8
            } else if i == 8 {
                (r[8] & 0x3fu8) | 0x80u8
            } else {
                r[i]
            },
    )
}

/// The 26 bytes that an id is drawn from, of 32 random bytes: the UUID made
/// of the first 16, then the first 10 bytes of the UUID made of the rest.
pub open spec fn spec_uuid_pair_bytes(r: Seq<u8>) -> Seq<u8> {
    uuid_v4_bytes_of(r.take(16)) + uuid_v4_bytes_of(r.subrange(16, 32)).take(10)
}

/// The bytes of two version-4 UUIDs made of 32 random bytes (see
/// `spec_uuid_pair_bytes`).
pub fn uuid_pair_bytes(random: &[u8]) -> (bytes: Vec<u8>)
    requires
        random@.len() == 32,
    ensures
        bytes@ == spec_uuid_pair_bytes(random@),
        bytes@.len() == 26,
{
    let mut first: Vec<u8> = Vec::new();
    let mut second: Vec<u8> = Vec::new();
    let mut i: usize = 0;
    while i < 16
        invariant
            random@.len() == 32,
            i <= 16,
            first@ == random@.take(i as int),
            second@ == random@.subrange(16, 16 + i as int),
        decreases 16 - i,
    {
        first.push(random[i]);
        second.push(random[16 + i]);
        assert(first@ =~= random@.take(i + 1));
        assert(second@ =~= random@.subrange(16, 16 + i + 1));
        i = i + 1;
    }
    let a = uuid_v4_from_random_bytes(&first);
    let b = uuid_v4_from_random_bytes(&second);
    let mut bytes = a;
    let mut j: usize = 0;
    while j < 10
        invariant
            j <= 10,
            b@.len() == 16,
            bytes@ == uuid_v4_bytes_of(random@.take(16)) + b@.take(j as int),
        decreases 10 - j,
    {
        bytes.push(b[j]);
        assert(bytes@ =~= uuid_v4_bytes_of(random@.take(16)) + b@.take(j + 1));
        j = j + 1;
    }
    bytes
}

/// The bytes that an id of this module is drawn from: two UUIDs of the
/// operating system's 32 random bytes when it gave them, else the
/// time/counter stream of a clock reading (counter 0).
pub open spec fn spec_opencode_session_bytes(os: Option<Seq<u8>>, now_nanos: u64) -> Seq<u8> {
    match os {
        Some(r) => if r.len() == 32 {
            spec_uuid_pair_bytes(r)
        } else {
            spec_fallback_bytes(now_nanos, 0)
        },
        None => spec_fallback_bytes(now_nanos, 0),
    }
}

/// The session id for 32 random bytes of the operating system (`os`), or,
/// when it gave none, for the time/counter stream of a clock reading in
/// nanoseconds; the last 14 characters drawn from `A-Za-z0-9`.
pub fn opencode_session_id_from_sources(os: Option<Vec<u8>>, now_nanos: u64) -> (id: String)
    ensures
        id@ == session_id_text_with(spec_opencode_session_bytes(opt_bytes(os), now_nanos), true),
        has_session_id_shape(id@),
{
    let bytes = match os {
        Some(r) => if r.len() == 32 {
            uuid_pair_bytes(&r)
        } else {
            fallback_session_bytes(now_nanos, 0)
        },
        None => fallback_session_bytes(now_nanos, 0),
    };
    session_id_with(&bytes, true)
}

/// Generates an official-shape session id: `ses_` + 12 lowercase hex
/// digits + 14 `[A-Za-z0-9]` characters, all drawn from the bytes of two
/// version-4 UUIDs made of the operating system's random bytes (from the
/// clock's time/counter stream when that source fails).
pub fn new_opencode_session_id() -> (id: String)
    ensures
        has_session_id_shape(id@),
        exists|os: Option<Seq<u8>>, now_nanos: u64|
            id@ == session_id_text_with(spec_opencode_session_bytes(os, now_nanos), true),
{
    let os = os_random_bytes(32);
    let now_nanos: u64 = match os {
        Some(_) => 0,
        None => crate::clock::now_unix_nanos(),
    };
    let ghost o = opt_bytes(os);
    let id = opencode_session_id_from_sources(os, now_nanos);
    assert(id@ == session_id_text_with(spec_opencode_session_bytes(o, now_nanos), true));
    id
}

/// The headers of an OpenCode chat request with session id `id`.
pub open spec fn opencode_chat_headers(h: Map<Seq<char>, Seq<char>>, id: Seq<char>) -> Map<
    Seq<char>,
    Seq<char>,
> {
    h.insert("user-agent"@, spec_opencode_user_agent()).insert(
        "accept"@,
        "application/json"@,
    ).insert("authorization"@, OPENCODE_CHAT_AUTHORIZATION@).insert("x-session-id"@, id)
}

/// Injects the OpenCode fingerprint headers on the OpenAI chat path.
///
/// The `user-agent` is replaced whatever it was (the upstream refuses any
/// other), the bearer is the public token, and `x-session-id` is fresh for
/// every request.
pub fn insert_opencode_request_headers_if_needed<G: Fn(&str, &str) -> bool>(
    transport: &GatewayProviderTransportSnapshot,
    provider_api_format: &str,
    headers: &mut HeaderMap,
    api_format_alias_matches: &G,
)
    requires
        forall|a: &str, b: &str| #[trigger] api_format_alias_matches.requires((a, b)),
    ensures
        !is_opencode_provider_type(transport.provider.provider_type@) ==> final(headers)@ == old(
            headers,
        )@,
        is_opencode_provider_type(transport.provider.provider_type@) ==> {
            ||| api_format_alias_matches.ensures((provider_api_format, "openai:chat"), false)
                && final(headers)@ == old(headers)@
            ||| api_format_alias_matches.ensures((provider_api_format, "openai:chat"), true)
                && exists|id: Seq<char>|
                has_session_id_shape(id) && final(headers)@ == opencode_chat_headers(
                    old(headers)@,
                    id,
                )
        },
{
    if !is_opencode_provider_transport(transport) {
        return;
    }
    if !api_format_alias_matches(provider_api_format, "openai:chat") {
        return;
    }
    headers.insert(owned("user-agent"), opencode_user_agent());
    headers.insert(owned("accept"), owned("application/json"));
    headers.insert(owned("authorization"), owned(OPENCODE_CHAT_AUTHORIZATION));
    let session_id = new_opencode_session_id();
    let ghost id = session_id@;
    headers.insert(owned("x-session-id"), session_id);
    assert(final(headers)@ == opencode_chat_headers(old(headers)@, id));
}

/// A body object with `stream` set to `true`; other values as they are.
pub open spec fn with_stream_true(body: JsonData) -> JsonData {
    match body {
        JsonData::Object(e) => JsonData::Object(entries_set(e, "stream"@, JsonData::Bool(true))),
        _ => body,
    }
}

fn set_stream_true(body: JsonValue) -> (r: JsonValue)
    ensures
        r.data() == with_stream_true(body.data()),
{
    match body {
        JsonValue::Object(mut entries) => {
            proof {
                lemma_object_data(entries);
            }
            insert_entry(&mut entries, owned("stream"), JsonValue::Bool(true));
            proof {
                lemma_object_data(entries);
            }
            JsonValue::Object(entries)
        },
        other => other,
    }
}

/// Law: on the chat path an object body always goes out with `stream` set
/// to JSON `true`, whether the key was there before or not and whatever it
/// held; every key other than `stream` and `tools` is left as it was.
pub proof fn law_chat_body_is_streamed(body: JsonData, k: Seq<char>)
    requires
        body is Object,
    ensures
        json_get(spec_ensure_free_tier_tools(with_stream_true(body)), "stream"@) == Some(
            JsonData::Bool(true),
        ),
        k != "stream"@ && k != "tools"@ ==> json_get(
            spec_ensure_free_tier_tools(with_stream_true(body)),
            k,
        ) == json_get(body, k),
{
    let e = body->Object_0;
    lemma_entries_set_map(e, "stream"@, JsonData::Bool(true));
    let e1 = entries_set(e, "stream"@, JsonData::Bool(true));
    assert(entries_map(e1).dom().contains("stream"@));
    assert(entries_map(e1)["stream"@] == JsonData::Bool(true));
    reveal_strlit("stream");
    reveal_strlit("tools");
    assert("stream"@ != "tools"@) by {
        assert("stream"@.len() != "tools"@.len());
    }
    crate::free_tier::law_free_tier_tools_keep_other_keys(JsonData::Object(e1), "stream"@);
    if k != "stream"@ && k != "tools"@ {
        crate::free_tier::law_free_tier_tools_keep_other_keys(JsonData::Object(e1), k);
        assert(entries_map(e1).dom().contains(k) == entries_map(e).dom().contains(k));
        assert(entries_map(e1).dom().contains(k) ==> entries_map(e1)[k] == entries_map(e)[k]);
    }
}

/// Applies the OpenCode body fingerprint on the OpenAI chat path: forces
/// `stream: true` on an object body and makes sure the required tools are
/// there.
pub fn apply_opencode_request_body_semantics<G: Fn(&str, &str) -> bool>(
    transport: &GatewayProviderTransportSnapshot,
    provider_api_format: &str,
    body: &mut JsonValue,
    api_format_alias_matches: &G,
)
    requires
        forall|a: &str, b: &str| #[trigger] api_format_alias_matches.requires((a, b)),
    ensures
        !is_opencode_provider_type(transport.provider.provider_type@) ==> final(body).data() == old(
            body,
        ).data(),
        is_opencode_provider_type(transport.provider.provider_type@) ==> {
            ||| api_format_alias_matches.ensures((provider_api_format, "openai:chat"), false)
                && final(body).data() == old(body).data()
            ||| api_format_alias_matches.ensures((provider_api_format, "openai:chat"), true)
                && final(body).data() == spec_ensure_free_tier_tools(with_stream_true(old(body).data()))
        },
{
    if !is_opencode_provider_transport(transport) || !api_format_alias_matches(
        provider_api_format,
        "openai:chat",
    ) {
        return;
    }
    let mut taken = JsonValue::Null;
    std::mem::swap(body, &mut taken);
    let streamed = set_stream_true(taken);
    *body = streamed;
    ensure_opencode_free_tier_tools(body);
}

/// Law: a pin written into a profile's `extra` reads back as the same pin
/// (for a host that is not refused and has no surrounding whitespace, and a
/// nonzero port), unless the reserved-address check calls the IP reserved.
pub proof fn law_pin_extra_round_trip<F: Fn(IpValue) -> bool>(
    host: Seq<char>,
    ip: IpValue,
    port: u16,
    is_reserved: F,
    r: Option<(String, IpValue, u16)>,
)
    requires
        !pin_host_refused(host),
        trim(host) == host,
        port != 0,
        pin_read_outcome(Some(spec_pin_extra(host, ip, port)), is_reserved, r),
    ensures
        r is Some ==> pin_view(r) == Some((host, ip, port)),
        r is None ==> is_reserved.ensures((ip,), true),
{
    crate::ip_laws::law_ip_text_round_trip(ip);
    let text = crate::ip::ip_text(ip);
    crate::ip_laws::lemma_ip_text_ends(ip);
    crate::text::lemma_trim_noop(text);
    reveal_strlit("opencode_dns_pin");
    reveal_strlit("host");
    reveal_strlit("ip");
    reveal_strlit("port");
    let outer = spec_pin_extra(host, ip, port)->Object_0;
    crate::json::lemma_key_index_is(outer, "opencode_dns_pin"@, 0);
    let inner = outer[0].1->Object_0;
    assert(inner[0].0 != "ip"@) by {
        assert("host"@.len() != "ip"@.len());
    }
    assert(inner[0].0 != "port"@ && inner[1].0 != "port"@) by {
        assert("host"@[0] != "port"@[0]);
        assert("ip"@.len() != "port"@.len());
    }
    crate::json::lemma_key_index_is(inner, "host"@, 0);
    crate::json::lemma_key_index_is(inner, "ip"@, 1);
    crate::json::lemma_key_index_is(inner, "port"@, 2);
    assert(spec_pin_fields(Some(spec_pin_extra(host, ip, port))) == Some((host, text, port as u64)));
}

/// A pin that a front-proxy URL gives has a host that the pin read
/// accepts.
proof fn lemma_url_pin_host_accepted(u: Option<UrlPartsView>, ip: IpValue)
    requires
        spec_pin_from_url(u, ip) is Some,
        u matches Some(p) ==> url_parts_wf(p),
    ensures
        !pin_host_refused((spec_pin_from_url(u, ip)->0).0),
        trim((spec_pin_from_url(u, ip)->0).0) == (spec_pin_from_url(u, ip)->0).0,
{
    let h = u->0.host->0;
    reveal_strlit("https");
    assert(default_port(u->0.scheme) is Some);
    assert forall|i: int| 0 <= i < h.len() implies !is_ws(#[trigger] h[i]) by {
        assert(0x20 < (h[i] as u32) < 0x7f);
    }
    crate::text::lemma_trim_noop(h);
    let host = (spec_pin_from_url(u, ip)->0).0;
    assert(host == h);
    assert forall|i: int| 0 <= i < host.len() implies !(is_ws(#[trigger] host[i]) || host[i] == '/'
        || host[i] == '\\' || host[i] == '?' || host[i] == '#' || host[i] == '@') by {
        assert(0x20 < (h[i] as u32) < 0x7f);
    }
}

/// Law: the transport profile made for a pin that a front-proxy URL gives
/// carries that pin: its id is `opencode:` and the host, its pool scope the
/// configured one, and its `extra` reads back as the same pin, unless the
/// reserved-address check calls the IP reserved.
pub proof fn law_profile_carries_pin<F: Fn(IpValue) -> bool>(
    u: Option<UrlPartsView>,
    ip: IpValue,
    names: (Seq<char>, Seq<char>, Seq<char>),
    is_reserved: F,
    r: Option<(String, IpValue, u16)>,
)
    requires
        u matches Some(p) ==> url_parts_wf(p),
        spec_pin_from_url(u, ip) is Some,
        pin_read_outcome(spec_pinned_profile(spec_pin_from_url(u, ip)->0, names).extra, is_reserved, r),
    ensures
        spec_profile_of_pin(spec_pin_from_url(u, ip), names) matches Some(p) && {
            let pin = spec_pin_from_url(u, ip)->0;
            &&& p.profile_id == "opencode:"@ + pin.0
            &&& p.pool_scope == names.2
            &&& pin.1 == ip
            &&& (r is Some ==> pin_view(r) == Some(pin))
            &&& (r is None ==> is_reserved.ensures((ip,), true))
        },
{
    let pin = spec_pin_from_url(u, ip)->0;
    lemma_url_pin_host_accepted(u, ip);
    law_pin_extra_round_trip(pin.0, ip, pin.2, is_reserved, r);
}

/// Law: for a transport whose pin resolves, the profile made for it has the
/// id `opencode:` and the host and the configured pool scope, and its
/// `extra` read back with the same reserved-address check gives the same
/// pin (a `None` there means the check called the key's IP reserved on the
/// read after letting it through on the write).
pub proof fn law_resolved_profile_carries_pin<F: Fn(IpValue) -> bool>(
    t: GatewayProviderTransportSnapshot,
    is_reserved: F,
    names: (Seq<char>, Seq<char>, Seq<char>),
    pin: Option<(String, IpValue, u16)>,
    r: Option<(String, IpValue, u16)>,
)
    requires
        pin_outcome(t, is_reserved, pin),
        pin is Some,
        pin_read_outcome(spec_pinned_profile(pin_view(pin)->0, names).extra, is_reserved, r),
    ensures
        spec_profile_of_pin(pin_view(pin), names) matches Some(p) && {
            let v = pin_view(pin)->0;
            &&& p.profile_id == "opencode:"@ + v.0
            &&& p.pool_scope == names.2
            &&& (r is Some ==> pin_view(r) == pin_view(pin))
            &&& (r is None ==> is_reserved.ensures((v.1,), true) && is_reserved.ensures(
                (v.1,),
                false,
            ))
        },
{
    let ip = spec_parse_ip_addr(trim(exit_ip_text(t)->0))->0;
    let u = spec_url_parse(trim(t.endpoint.base_url@));
    law_profile_carries_pin(u, ip, names, is_reserved, r);
}

/// Law: a DNS pin is only ever made for an `https` front-proxy host: never
/// for the official domain, never for a host that is an IP address, never
/// with port 0, and always with the key's own exit IP.
pub proof fn law_pin_targets_front_proxy_hosts_only(u: Option<UrlPartsView>, ip: IpValue)
    ensures
        spec_pin_from_url(u, ip) matches Some((host, pinned, port)) ==> {
            &&& !eq_ignore_ascii_case(host, "opencode.ai"@)
            &&& host.len() > 0
            &&& spec_parse_ip_addr(host) is None
            &&& port != 0
            &&& pinned == ip
            &&& u->0.scheme == "https"@
        },
{
}

/// Law: the headers of an OpenCode chat request carry the fingerprint: the
/// OpenCode `User-Agent`, JSON `Accept`, the public bearer and the session
/// id; every other header is kept.
pub proof fn law_chat_headers_fingerprint(h: Map<Seq<char>, Seq<char>>, id: Seq<char>, other: Seq<char>)
    requires
        other != "user-agent"@,
        other != "accept"@,
        other != "authorization"@,
        other != "x-session-id"@,
    ensures
        opencode_chat_headers(h, id)["user-agent"@] == spec_opencode_user_agent(),
        opencode_chat_headers(h, id)["accept"@] == "application/json"@,
        opencode_chat_headers(h, id)["authorization"@] == "Bearer public"@,
        opencode_chat_headers(h, id)["x-session-id"@] == id,
        opencode_chat_headers(h, id).dom().contains(other) == h.dom().contains(other),
        h.dom().contains(other) ==> opencode_chat_headers(h, id)[other] == h[other],
{
    reveal_strlit("user-agent");
    reveal_strlit("accept");
    reveal_strlit("authorization");
    reveal_strlit("x-session-id");
    assert("user-agent"@.len() != "accept"@.len());
    assert("user-agent"@.len() != "authorization"@.len());
    assert("user-agent"@[0] != "x-session-id"@[0]);
    assert("accept"@.len() != "authorization"@.len());
    assert("accept"@.len() != "x-session-id"@.len());
    assert("authorization"@.len() != "x-session-id"@.len());
}

} // verus!
