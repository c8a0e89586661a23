//! OpenCode free-tier upstream transport support for pool keys whose API
//! key field holds the front-proxy exit IP itself.
//!
//! The upstream (`/zen/v1/*`) fingerprint-checks free-tier requests:
//! a per-request `x-session-id` of the official shape, the built-in tools
//! `bash` / `glob` / `grep` / `read` in the body, `stream: true`, a
//! `User-Agent` of `opencode/<version>` with a version of at least 1.17.0,
//! and the fixed `Authorization: Bearer public`.
use vstd::prelude::*;

use crate::free_tier::{
    body_tools, collect_tool_names, contains_name, ensure_tools_entry, free_tier_tool_names,
    has_tool_named, in_names, push_entry, str_data, str_value, tool_function_name, with_tools_entry,
};
use crate::front_proxy::{
    is_opencode_provider_type, pin_view, pinned_transport_profile, spec_pinned_profile,
    spec_profile_of_pin, url_view,
};
use crate::ip::{parse_ip_addr_chars, spec_parse_ip_addr, IpValue};
use crate::json::{
    as_str, as_u64, entries_data, entries_map, entries_set, get, get_entry, insert_entry, items_data,
    json_as_str, json_as_u64, json_get, key_index, lemma_array_data, lemma_entries_map_push,
    lemma_entries_map_update, lemma_entries_set_map, lemma_key_index, lemma_key_index_is,
    lemma_object_data, JsonData, JsonValue,
};
use crate::session::{has_session_id_shape, new_session_id, session_id_text, spec_session_bytes, spec_compare_client_version, compare_client_version};
use crate::text::{chars_of, owned, push_chars, string_from_chars, trim, trim_str};
use crate::transport::{
    profile_opt_view, GatewayProviderTransportSnapshot, HeaderMap, ResolvedTransportProfile,
    TransportProfileNames,
};
use crate::url::{parse_url, port_or_known_default, spec_url_parse, UrlParts, UrlPartsView};

verus! {

pub const PROVIDER_TYPE: &'static str = "opencode";

/// Client version sent in the upstream `User-Agent` by default.
pub const DEFAULT_OPENCODE_UA_VERSION: &'static str = "1.18.31";

/// Lowest client version the upstream accepts.
pub const MIN_OPENCODE_UA_VERSION: &'static str = "1.17.0";

/// Upstream chat completions path.
pub const OPENCODE_CHAT_COMPLETIONS_PATH: &'static str = "/zen/v1/chat/completions";

/// Upstream model list path.
pub const OPENCODE_MODELS_PATH: &'static str = "/zen/v1/models";

/// Authorization value of the free tier.
pub const OPENCODE_UPSTREAM_AUTH_VALUE: &'static str = "Bearer public";

/// Appended to `opencode/<version>` in the `User-Agent`.
pub const OPENCODE_UA_SUFFIX: &'static str = " ai-sdk/provider-utils/4.0.23 runtime/bun/1.3.14";

/// Whether the transport belongs to the `opencode` provider type.
pub fn is_opencode_provider_transport(transport: &GatewayProviderTransportSnapshot) -> (b: bool)
    ensures
        b == is_opencode_provider_type(transport.provider.provider_type@),
{
    crate::front_proxy::is_opencode_provider_transport(transport)
}

/// The exit IP held by an OpenCode pool key: its API key, trimmed, when
/// that is an IP address.
pub open spec fn spec_key_upstream_ip(t: GatewayProviderTransportSnapshot) -> Option<IpValue> {
    if is_opencode_provider_type(t.provider.provider_type@) {
        spec_parse_ip_addr(trim(t.key.decrypted_api_key@))
    } else {
        None
    }
}

/// The front-proxy exit IP of an OpenCode pool key.
///
/// The upstream credential is the shared `Bearer public`; each pool key
/// stands for one exit IP with a fixed daily quota, and its API key field
/// holds the IP literal.
pub fn opencode_key_upstream_ip(transport: &GatewayProviderTransportSnapshot) -> (r: Option<IpValue>)
    ensures
        r == spec_key_upstream_ip(*transport),
{
    if !is_opencode_provider_transport(transport) {
        return None;
    }
    let t = trim_str(transport.key.decrypted_api_key.as_str());
    parse_ip_addr_chars(&t)
}

/// The pin for a parsed base URL: its host, the IP, and its port (or the
/// scheme's default port).
pub open spec fn spec_upstream_pin(u: Option<UrlPartsView>, ip: IpValue) -> Option<
    (Seq<char>, IpValue, u16),
> {
    match u {
        None => None,
        Some(u) => match u.host {
            None => None,
            Some(h) => match port_or_known_default(u) {
                Some(p) => Some((h, ip, p)),
                None => None,
            },
        },
    }
}

/// The DNS pin for a parsed base URL and an exit IP.
pub fn upstream_pin_from_url(url: Option<UrlParts>, ip: IpValue) -> (r: Option<(String, IpValue, u16)>)
    ensures
        pin_view(r) == spec_upstream_pin(url_view(url), ip),
{
    let u = match url {
        Some(u) => u,
        None => return None,
    };
    let port = u.port_or_known_default();
    match (u.host, port) {
        (Some(h), Some(p)) => Some((h, ip, p)),
        _ => None,
    }
}

/// The DNS pin of a transport: the pin of its trimmed base URL and its
/// key's exit IP.
pub open spec fn spec_upstream_dns_pin(t: GatewayProviderTransportSnapshot) -> Option<
    (Seq<char>, IpValue, u16),
> {
    match spec_key_upstream_ip(t) {
        None => None,
        Some(ip) => spec_upstream_pin(spec_url_parse(trim(t.endpoint.base_url@)), ip),
    }
}

/// The DNS pin of an OpenCode transport: the endpoint host (TLS subject
/// and HTTP Host), the key's exit IP and the endpoint port.
pub fn opencode_dns_pin(transport: &GatewayProviderTransportSnapshot) -> (r: Option<(String, IpValue, u16)>)
    ensures
        pin_view(r) == spec_upstream_dns_pin(*transport),
{
    let ip = match opencode_key_upstream_ip(transport) {
        Some(ip) => ip,
        None => return None,
    };
    let base = trim_str(transport.endpoint.base_url.as_str());
    let base_text = string_from_chars(&base);
    let url = parse_url(base_text.as_str());
    upstream_pin_from_url(url, ip)
}

/// The transport profile of an OpenCode transport, which carries its DNS
/// pin to the execution layer; `None` when there is no pin.
pub fn opencode_resolved_transport_profile(
    transport: &GatewayProviderTransportSnapshot,
    names: &TransportProfileNames,
) -> (r: Option<ResolvedTransportProfile>)
    ensures
        profile_opt_view(r) == spec_profile_of_pin(spec_upstream_dns_pin(*transport), names@),
{
    match opencode_dns_pin(transport) {
        Some((host, ip, port)) => Some(pinned_transport_profile(host.as_str(), ip, port, names)),
        None => None,
    }
}

/// What reading a pin from a profile's `extra` gives: string `host`, an
/// IP address `ip`, and integer `port` (truncated to 16 bits), all under
/// `opencode_dns_pin`.
pub open spec fn spec_upstream_pin_from_json(extra: Option<JsonData>) -> Option<(Seq<char>, IpValue, u16)> {
    match extra {
        None => None,
        Some(v) => match json_get(v, "opencode_dns_pin"@) {
            None => None,
            Some(pin) => match json_get(pin, "host"@) {
                None => None,
                Some(h) => match json_as_str(h) {
                    None => None,
                    Some(host) => match json_get(pin, "ip"@) {
                        None => None,
                        Some(i) => match json_as_str(i) {
                            None => None,
                            Some(ip_text) => match spec_parse_ip_addr(ip_text) {
                                None => None,
                                Some(ip) => match json_get(pin, "port"@) {
                                    None => None,
                                    Some(p) => match json_as_u64(p) {
                                        None => None,
                                        Some(port) => Some((host, ip, port as u16)),
                                    },
                                },
                            },
                        },
                    },
                },
            },
        },
    }
}

/// Reads the DNS pin from a transport profile's `extra` value.
pub fn opencode_dns_pin_from_json_value(extra: Option<&JsonValue>) -> (r: Option<(String, IpValue, u16)>)
    ensures
        pin_view(r) == spec_upstream_pin_from_json(
            match extra {
                Some(v) => Some(v.data()),
                None => None,
            },
        ),
{
    let value = match extra {
        Some(v) => v,
        None => return None,
    };
    let pin = match get(value, "opencode_dns_pin") {
        Some(p) => p,
        None => return None,
    };
    let host = match get(pin, "host") {
        Some(h) => match as_str(h) {
            Some(s) => s,
            None => return None,
        },
        None => return None,
    };
    let ip_text = match get(pin, "ip") {
        Some(i) => match as_str(i) {
            Some(s) => s,
            None => return None,
        },
        None => return None,
    };
    let ip_chars = chars_of(ip_text.as_str());
    let ip = match parse_ip_addr_chars(&ip_chars) {
        Some(ip) => ip,
        None => return None,
    };
    let port = match get(pin, "port") {
        Some(p) => match as_u64(p) {
            Some(n) => n,
            None => return None,
        },
        None => return None,
    };
    Some((host.clone(), ip, port as u16))
}

/// Reads the DNS pin from a transport profile's `extra`.
pub fn opencode_dns_pin_from_profile(profile: &ResolvedTransportProfile) -> (r: Option<
    (String, IpValue, u16),
>)
    ensures
        pin_view(r) == spec_upstream_pin_from_json(profile@.extra),
{
    match &profile.extra {
        Some(v) => opencode_dns_pin_from_json_value(Some(v)),
        None => opencode_dns_pin_from_json_value(None),
    }
}

/// Generates an official-shape OpenCode session id; a fresh one per call.
pub fn new_opencode_session_id() -> (id: String)
    ensures
        has_session_id_shape(id@),
        exists|os: Option<Seq<u8>>, now_nanos: u64|
            id@ == session_id_text(spec_session_bytes(os, now_nanos, 0)),
{
    new_session_id()
}

/// The client version sent upstream: the configured one (trimmed) when it
/// is at least the minimum, else the default.
pub open spec fn spec_normalize_client_version(version: Seq<char>) -> Seq<char> {
    if spec_compare_client_version(version, MIN_OPENCODE_UA_VERSION@) >= 0 {
        trim(version)
    } else {
        DEFAULT_OPENCODE_UA_VERSION@
    }
}

/// Normalizes a configured client version to one the upstream accepts.
pub fn normalize_opencode_client_version(version: &str) -> (v: String)
    ensures
        v@ == spec_normalize_client_version(version@),
{
    if compare_client_version(version, MIN_OPENCODE_UA_VERSION) >= 0 {
        let t = trim_str(version);
        string_from_chars(&t)
    } else {
        owned(DEFAULT_OPENCODE_UA_VERSION)
    }
}

/// The upstream `User-Agent` for a configured client version.
pub open spec fn spec_upstream_user_agent(version: Seq<char>) -> Seq<char> {
    "opencode/"@ + spec_normalize_client_version(version) + OPENCODE_UA_SUFFIX@
}

/// The extra upstream headers of the free-tier fingerprint: the public
/// bearer, the `User-Agent` and a fresh `x-session-id`.
pub fn build_opencode_upstream_headers(client_version: &str) -> (h: HeaderMap)
    ensures
        exists|id: Seq<char>|
            has_session_id_shape(id) && h@ == Map::<Seq<char>, Seq<char>>::empty().insert(
                "authorization"@,
                OPENCODE_UPSTREAM_AUTH_VALUE@,
            ).insert("user-agent"@, spec_upstream_user_agent(client_version@)).insert(
                "x-session-id"@,
                id,
            ),
{
    let mut headers = HeaderMap::new();
    headers.insert(owned("authorization"), owned(OPENCODE_UPSTREAM_AUTH_VALUE));
    let mut ua = owned("opencode/");
    let v = normalize_opencode_client_version(client_version);
    let vc = chars_of(v.as_str());
    push_chars(&mut ua, &vc);
    let suffix = chars_of(OPENCODE_UA_SUFFIX);
    push_chars(&mut ua, &suffix);
    headers.insert(owned("user-agent"), ua);
    let sid = new_opencode_session_id();
    let ghost id = sid@;
    headers.insert(owned("x-session-id"), sid);
    assert(has_session_id_shape(id));
    headers
}

/// The entry appended for a missing built-in tool.
pub open spec fn spec_builtin_tool_entry(name: Seq<char>) -> JsonData {
    JsonData::Object(
        seq![
            ("type"@, str_data("function"@)),
            (
                "function"@,
                JsonData::Object(
                    seq![
                        ("name"@, str_data(name)),
                        ("description"@, str_data("OpenCode built-in tool '"@ + name + "'"@)),
                        (
                            "parameters"@,
                            JsonData::Object(
                                seq![
                                    ("type"@, str_data("object"@)),
                                    ("properties"@, JsonData::Object(Seq::empty())),
                                ],
                            ),
                        ),
                    ],
                ),
            ),
        ],
    )
}

/// The entries appended for the `names` that no tool of `tools` has as its
/// function name.
pub open spec fn missing_builtin_entries(tools: Seq<JsonData>, names: Seq<Seq<char>>) -> Seq<JsonData>
    decreases names.len(),
{
    if names.len() == 0 {
        Seq::empty()
    } else {
        let rest = missing_builtin_entries(tools, names.drop_last());
        if has_tool_named(tools, names.last()) {
            rest
        } else {
            rest.push(spec_builtin_tool_entry(names.last()))
        }
    }
}

/// The tools of a body object that are looked at: its `tools` array, or
/// none.
pub open spec fn present_tools(entries: Seq<(Seq<char>, JsonData)>) -> Seq<JsonData> {
    match json_get(JsonData::Object(entries), "tools"@) {
        Some(JsonData::Array(t)) => t,
        _ => Seq::empty(),
    }
}

/// What `ensure_opencode_builtin_tools` makes of a body object's entries:
/// the built-in tools that no tool has as its function name are appended to its
/// `tools` array (created when missing).
pub open spec fn spec_ensure_builtin_tools(entries: Seq<(Seq<char>, JsonData)>) -> Seq<(Seq<char>, JsonData)> {
    let missing = missing_builtin_entries(present_tools(entries), free_tier_tool_names());
    if missing.len() == 0 {
        entries
    } else {
        let e = with_tools_entry(entries);
        let i = key_index(e, "tools"@)->0;
        match e[i].1 {
            JsonData::Array(t) => e.update(i, ("tools"@, JsonData::Array(t + missing))),
            _ => e,
        }
    }
}

/// What `ensure_opencode_chat_request_body` makes of a body: an object gets
/// `stream: true` and the missing built-in tools; anything else is left.
pub open spec fn spec_ensure_chat_request_body(body: JsonData) -> JsonData {
    match body {
        JsonData::Object(e) => JsonData::Object(
            spec_ensure_builtin_tools(entries_set(e, "stream"@, JsonData::Bool(true))),
        ),
        _ => body,
    }
}

fn builtin_tool_entry(name: &str) -> (v: JsonValue)
    ensures
        v.data() == spec_builtin_tool_entry(name@),
{
    let mut description = owned("OpenCode built-in tool '");
    let nc = chars_of(name);
    push_chars(&mut description, &nc);
    let q = chars_of("'");
    push_chars(&mut description, &q);
    let mut props: Vec<(String, JsonValue)> = Vec::new();
    proof {
        lemma_object_data(props);
        assert(entries_data(props@) =~= Seq::<(Seq<char>, JsonData)>::empty());
    }
    let mut params: Vec<(String, JsonValue)> = Vec::new();
    push_entry(&mut params, "type", str_value("object"));
    push_entry(&mut params, "properties", JsonValue::Object(props));
    proof {
        lemma_object_data(params);
    }
    let mut function: Vec<(String, JsonValue)> = Vec::new();
    push_entry(&mut function, "name", JsonValue::Str(owned(name)));
    push_entry(&mut function, "description", JsonValue::Str(description));
    push_entry(&mut function, "parameters", JsonValue::Object(params));
    proof {
        lemma_object_data(function);
    }
    let mut entry: Vec<(String, JsonValue)> = Vec::new();
    push_entry(&mut entry, "type", str_value("function"));
    push_entry(&mut entry, "function", JsonValue::Object(function));
    proof {
        lemma_object_data(entry);
        assert(entries_data(params@) =~= seq![
            ("type"@, str_data("object"@)),
            ("properties"@, JsonData::Object(Seq::empty())),
        ]);
        assert(entries_data(function@) =~= spec_builtin_tool_entry(name@)->Object_0[1].1->Object_0);
        assert(entries_data(entry@) =~= spec_builtin_tool_entry(name@)->Object_0);
    }
    JsonValue::Object(entry)
}

/// The built-in tool entries that `present` lacks.
fn missing_builtin_tools(present: &Vec<Vec<char>>, Ghost(tools): Ghost<Seq<JsonData>>) -> (m: Vec<
    JsonValue,
>)
    requires
        forall|x: Seq<char>| #[trigger] in_names(present@, x) == has_tool_named(tools, x),
    ensures
        items_data(m@) == missing_builtin_entries(tools, free_tier_tool_names()),
{
    let required = ["bash", "glob", "grep", "read"];
    let mut m: Vec<JsonValue> = Vec::new();
    let mut r: usize = 0;
    assert(free_tier_tool_names().take(0) =~= Seq::<Seq<char>>::empty());
    assert(items_data(m@) =~= Seq::<JsonData>::empty());
    while r < 4
        invariant
            r <= 4,
            required@ == seq!["bash", "glob", "grep", "read"],
            forall|x: Seq<char>| #[trigger] in_names(present@, x) == has_tool_named(tools, x),
            items_data(m@) == missing_builtin_entries(tools, free_tier_tool_names().take(r as int)),
        decreases 4 - r,
    {
        let name = required[r];
        assert(name@ == free_tier_tool_names()[r as int]);
        let wanted = chars_of(name);
        assert(free_tier_tool_names().take(r + 1).drop_last() =~= free_tier_tool_names().take(
            r as int,
        ));
        assert(free_tier_tool_names().take(r + 1).last() == name@);
        let found = contains_name(present, &wanted);
        assert(found == in_names(present@, name@));
        if !found {
            let entry = builtin_tool_entry(name);
            let ghost ed = entry.data();
            let ghost before = items_data(m@);
            m.push(entry);
            assert(items_data(m@) =~= before.push(ed));
        }
        r = r + 1;
    }
    assert(free_tier_tool_names().take(4) =~= free_tier_tool_names());
    m
}

/// Appends the missing built-in tools to a body object's `tools` array: a
/// tool counts as present when a tool of the array has its function name.
pub fn ensure_opencode_builtin_tools(entries: &mut Vec<(String, JsonValue)>)
    ensures
        entries_data(final(entries)@) == spec_ensure_builtin_tools(entries_data(old(entries)@)),
{
    let ghost e0 = entries_data(entries@);
    let present: Vec<Vec<char>> = match get_entry(entries, "tools") {
        Some(JsonValue::Array(tools)) => {
            proof {
                lemma_array_data(*tools);
            }
            collect_tool_names(tools)
        },
        _ => {
            assert(present_tools(e0) =~= Seq::<JsonData>::empty());
            Vec::new()
        },
    };
    let ghost tools_seen = present_tools(e0);
    assert forall|x: Seq<char>| #[trigger] in_names(present@, x) == has_tool_named(tools_seen, x) by {}
    let mut missing = missing_builtin_tools(&present, Ghost(tools_seen));
    if missing.len() == 0 {
        return;
    }
    let idx = ensure_tools_entry(entries);
    let ghost e = entries_data(entries@);
    proof {
        lemma_key_index(e, "tools"@);
    }
    let (k, v) = entries.remove(idx);
    assert(e[idx as int].0 == k@);
    match v {
        JsonValue::Array(mut tools) => {
            proof {
                lemma_array_data(tools);
            }
            let ghost t0 = items_data(tools@);
            let ghost md = items_data(missing@);
            tools.append(&mut missing);
            assert(items_data(tools@) =~= t0 + md);
            proof {
                lemma_array_data(tools);
            }
            entries.insert(idx, (k, JsonValue::Array(tools)));
            assert(entries_data(entries@) =~= e.update(
                idx as int,
                ("tools"@, JsonData::Array(t0 + md)),
            ));
        },
        other => {
            entries.insert(idx, (k, other));
            assert(entries_data(entries@) =~= e);
        },
    }
}

/// Makes an outbound chat body meet the free-tier fingerprint: `stream` is
/// forced to `true` and the built-in tools are added.  Returns `false`,
/// leaving the body, when it is not a JSON object.
pub fn ensure_opencode_chat_request_body(body: &mut JsonValue) -> (r: bool)
    ensures
        r == (old(body).data() is Object),
        final(body).data() == spec_ensure_chat_request_body(old(body).data()),
{
    let mut taken = JsonValue::Null;
    std::mem::swap(body, &mut taken);
    match taken {
        JsonValue::Object(mut entries) => {
            proof {
                lemma_object_data(entries);
            }
            insert_entry(&mut entries, owned("stream"), JsonValue::Bool(true));
            ensure_opencode_builtin_tools(&mut entries);
            proof {
                lemma_object_data(entries);
            }
            *body = JsonValue::Object(entries);
            true
        },
        other => {
            *body = other;
            false
        },
    }
}

proof fn lemma_known_versions()
    ensures
        crate::session::spec_version_parts(MIN_OPENCODE_UA_VERSION@) == seq![1u32, 17, 0],
        crate::session::spec_version_parts(DEFAULT_OPENCODE_UA_VERSION@) == seq![1u32, 18, 31],
{
    reveal_strlit("1.17.0");
    reveal_strlit("1.18.31");
    let one = seq!['1'];
    let seventeen = seq!['1', '7'];
    let zero = seq!['0'];
    let eighteen = seq!['1', '8'];
    let thirty_one = seq!['3', '1'];
    assert(MIN_OPENCODE_UA_VERSION@ =~= one + seq!['.'] + seventeen + seq!['.'] + zero);
    assert(DEFAULT_OPENCODE_UA_VERSION@ =~= one + seq!['.'] + eighteen + seq!['.'] + thirty_one);
    reveal_with_fuel(crate::text::dec_value, 3);
    assert(seventeen.drop_last() =~= seq!['1']);
    assert(eighteen.drop_last() =~= seq!['1']);
    assert(thirty_one.drop_last() =~= seq!['3']);
    assert(one.drop_last() =~= Seq::<char>::empty());
    assert(zero.drop_last() =~= Seq::<char>::empty());
    assert(seq!['1'].drop_last() =~= Seq::<char>::empty());
    assert(seq!['3'].drop_last() =~= Seq::<char>::empty());
    assert(crate::text::dec_value(one) == 1);
    assert(crate::text::dec_value(zero) == 0);
    assert(crate::text::dec_value(seventeen) == 17);
    assert(crate::text::dec_value(eighteen) == 18);
    assert(crate::text::dec_value(thirty_one) == 31);
    crate::session::lemma_version_literal(MIN_OPENCODE_UA_VERSION@, one, seventeen, zero);
    crate::session::lemma_version_literal(DEFAULT_OPENCODE_UA_VERSION@, one, eighteen, thirty_one);
}

/// Law: the client version sent upstream is always one that the upstream
/// accepts (at least the minimum version).
pub proof fn law_normalized_version_is_accepted(version: Seq<char>)
    ensures
        spec_compare_client_version(spec_normalize_client_version(version), MIN_OPENCODE_UA_VERSION@)
            >= 0,
{
    lemma_known_versions();
    if spec_compare_client_version(version, MIN_OPENCODE_UA_VERSION@) >= 0 {
        if version.len() == 0 || crate::text::is_ws(version[0]) {
            crate::session::lemma_version_leading_ws(version);
        }
        assert(crate::text::trim_start(version) == version);
        crate::session::lemma_version_parts_trim_end(version);
    }
}

/// Law: the pin that a transport profile carries reads back from the
/// profile as the same pin.
pub proof fn law_profile_pin_round_trip(
    host: Seq<char>,
    ip: IpValue,
    port: u16,
    names: (Seq<char>, Seq<char>, Seq<char>),
)
    ensures
        spec_upstream_pin_from_json(spec_pinned_profile((host, ip, port), names).extra) == Some(
            (host, ip, port),
        ),
{
    crate::ip_laws::law_ip_text_round_trip(ip);
    reveal_strlit("opencode_dns_pin");
    reveal_strlit("host");
    reveal_strlit("ip");
    reveal_strlit("port");
    let outer = crate::front_proxy::spec_pin_extra(host, ip, port)->Object_0;
    crate::json::lemma_key_index_is(outer, "opencode_dns_pin"@, 0);
    let inner = outer[0].1->Object_0;
    assert(inner[0].0 != "ip"@) by {
        assert("host"@.len() != "ip"@.len());
    }
    assert(inner[0].0 != "port"@ && inner[1].0 != "port"@) by {
        assert("host"@[0] != "port"@[0]);
        assert("ip"@.len() != "port"@.len());
    }
    crate::json::lemma_key_index_is(inner, "host"@, 0);
    crate::json::lemma_key_index_is(inner, "ip"@, 1);
    crate::json::lemma_key_index_is(inner, "port"@, 2);
    assert(port as u64 as u16 == port);
}

/// Setting one key of an object leaves what another key reads.
proof fn lemma_set_keeps_other(
    e: Seq<(Seq<char>, JsonData)>,
    k: Seq<char>,
    v: JsonData,
    other: Seq<char>,
)
    requires
        k != other,
    ensures
        json_get(JsonData::Object(entries_set(e, k, v)), other) == json_get(JsonData::Object(e), other),
{
    lemma_key_index(e, k);
    lemma_key_index(e, other);
    let e1 = entries_set(e, k, v);
    assert forall|j: int| 0 <= j < e1.len() && e1[j].0 == other implies j < e.len() && e[j] == e1[j] by {
        if j == e.len() {
            assert(e1[j].0 == k);
        }
    }
    match key_index(e, other) {
        Some(i) => {
            assert(e1[i] == e[i]);
            assert forall|l: int| 0 <= l < i implies e1[l].0 != other by {
                if l < e.len() {
                    assert(e[l].0 != other);
                }
            }
            lemma_key_index_is(e1, other, i);
        },
        None => {
            lemma_key_index(e1, other);
            if key_index(e1, other) is Some {
                let i = key_index(e1, other)->0;
                assert(e[i].0 == other);
            }
        },
    }
}

/// The entry appended for a built-in tool carries its function name.
proof fn lemma_builtin_entry_named(name: Seq<char>)
    ensures
        tool_function_name(spec_builtin_tool_entry(name)) == Some(name),
{
    reveal_strlit("type");
    reveal_strlit("function");
    reveal_strlit("name");
    let outer = spec_builtin_tool_entry(name)->Object_0;
    assert("type"@.len() != "function"@.len());
    assert(outer[0].0 != "function"@);
    lemma_key_index_is(outer, "function"@, 1);
    let inner = outer[1].1->Object_0;
    lemma_key_index_is(inner, "name"@, 0);
}

/// After the missing built-in entries are appended, every name is the
/// function name of some tool.
proof fn lemma_builtin_missing_makes_named(tools: Seq<JsonData>, names: Seq<Seq<char>>, j: int)
    requires
        0 <= j < names.len(),
    ensures
        has_tool_named(tools + missing_builtin_entries(tools, names), names[j]),
    decreases names.len(),
{
    let rest = missing_builtin_entries(tools, names.drop_last());
    let all = missing_builtin_entries(tools, names);
    let last = names.last();
    if j < names.len() - 1 {
        lemma_builtin_missing_makes_named(tools, names.drop_last(), j);
        assert(names.drop_last()[j] == names[j]);
        let i = choose|i: int|
            0 <= i < (tools + rest).len() && #[trigger] tool_function_name((tools + rest)[i]) == Some(
                names[j],
            );
        if !has_tool_named(tools, last) {
            assert(all == rest.push(spec_builtin_tool_entry(last)));
        }
        assert((tools + all)[i] == (tools + rest)[i]);
    } else if has_tool_named(tools, last) {
        let i = choose|i: int|
            0 <= i < tools.len() && #[trigger] tool_function_name(tools[i]) == Some(last);
        assert((tools + all)[i] == tools[i]);
    } else {
        lemma_builtin_entry_named(last);
        assert(all == rest.push(spec_builtin_tool_entry(last)));
        let k: int = (tools.len() + rest.len()) as int;
        assert((tools + all)[k] == spec_builtin_tool_entry(last));
    }
}

/// Nothing is appended when every name is already a tool's function name.
proof fn lemma_builtin_missing_empty(tools: Seq<JsonData>, names: Seq<Seq<char>>)
    requires
        forall|j: int| 0 <= j < names.len() ==> has_tool_named(tools, #[trigger] names[j]),
    ensures
        missing_builtin_entries(tools, names) == Seq::<JsonData>::empty(),
    decreases names.len(),
{
    if names.len() > 0 {
        assert forall|j: int| 0 <= j < names.drop_last().len() implies has_tool_named(
            tools,
            #[trigger] names.drop_last()[j],
        ) by {
            assert(names.drop_last()[j] == names[j]);
        }
        lemma_builtin_missing_empty(tools, names.drop_last());
        assert(has_tool_named(tools, names[names.len() - 1]));
    }
}

/// Adding the built-in tools changes no key but `tools`.
proof fn lemma_builtin_tools_keep_other(x: Seq<(Seq<char>, JsonData)>, k: Seq<char>)
    requires
        k != "tools"@,
    ensures
        entries_map(spec_ensure_builtin_tools(x)).dom().contains(k) == entries_map(x).dom().contains(k),
        entries_map(x).dom().contains(k) ==> entries_map(spec_ensure_builtin_tools(x))[k]
            == entries_map(x)[k],
{
    let missing = missing_builtin_entries(present_tools(x), free_tier_tool_names());
    if missing.len() > 0 {
        let e = with_tools_entry(x);
        lemma_key_index(x, "tools"@);
        if key_index(x, "tools"@) is None {
            lemma_entries_map_push(x, "tools"@, JsonData::Array(Seq::empty()));
            assert(entries_map(e).dom().contains("tools"@));
        }
        assert(key_index(e, "tools"@) is Some);
        let i = key_index(e, "tools"@)->0;
        match e[i].1 {
            JsonData::Array(t) => {
                lemma_entries_map_update(e, "tools"@, JsonData::Array(t + missing), i);
            },
            _ => {},
        }
    }
}

/// Law: the body sent upstream for an object always has `stream` set to
/// JSON `true`, whether the key was there before or not; every key other
/// than `stream` and `tools` is left as it was.
pub proof fn law_upstream_chat_body_is_streamed(body: JsonData, k: Seq<char>)
    requires
        body is Object,
    ensures
        json_get(spec_ensure_chat_request_body(body), "stream"@) == Some(JsonData::Bool(true)),
        k != "stream"@ && k != "tools"@ ==> json_get(spec_ensure_chat_request_body(body), k)
            == json_get(body, k),
{
    let e = body->Object_0;
    lemma_entries_set_map(e, "stream"@, JsonData::Bool(true));
    let e1 = entries_set(e, "stream"@, JsonData::Bool(true));
    reveal_strlit("stream");
    reveal_strlit("tools");
    assert("stream"@ != "tools"@) by {
        assert("stream"@.len() != "tools"@.len());
    }
    lemma_builtin_tools_keep_other(e1, "stream"@);
    assert(entries_map(e1).dom().contains("stream"@));
    if k != "stream"@ && k != "tools"@ {
        lemma_builtin_tools_keep_other(e1, k);
    }
}

/// Law: for a body object whose `tools` is missing or an array, the body
/// sent upstream has a `tools` array that starts with the original tools,
/// and each of `bash`, `glob`, `grep` and `read` is the function name of one
/// of its tools.
pub proof fn law_chat_body_has_builtin_tools(body: JsonData)
    requires
        body is Object,
        json_get(body, "tools"@) is None || json_get(body, "tools"@) matches Some(JsonData::Array(_)),
    ensures
        ({
            let original = match json_get(body, "tools"@) {
                Some(JsonData::Array(t)) => t,
                _ => Seq::empty(),
            };
            let result = spec_ensure_chat_request_body(body);
            &&& body_tools(result) is Some
            &&& body_tools(result)->0.take(original.len() as int) == original
            &&& forall|j: int|
                0 <= j < 4 ==> has_tool_named(body_tools(result)->0, #[trigger] free_tier_tool_names()[j])
        }),
{
    reveal_strlit("stream");
    reveal_strlit("tools");
    assert("stream"@.len() != "tools"@.len());
    let e = body->Object_0;
    let e1 = entries_set(e, "stream"@, JsonData::Bool(true));
    lemma_set_keeps_other(e, "stream"@, JsonData::Bool(true), "tools"@);
    let original = match json_get(body, "tools"@) {
        Some(JsonData::Array(t)) => t,
        _ => Seq::<JsonData>::empty(),
    };
    assert(present_tools(e1) == original);
    let names = free_tier_tool_names();
    let missing = missing_builtin_entries(original, names);
    let result = spec_ensure_chat_request_body(body);
    assert(result == JsonData::Object(spec_ensure_builtin_tools(e1)));
    assert forall|j: int| 0 <= j < 4 implies has_tool_named(original + missing, #[trigger] names[j]) by {
        lemma_builtin_missing_makes_named(original, names, j);
    }
    if missing.len() == 0 {
        assert(original + missing =~= original);
        assert(json_get(body, "tools"@) is Some) by {
            if json_get(body, "tools"@) is None {
                assert(has_tool_named(original + missing, names[0]));
            }
        }
        assert(body_tools(result) == Some(original));
        assert(original.take(original.len() as int) =~= original);
    } else {
        let e3 = crate::free_tier::with_tools_entry(e1);
        crate::free_tier::lemma_result_tools(e1);
        lemma_key_index(e1, "tools"@);
        let i = key_index(e3, "tools"@)->0;
        lemma_key_index(e3, "tools"@);
        assert(e3[i].1 == JsonData::Array(original));
        let e4 = e3.update(i, ("tools"@, JsonData::Array(original + missing)));
        assert forall|l: int| 0 <= l < i implies e4[l].0 != "tools"@ by {
            assert(e4[l] == e3[l]);
        }
        lemma_key_index_is(e4, "tools"@, i);
        assert(body_tools(result) == Some(original + missing));
        assert((original + missing).take(original.len() as int) =~= original);
    }
}

/// Law: a chat body object always goes upstream with `stream: true`.
pub proof fn law_chat_body_streams(body: JsonData)
    requires
        body is Object,
    ensures
        json_get(spec_ensure_chat_request_body(body), "stream"@) == Some(JsonData::Bool(true)),
{
    reveal_strlit("stream");
    reveal_strlit("tools");
    assert("stream"@.len() != "tools"@.len());
    let e = body->Object_0;
    let e1 = entries_set(e, "stream"@, JsonData::Bool(true));
    lemma_key_index(e, "stream"@);
    let si: int = match key_index(e, "stream"@) {
        Some(i) => i,
        None => e.len() as int,
    };
    assert(0 <= si < e1.len());
    assert(e1[si] == ("stream"@, JsonData::Bool(true)));
    crate::json::lemma_key_index_is(e1, "stream"@, si);
    let missing = missing_builtin_entries(present_tools(e1), free_tier_tool_names());
    if missing.len() > 0 {
        let e3 = with_tools_entry(e1);
        crate::free_tier::lemma_result_tools(e1);
        lemma_key_index(e1, "tools"@);
        assert(e3.len() >= e1.len());
        assert(e3[si] == e1[si]);
        assert forall|l: int| 0 <= l < si implies e3[l].0 != "stream"@ by {
            assert(e3[l] == e1[l]);
        }
        crate::json::lemma_key_index_is(e3, "stream"@, si);
        let ti = key_index(e3, "tools"@)->0;
        if e3[ti].1 is Array {
            assert(ti != si);
            let e4 = e3.update(ti, ("tools"@, JsonData::Array(e3[ti].1->Array_0 + missing)));
            assert(e4[si] == e3[si]);
            assert forall|l: int| 0 <= l < si implies e4[l].0 != "stream"@ by {
                if l != ti {
                    assert(e4[l] == e3[l]);
                }
            }
            crate::json::lemma_key_index_is(e4, "stream"@, si);
        }
    }
}

/// Setting a key to the value it already reads changes nothing.
proof fn lemma_set_same(e: Seq<(Seq<char>, JsonData)>, k: Seq<char>, v: JsonData)
    requires
        json_get(JsonData::Object(e), k) == Some(v),
    ensures
        entries_set(e, k, v) == e,
{
    lemma_key_index(e, k);
    let i = key_index(e, k)->0;
    assert(e.update(i, (k, v)) =~= e);
}

/// Law: making a chat body meet the fingerprint twice is making it meet
/// the fingerprint once.
pub proof fn law_chat_body_idempotent(body: JsonData)
    ensures
        spec_ensure_chat_request_body(spec_ensure_chat_request_body(body)) == spec_ensure_chat_request_body(
            body,
        ),
{
    if body is Object {
        reveal_strlit("stream");
        reveal_strlit("tools");
        assert("stream"@.len() != "tools"@.len());
        law_chat_body_streams(body);
        let e = body->Object_0;
        let e1 = entries_set(e, "stream"@, JsonData::Bool(true));
        let r = spec_ensure_builtin_tools(e1);
        assert(spec_ensure_chat_request_body(body) == JsonData::Object(r));
        lemma_set_same(r, "stream"@, JsonData::Bool(true));
        let names = free_tier_tool_names();
        lemma_set_keeps_other(e, "stream"@, JsonData::Bool(true), "tools"@);
        let t0 = present_tools(e1);
        let missing = missing_builtin_entries(t0, names);
        assert forall|j: int| 0 <= j < 4 implies has_tool_named(t0 + missing, #[trigger] names[j]) by {
            lemma_builtin_missing_makes_named(t0, names, j);
        }
        if missing.len() == 0 {
            assert(t0 + missing =~= t0);
            lemma_builtin_missing_empty(present_tools(r), names);
        } else {
            let e3 = crate::free_tier::with_tools_entry(e1);
            crate::free_tier::lemma_result_tools(e1);
            lemma_key_index(e1, "tools"@);
            let i = key_index(e3, "tools"@)->0;
            lemma_key_index(e3, "tools"@);
            match e3[i].1 {
                JsonData::Array(t) => {
                    assert(t == t0);
                    let e4 = e3.update(i, ("tools"@, JsonData::Array(t0 + missing)));
                    assert forall|l: int| 0 <= l < i implies e4[l].0 != "tools"@ by {
                        assert(e4[l] == e3[l]);
                    }
                    lemma_key_index_is(e4, "tools"@, i);
                    assert(r == e4);
                    assert(present_tools(r) == t0 + missing);
                    lemma_builtin_missing_empty(present_tools(r), names);
                },
                _ => {
                    assert(r == e3);
                    lemma_key_index_is(e3, "tools"@, i);
                    assert(present_tools(r) =~= Seq::<JsonData>::empty());
                    assert(present_tools(e1) =~= Seq::<JsonData>::empty());
                    assert(crate::free_tier::with_tools_entry(e3) == e3);
                },
            }
        }
    }
}

} // verus!
