use aether_opencode::free_tier::ensure_opencode_free_tier_tools;
use aether_opencode::front_proxy::{
    apply_opencode_request_body_semantics, dns_pin_from_url, insert_opencode_request_headers_if_needed,
    is_opencode_provider_transport, new_opencode_session_id, opencode_dns_pin,
    opencode_session_id_from_sources, uuid_pair_bytes,
    opencode_dns_pin_extra, opencode_dns_pin_from_json_value, opencode_key_exit_ip,
    opencode_profile_id, opencode_resolved_transport_profile, opencode_user_agent,
    parse_opencode_exit_ip,
};
use aether_opencode::ip::IpValue;
use aether_opencode::json::{JsonNumber, JsonValue};
use aether_opencode::transport::{
    GatewayProviderTransportEndpoint, GatewayProviderTransportKey, GatewayProviderTransportProvider,
    GatewayProviderTransportSnapshot, HeaderMap, TransportProfileNames,
};
use aether_opencode::url::UrlParts;

fn to_json(v: &serde_json::Value) -> JsonValue {
    match v {
        serde_json::Value::Null => JsonValue::Null,
        serde_json::Value::Bool(b) => JsonValue::Bool(*b),
        serde_json::Value::Number(n) => match (n.as_u64(), n.as_i64()) {
            (Some(u), _) => JsonValue::Number(JsonNumber::PosInt(u)),
            (None, Some(i)) => JsonValue::Number(JsonNumber::NegInt(i)),
            _ => JsonValue::Number(JsonNumber::FloatBits(n.as_f64().unwrap_or(0.0).to_bits())),
        },
        serde_json::Value::String(s) => JsonValue::Str(s.clone()),
        serde_json::Value::Array(items) => JsonValue::Array(items.iter().map(to_json).collect()),
        serde_json::Value::Object(map) => JsonValue::Object(
            map.iter().map(|(k, v)| (k.clone(), to_json(v))).collect(),
        ),
    }
}

fn from_json(v: &JsonValue) -> serde_json::Value {
    match v {
        JsonValue::Null => serde_json::Value::Null,
        JsonValue::Bool(b) => serde_json::Value::Bool(*b),
        JsonValue::Number(JsonNumber::PosInt(u)) => serde_json::Value::from(*u),
        JsonValue::Number(JsonNumber::NegInt(i)) => serde_json::Value::from(*i),
        JsonValue::Number(JsonNumber::FloatBits(b)) => serde_json::Value::from(f64::from_bits(*b)),
        JsonValue::Str(s) => serde_json::Value::String(s.clone()),
        JsonValue::Array(items) => serde_json::Value::Array(items.iter().map(from_json).collect()),
        JsonValue::Object(entries) => serde_json::Value::Object(
            entries.iter().map(|(k, v)| (k.clone(), from_json(v))).collect(),
        ),
    }
}

fn json(text: &str) -> JsonValue {
    to_json(&serde_json::from_str::<serde_json::Value>(text).expect("valid json"))
}

/// Reads a pin from the text of a profile's `extra`, as the execution layer
/// does: text that is not JSON gives no pin.
fn pin_from_extra(extra: Option<&str>) -> Option<(String, IpValue, u16)> {
    let value = serde_json::from_str::<serde_json::Value>(extra?).ok()?;
    opencode_dns_pin_from_json_value(Some(&to_json(&value)), &reserved)
}

fn get<'a>(v: &'a JsonValue, key: &str) -> Option<&'a JsonValue> {
    match v {
        JsonValue::Object(entries) => entries.iter().find(|(k, _)| k == key).map(|(_, v)| v),
        _ => None,
    }
}

fn text(v: Option<&JsonValue>) -> Option<&str> {
    match v {
        Some(JsonValue::Str(s)) => Some(s.as_str()),
        _ => None,
    }
}

/// Private, loopback, link-local, documentation and other special-purpose
/// addresses.
fn reserved(ip: IpValue) -> bool {
    match ip {
        IpValue::V4(v) => {
            let [a, b, c, _] = v.to_be_bytes();
            a == 0
                || a == 10
                || a == 127
                || (a == 100 && (b & 0xc0) == 64)
                || (a == 169 && b == 254)
                || (a == 172 && (b & 0xf0) == 16)
                || (a == 192 && b == 168)
                || (a == 192 && b == 0 && (c == 0 || c == 2))
                || (a == 198 && (b & 0xfe) == 18)
                || (a == 198 && b == 51 && c == 100)
                || (a == 203 && b == 0 && c == 113)
                || a >= 224
        }
        IpValue::V6(v) => {
            let first = (v >> 112) as u16;
            v == 0
                || v == 1
                || (first & 0xfe00) == 0xfc00
                || (first & 0xffc0) == 0xfe80
                || (first & 0xff00) == 0xff00
                || (v >> 96) == 0x2001_0db8
        }
    }
}

fn alias(a: &str, b: &str) -> bool {
    a == b
}

fn sample_transport(provider_type: &str) -> GatewayProviderTransportSnapshot {
    GatewayProviderTransportSnapshot {
        provider: GatewayProviderTransportProvider {
            provider_type: provider_type.to_string(),
        },
        endpoint: GatewayProviderTransportEndpoint {
            base_url: "https://opencode.ai".to_string(),
        },
        key: GatewayProviderTransportKey {
            upstream_metadata: None,
            decrypted_api_key: "public".to_string(),
        },
    }
}

fn tool_names(body: &JsonValue) -> Vec<String> {
    match get(body, "tools") {
        Some(JsonValue::Array(tools)) => tools
            .iter()
            .filter_map(|t| text(get(get(t, "function")?, "name")).map(str::to_string))
            .collect(),
        _ => Vec::new(),
    }
}

#[test]
fn exit_ip_parses_from_upstream_metadata() {
    // The pin is made for a front-proxy host: the official domain is never
    // pinned (the pool's IPs are front-proxy nodes), so the endpoint here is
    // a CDN domain where the reference used `opencode.ai`.
    let mut transport = sample_transport("opencode");
    transport.endpoint.base_url = "https://cdn.example.com".to_string();
    transport.key.upstream_metadata = Some(json(r#"{"opencode_exit_ip": "93.184.216.34"}"#));
    assert_eq!(
        opencode_key_exit_ip(&transport, &reserved).map(|ip| ip.to_text()),
        Some("93.184.216.34".to_string())
    );
    let (host, ip, port) = opencode_dns_pin(&transport, &reserved).expect("pin");
    assert_eq!(host, "cdn.example.com");
    assert_eq!(ip.to_text(), "93.184.216.34");
    assert_eq!(port, 443);
}

#[test]
fn exit_ip_is_not_applied_on_the_official_domain() {
    let mut transport = sample_transport("opencode");
    transport.key.upstream_metadata = Some(json(r#"{"opencode_exit_ip": "93.184.216.34"}"#));
    assert!(opencode_key_exit_ip(&transport, &reserved).is_some());
    assert!(opencode_dns_pin(&transport, &reserved).is_none());
    transport.endpoint.base_url = "https://OpenCode.AI/zen/v1".to_string();
    assert!(opencode_dns_pin(&transport, &reserved).is_none());
}

#[test]
fn exit_ip_rejects_reserved_addresses() {
    let mut transport = sample_transport("opencode");
    transport.key.upstream_metadata = Some(json(r#"{"opencode_exit_ip": "10.0.0.1"}"#));
    assert!(opencode_key_exit_ip(&transport, &reserved).is_none());
    assert!(opencode_dns_pin(&transport, &reserved).is_none());
}

#[test]
fn dns_pin_requires_https_hostname_and_nonzero_port() {
    let mut transport = sample_transport("opencode");
    transport.key.upstream_metadata = Some(json(r#"{"opencode_exit_ip": "93.184.216.34"}"#));

    transport.endpoint.base_url = "http://opencode.example".to_string();
    assert!(opencode_dns_pin(&transport, &reserved).is_none());

    transport.endpoint.base_url = "https://opencode.example:8443/zen/v1".to_string();
    let (host, _, port) = opencode_dns_pin(&transport, &reserved).expect("custom TLS endpoint pin");
    assert_eq!(host, "opencode.example");
    assert_eq!(port, 8443);
}

#[test]
fn dns_pin_refuses_credentials_query_fragment_and_ip_hosts() {
    let mut transport = sample_transport("opencode");
    transport.key.upstream_metadata = Some(json(r#"{"opencode_exit_ip": "93.184.216.34"}"#));
    for base in [
        "https://user@cdn.example.com",
        "https://:pw@cdn.example.com",
        "https://cdn.example.com/?a=1",
        "https://cdn.example.com/#top",
        "https://93.184.216.1/zen",
        "not a url",
    ] {
        transport.endpoint.base_url = base.to_string();
        assert!(opencode_dns_pin(&transport, &reserved).is_none(), "{base}");
    }
    // A bracketed IPv6 host is not an IP address as text, so it is pinned.
    transport.endpoint.base_url = "https://[2001:4860::1]/zen".to_string();
    assert_eq!(
        opencode_dns_pin(&transport, &reserved).map(|(h, _, p)| (h, p)),
        Some(("[2001:4860::1]".to_string(), 443))
    );
    transport.endpoint.base_url = "  https://cdn.example.com  ".to_string();
    assert_eq!(
        opencode_dns_pin(&transport, &reserved).map(|(h, _, p)| (h, p)),
        Some(("cdn.example.com".to_string(), 443))
    );
}

#[test]
fn dns_pin_from_url_checks_each_component() {
    let ip = IpValue::V4(0x5db8d822);
    let parts = |scheme: &str, port: Option<u16>| UrlParts {
        scheme: scheme.to_string(),
        username: String::new(),
        has_password: false,
        has_query: false,
        has_fragment: false,
        host: Some("edge.example".to_string()),
        port,
    };
    assert_eq!(
        dns_pin_from_url(Some(parts("https", None)), ip),
        Some(("edge.example".to_string(), ip, 443))
    );
    assert_eq!(
        dns_pin_from_url(Some(parts("https", Some(9443))), ip),
        Some(("edge.example".to_string(), ip, 9443))
    );
    assert_eq!(dns_pin_from_url(Some(parts("https", Some(0))), ip), None);
    assert_eq!(dns_pin_from_url(Some(parts("wss", None)), ip), None);
    assert_eq!(dns_pin_from_url(None, ip), None);
}

#[test]
fn exit_ip_missing_or_invalid_returns_none() {
    let transport = sample_transport("opencode");
    assert!(opencode_key_exit_ip(&transport, &reserved).is_none());

    let mut transport = sample_transport("opencode");
    transport.key.upstream_metadata = Some(json(r#"{"opencode_exit_ip": "not-an-ip"}"#));
    assert!(opencode_key_exit_ip(&transport, &reserved).is_none());

    let mut other = sample_transport("openai");
    other.key.upstream_metadata = Some(json(r#"{"opencode_exit_ip": "1.2.3.4"}"#));
    assert!(opencode_key_exit_ip(&other, &reserved).is_none());
    let names = TransportProfileNames {
        backend: "reqwest_rustls".to_string(),
        http_mode: "auto".to_string(),
        pool_scope: "key".to_string(),
    };
    assert!(opencode_resolved_transport_profile(&other, &reserved, &names).is_none());
}

#[test]
fn resolved_profile_carries_pin_and_from_extra_roundtrips() {
    // As above: a front-proxy host, since no pin is made for `opencode.ai`.
    let mut transport = sample_transport("opencode");
    transport.endpoint.base_url = "https://cdn.example.com".to_string();
    transport.key.upstream_metadata = Some(json(r#"{"opencode_exit_ip": "93.184.216.36"}"#));
    let (host, ip, port) = opencode_dns_pin(&transport, &reserved).expect("pin");
    assert_eq!(opencode_profile_id(&host), "opencode:cdn.example.com");
    let names = TransportProfileNames {
        backend: "reqwest_rustls".to_string(),
        http_mode: "auto".to_string(),
        pool_scope: "key".to_string(),
    };
    let profile = opencode_resolved_transport_profile(&transport, &reserved, &names).expect("profile");
    assert_eq!(profile.profile_id, "opencode:cdn.example.com");
    assert_eq!(profile.pool_scope, "key");
    let extra = profile.extra.expect("extra");
    assert_eq!(
        from_json(&extra),
        from_json(&opencode_dns_pin_extra(&host, ip, port))
    );
    let extra_text = from_json(&extra).to_string();
    let (host, ip, port) = pin_from_extra(Some(extra_text.as_str())).expect("pin");
    assert_eq!(host, "cdn.example.com");
    assert_eq!(ip.to_text(), "93.184.216.36");
    assert_eq!(port, 443);
}

#[test]
fn pin_from_extra_rejects_malformed_input() {
    assert!(pin_from_extra(None).is_none());
    assert!(pin_from_extra(Some("not-json")).is_none());
    assert!(pin_from_extra(Some(
        r#"{"opencode_dns_pin":{"host":"x","ip":"bad","port":443}}"#
    ))
    .is_none());
    assert!(pin_from_extra(Some(
        r#"{"opencode_dns_pin":{"host":"","ip":"93.184.216.34","port":443}}"#
    ))
    .is_none());
    assert!(pin_from_extra(Some(
        r#"{"opencode_dns_pin":{"host":"x","ip":"93.184.216.34","port":0}}"#
    ))
    .is_none());
    assert!(pin_from_extra(Some(
        r#"{"opencode_dns_pin":{"host":"x","ip":"127.0.0.1","port":443}}"#
    ))
    .is_none());
    assert!(pin_from_extra(Some(r#"{"other":1}"#)).is_none());
}

#[test]
fn pin_from_extra_refuses_hosts_with_special_characters() {
    for host in ["a b", "a/b", "a\\\\b", "a?b", "a#b", "a@b", "10.1.1.1"] {
        let extra = format!(
            r#"{{"opencode_dns_pin":{{"host":"{host}","ip":"93.184.216.34","port":443}}}}"#
        );
        assert!(pin_from_extra(Some(extra.as_str())).is_none(), "{host}");
    }
    assert!(pin_from_extra(Some(
        r#"{"opencode_dns_pin":{"host":"x","ip":"93.184.216.34","port":65536}}"#
    ))
    .is_none());
    assert_eq!(
        pin_from_extra(Some(
            r#"{"opencode_dns_pin":{"host":"  edge.example ","ip":" 93.184.216.34 ","port":65535}}"#
        )),
        Some(("edge.example".to_string(), IpValue::V4(0x5db8d822), 65535))
    );
    assert!(pin_from_extra(Some(r#"{"opencode_dns_pin":"edge"}"#)).is_none());
}

#[test]
fn session_id_has_official_shape() {
    let id = new_opencode_session_id();
    assert!(id.starts_with("ses_"));
    assert_eq!(id.len(), 4 + 12 + 14);
    let body = &id[4..];
    assert!(body[..12]
        .chars()
        .all(|c| c.is_ascii_hexdigit() && !c.is_ascii_uppercase()));
    assert!(body[12..].chars().all(|c| c.is_ascii_alphanumeric()));
}

#[test]
fn session_id_is_unique_per_request() {
    let a = new_opencode_session_id();
    let b = new_opencode_session_id();
    assert_ne!(a, b);
}

#[test]
fn user_agent_parses_to_opencode_version() {
    let ua = opencode_user_agent();
    assert!(ua.starts_with("opencode/1."));
    assert!(ua.contains("ai-sdk/provider-utils/4.0.23"));
    assert_eq!(ua, "opencode/1.18.31 ai-sdk/provider-utils/4.0.23 runtime/bun/1.3.14");
}

#[test]
fn header_injection_targets_opencode_chat_only() {
    let transport = sample_transport("opencode");
    let mut headers = HeaderMap::new();
    insert_opencode_request_headers_if_needed(&transport, "openai:chat", &mut headers, &alias);
    assert!(headers.contains_key("x-session-id"));
    assert!(!headers.contains_key("x-session-affinity"));
    assert_eq!(
        headers.get("accept").map(String::as_str),
        Some("application/json")
    );
    assert_eq!(
        headers.get("user-agent").map(String::as_str),
        Some(opencode_user_agent().as_str())
    );
    assert_eq!(
        headers.get("authorization").map(String::as_str),
        Some("Bearer public")
    );

    let mut unchanged = HeaderMap::new();
    insert_opencode_request_headers_if_needed(&transport, "openai:image", &mut unchanged, &alias);
    assert!(unchanged.is_empty());

    let other = sample_transport("openai");
    let mut untouched = HeaderMap::new();
    insert_opencode_request_headers_if_needed(&other, "openai:chat", &mut untouched, &alias);
    assert!(untouched.is_empty());
}

#[test]
fn header_injection_replaces_existing_user_agent_with_opencode_ua() {
    let transport = sample_transport("opencode");
    let mut headers = HeaderMap::new();
    headers.insert("user-agent".to_string(), "custom/1".to_string());
    headers.insert("authorization".to_string(), "Bearer pool-key".to_string());
    insert_opencode_request_headers_if_needed(&transport, "openai:chat", &mut headers, &alias);
    let ua = headers
        .get("user-agent")
        .map(String::as_str)
        .unwrap_or_default();
    assert!(
        ua.starts_with("opencode/"),
        "UA should be forced to opencode, got {ua}"
    );
    assert_eq!(
        headers.get("authorization").map(String::as_str),
        Some("Bearer public")
    );
    assert!(headers.contains_key("x-session-id"));
    assert!(!headers.contains_key("x-session-affinity"));
}

#[test]
fn is_opencode_provider_transport_matches_case_insensitively() {
    assert!(is_opencode_provider_transport(&sample_transport("opencode")));
    assert!(is_opencode_provider_transport(&sample_transport(" OpenCode ")));
    assert!(!is_opencode_provider_transport(&sample_transport("openai")));
}

#[test]
fn free_tier_tools_are_added_when_missing() {
    let mut body = json(r#"{"model": "jev-1.13-free", "messages": []}"#);
    ensure_opencode_free_tier_tools(&mut body);
    assert_eq!(tool_names(&body), vec!["bash", "glob", "grep", "read"]);
}

#[test]
fn free_tier_tools_preserve_existing_tools() {
    let mut body = json(
        r#"{
            "model": "jev-1.13-free",
            "tools": [{"type": "function", "function": {"name": "bash", "parameters": {}}}]
        }"#,
    );
    ensure_opencode_free_tier_tools(&mut body);
    assert_eq!(tool_names(&body), vec!["bash", "glob", "grep", "read"]);
}

#[test]
fn free_tier_tool_definitions_match_the_reference() {
    let mut body = json(r#"{"tools": []}"#);
    ensure_opencode_free_tier_tools(&mut body);
    let expected = json(
        r#"{"tools": [
            {"type": "function", "function": {
                "name": "bash",
                "description": "Run a shell command and return its output",
                "parameters": {"type": "object", "properties": {"command": {"type": "string"}}, "required": ["command"]}}},
            {"type": "function", "function": {
                "name": "glob",
                "description": "Find files matching a glob pattern",
                "parameters": {"type": "object", "properties": {"pattern": {"type": "string"}}, "required": ["pattern"]}}},
            {"type": "function", "function": {
                "name": "grep",
                "description": "Search file contents with a regular expression",
                "parameters": {"type": "object", "properties": {"pattern": {"type": "string"}}, "required": ["pattern"]}}},
            {"type": "function", "function": {
                "name": "read",
                "description": "Read the contents of a file",
                "parameters": {"type": "object", "properties": {"file_path": {"type": "string"}}, "required": ["file_path"]}}}
        ]}"#,
    );
    assert_eq!(from_json(&body), from_json(&expected));
}

#[test]
fn free_tier_tools_twice_is_once() {
    let mut body = json(r#"{"tools": [{"function": {"name": "grep"}}], "x": 1}"#);
    ensure_opencode_free_tier_tools(&mut body);
    let once = from_json(&body);
    ensure_opencode_free_tier_tools(&mut body);
    assert_eq!(from_json(&body), once);
    assert_eq!(tool_names(&body), vec!["grep", "bash", "glob", "read"]);
}

#[test]
fn free_tier_tools_leave_other_values() {
    let mut array = json(r#"[1]"#);
    ensure_opencode_free_tier_tools(&mut array);
    assert_eq!(from_json(&array), serde_json::from_str::<serde_json::Value>("[1]").unwrap());
    let mut odd = json(r#"{"tools": {"bash": true}}"#);
    ensure_opencode_free_tier_tools(&mut odd);
    assert_eq!(
        from_json(&odd),
        serde_json::from_str::<serde_json::Value>(r#"{"tools": {"bash": true}}"#).unwrap()
    );
}

#[test]
fn chat_body_semantics_force_streaming_and_tools() {
    let transport = sample_transport("opencode");
    let mut body = json(r#"{"model": "big-pickle", "stream": false, "messages": []}"#);
    apply_opencode_request_body_semantics(&transport, "openai:chat", &mut body, &alias);
    assert!(matches!(get(&body, "stream"), Some(JsonValue::Bool(true))));
    assert!(matches!(get(&body, "tools"), Some(JsonValue::Array(tools)) if tools.len() == 4));

    let mut untouched = json(r#"{"model": "big-pickle", "stream": false}"#);
    apply_opencode_request_body_semantics(
        &sample_transport("openai"),
        "openai:chat",
        &mut untouched,
        &alias,
    );
    assert!(matches!(get(&untouched, "stream"), Some(JsonValue::Bool(false))));
    assert!(get(&untouched, "tools").is_none());
}

#[test]
fn exit_ip_text_is_trimmed_and_may_be_ipv6() {
    assert_eq!(
        parse_opencode_exit_ip("  2606:4700::6810:84e5 ", &reserved),
        Some(IpValue::V6(0x2606_4700_0000_0000_0000_0000_6810_84e5))
    );
    assert_eq!(parse_opencode_exit_ip("::1", &reserved), None);
    assert_eq!(parse_opencode_exit_ip("1.2.3", &reserved), None);
    assert_eq!(parse_opencode_exit_ip("01.2.3.4", &reserved), None);
}

#[test]
fn header_map_gives_back_its_entries() {
    let mut headers = HeaderMap::new();
    headers.insert("accept".to_string(), "text/plain".to_string());
    headers.insert("user-agent".to_string(), "custom/1".to_string());
    headers.insert("accept".to_string(), "application/json".to_string());
    let mut entries = headers.into_entries();
    entries.sort();
    assert_eq!(
        entries,
        vec![
            ("accept".to_string(), "application/json".to_string()),
            ("user-agent".to_string(), "custom/1".to_string()),
        ]
    );
}

#[test]
fn ipv6_pin_extra_round_trips_through_text() {
    let ip = IpValue::V6(0x2606_4700_0000_0000_0000_0000_6810_0001);
    let extra = opencode_dns_pin_extra("cdn.example.com", ip, 8443);
    let text = from_json(&extra).to_string();
    assert!(text.contains("\"2606:4700::6810:1\""));
    let (host, back, port) = pin_from_extra(Some(text.as_str())).expect("pin");
    assert_eq!(host, "cdn.example.com");
    assert_eq!(back, ip);
    assert_eq!(port, 8443);
}

#[test]
fn ip_text_parses_back() {
    let samples = [
        IpValue::V4(0),
        IpValue::V4(0x5db8_d822),
        IpValue::V4(u32::MAX),
        IpValue::V6(0),
        IpValue::V6(1),
        IpValue::V6(u128::MAX),
        IpValue::V6(0x2001_0db8_0000_0000_0001_0000_0000_0001),
        IpValue::V6(0x0000_0000_0000_0000_0000_ffff_c000_0201),
        IpValue::V6(0x2001_0db8_0000_0001_0000_0000_0000_0000),
        IpValue::V6(0x0001_0000_0000_0000_0000_0000_0000_0000),
        IpValue::V6(0x0001_0002_0003_0004_0005_0006_0007_0008),
    ];
    for ip in samples {
        let text = ip.to_text();
        let chars: Vec<char> = text.chars().collect();
        assert_eq!(aether_opencode::ip::parse_ip_addr_chars(&chars), Some(ip), "{text}");
    }
    assert_eq!(IpValue::V6(0x2001_0db8_0000_0000_0001_0000_0000_0001).to_text(), "2001:db8::1:0:0:1");
    assert_eq!(IpValue::V6(0x0000_0000_0000_0000_0000_ffff_c000_0201).to_text(), "::ffff:192.0.2.1");
}

#[test]
fn session_id_bytes_are_two_version_four_uuids() {
    let raw: Vec<u8> = (200u8..232).collect();
    let bytes = uuid_pair_bytes(&raw);
    assert_eq!(bytes.len(), 26);
    assert_eq!(bytes[6], 78);
    assert_eq!(bytes[8], 144);
    assert_eq!(bytes[22], 78);
    assert_eq!(bytes[24], 160);
    assert_eq!(&bytes[..6], &raw[..6]);
    assert_eq!(&bytes[16..22], &raw[16..22]);
    assert_eq!(
        opencode_session_id_from_sources(Some(raw.clone()), 0),
        "ses_89abcdef0123abcdefghijQlkn"
    );
    assert_eq!(
        opencode_session_id_from_sources(None, 1_700_000_000_123_456_789),
        opencode_session_id_from_sources(Some(vec![1; 31]), 1_700_000_000_123_456_789)
    );
}
