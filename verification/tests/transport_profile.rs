use aether_opencode::front_proxy;
use aether_opencode::ip::IpValue;
use aether_opencode::json::{JsonNumber, JsonValue};
use aether_opencode::transport::{
    GatewayProviderTransportEndpoint, GatewayProviderTransportKey, GatewayProviderTransportProvider,
    GatewayProviderTransportSnapshot, ResolvedTransportProfile, TransportProfileNames,
};
use aether_opencode::upstream;

fn from_json(v: &JsonValue) -> serde_json::Value {
    match v {
        JsonValue::Null => serde_json::Value::Null,
        JsonValue::Bool(b) => serde_json::Value::Bool(*b),
        JsonValue::Number(JsonNumber::PosInt(u)) => serde_json::Value::from(*u),
        JsonValue::Number(JsonNumber::NegInt(i)) => serde_json::Value::from(*i),
        JsonValue::Number(JsonNumber::FloatBits(b)) => serde_json::Value::from(f64::from_bits(*b)),
        JsonValue::Str(s) => serde_json::Value::String(s.clone()),
        JsonValue::Array(items) => serde_json::Value::Array(items.iter().map(from_json).collect()),
        JsonValue::Object(entries) => serde_json::Value::Object(
            entries.iter().map(|(k, v)| (k.clone(), from_json(v))).collect(),
        ),
    }
}

fn names() -> TransportProfileNames {
    TransportProfileNames {
        backend: "reqwest_rustls".to_string(),
        http_mode: "auto".to_string(),
        pool_scope: "key".to_string(),
    }
}

fn transport(provider_type: &str, base_url: &str, api_key: &str, exit_ip: Option<&str>) -> GatewayProviderTransportSnapshot {
    GatewayProviderTransportSnapshot {
        provider: GatewayProviderTransportProvider {
            provider_type: provider_type.to_string(),
        },
        endpoint: GatewayProviderTransportEndpoint {
            base_url: base_url.to_string(),
        },
        key: GatewayProviderTransportKey {
            upstream_metadata: exit_ip.map(|ip| {
                JsonValue::Object(vec![("opencode_exit_ip".to_string(), JsonValue::Str(ip.to_string()))])
            }),
            decrypted_api_key: api_key.to_string(),
        },
    }
}

fn never_reserved(_: IpValue) -> bool {
    false
}

fn v4(a: u8, b: u8, c: u8, d: u8) -> IpValue {
    IpValue::V4(u32::from_be_bytes([a, b, c, d]))
}

#[test]
fn pinned_profile_carries_the_pin() {
    let profile = front_proxy::pinned_transport_profile("cdn.example.com", v4(93, 184, 216, 36), 443, &names());
    assert_eq!(profile.profile_id, "opencode:cdn.example.com");
    assert_eq!(profile.backend, "reqwest_rustls");
    assert_eq!(profile.http_mode, "auto");
    assert_eq!(profile.pool_scope, "key");
    assert!(profile.header_fingerprint.is_none());
    assert_eq!(
        from_json(profile.extra.as_ref().expect("extra")),
        serde_json::from_str::<serde_json::Value>(
            r#"{"opencode_dns_pin": {"host": "cdn.example.com", "ip": "93.184.216.36", "port": 443}}"#
        )
        .unwrap()
    );
}

#[test]
fn front_proxy_profile_follows_the_pin() {
    let pinned = transport("opencode", "https://cdn.example.com", "public", Some("93.184.216.36"));
    let profile = front_proxy::opencode_resolved_transport_profile(&pinned, &never_reserved, &names())
        .expect("profile");
    assert_eq!(profile.profile_id, "opencode:cdn.example.com");
    assert_eq!(profile.pool_scope, "key");
    let official = transport("opencode", "https://opencode.ai", "public", Some("93.184.216.36"));
    assert!(front_proxy::opencode_resolved_transport_profile(&official, &never_reserved, &names()).is_none());
    let other = transport("openai", "https://cdn.example.com", "public", Some("93.184.216.36"));
    assert!(front_proxy::opencode_resolved_transport_profile(&other, &never_reserved, &names()).is_none());
}

#[test]
fn upstream_pin_reads_the_exit_ip_from_the_api_key() {
    let t = transport("opencode", " https://cdn.example.com:8443/zen ", " 1.56.100.7 ", None);
    assert_eq!(upstream::opencode_key_upstream_ip(&t), Some(v4(1, 56, 100, 7)));
    assert_eq!(
        upstream::opencode_dns_pin(&t),
        Some(("cdn.example.com".to_string(), v4(1, 56, 100, 7), 8443))
    );
    let official = transport("OpenCode", "https://opencode.ai", "1.56.100.7", None);
    assert_eq!(
        upstream::opencode_dns_pin(&official),
        Some(("opencode.ai".to_string(), v4(1, 56, 100, 7), 443))
    );
    assert_eq!(upstream::opencode_key_upstream_ip(&transport("opencode", "https://x", "sk-abc", None)), None);
    assert_eq!(upstream::opencode_key_upstream_ip(&transport("openai", "https://x", "1.2.3.4", None)), None);
    assert_eq!(upstream::opencode_dns_pin(&transport("opencode", "not a url", "1.2.3.4", None)), None);
}

#[test]
fn upstream_profile_pin_round_trips() {
    let t = transport("opencode", "https://cdn.example.com", "2606:4700::6810:1", None);
    let profile: ResolvedTransportProfile =
        upstream::opencode_resolved_transport_profile(&t, &names()).expect("profile");
    assert_eq!(profile.profile_id, "opencode:cdn.example.com");
    assert_eq!(upstream::opencode_dns_pin_from_profile(&profile), upstream::opencode_dns_pin(&t));
    assert!(upstream::opencode_resolved_transport_profile(
        &transport("opencode", "https://cdn.example.com", "sk-abc", None),
        &names()
    )
    .is_none());
}

#[test]
fn upstream_pin_from_extra_truncates_the_port() {
    let extra = JsonValue::Object(vec![(
        "opencode_dns_pin".to_string(),
        JsonValue::Object(vec![
            ("host".to_string(), JsonValue::Str("h".to_string())),
            ("ip".to_string(), JsonValue::Str("1.2.3.4".to_string())),
            ("port".to_string(), JsonValue::Number(JsonNumber::PosInt(65536 + 443))),
        ]),
    )]);
    assert_eq!(
        upstream::opencode_dns_pin_from_json_value(Some(&extra)),
        Some(("h".to_string(), v4(1, 2, 3, 4), 443))
    );
    assert_eq!(upstream::opencode_dns_pin_from_json_value(None), None);
    let no_pin = JsonValue::Object(vec![("other".to_string(), JsonValue::Number(JsonNumber::PosInt(1)))]);
    assert_eq!(upstream::opencode_dns_pin_from_json_value(Some(&no_pin)), None);
}
