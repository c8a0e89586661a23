use aether_opencode::ip::parse_cidr;
use aether_opencode::json::{JsonNumber, JsonValue};
use aether_opencode::maintenance::{
    maintenance_clean_concurrency, maintenance_pool_key_plan, maintenance_probe_request,
    opencode_key_ip, OpenCodeScanConfig,
};
use aether_opencode::pool_keys::is_healthy_status_line;
use aether_opencode::pool_status::StatusMap;

fn to_json(v: &serde_json::Value) -> JsonValue {
    match v {
        serde_json::Value::Null => JsonValue::Null,
        serde_json::Value::Bool(b) => JsonValue::Bool(*b),
        serde_json::Value::Number(n) => match (n.as_u64(), n.as_i64()) {
            (Some(u), _) => JsonValue::Number(JsonNumber::PosInt(u)),
            (None, Some(i)) => JsonValue::Number(JsonNumber::NegInt(i)),
            _ => JsonValue::Number(JsonNumber::FloatBits(n.as_f64().unwrap_or(0.0).to_bits())),
        },
        serde_json::Value::String(s) => JsonValue::Str(s.clone()),
        serde_json::Value::Array(items) => JsonValue::Array(items.iter().map(to_json).collect()),
        serde_json::Value::Object(map) => JsonValue::Object(
            map.iter().map(|(k, v)| (k.clone(), to_json(v))).collect(),
        ),
    }
}

fn json(text: &str) -> JsonValue {
    to_json(&serde_json::from_str::<serde_json::Value>(text).expect("valid json"))
}

#[test]
fn opencode_ip_pool_cidr_parsing_handles_valid_and_invalid_input() {
    let Some((network, bits)) = parse_cidr("1.56.100.0/24") else {
        panic!("valid cidr should parse");
    };
    assert_eq!(bits, 24);
    assert_eq!(network, 0x01386400);
    assert_eq!(parse_cidr("not-an-ip/24"), None);
    assert_eq!(parse_cidr("1.2.3.4/33"), None);
    assert_eq!(parse_cidr("1.2.3.4"), None);
    assert_eq!(parse_cidr("1.2.3.4/0"), None);
}

#[test]
fn candidates_exclude_known_and_network_addresses() {
    let known = vec!["1.56.100.15".to_string(), "1.56.100.1".to_string()];
    let config = OpenCodeScanConfig {
        cidrs: vec!["1.56.100.0/30".to_string()],
        auto_enabled: false,
        interval_hours: None,
        concurrency: None,
    };
    let candidates = config.candidate_ips(&known);
    assert_eq!(candidates, vec!["1.56.100.2".to_string()]);
}

#[test]
fn config_defaults_and_round_trip() {
    let value = OpenCodeScanConfig {
        cidrs: vec!["1.2.3.0/24".to_string()],
        auto_enabled: true,
        interval_hours: Some(6),
        concurrency: Some(16),
    }
    .to_provider_config_value();
    let restored = OpenCodeScanConfig::from_provider_config(&Some(value));
    assert_eq!(restored.cidrs, vec!["1.2.3.0/24".to_string()]);
    assert!(restored.auto_enabled);
    assert_eq!(restored.interval_hours, Some(6));
    assert_eq!(restored.concurrency, Some(16));
}

#[test]
fn status_line_health_classification() {
    assert!(is_healthy_status_line(b"HTTP/1.1 200 OK\r"));
    assert!(is_healthy_status_line(b"HTTP/1.1 302 Found\r"));
    assert!(!is_healthy_status_line(b"HTTP/1.1 404 Not Found\r"));
    assert!(!is_healthy_status_line(b""));
    assert!(!is_healthy_status_line(b"garbage"));
    assert!(!is_healthy_status_line(b"HTTP/1.1 99 nope\r"));
}

#[test]
fn status_map_round_trips() {
    let mut map = StatusMap::new();
    map.update("p-1", |mut status| {
        status.last_scan_added = 3;
        status
    });
    assert_eq!(map.status_for("p-1").last_scan_added, 3);
    map.update("p-1", |mut status| {
        status.scanning = true;
        status
    });
    assert!(map.status_for("p-1").scanning);
    assert_eq!(map.status_for("p-2").last_scan_added, 0);
}

#[test]
fn maintenance_config_defaults_its_block() {
    let config = OpenCodeScanConfig::from_provider_config(&Some(json(r#"{"opencode_scan": {"cidrs": [" "]}}"#)));
    assert_eq!(config.cidrs, vec!["1.56.100.0/24".to_string()]);
    assert_eq!(config.effective_interval_hours(), 0);
    assert_eq!(config.effective_concurrency(), 32);
    let none = OpenCodeScanConfig::from_provider_config(&None);
    assert!(none.cidrs.is_empty());
    let clamped = OpenCodeScanConfig::from_provider_config(&Some(json(r#"{"concurrency": 0, "interval_hours": 12}"#)));
    assert_eq!(clamped.effective_concurrency(), 1);
    assert_eq!(clamped.effective_interval_hours(), 12);
}

#[test]
fn maintenance_key_ip_and_plan() {
    assert_eq!(opencode_key_ip(Some(" 1.2.3.4 ")), Some("1.2.3.4".to_string()));
    assert_eq!(opencode_key_ip(Some("public-1.2.3.4")), None);
    assert_eq!(opencode_key_ip(None), None);
    let plan = maintenance_pool_key_plan("1.2.3.4");
    assert_eq!(plan.name, "CDN IP 1.2.3.4");
    assert_eq!(plan.api_key, "1.2.3.4");
    assert_eq!(plan.auth_type, "bearer");
    assert_eq!(plan.api_formats, vec!["openai:chat".to_string(), "openai:responses".to_string()]);
    assert_eq!(
        maintenance_probe_request("edge.example"),
        "GET /zen/v1/models HTTP/1.1\r\nHost: edge.example\r\nUser-Agent: aether-ip-scanner\r\nConnection: close\r\n\r\n"
    );
}

#[test]
fn maintenance_clean_concurrency_is_capped_at_32() {
    let with = |c: Option<usize>| OpenCodeScanConfig {
        cidrs: vec!["1.56.100.0/24".to_string()],
        auto_enabled: false,
        interval_hours: None,
        concurrency: c,
    };
    assert_eq!(maintenance_clean_concurrency(&with(None)), 32);
    assert_eq!(maintenance_clean_concurrency(&with(Some(8))), 8);
    assert_eq!(maintenance_clean_concurrency(&with(Some(0))), 1);
    assert_eq!(maintenance_clean_concurrency(&with(Some(100))), 32);
}

#[test]
fn maintenance_candidates_skip_edge_octets() {
    let config = OpenCodeScanConfig {
        cidrs: vec!["10.0.0.0/23".to_string()],
        auto_enabled: false,
        interval_hours: None,
        concurrency: None,
    };
    let candidates = config.candidate_ips(&[]);
    assert_eq!(candidates.len(), 508);
    assert!(candidates.iter().all(|ip| !ip.ends_with(".0") && !ip.ends_with(".255")));
    assert!(!candidates.contains(&"10.0.0.255".to_string()));
    assert!(!candidates.contains(&"10.0.1.0".to_string()));
    assert!(candidates.contains(&"10.0.0.254".to_string()));
    assert!(candidates.contains(&"10.0.1.1".to_string()));
}
