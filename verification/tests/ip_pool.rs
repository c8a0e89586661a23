use aether_opencode::ip::{parse_cidr, IpValue};
use aether_opencode::ip_pool::{
    OpenCodeScanConfig, OPENCODE_SCAN_DEFAULT_CONCURRENCY, OPENCODE_SCAN_MAX_CONCURRENCY,
};
use aether_opencode::json::{JsonNumber, JsonValue};
use aether_opencode::pool_keys::{
    clean_concurrency, endpoint_host, endpoint_target, healthy_ips, is_healthy_status_line, new_healthy_ips,
    opencode_pool_key_ip, pool_ip_entries, pool_key_entries, pool_key_plan, probe_server_name, probe_target_error,
    probe_target_is_official, proxy_domain_target, scan_probe_request, status_line_step,
    unhealthy_key_ids, ProbeServerName, StoredProviderCatalogKey,
};
use aether_opencode::pool_status::{
    begin_maintenance_scan, begin_pool_clean, begin_pool_scan, scan_summary, finish_pool_clean, finish_pool_scan,
    finish_pool_scan_now, CleanSummary,
    PoolTaskError, ScanSummary, StatusMap,
};

fn to_json(v: &serde_json::Value) -> JsonValue {
    match v {
        serde_json::Value::Null => JsonValue::Null,
        serde_json::Value::Bool(b) => JsonValue::Bool(*b),
        serde_json::Value::Number(n) => match (n.as_u64(), n.as_i64()) {
            (Some(u), _) => JsonValue::Number(JsonNumber::PosInt(u)),
            (None, Some(i)) => JsonValue::Number(JsonNumber::NegInt(i)),
            _ => JsonValue::Number(JsonNumber::FloatBits(n.as_f64().unwrap_or(0.0).to_bits())),
        },
        serde_json::Value::String(s) => JsonValue::Str(s.clone()),
        serde_json::Value::Array(items) => JsonValue::Array(items.iter().map(to_json).collect()),
        serde_json::Value::Object(map) => JsonValue::Object(
            map.iter().map(|(k, v)| (k.clone(), to_json(v))).collect(),
        ),
    }
}

fn from_json(v: &JsonValue) -> serde_json::Value {
    match v {
        JsonValue::Null => serde_json::Value::Null,
        JsonValue::Bool(b) => serde_json::Value::Bool(*b),
        JsonValue::Number(JsonNumber::PosInt(u)) => serde_json::Value::from(*u),
        JsonValue::Number(JsonNumber::NegInt(i)) => serde_json::Value::from(*i),
        JsonValue::Number(JsonNumber::FloatBits(b)) => serde_json::Value::from(f64::from_bits(*b)),
        JsonValue::Str(s) => serde_json::Value::String(s.clone()),
        JsonValue::Array(items) => serde_json::Value::Array(items.iter().map(from_json).collect()),
        JsonValue::Object(entries) => serde_json::Value::Object(
            entries.iter().map(|(k, v)| (k.clone(), from_json(v))).collect(),
        ),
    }
}

fn json(text: &str) -> JsonValue {
    to_json(&serde_json::from_str::<serde_json::Value>(text).expect("valid json"))
}

fn object(text: &str) -> Vec<(String, JsonValue)> {
    match json(text) {
        JsonValue::Object(entries) => entries,
        _ => panic!("object"),
    }
}

fn strings(items: &[&str]) -> Vec<String> {
    items.iter().map(|s| s.to_string()).collect()
}

fn key(id: &str, metadata: Option<&str>) -> StoredProviderCatalogKey {
    StoredProviderCatalogKey {
        id: id.to_string(),
        is_active: true,
        upstream_metadata: metadata.map(json),
    }
}

#[test]
fn candidate_ips_skip_network_broadcast_and_known() {
    let config = OpenCodeScanConfig {
        cidrs: vec!["192.168.1.0/29".to_string()],
        ..OpenCodeScanConfig::default()
    };
    let known = vec!["192.168.1.2".to_string()];
    let candidates = config.candidate_ips(&known);
    assert_eq!(
        candidates,
        vec![
            "192.168.1.1".to_string(),
            "192.168.1.3".to_string(),
            "192.168.1.4".to_string(),
            "192.168.1.5".to_string(),
            "192.168.1.6".to_string(),
        ]
    );
}

#[test]
fn empty_cidr_config_yields_no_candidates() {
    assert!(OpenCodeScanConfig::default().candidate_ips(&[]).is_empty());
}

#[test]
fn config_reads_opencode_scan_section() {
    let config = OpenCodeScanConfig::from_provider_config_object(&object(
        r#"{ "opencode_scan": { "cidrs": ["203.0.113.192/26"], "concurrency": 8 } }"#,
    ));
    assert_eq!(config.cidrs, vec!["203.0.113.192/26".to_string()]);
    assert_eq!(config.effective_concurrency(), 8);
}

#[test]
fn config_reads_bare_section() {
    let config = OpenCodeScanConfig::from_provider_config_object(&object(
        r#"{ "cidrs": ["93.184.216.45.0/24"], "concurrency": 999 }"#,
    ));
    assert_eq!(config.cidrs, vec!["93.184.216.45.0/24".to_string()]);
    assert_eq!(config.effective_concurrency(), OPENCODE_SCAN_MAX_CONCURRENCY);
}

#[test]
fn concurrency_defaults_and_clamps() {
    assert_eq!(
        OpenCodeScanConfig::default().effective_concurrency(),
        OPENCODE_SCAN_DEFAULT_CONCURRENCY
    );
    assert_eq!(
        OpenCodeScanConfig {
            cidrs: Vec::new(),
            interval_hours: None,
            concurrency: Some(0),
            ..OpenCodeScanConfig::default()
        }
        .effective_concurrency(),
        1
    );
}

#[test]
fn pool_key_ip_reads_upstream_metadata() {
    let plain = key("k1", None);
    assert_eq!(opencode_pool_key_ip(&plain), None);
    let with_meta = key("k1", Some(r#"{ "opencode_exit_ip": "1.2.3.4" }"#));
    assert_eq!(opencode_pool_key_ip(&with_meta), Some("1.2.3.4".to_string()));
    let invalid = key("k1", Some(r#"{ "opencode_exit_ip": "999.1.1.1" }"#));
    assert_eq!(opencode_pool_key_ip(&invalid), None);
}

#[test]
fn healthy_status_line_recognises_2xx_and_3xx() {
    assert!(is_healthy_status_line(b"HTTP/1.1 200 OK"));
    assert!(is_healthy_status_line(b"HTTP/1.1 301 Moved"));
    assert!(!is_healthy_status_line(b"HTTP/1.1 403 Forbidden"));
    assert!(!is_healthy_status_line(b"garbage"));
}

#[test]
fn status_map_is_per_provider() {
    let mut map = StatusMap::new();
    map.update("pool-a", |mut status| {
        status.scanning = true;
        status
    });
    assert!(map.status_for("pool-a").scanning);
    assert!(!map.status_for("pool-b").scanning);
    map.update("pool-a", |mut status| {
        status.scanning = false;
        status
    });
    assert!(!map.status_for("pool-a").scanning);
}

#[test]
fn status_line_needs_three_code_characters() {
    assert!(!is_healthy_status_line(b"HTTP/1.1 20"));
    assert!(is_healthy_status_line(b"HTTP/1.1 2xx"));
    assert!(!is_healthy_status_line(b"HTTP/1.1  200 OK"));
    assert!(!is_healthy_status_line(b""));
}

#[test]
fn status_line_step_stops_at_newline_or_overflow() {
    let mut line = Vec::new();
    assert_eq!(status_line_step(&mut line, b'H'), None);
    assert_eq!(status_line_step(&mut line, b'\n'), Some(true));
    assert_eq!(line, b"H".to_vec());
    let mut long = vec![b'x'; 1024];
    assert_eq!(status_line_step(&mut long, b'y'), Some(false));
    assert_eq!(long.len(), 1025);
}

#[test]
fn merged_config_keeps_what_the_update_does_not_name() {
    let existing = Some(json(
        r#"{"opencode_scan": {"cidrs": ["10.0.0.0/24"], "auto_enabled": true, "interval_hours": 6,
            "rotation_enabled": true, "cooldown_minutes": 15, "proxy_domain": "edge.example",
            "proxy_enabled": true, "exit_pool": ["1.1.1.1"]}}"#,
    ));
    let merged = OpenCodeScanConfig::merged_with_payload(&existing, &object(r#"{"proxy_domain": " next.example "}"#));
    assert_eq!(merged.cidrs, strings(&["10.0.0.0/24"]));
    assert!(merged.auto_enabled);
    assert_eq!(merged.interval_hours, Some(6));
    assert!(merged.rotation_enabled);
    assert_eq!(merged.cooldown_minutes, Some(15));
    assert_eq!(merged.proxy_domain, Some("next.example".to_string()));
    assert!(merged.proxy_enabled);
    assert_eq!(merged.exit_pool, strings(&["1.1.1.1"]));

    let cleared = OpenCodeScanConfig::merged_with_payload(
        &existing,
        &object(r#"{"opencode_scan": {"interval_hours": null, "cidrs": [" a ", "", 3], "proxy_domain": "  "}}"#),
    );
    assert_eq!(cleared.interval_hours, None);
    assert_eq!(cleared.cidrs, strings(&["a"]));
    assert_eq!(cleared.proxy_domain, Some("edge.example".to_string()));
}

#[test]
fn config_value_round_trips() {
    let config = OpenCodeScanConfig {
        cidrs: strings(&["203.0.113.0/28"]),
        auto_enabled: true,
        interval_hours: Some(6),
        concurrency: Some(16),
        rotation_enabled: true,
        cooldown_minutes: Some(30),
        proxy_domain: Some("edge.example".to_string()),
        proxy_enabled: true,
        exit_pool: strings(&["203.0.113.5", "203.0.113.9"]),
    };
    let value = config.to_provider_config_value();
    assert_eq!(
        from_json(&value),
        serde_json::from_str::<serde_json::Value>(
            r#"{"cidrs": ["203.0.113.0/28"], "auto_enabled": true, "interval_hours": 6,
                "concurrency": 16, "rotation_enabled": true, "cooldown_minutes": 30,
                "proxy_domain": "edge.example", "proxy_enabled": true,
                "exit_pool": ["203.0.113.5", "203.0.113.9"]}"#
        )
        .unwrap()
    );
    assert_eq!(OpenCodeScanConfig::from_provider_config(&Some(value)), config);
}

#[test]
fn config_defaults_for_values_that_are_not_objects() {
    assert_eq!(OpenCodeScanConfig::from_provider_config(&None), OpenCodeScanConfig::default());
    assert_eq!(
        OpenCodeScanConfig::from_provider_config(&Some(json("[1]"))),
        OpenCodeScanConfig::default()
    );
    let value = OpenCodeScanConfig::default().to_provider_config_value();
    assert_eq!(
        from_json(&value),
        serde_json::from_str::<serde_json::Value>(
            r#"{"cidrs": [], "auto_enabled": false, "interval_hours": 0, "concurrency": 32,
                "rotation_enabled": false, "cooldown_minutes": 60, "proxy_domain": "",
                "proxy_enabled": false, "exit_pool": []}"#
        )
        .unwrap()
    );
}

#[test]
fn effective_settings_follow_their_switches() {
    let mut config = OpenCodeScanConfig::default();
    assert!(!config.autoscan_effective());
    config.auto_enabled = true;
    assert!(!config.autoscan_effective());
    config.interval_hours = Some(1);
    assert!(config.autoscan_effective());
    assert_eq!(config.effective_cooldown_minutes(), 60);
    config.cooldown_minutes = Some(0);
    assert_eq!(config.effective_cooldown_minutes(), 1);
    config.proxy_domain = Some(" edge.example ".to_string());
    assert_eq!(config.effective_proxy_domain(), None);
    config.proxy_enabled = true;
    assert_eq!(config.effective_proxy_domain(), Some("edge.example".to_string()));
    assert!(!config.rotation_effective());
    config.rotation_enabled = true;
    assert!(!config.rotation_effective(), "no exit IP in the pool");
    config.exit_pool = vec!["93.184.216.34".to_string()];
    assert!(config.rotation_effective());
    config.rotation_enabled = false;
    assert!(!config.rotation_effective());
    config.concurrency = Some(100);
    assert_eq!(clean_concurrency(&config), 32);
}

#[test]
fn candidates_pool_blocks_sorted_and_capped() {
    let config = OpenCodeScanConfig {
        cidrs: strings(&["10.0.0.8/30", "bad", "10.0.0.0/30", "10.0.0.0/31"]),
        ..OpenCodeScanConfig::default()
    };
    assert_eq!(
        config.candidate_ips(&[]),
        strings(&["10.0.0.1", "10.0.0.10", "10.0.0.2", "10.0.0.9"])
    );
    let big = OpenCodeScanConfig {
        cidrs: strings(&["10.0.0.0/16"]),
        ..OpenCodeScanConfig::default()
    };
    let candidates = big.candidate_ips(&[]);
    assert_eq!(candidates.len(), 4096);
    assert_eq!(candidates[0], "10.0.0.1");
    assert_eq!(candidates[1], "10.0.0.10");
}

#[test]
fn cidr_parsing_masks_host_bits() {
    assert_eq!(parse_cidr("203.0.113.200/26"), Some((0xcb00_71c0, 26)));
    assert_eq!(parse_cidr(" 10.1.2.3 / 8 "), Some((0x0a00_0000, 8)));
    assert_eq!(parse_cidr("10.1.2.3/32"), Some((0x0a01_0203, 32)));
    assert_eq!(parse_cidr("::1/64"), None);
    assert_eq!(parse_cidr("10.1.2.3/+8"), Some((0x0a00_0000, 8)));
}

#[test]
fn probe_targets() {
    assert!(probe_target_is_official(" OpenCode.ai "));
    assert!(!probe_target_is_official("edge.example"));
    assert_eq!(probe_target_error("opencode.ai", false), Some(PoolTaskError::ScanWithoutProxyDomain));
    assert_eq!(probe_target_error("opencode.ai", true), Some(PoolTaskError::CleanWithoutProxyDomain));
    assert_eq!(probe_target_error("edge.example", true), None);

    let mut config = OpenCodeScanConfig::default();
    assert_eq!(proxy_domain_target(&config), None);
    config.proxy_domain = Some("edge.example".to_string());
    assert_eq!(proxy_domain_target(&config), Some(("edge.example".to_string(), 443)));
    config.proxy_domain = Some("edge.example:8443".to_string());
    assert_eq!(proxy_domain_target(&config), Some(("edge.example:8443".to_string(), 8443)));

    assert_eq!(
        endpoint_target(&strings(&["nonsense", "data:text/plain,x", " https://a.example/zen/v1 "])),
        Some(("a.example".to_string(), 443))
    );
    assert_eq!(endpoint_target(&strings(&["foo://b.example"])), None);
    assert_eq!(endpoint_host(&strings(&["foo://b.example"])), Some("b.example".to_string()));
    assert_eq!(endpoint_host(&[]), None);
}

#[test]
fn probe_server_names() {
    match probe_server_name(" [2001:db8::1] ") {
        ProbeServerName::Ip(ip) => assert_eq!(ip, IpValue::V6(0x2001_0db8_0000_0000_0000_0000_0000_0001)),
        other => panic!("unexpected {other:?}"),
    }
    match probe_server_name("edge.example") {
        ProbeServerName::Name(name) => assert_eq!(name, "edge.example"),
        other => panic!("unexpected {other:?}"),
    }
}

#[test]
fn probe_request_carries_the_fingerprint() {
    let request = scan_probe_request("edge.example");
    assert!(request.starts_with(
        "GET /zen/v1/models HTTP/1.1\r\nHost: edge.example\r\nUser-Agent: opencode/1.18.31 ai-sdk/provider-utils/4.0.23 runtime/bun/1.3.14\r\nAuthorization: Bearer public\r\nAccept: application/json\r\nx-opencode-session: ses_"
    ));
    assert!(request.ends_with("\r\nConnection: close\r\n\r\n"));
}

#[test]
fn scan_and_clean_bookkeeping() {
    let mut map = StatusMap::new();
    let config = OpenCodeScanConfig::default();
    assert_eq!(begin_pool_scan(&mut map, "p", &config), Err(PoolTaskError::NoCidrs));
    let config = OpenCodeScanConfig {
        cidrs: strings(&["10.0.0.0/30"]),
        ..OpenCodeScanConfig::default()
    };
    assert_eq!(begin_pool_scan(&mut map, "p", &config), Ok(()));
    assert_eq!(begin_pool_scan(&mut map, "p", &config), Err(PoolTaskError::ScanInProgress));
    assert_eq!(PoolTaskError::ScanInProgress.message(), "扫描正在进行中");
    finish_pool_scan(
        &mut map,
        "p",
        Some(ScanSummary { targets: 2, found: 1, added: 1 }),
        Some("2026-01-01T00:00:00+00:00".to_string()),
        1_767_225_600,
    );
    let status = map.status_for("p");
    assert!(!status.scanning);
    assert_eq!(status.last_scan_targets, 2);
    assert_eq!(status.last_scan_added, 1);
    assert_eq!(status.last_scan_at_unix_secs, Some(1_767_225_600));
    assert_eq!(begin_pool_clean(&mut map, "p"), Ok(()));
    assert_eq!(begin_pool_clean(&mut map, "p"), Err(PoolTaskError::CleanInProgress));
    finish_pool_clean(&mut map, "p", None, Some("later".to_string()));
    let status = map.status_for("p");
    assert!(!status.cleaning);
    assert_eq!(status.last_clean_at, None);
    finish_pool_clean(&mut map, "p", Some(CleanSummary { checked: 3, removed: 2 }), Some("t".to_string()));
    assert_eq!(map.status_for("p").last_clean_removed, 2);
    assert_eq!(map.status_for("p").last_scan_targets, 2);
}

#[test]
fn every_pool_error_has_its_message() {
    assert_eq!(PoolTaskError::NoCidrs.message(), "未配置扫描网段，请先在扫描配置中添加 CIDR");
    assert_eq!(PoolTaskError::CleanInProgress.message(), "清理正在进行中");
    assert!(PoolTaskError::ScanWithoutProxyDomain.message().ends_with("再执行扫描"));
    assert!(PoolTaskError::CleanWithoutProxyDomain.message().ends_with("再执行清理"));
    assert_eq!(
        PoolTaskError::NoUpstreamTarget.message(),
        "无法从供应商端点解析上游域名/端口，请先配置端点"
    );
}

#[test]
fn pool_keys_and_cleaning_choices() {
    assert_eq!(
        new_healthy_ips(&strings(&["1.1.1.1", "2.2.2.2", "3.3.3.3"]), &strings(&["2.2.2.2"])),
        strings(&["1.1.1.1", "3.3.3.3"])
    );
    let entries = vec![
        ("k1".to_string(), "1.1.1.1".to_string()),
        ("k2".to_string(), "2.2.2.2".to_string()),
    ];
    assert_eq!(unhealthy_key_ids(&entries, &strings(&["2.2.2.2"])), strings(&["k1"]));
    let plan = pool_key_plan("1.1.1.1");
    assert_eq!(plan.name, "CDN IP 1.1.1.1");
    assert_eq!(plan.api_key, "public-1.1.1.1");
    assert_eq!(plan.auth_type, "api_key");
    assert_eq!(plan.api_formats, strings(&["openai:chat"]));
    assert_eq!(
        from_json(&plan.upstream_metadata),
        serde_json::from_str::<serde_json::Value>(r#"{"opencode_exit_ip": "1.1.1.1"}"#).unwrap()
    );
    assert_eq!(plan.note, "opencode ip pool (auto-scanned)");
    let keys = vec![
        key("k1", Some(r#"{"opencode_exit_ip": " 1.1.1.1 "}"#)),
        key("k2", None),
    ];
    let listed: Vec<serde_json::Value> = pool_ip_entries(&keys).iter().map(from_json).collect();
    assert_eq!(
        listed,
        vec![serde_json::from_str::<serde_json::Value>(
            r#"{"key_id": "k1", "ip": "1.1.1.1", "is_active": true}"#
        )
        .unwrap()]
    );
}

#[test]
fn pool_key_entries_pair_each_key_with_its_exit_ip() {
    let keys = vec![
        key("k1", Some(r#"{"opencode_exit_ip": " 1.1.1.1 "}"#)),
        key("k2", None),
        key("k3", Some(r#"{"opencode_exit_ip": "999.1.1.1"}"#)),
        key("k4", Some(r#"{"opencode_exit_ip": "2001:db8::1"}"#)),
    ];
    assert_eq!(
        pool_key_entries(&keys),
        vec![
            ("k1".to_string(), "1.1.1.1".to_string()),
            ("k4".to_string(), "2001:db8::1".to_string()),
        ]
    );
    assert!(pool_key_entries(&[]).is_empty());
}

#[test]
fn maintenance_scan_starts_without_a_cidr_check() {
    let mut map = StatusMap::new();
    assert_eq!(begin_maintenance_scan(&mut map, "p"), Ok(()));
    assert!(map.status_for("p").scanning);
    assert_eq!(begin_maintenance_scan(&mut map, "p"), Err(PoolTaskError::ScanInProgress));
    assert!(!map.status_for("q").scanning);
}

#[test]
fn switching_the_proxy_off_keeps_the_saved_domain() {
    let existing = Some(json(
        r#"{"opencode_scan": {"cidrs": ["10.0.0.0/24"], "proxy_domain": "edge.example", "proxy_enabled": true,
            "cooldown_minutes": 15}}"#,
    ));
    let stored = OpenCodeScanConfig::from_provider_config(&existing);
    let off = OpenCodeScanConfig::merged_with_payload(&existing, &object(r#"{"proxy_enabled": false}"#));
    assert!(!off.proxy_enabled);
    assert_eq!(off.proxy_domain, Some("edge.example".to_string()));
    assert_eq!(off.effective_proxy_domain(), None);
    assert_eq!(off.cidrs, stored.cidrs);
    assert_eq!(off.cooldown_minutes, stored.cooldown_minutes);
    let on = OpenCodeScanConfig::merged_with_payload(&existing, &object(r#"{"proxy_enabled": true}"#));
    assert_eq!(on, stored);
    assert_eq!(on.effective_proxy_domain(), Some("edge.example".to_string()));
}

#[test]
fn scan_summary_counts_added_keys_as_found() {
    let candidates = strings(&["10.0.0.1", "10.0.0.2", "10.0.0.3", "10.0.0.4", "10.0.0.5"]);
    let probe_ok = [true, false, true, true, false];
    let healthy = healthy_ips(&candidates, &probe_ok);
    assert_eq!(healthy, strings(&["10.0.0.1", "10.0.0.3", "10.0.0.4"]));
    let new = new_healthy_ips(&healthy, &strings(&["10.0.0.3"]));
    assert_eq!(new, strings(&["10.0.0.1", "10.0.0.4"]));
    let s = scan_summary(&candidates, &probe_ok, &[true, false]);
    assert_eq!((s.targets, s.found, s.added), (5, 1, 1));
    let none = scan_summary(&candidates, &probe_ok, &[]);
    assert_eq!((none.targets, none.found, none.added), (5, 0, 0));
}

#[test]
fn cidr_text_of_a_network_parses_back() {
    let (network, bits) = parse_cidr("203.0.113.200/26").expect("valid cidr");
    assert_eq!((network, bits), (0xCB00_71C0, 26));
    let text = format!("{}/{}", IpValue::V4(network).to_text(), bits);
    assert_eq!(text, "203.0.113.192/26");
    assert_eq!(parse_cidr(&text), Some((network, bits)));
    assert_eq!(parse_cidr("10.1.2.3/32"), Some((0x0A01_0203, 32)));
    assert_eq!(parse_cidr("10.1.2.3/1"), Some((0, 1)));
}

#[test]
fn scan_end_records_a_missing_time_as_none() {
    let mut map = StatusMap::new();
    let config = OpenCodeScanConfig {
        cidrs: strings(&["10.0.0.0/30"]),
        ..OpenCodeScanConfig::default()
    };
    assert_eq!(begin_pool_scan(&mut map, "p", &config), Ok(()));
    finish_pool_scan(&mut map, "p", Some(ScanSummary { targets: 4, found: 2, added: 2 }), None, 7);
    let status = map.status_for("p");
    assert!(!status.scanning);
    assert_eq!(status.last_scan_at, None);
    assert_eq!(status.last_scan_at_unix_secs, Some(7));
    assert_eq!((status.last_scan_targets, status.last_scan_found, status.last_scan_added), (4, 2, 2));
}

#[test]
fn scan_end_now_clears_scanning_and_stores_the_counts() {
    let mut map = StatusMap::new();
    let config = OpenCodeScanConfig {
        cidrs: strings(&["10.0.0.0/30"]),
        ..OpenCodeScanConfig::default()
    };
    assert_eq!(begin_pool_scan(&mut map, "p", &config), Ok(()));
    finish_pool_scan_now(&mut map, "p", Some(ScanSummary { targets: 3, found: 1, added: 1 }));
    let status = map.status_for("p");
    assert!(!status.scanning);
    assert_eq!(status.last_scan_targets, 3);
    assert_eq!(status.last_scan_added, 1);
    assert!(status.last_scan_at.is_some());
    assert!(status.last_scan_at_unix_secs.is_some());
    assert_eq!(begin_pool_scan(&mut map, "p", &config), Ok(()));
    finish_pool_scan_now(&mut map, "p", None);
    assert!(!map.status_for("p").scanning);
    assert_eq!(map.status_for("p").last_scan_targets, 3);
}

#[test]
fn parsed_network_has_no_host_bits() {
    for (cidr, bits) in [("203.0.113.200/26", 26u32), ("10.1.2.3/8", 8), ("10.1.2.3/32", 32), ("255.255.255.255/1", 1)] {
        let (network, b) = parse_cidr(cidr).expect("valid cidr");
        assert_eq!(b, bits);
        assert_eq!(network & !(u32::MAX << (32 - b)), 0);
    }
    assert_eq!(parse_cidr("255.255.255.255/1"), Some((0x8000_0000, 1)));
}
