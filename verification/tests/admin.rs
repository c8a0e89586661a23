use aether_opencode::admin::{
    admin_action_for, check_scan_config_update, clean_response_body, detail_body,
    endpoint_proxy_rewrite, endpoint_restore_rewrite, is_opencode_provider,
    opencode_ip_pool_provider_id,
    provider_config_with_scan, provider_not_found_detail, restore_response_body,
    save_response_body, scan_response_body, status_response_body, AdminAction, HostRewrite,
};
use aether_opencode::ip_pool::OpenCodeScanConfig;
use aether_opencode::json::{JsonNumber, JsonValue};
use aether_opencode::pool_status::{CleanSummary, OpenCodeIpPoolStatus, ScanSummary};
use aether_opencode::routes::{classify_admin_opencode_ip_pool_routes, HttpMethod};

fn to_json(v: &serde_json::Value) -> JsonValue {
    match v {
        serde_json::Value::Null => JsonValue::Null,
        serde_json::Value::Bool(b) => JsonValue::Bool(*b),
        serde_json::Value::Number(n) => match (n.as_u64(), n.as_i64()) {
            (Some(u), _) => JsonValue::Number(JsonNumber::PosInt(u)),
            (None, Some(i)) => JsonValue::Number(JsonNumber::NegInt(i)),
            _ => JsonValue::Number(JsonNumber::FloatBits(n.as_f64().unwrap_or(0.0).to_bits())),
        },
        serde_json::Value::String(s) => JsonValue::Str(s.clone()),
        serde_json::Value::Array(items) => JsonValue::Array(items.iter().map(to_json).collect()),
        serde_json::Value::Object(map) => JsonValue::Object(
            map.iter().map(|(k, v)| (k.clone(), to_json(v))).collect(),
        ),
    }
}

fn from_json(v: &JsonValue) -> serde_json::Value {
    match v {
        JsonValue::Null => serde_json::Value::Null,
        JsonValue::Bool(b) => serde_json::Value::Bool(*b),
        JsonValue::Number(JsonNumber::PosInt(u)) => serde_json::Value::from(*u),
        JsonValue::Number(JsonNumber::NegInt(i)) => serde_json::Value::from(*i),
        JsonValue::Number(JsonNumber::FloatBits(b)) => serde_json::Value::from(f64::from_bits(*b)),
        JsonValue::Str(s) => serde_json::Value::String(s.clone()),
        JsonValue::Array(items) => serde_json::Value::Array(items.iter().map(from_json).collect()),
        JsonValue::Object(entries) => serde_json::Value::Object(
            entries.iter().map(|(k, v)| (k.clone(), from_json(v))).collect(),
        ),
    }
}

fn json(text: &str) -> JsonValue {
    to_json(&serde_json::from_str::<serde_json::Value>(text).expect("valid json"))
}

fn value(text: &str) -> serde_json::Value {
    serde_json::from_str(text).expect("valid json")
}

fn object(text: &str) -> Vec<(String, JsonValue)> {
    match json(text) {
        JsonValue::Object(entries) => entries,
        _ => panic!("object"),
    }
}

fn route_kind_of(method: HttpMethod, path: &str) -> Option<String> {
    classify_admin_opencode_ip_pool_routes(method, path).map(|route| route.route_kind.to_string())
}

#[test]
fn classifies_all_opencode_ip_pool_routes() {
    let id = "8fa10a07-1d41-4f9e-ab32-68c9760caedd";
    let base = format!("/api/admin/opencode-ip-pool/providers/{id}");
    assert_eq!(
        route_kind_of(HttpMethod::Get, &base).as_deref(),
        Some("get_opencode_ip_pool_status")
    );
    assert_eq!(
        route_kind_of(HttpMethod::Put, &format!("{base}/config")).as_deref(),
        Some("save_opencode_ip_pool_config")
    );
    assert_eq!(
        route_kind_of(HttpMethod::Post, &format!("{base}/scan")).as_deref(),
        Some("run_opencode_ip_pool_scan")
    );
    assert_eq!(
        route_kind_of(HttpMethod::Post, &format!("{base}/clean")).as_deref(),
        Some("run_opencode_ip_pool_clean")
    );
    assert_eq!(
        route_kind_of(HttpMethod::Post, &format!("{base}/restore-original")).as_deref(),
        Some("restore_opencode_original_base_url")
    );
}

#[test]
fn ignores_other_admin_paths_and_methods() {
    assert!(route_kind_of(HttpMethod::Get, "/api/admin/providers").is_none());
    assert!(route_kind_of(
        HttpMethod::Delete,
        "/api/admin/opencode-ip-pool/providers/8fa10a07-1d41-4f9e-ab32-68c9760caedd"
    )
    .is_none());
}

#[test]
fn classified_route_carries_family_and_permission() {
    let route = classify_admin_opencode_ip_pool_routes(
        HttpMethod::Post,
        "/api/admin/opencode-ip-pool/providers/x/scan",
    )
    .expect("route");
    assert_eq!(route.route_class, "admin_proxy");
    assert_eq!(route.route_family, "opencode_ip_pool_manage");
    assert_eq!(route.permission, "admin:opencode_ip_pool");
    assert!(!route.is_public);
    assert!(route_kind_of(HttpMethod::Put, "/api/admin/opencode-ip-pool/providers/x/scan").is_none());
}

#[test]
fn provider_id_parsing_accepts_action_suffix() {
    let id = "8fa10a07-1d41-4f9e-ab32-68c9760caedd";
    assert_eq!(
        opencode_ip_pool_provider_id(&format!(
            "/api/admin/opencode-ip-pool/providers/{id}/scan"
        )),
        Some(id.to_string())
    );
    assert_eq!(
        opencode_ip_pool_provider_id(&format!("/api/admin/opencode-ip-pool/providers/{id}")),
        Some(id.to_string())
    );
    assert_eq!(opencode_ip_pool_provider_id("/api/admin/providers"), None);
    assert_eq!(
        opencode_ip_pool_provider_id("/api/admin/opencode-ip-pool/providers/short"),
        None
    );
}

#[test]
fn provider_id_counts_bytes_and_skips_empty_segments() {
    let id = "8fa10a07-1d41-4f9e-ab32-68c9760caedd";
    assert_eq!(
        opencode_ip_pool_provider_id(&format!("/api/admin/opencode-ip-pool/providers//{id}//")),
        Some(id.to_string())
    );
    // 35 characters, one of them two bytes long: 36 bytes.
    let wide = "é8fa10a07-1d41-4f9e-ab32-68c9760cae";
    assert_eq!(wide.len(), 36);
    assert_eq!(
        opencode_ip_pool_provider_id(&format!("/api/admin/opencode-ip-pool/providers/{wide}")),
        Some(wide.to_string())
    );
    assert_eq!(opencode_ip_pool_provider_id("/api/admin/opencode-ip-pool/providers/"), None);
}

#[test]
fn admin_actions_by_route_kind() {
    assert_eq!(admin_action_for("get_opencode_ip_pool_status"), Some(AdminAction::Status));
    assert_eq!(admin_action_for("save_opencode_ip_pool_config"), Some(AdminAction::SaveConfig));
    assert_eq!(admin_action_for("run_opencode_ip_pool_scan"), Some(AdminAction::Scan));
    assert_eq!(admin_action_for("run_opencode_ip_pool_clean"), Some(AdminAction::Clean));
    assert_eq!(
        admin_action_for("restore_opencode_original_base_url"),
        Some(AdminAction::RestoreOriginal)
    );
    assert_eq!(admin_action_for(""), None);
}

#[test]
fn config_update_is_checked() {
    let existing = Some(json(r#"{"opencode_scan": {"cidrs": ["10.0.0.0/24"]}, "other": 1}"#));
    let bad = check_scan_config_update(&existing, &object(r#"{"cidrs": ["10.0.0.0/24", "10.0.0.0/99"]}"#));
    assert_eq!(bad.err(), Some("无效的 CIDR: 10.0.0.0/99".to_string()));
    let blank = check_scan_config_update(&existing, &object(r#"{"proxy_domain": "   "}"#));
    assert_eq!(blank.err(), Some("前置代理域名不能为空".to_string()));
    let slash = check_scan_config_update(&existing, &object(r#"{"proxy_domain": "a/b"}"#));
    assert_eq!(slash.err(), Some("前置代理域名格式无效".to_string()));
    let spaced = check_scan_config_update(&existing, &object(r#"{"proxy_domain": "a b"}"#));
    assert_eq!(spaced.err(), Some("前置代理域名格式无效".to_string()));
    let ok = check_scan_config_update(&existing, &object(r#"{"proxy_domain": " edge.example "}"#))
        .expect("valid update");
    assert_eq!(ok.proxy_domain, Some("edge.example".to_string()));
    assert_eq!(ok.config.proxy_domain, Some("edge.example".to_string()));
    assert_eq!(ok.config.cidrs, vec!["10.0.0.0/24".to_string()]);
    let plain = check_scan_config_update(&existing, &object(r#"{"auto_enabled": true}"#)).expect("valid");
    assert_eq!(plain.proxy_domain, None);
    assert!(plain.config.auto_enabled);

    let stored = provider_config_with_scan(&existing, &ok.config);
    let stored = from_json(&stored);
    assert_eq!(stored["other"], value("1"));
    assert_eq!(stored["opencode_scan"]["proxy_domain"], value(r#""edge.example""#));
    let fresh = provider_config_with_scan(&None, &OpenCodeScanConfig::default());
    assert_eq!(from_json(&fresh)["opencode_scan"]["concurrency"], value("32"));
}

#[test]
fn endpoint_hosts_are_moved() {
    match endpoint_proxy_rewrite(" https://opencode.ai/zen/v1 ", "edge.example") {
        HostRewrite::Rewritten(url) => assert_eq!(url, "https://edge.example/zen/v1"),
        other => panic!("unexpected {other:?}"),
    }
    assert!(matches!(
        endpoint_proxy_rewrite("https://EDGE.example/zen", "edge.example"),
        HostRewrite::Unchanged
    ));
    assert!(matches!(endpoint_proxy_rewrite("not a url", "edge.example"), HostRewrite::Unchanged));
    assert!(matches!(
        endpoint_proxy_rewrite("data:text/plain,x", "edge.example"),
        HostRewrite::Unchanged
    ));
    match endpoint_restore_rewrite("https://edge.example:8443/zen/v1") {
        HostRewrite::Rewritten(url) => assert_eq!(url, "https://opencode.ai:8443/zen/v1"),
        other => panic!("unexpected {other:?}"),
    }
    assert!(matches!(endpoint_restore_rewrite("https://opencode.ai"), HostRewrite::Unchanged));
    assert!(matches!(endpoint_restore_rewrite("data:text/plain,x"), HostRewrite::Refused));
}

#[test]
fn response_bodies() {
    assert_eq!(from_json(&detail_body("x")), value(r#"{"detail": "x"}"#));
    assert_eq!(provider_not_found_detail("p1"), "Provider p1 不存在");
    assert_eq!(
        from_json(&scan_response_body("p", ScanSummary { targets: 3, found: 2, added: 2 })),
        value(r#"{"provider_id": "p", "scanning": false, "targets": 3, "found": 2, "added": 2}"#)
    );
    assert_eq!(
        from_json(&clean_response_body("p", CleanSummary { checked: 4, removed: 1 })),
        value(r#"{"provider_id": "p", "cleaning": false, "checked": 4, "removed": 1}"#)
    );
    assert_eq!(
        from_json(&save_response_body("p", 2)),
        value(r#"{"provider_id": "p", "saved": true, "proxy_domain_changed": 2}"#)
    );
    assert_eq!(
        from_json(&restore_response_body("p", 1, &vec!["e1".to_string()])),
        value(r#"{"provider_id": "p", "changed": 1, "errors": ["e1"]}"#)
    );
    let mut status = OpenCodeIpPoolStatus::default();
    status.last_scan_at = Some("t".to_string());
    let config = OpenCodeScanConfig {
        cidrs: vec!["10.0.0.0/30".to_string()],
        auto_enabled: true,
        interval_hours: Some(6),
        ..OpenCodeScanConfig::default()
    };
    let body = status_response_body(
        "p",
        &status,
        &config,
        8,
        &Some("edge.example".to_string()),
        vec![json(r#"{"key_id": "k", "ip": "1.1.1.1", "is_active": true}"#)],
    );
    assert_eq!(
        from_json(&body),
        value(
            r#"{"provider_id": "p", "scanning": false, "cleaning": false, "last_scan_at": "t",
                "last_scan_targets": 0, "last_scan_found": 0, "last_scan_added": 0,
                "last_clean_at": null, "last_clean_checked": 0, "last_clean_removed": 0,
                "auto_enabled": true, "autoscan_effective": true, "rotation_enabled": false,
                "rotation_effective": false, "cooldown_minutes": 60, "rotation_cursor": 8,
                "interval_hours": 6, "concurrency": 32, "cidrs": ["10.0.0.0/30"],
                "proxy_domain": "edge.example", "saved_proxy_domain": null,
                "original_domain": "opencode.ai",
                "pool_ips": [{"key_id": "k", "ip": "1.1.1.1", "is_active": true}]}"#
        )
    );
}

#[test]
fn only_opencode_providers_are_served() {
    assert!(is_opencode_provider("opencode"));
    assert!(is_opencode_provider("  OpenCode "));
    assert!(!is_opencode_provider("openai"));
    assert!(!is_opencode_provider(""));
}
