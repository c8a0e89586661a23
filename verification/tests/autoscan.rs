use std::time::{SystemTime, UNIX_EPOCH};

use aether_opencode::autoscan::{autoscan_due, autoscan_due_at, provider_autoscan_due};
use aether_opencode::ip_pool::OpenCodeScanConfig;
use aether_opencode::pool_status::OpenCodeIpPoolStatus;

fn now_unix_secs() -> u64 {
    SystemTime::now()
        .duration_since(UNIX_EPOCH)
        .map(|duration| duration.as_secs())
        .unwrap_or_default()
}

fn config(auto_enabled: bool, interval_hours: u32, cidrs: &[&str]) -> OpenCodeScanConfig {
    OpenCodeScanConfig {
        cidrs: cidrs.iter().map(|cidr| cidr.to_string()).collect(),
        auto_enabled,
        interval_hours: Some(interval_hours),
        concurrency: Some(8),
        ..OpenCodeScanConfig::default()
    }
}

#[test]
fn autoscan_requires_switch_and_interval_and_cidrs() {
    assert!(autoscan_due(&config(true, 1, &["203.0.113.0/24"]), None));
    assert!(!autoscan_due(&config(false, 1, &["203.0.113.0/24"]), None));
    assert!(!autoscan_due(&config(true, 0, &["203.0.113.0/24"]), None));
    assert!(!autoscan_due(&config(true, 6, &[]), None));
}

#[test]
fn autoscan_respects_elapsed_interval() {
    let now = now_unix_secs();
    assert!(!autoscan_due(
        &config(true, 6, &["203.0.113.0/24"]),
        Some(now - 3600)
    ));
    assert!(autoscan_due(
        &config(true, 6, &["203.0.113.0/24"]),
        Some(now - 7 * 3600)
    ));
}

#[test]
fn autoscan_does_not_fire_before_interval_when_clock_skews() {
    let now = now_unix_secs();
    assert!(!autoscan_due(
        &config(true, 6, &["203.0.113.0/24"]),
        Some(now + 3600)
    ));
}

#[test]
fn autoscan_due_at_is_exact_at_the_boundary() {
    let c = config(true, 2, &["203.0.113.0/24"]);
    assert!(autoscan_due_at(&c, Some(1_000), 1_000 + 7_200));
    assert!(!autoscan_due_at(&c, Some(1_000), 1_000 + 7_199));
    assert!(!autoscan_due_at(&c, Some(5_000), 1_000));
    assert!(autoscan_due_at(&c, None, 0));
    let huge = config(true, u32::MAX, &["203.0.113.0/24"]);
    assert!(!autoscan_due_at(&huge, Some(0), 1_000_000));
    assert!(autoscan_due_at(&huge, Some(0), u64::MAX));
}

#[test]
fn worker_skips_busy_and_other_providers() {
    let c = config(true, 1, &["203.0.113.0/24"]);
    let idle = OpenCodeIpPoolStatus::default();
    assert!(provider_autoscan_due(" OpenCode ", &c, &idle, 10));
    assert!(!provider_autoscan_due("openai", &c, &idle, 10));
    let mut busy = OpenCodeIpPoolStatus::default();
    busy.cleaning = true;
    assert!(!provider_autoscan_due("opencode", &c, &busy, 10));
    let mut recent = OpenCodeIpPoolStatus::default();
    recent.last_scan_at_unix_secs = Some(5);
    assert!(!provider_autoscan_due("opencode", &c, &recent, 10));
    assert!(provider_autoscan_due("opencode", &c, &recent, 3_605));
}
