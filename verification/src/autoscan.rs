//! When the maintenance worker scans a provider's exit-IP pool on its own.
//!
//! The worker wakes every few minutes and scans each OpenCode provider whose
//! automatic scanning is on, that is not being scanned or cleaned, and
//! whose last scan lies at least the configured interval back.  An interval
//! of 0 hours means manual scans only.
use vstd::prelude::*;

use crate::clock::now_unix_secs;
use crate::front_proxy::is_opencode_provider_type;
use crate::ip_pool::{spec_autoscan_effective, OpenCodeScanConfig, ScanConfigView};
use crate::pool_status::OpenCodeIpPoolStatus;
use crate::text::{chars_of, eq_ignore_ascii_case_chars, trim_str};

verus! {

/// Seconds between the worker's checks.
pub const OPENCODE_IP_POOL_TICK_SECS: u64 = 300;

/// Seconds the worker waits after start-up before its first check.
pub const OPENCODE_IP_POOL_STARTUP_GRACE_SECS: u64 = 90;

/// Whether a provider is due for an automatic scan at `now`: automatic
/// scanning is on, blocks are configured, and it was never scanned or its
/// last scan lies at least the interval back (a last scan in the future
/// counts as just now).
pub open spec fn spec_autoscan_due_at(c: ScanConfigView, last: Option<u64>, now: u64) -> bool {
    if !spec_autoscan_effective(c) || c.cidrs.len() == 0 {
        false
    } else {
        let interval: int = match c.interval_hours {
            Some(h) => h * 3600,
            None => 0,
        };
        match last {
            None => true,
            Some(l) => (if now >= l {
                now - l
            } else {
                0
            }) >= interval,
        }
    }
}

/// Whether a provider is due for an automatic scan at `now`.
pub fn autoscan_due_at(config: &OpenCodeScanConfig, last_scan_at_unix_secs: Option<u64>, now: u64) -> (b:
    bool)
    ensures
        b == spec_autoscan_due_at(config@, last_scan_at_unix_secs, now),
{
    if !config.autoscan_effective() || config.cidrs.len() == 0 {
        return false;
    }
    let hours: u64 = match config.interval_hours {
        Some(h) => h as u64,
        None => 0,
    };
    let interval_secs = hours * 3600;
    match last_scan_at_unix_secs {
        None => true,
        Some(last) => now.saturating_sub(last) >= interval_secs,
    }
}

/// Whether a provider is due for an automatic scan now (by the system
/// clock).
pub fn autoscan_due(config: &OpenCodeScanConfig, last_scan_at_unix_secs: Option<u64>) -> (b: bool)
    ensures
        exists|now: u64| b == spec_autoscan_due_at(config@, last_scan_at_unix_secs, now),
        !spec_autoscan_effective(config@) || config@.cidrs.len() == 0 ==> !b,
        spec_autoscan_effective(config@) && config@.cidrs.len() > 0 && last_scan_at_unix_secs is None
            ==> b,
{
    let now = now_unix_secs();
    autoscan_due_at(config, last_scan_at_unix_secs, now)
}

/// Whether the worker scans a provider at `now`: an OpenCode provider, not
/// being scanned or cleaned, and due.
pub open spec fn spec_provider_autoscan_due(
    provider_type: Seq<char>,
    c: ScanConfigView,
    scanning: bool,
    cleaning: bool,
    last: Option<u64>,
    now: u64,
) -> bool {
    is_opencode_provider_type(provider_type) && !scanning && !cleaning && spec_autoscan_due_at(
        c,
        last,
        now,
    )
}

/// Law: the worker never starts an automatic scan of a provider that is
/// being scanned or cleaned, nor of a provider that is not OpenCode; and a
/// provider due in a round is one whose settings are due at that time.
pub proof fn law_busy_provider_is_not_due(
    provider_type: Seq<char>,
    c: ScanConfigView,
    scanning: bool,
    cleaning: bool,
    last: Option<u64>,
    now: u64,
)
    ensures
        scanning ==> !spec_provider_autoscan_due(provider_type, c, scanning, cleaning, last, now),
        cleaning ==> !spec_provider_autoscan_due(provider_type, c, scanning, cleaning, last, now),
        !is_opencode_provider_type(provider_type) ==> !spec_provider_autoscan_due(
            provider_type,
            c,
            scanning,
            cleaning,
            last,
            now,
        ),
        spec_provider_autoscan_due(provider_type, c, scanning, cleaning, last, now)
            ==> spec_autoscan_due_at(c, last, now),
{
}

/// Whether the worker scans a provider in this round.
pub fn provider_autoscan_due(
    provider_type: &str,
    config: &OpenCodeScanConfig,
    status: &OpenCodeIpPoolStatus,
    now: u64,
) -> (b: bool)
    ensures
        b == spec_provider_autoscan_due(
            provider_type@,
            config@,
            status.scanning,
            status.cleaning,
            status.last_scan_at_unix_secs,
            now,
        ),
{
    let t = trim_str(provider_type);
    let o = chars_of("opencode");
    if !eq_ignore_ascii_case_chars(&t, &o) {
        return false;
    }
    if status.scanning || status.cleaning {
        return false;
    }
    autoscan_due_at(config, status.last_scan_at_unix_secs, now)
}

/// Whether the worker scans a provider now (by the system clock).
pub fn provider_autoscan_due_now(
    provider_type: &str,
    config: &OpenCodeScanConfig,
    status: &OpenCodeIpPoolStatus,
) -> (b: bool)
    ensures
        exists|now: u64|
            b == spec_provider_autoscan_due(
                provider_type@,
                config@,
                status.scanning,
                status.cleaning,
                status.last_scan_at_unix_secs,
                now,
            ),
{
    let now = now_unix_secs();
    provider_autoscan_due(provider_type, config, status, now)
}

/// A provider that is due stays due as time goes on (until it is scanned).
pub proof fn law_autoscan_due_is_monotone(c: ScanConfigView, last: Option<u64>, now1: u64, now2: u64)
    requires
        spec_autoscan_due_at(c, last, now1),
        now1 <= now2,
    ensures
        spec_autoscan_due_at(c, last, now2),
{
}

/// A last scan stamped in the future (the clock went back) does not make
/// the provider due: it counts as scanned just now.
pub proof fn law_future_scan_is_not_due(c: ScanConfigView, last: u64, now: u64)
    requires
        last > now,
    ensures
        !spec_autoscan_due_at(c, Some(last), now),
{
}

} // verus!
