//! The maintenance worker's variant of the exit-IP pool scanner, whose pool
//! keys hold the exit IP literal as their API key.
//!
//! Its settings are the CIDR blocks (one default block when none is
//! configured), automatic scanning, the scan interval and the probe
//! concurrency.
use vstd::prelude::*;

use crate::candidates::{cidr_candidate_ips, is_first_candidates, string_views};
use crate::config_json::{
    field, field_bool, field_bool_of, field_u64, field_u64_of, scan_section, scan_section_of,
    spec_string_list, string_list,
};
use crate::ip::{parse_ip_addr_chars, spec_parse_ip_addr};
use crate::ip_pool::{
    opt_data, opt_string_view, strings_data, strings_value, uint_data,
    OPENCODE_SCAN_DEFAULT_CONCURRENCY, OPENCODE_SCAN_MAX_CANDIDATES, OPENCODE_SCAN_MAX_CONCURRENCY,
};
use crate::json::{entries_data, get_entry, lemma_object_data, JsonData, JsonNumber, JsonValue};
use crate::text::{chars_of, owned, push_chars, string_from_chars, trim, trim_str};

verus! {

/// The block scanned when none is configured.
pub const OPENCODE_SCAN_DEFAULT_CIDR: &'static str = "1.56.100.0/24";

/// Settings of the maintenance scanner, stored in the provider's
/// `config.opencode_scan`.
#[derive(Clone, Debug, PartialEq, Eq, Hash)]
pub struct OpenCodeScanConfig {
    /// CIDR blocks to probe.
    pub cidrs: Vec<String>,
    /// Whether the maintenance worker scans on its own.
    pub auto_enabled: bool,
    /// Hours between automatic scans (0: never, even when enabled).
    pub interval_hours: Option<u32>,
    /// Probes run at once.
    pub concurrency: Option<usize>,
}

/// The mathematical view of the maintenance scanner's settings.
pub struct MaintenanceConfigView {
    pub cidrs: Seq<Seq<char>>,
    pub auto_enabled: bool,
    pub interval_hours: Option<u32>,
    pub concurrency: Option<usize>,
}

impl View for OpenCodeScanConfig {
    type V = MaintenanceConfigView;

    open spec fn view(&self) -> MaintenanceConfigView {
        MaintenanceConfigView {
            cidrs: string_views(self.cidrs@),
            auto_enabled: self.auto_enabled,
            interval_hours: self.interval_hours,
            concurrency: self.concurrency,
        }
    }
}

impl Default for OpenCodeScanConfig {
    fn default() -> (r: Self)
        ensures
            r@ == (MaintenanceConfigView {
                cidrs: Seq::empty(),
                auto_enabled: false,
                interval_hours: None,
                concurrency: None,
            }),
    {
        let r = OpenCodeScanConfig {
            cidrs: Vec::new(),
            auto_enabled: false,
            interval_hours: None,
            concurrency: None,
        };
        assert(string_views(r.cidrs@) =~= Seq::<Seq<char>>::empty());
        r
    }
}

/// The settings read from a configuration object (its `opencode_scan`
/// section, or the object itself); an empty block list becomes the default
/// block.
pub open spec fn spec_maintenance_config_from_object(object: Seq<(Seq<char>, JsonData)>) -> MaintenanceConfigView {
    let s = scan_section(object);
    let cidrs = spec_string_list(field(s, "cidrs"@));
    MaintenanceConfigView {
        cidrs: if cidrs.len() == 0 {
            seq![OPENCODE_SCAN_DEFAULT_CIDR@]
        } else {
            cidrs
        },
        auto_enabled: match field_bool(s, "auto_enabled"@) {
            Some(b) => b,
            None => false,
        },
        interval_hours: match field_u64(s, "interval_hours"@) {
            Some(n) => Some(n as u32),
            None => None,
        },
        concurrency: match field_u64(s, "concurrency"@) {
            Some(n) => Some(n as usize),
            None => None,
        },
    }
}

/// The settings of a provider configuration: read from it when it is an
/// object, the empty settings otherwise.
pub open spec fn spec_maintenance_config_from(config: Option<JsonData>) -> MaintenanceConfigView {
    match config {
        Some(JsonData::Object(e)) => spec_maintenance_config_from_object(e),
        _ => MaintenanceConfigView {
            cidrs: Seq::empty(),
            auto_enabled: false,
            interval_hours: None,
            concurrency: None,
        },
    }
}

/// The configuration object written back.
pub open spec fn spec_maintenance_config_value(c: MaintenanceConfigView) -> JsonData {
    JsonData::Object(
        seq![
            ("cidrs"@, strings_data(c.cidrs)),
            ("auto_enabled"@, JsonData::Bool(c.auto_enabled)),
            (
                "interval_hours"@,
                uint_data(
                    match c.interval_hours {
                        Some(h) => h as nat,
                        None => 0,
                    },
                ),
            ),
            (
                "concurrency"@,
                uint_data(
                    match c.concurrency {
                        Some(n) => n as nat,
                        None => OPENCODE_SCAN_DEFAULT_CONCURRENCY as nat,
                    },
                ),
            ),
        ],
    )
}

impl OpenCodeScanConfig {
    /// Reads the settings from a provider configuration.
    pub fn from_provider_config(config: &Option<JsonValue>) -> (r: Self)
        ensures
            r@ == spec_maintenance_config_from(opt_data(*config)),
    {
        match config {
            Some(JsonValue::Object(object)) => {
                proof {
                    lemma_object_data(*object);
                }
                Self::from_provider_config_object(object)
            },
            _ => Self::default(),
        }
    }

    /// Reads the settings from a configuration object: its `opencode_scan`
    /// section when there is one, else the object itself.
    pub fn from_provider_config_object(object: &Vec<(String, JsonValue)>) -> (r: Self)
        ensures
            r@ == spec_maintenance_config_from_object(entries_data(object@)),
    {
        let section = scan_section_of(object);
        let mut cidrs = string_list(get_entry(section, "cidrs"));
        if cidrs.len() == 0 {
            cidrs.push(owned(OPENCODE_SCAN_DEFAULT_CIDR));
            assert(string_views(cidrs@) =~= seq![OPENCODE_SCAN_DEFAULT_CIDR@]);
        }
        let auto_enabled = match field_bool_of(section, "auto_enabled") {
            Some(b) => b,
            None => false,
        };
        let interval_hours = match field_u64_of(section, "interval_hours") {
            Some(n) => Some(n as u32),
            None => None,
        };
        let concurrency = match field_u64_of(section, "concurrency") {
            Some(n) => Some(n as usize),
            None => None,
        };
        OpenCodeScanConfig { cidrs, auto_enabled, interval_hours, concurrency }
    }

    /// The bare configuration object (without the outer `opencode_scan`
    /// key).
    pub fn to_provider_config_value(&self) -> (v: JsonValue)
        ensures
            v.data() == spec_maintenance_config_value(self@),
    {
        let mut e: Vec<(String, JsonValue)> = Vec::new();
        e.push((owned("cidrs"), strings_value(&self.cidrs)));
        e.push((owned("auto_enabled"), JsonValue::Bool(self.auto_enabled)));
        let interval: u64 = match self.interval_hours {
            Some(h) => h as u64,
            None => 0,
        };
        e.push((owned("interval_hours"), JsonValue::Number(JsonNumber::PosInt(interval))));
        let concurrency: u64 = match self.concurrency {
            Some(n) => n as u64,
            None => OPENCODE_SCAN_DEFAULT_CONCURRENCY as u64,
        };
        e.push((owned("concurrency"), JsonValue::Number(JsonNumber::PosInt(concurrency))));
        proof {
            lemma_object_data(e);
            assert(entries_data(e@) =~= spec_maintenance_config_value(self@)->Object_0);
        }
        JsonValue::Object(e)
    }

    /// Hours between automatic scans (0 when not set).
    pub fn effective_interval_hours(&self) -> (h: u32)
        ensures
            h == match self.interval_hours {
                Some(h) => h,
                None => 0,
            },
    {
        match self.interval_hours {
            Some(h) => h,
            None => 0,
        }
    }

    /// Probes run at once: the configured number (default 32), clamped to
    /// `1..=128`.
    pub fn effective_concurrency(&self) -> (n: usize)
        ensures
            n == (match self.concurrency {
                Some(c) => if c < 1 {
                    1
                } else if c > OPENCODE_SCAN_MAX_CONCURRENCY {
                    OPENCODE_SCAN_MAX_CONCURRENCY
                } else {
                    c
                },
                None => OPENCODE_SCAN_DEFAULT_CONCURRENCY,
            }),
    {
        let n = match self.concurrency {
            Some(n) => n,
            None => OPENCODE_SCAN_DEFAULT_CONCURRENCY,
        };
        if n < 1 {
            1
        } else if n > OPENCODE_SCAN_MAX_CONCURRENCY {
            OPENCODE_SCAN_MAX_CONCURRENCY
        } else {
            n
        }
    }

    /// The candidate IPs of the configured blocks that are not known yet:
    /// the smallest 4096 in `String` order, each once, without the first
    /// and last address of a block and without any address whose last
    /// octet is 0 or 255 (`x.x.x.0`, `x.x.x.255`).
    pub fn candidate_ips(&self, known_ips: &[String]) -> (r: Vec<String>)
        ensures
            is_first_candidates(
                string_views(r@),
                self@.cidrs,
                string_views(known_ips@),
                OPENCODE_SCAN_MAX_CANDIDATES as nat,
                true,
            ),
    {
        cidr_candidate_ips(&self.cidrs, known_ips, OPENCODE_SCAN_MAX_CANDIDATES, true)
    }
}

/// The exit IP of a pool key from its decrypted API key: the key trimmed,
/// when it is an IP address.
pub open spec fn spec_key_ip(decrypted: Option<Seq<char>>) -> Option<Seq<char>> {
    match decrypted {
        Some(k) => if spec_parse_ip_addr(trim(k)) is Some {
            Some(trim(k))
        } else {
            None
        },
        None => None,
    }
}

/// The exit IP of a pool key, read from its decrypted API key (`None` when
/// it could not be decrypted).
/// Probes run at once by the maintenance scanner: the configured number
/// (default 32), clamped to `1..=128`.
pub open spec fn spec_maintenance_concurrency(c: MaintenanceConfigView) -> usize {
    match c.concurrency {
        Some(n) => if n < 1 {
            1
        } else if n > OPENCODE_SCAN_MAX_CONCURRENCY {
            OPENCODE_SCAN_MAX_CONCURRENCY
        } else {
            n
        },
        None => OPENCODE_SCAN_DEFAULT_CONCURRENCY,
    }
}

/// The probes of a maintenance clean pass run at once: the scan's number,
/// at most 32.
pub fn maintenance_clean_concurrency(config: &OpenCodeScanConfig) -> (n: usize)
    ensures
        n == (if spec_maintenance_concurrency(config@) < 32 {
            spec_maintenance_concurrency(config@)
        } else {
            32
        }),
{
    let n = config.effective_concurrency();
    if n < 32 {
        n
    } else {
        32
    }
}

pub fn opencode_key_ip(decrypted_api_key: Option<&str>) -> (r: Option<String>)
    ensures
        opt_string_view(r) == spec_key_ip(
            match decrypted_api_key {
                Some(k) => Some(k@),
                None => None,
            },
        ),
{
    let k = match decrypted_api_key {
        Some(k) => k,
        None => return None,
    };
    let t = trim_str(k);
    if parse_ip_addr_chars(&t).is_some() {
        Some(string_from_chars(&t))
    } else {
        None
    }
}

/// What a maintenance pool key for a healthy IP is made of: the API key is
/// the IP literal.
#[derive(Debug)]
pub struct MaintenancePoolKeyPlan {
    /// `CDN IP <ip>`.
    pub name: String,
    pub api_key: String,
    pub auth_type: String,
    pub api_formats: Vec<String>,
    pub note: String,
}

/// The maintenance pool key for a healthy exit IP.
pub fn maintenance_pool_key_plan(ip: &str) -> (p: MaintenancePoolKeyPlan)
    ensures
        p.name@ == "CDN IP "@ + ip@,
        p.api_key@ == ip@,
        p.auth_type@ == "bearer"@,
        string_views(p.api_formats@) == seq!["openai:chat"@, "openai:responses"@],
        p.note@ == "opencode ip pool (auto-scanned)"@,
{
    let ipc = chars_of(ip);
    let mut name = owned("CDN IP ");
    push_chars(&mut name, &ipc);
    let mut api_formats: Vec<String> = Vec::new();
    api_formats.push(owned("openai:chat"));
    api_formats.push(owned("openai:responses"));
    assert(string_views(api_formats@) =~= seq!["openai:chat"@, "openai:responses"@]);
    MaintenancePoolKeyPlan {
        name,
        api_key: owned(ip),
        auth_type: owned("bearer"),
        api_formats,
        note: owned("opencode ip pool (auto-scanned)"),
    }
}

/// Law: the settings written back by `to_provider_config_value` and read by
/// `from_provider_config` are the same settings, when the block list is a
/// non-empty list of trimmed texts and the interval and concurrency are set.
pub proof fn law_maintenance_config_round_trip(c: MaintenanceConfigView)
    requires
        c.cidrs.len() > 0,
        crate::ip_pool::all_trimmed(c.cidrs),
        c.interval_hours is Some,
        c.concurrency is Some,
    ensures
        spec_maintenance_config_from(Some(spec_maintenance_config_value(c))) == c,
{
    reveal_strlit("opencode_scan");
    reveal_strlit("cidrs");
    reveal_strlit("auto_enabled");
    reveal_strlit("interval_hours");
    reveal_strlit("concurrency");
    let e = spec_maintenance_config_value(c)->Object_0;
    assert("cidrs"@.len() != "opencode_scan"@.len());
    assert("auto_enabled"@.len() != "opencode_scan"@.len());
    assert("interval_hours"@.len() != "opencode_scan"@.len());
    assert("concurrency"@.len() != "opencode_scan"@.len());
    assert("auto_enabled"@.len() != "cidrs"@.len());
    assert("interval_hours"@.len() != "cidrs"@.len());
    assert("interval_hours"@.len() != "auto_enabled"@.len());
    assert("concurrency"@.len() != "cidrs"@.len());
    assert("concurrency"@.len() != "auto_enabled"@.len());
    assert("concurrency"@.len() != "interval_hours"@.len());
    crate::json::lemma_key_index(e, "opencode_scan"@);
    crate::json::lemma_key_index_is(e, "cidrs"@, 0);
    crate::json::lemma_key_index_is(e, "auto_enabled"@, 1);
    crate::json::lemma_key_index_is(e, "interval_hours"@, 2);
    crate::json::lemma_key_index_is(e, "concurrency"@, 3);
    assert(scan_section(e) == e);
    crate::ip_pool::lemma_string_items_of_strings(c.cidrs);
    let r = spec_maintenance_config_from(Some(spec_maintenance_config_value(c)));
    assert(r.cidrs =~= c.cidrs);
}

/// The probe request of the maintenance scanner.
pub fn maintenance_probe_request(domain: &str) -> (text: String)
    ensures
        text@ == "GET /zen/v1/models HTTP/1.1\r\nHost: "@ + domain@
            + "\r\nUser-Agent: aether-ip-scanner\r\nConnection: close\r\n\r\n"@,
{
    let mut text = owned("GET /zen/v1/models HTTP/1.1\r\nHost: ");
    push_chars(&mut text, &chars_of(domain));
    push_chars(&mut text, &chars_of("\r\nUser-Agent: aether-ip-scanner\r\nConnection: close\r\n\r\n"));
    text
}

} // verus!
