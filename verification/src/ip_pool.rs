//! The OpenCode front-proxy exit-IP pool: scan configuration, candidate
//! enumeration, pool keys and the scanner's status.
//!
//! The exit IP of a pool key lives in its `upstream_metadata`
//! (`opencode_exit_ip`); the key's API key is only a unique placeholder
//! (`public-<ip>`), since the free tier always authenticates with
//! `Bearer public`.
use vstd::prelude::*;

use crate::candidates::{cidr_candidate_ips, is_first_candidates, string_views};
use crate::config_json::{
    field, field_bool, field_bool_of, field_text, field_text_of, field_u64, field_u64_of,
    scan_section, scan_section_of, spec_string_list, string_list,
};
use crate::front_proxy::OPENCODE_ORIGINAL_DOMAIN;
use crate::ip::{parse_ip_addr_chars, spec_parse_ip_addr};
use crate::json::{
    as_str, entries_data, get, get_entry, items_data, json_as_str, json_get, key_index,
    lemma_array_data, lemma_object_data, JsonData, JsonNumber, JsonValue,
};
use crate::rotation::DEFAULT_COOLDOWN_MINUTES;
use crate::text::{
    chars_of, eq_ignore_ascii_case, eq_ignore_ascii_case_chars, owned, string_from_chars, trim,
    trim_str,
};

verus! {

/// Seconds allowed for one probe (TCP, TLS and the first byte).
pub const OPENCODE_PROBE_TIMEOUT_SECS: u64 = 4;

/// Probes run at once when the configuration names no number.
pub const OPENCODE_SCAN_DEFAULT_CONCURRENCY: usize = 32;

/// Upper bound of concurrent probes.
pub const OPENCODE_SCAN_MAX_CONCURRENCY: usize = 128;

/// Upper bound of candidate IPs in one scan.
pub const OPENCODE_SCAN_MAX_CANDIDATES: usize = 4096;

/// Authentication type of a pool key (the upstream always gets
/// `Bearer public`, whatever it is).
pub const OPENCODE_POOL_KEY_AUTH_TYPE: &'static str = "api_key";

/// Prefix of a pool key's placeholder API key, which must be unique per IP.
pub const OPENCODE_POOL_KEY_API_KEY_PREFIX: &'static str = "public-";

/// The `upstream_metadata` field that holds a pool key's exit IP.
pub const OPENCODE_EXIT_IP_METADATA_KEY: &'static str = "opencode_exit_ip";

/// Scan and rotation settings, stored in the provider's
/// `config.opencode_scan`.
#[derive(Clone, Debug, PartialEq, Eq)]
pub struct OpenCodeScanConfig {
    /// CIDR blocks to scan; empty when none is configured.
    pub cidrs: Vec<String>,
    /// Whether the maintenance worker may scan on its own.
    pub auto_enabled: bool,
    /// Hours between automatic scans; `0` means never, even when enabled.
    pub interval_hours: Option<u32>,
    /// Probes run at once in a scan.
    pub concurrency: Option<usize>,
    /// Whether least-in-flight plus cursor rotation picks the key.
    pub rotation_enabled: bool,
    /// Minutes a key cools down after its quota ran out.
    pub cooldown_minutes: Option<u32>,
    /// The front-proxy domain the user entered.  It is kept while the proxy
    /// is switched off, so switching it on again restores it.
    pub proxy_domain: Option<String>,
    /// Whether requests go to `proxy_domain` (on) or to the official
    /// domain (off).  The endpoint's base URL is not rewritten for it.
    pub proxy_enabled: bool,
    /// The provider-level pool of exit IPs; each request pins one of them.
    pub exit_pool: Vec<String>,
}

/// The mathematical view of a scan configuration.
pub struct ScanConfigView {
    pub cidrs: Seq<Seq<char>>,
    pub auto_enabled: bool,
    pub interval_hours: Option<u32>,
    pub concurrency: Option<usize>,
    pub rotation_enabled: bool,
    pub cooldown_minutes: Option<u32>,
    pub proxy_domain: Option<Seq<char>>,
    pub proxy_enabled: bool,
    pub exit_pool: Seq<Seq<char>>,
}

pub open spec fn opt_string_view(s: Option<String>) -> Option<Seq<char>> {
    match s {
        Some(x) => Some(x@),
        None => None,
    }
}

impl View for OpenCodeScanConfig {
    type V = ScanConfigView;

    open spec fn view(&self) -> ScanConfigView {
        ScanConfigView {
            cidrs: string_views(self.cidrs@),
            auto_enabled: self.auto_enabled,
            interval_hours: self.interval_hours,
            concurrency: self.concurrency,
            rotation_enabled: self.rotation_enabled,
            cooldown_minutes: self.cooldown_minutes,
            proxy_domain: opt_string_view(self.proxy_domain),
            proxy_enabled: self.proxy_enabled,
            exit_pool: string_views(self.exit_pool@),
        }
    }
}

/// The configuration when nothing is configured.
pub open spec fn default_scan_config() -> ScanConfigView {
    ScanConfigView {
        cidrs: Seq::empty(),
        auto_enabled: false,
        interval_hours: None,
        concurrency: None,
        rotation_enabled: false,
        cooldown_minutes: None,
        proxy_domain: None,
        proxy_enabled: false,
        exit_pool: Seq::empty(),
    }
}

/// `Some(n as u32)` of an integer field.
pub open spec fn field_u32(s: Seq<(Seq<char>, JsonData)>, key: Seq<char>) -> Option<u32> {
    match field_u64(s, key) {
        Some(n) => Some(n as u32),
        None => None,
    }
}

/// `Some(n as usize)` of an integer field.
pub open spec fn field_usize(s: Seq<(Seq<char>, JsonData)>, key: Seq<char>) -> Option<usize> {
    match field_u64(s, key) {
        Some(n) => Some(n as usize),
        None => None,
    }
}

/// The settings read from a configuration object (its `opencode_scan`
/// section, or the object itself).
pub open spec fn spec_config_from_object(object: Seq<(Seq<char>, JsonData)>) -> ScanConfigView {
    let s = scan_section(object);
    ScanConfigView {
        cidrs: spec_string_list(field(s, "cidrs"@)),
        auto_enabled: match field_bool(s, "auto_enabled"@) {
            Some(b) => b,
            None => false,
        },
        interval_hours: field_u32(s, "interval_hours"@),
        concurrency: field_usize(s, "concurrency"@),
        rotation_enabled: match field_bool(s, "rotation_enabled"@) {
            Some(b) => b,
            None => false,
        },
        cooldown_minutes: field_u32(s, "cooldown_minutes"@),
        proxy_domain: field_text(s, "proxy_domain"@),
        proxy_enabled: match field_bool(s, "proxy_enabled"@) {
            Some(b) => b,
            None => false,
        },
        exit_pool: spec_string_list(field(s, "exit_pool"@)),
    }
}

/// The settings of a provider configuration: read from it when it is an
/// object, the defaults otherwise.
pub open spec fn spec_config_from(config: Option<JsonData>) -> ScanConfigView {
    match config {
        Some(JsonData::Object(e)) => spec_config_from_object(e),
        _ => default_scan_config(),
    }
}

pub open spec fn opt_data(v: Option<JsonValue>) -> Option<JsonData> {
    match v {
        Some(x) => Some(x.data()),
        None => None,
    }
}

/// The settings after a partial update: every field that the payload's
/// section names is taken from it, the others stay as stored.
pub open spec fn spec_merged_config(
    existing: Option<JsonData>,
    payload: Seq<(Seq<char>, JsonData)>,
) -> ScanConfigView {
    let s = scan_section(payload);
    let base = spec_config_from(existing);
    ScanConfigView {
        cidrs: if field(s, "cidrs"@) is Some {
            spec_string_list(field(s, "cidrs"@))
        } else {
            base.cidrs
        },
        auto_enabled: match field_bool(s, "auto_enabled"@) {
            Some(b) => b,
            None => base.auto_enabled,
        },
        interval_hours: if field(s, "interval_hours"@) is Some {
            field_u32(s, "interval_hours"@)
        } else {
            base.interval_hours
        },
        concurrency: if field(s, "concurrency"@) is Some {
            field_usize(s, "concurrency"@)
        } else {
            base.concurrency
        },
        rotation_enabled: match field_bool(s, "rotation_enabled"@) {
            Some(b) => b,
            None => base.rotation_enabled,
        },
        cooldown_minutes: if field(s, "cooldown_minutes"@) is Some {
            field_u32(s, "cooldown_minutes"@)
        } else {
            base.cooldown_minutes
        },
        proxy_domain: match field(s, "proxy_domain"@) {
            Some(JsonData::Str(d)) => if trim(d).len() > 0 {
                Some(trim(d))
            } else {
                base.proxy_domain
            },
            _ => base.proxy_domain,
        },
        proxy_enabled: match field_bool(s, "proxy_enabled"@) {
            Some(b) => b,
            None => base.proxy_enabled,
        },
        exit_pool: if field(s, "exit_pool"@) is Some {
            spec_string_list(field(s, "exit_pool"@))
        } else {
            base.exit_pool
        },
    }
}

/// The probes run at once: the configured number (default 32) clamped to
/// `1..=128`.
pub open spec fn spec_effective_concurrency(c: ScanConfigView) -> usize {
    let n: usize = match c.concurrency {
        Some(n) => n,
        None => OPENCODE_SCAN_DEFAULT_CONCURRENCY,
    };
    if n < 1 {
        1
    } else if n > OPENCODE_SCAN_MAX_CONCURRENCY {
        OPENCODE_SCAN_MAX_CONCURRENCY
    } else {
        n
    }
}

/// Automatic scanning is on: switched on, with an interval above zero.
pub open spec fn spec_autoscan_effective(c: ScanConfigView) -> bool {
    c.auto_enabled && match c.interval_hours {
        Some(h) => h > 0,
        None => false,
    }
}

/// The cool-down minutes: the configured number (default 60), at least 1.
pub open spec fn spec_effective_cooldown_minutes(c: ScanConfigView) -> u32 {
    let m: u32 = match c.cooldown_minutes {
        Some(m) => m,
        None => DEFAULT_COOLDOWN_MINUTES,
    };
    if m < 1 {
        1
    } else {
        m
    }
}

/// Rotation works: switched on, and the pool holds exit IPs.
pub open spec fn spec_rotation_effective(c: ScanConfigView) -> bool {
    c.rotation_enabled && c.exit_pool.len() > 0
}

/// The front-proxy host of a request: the saved domain (trimmed, not
/// blank) while the proxy is switched on; none otherwise (the official
/// domain is used).
pub open spec fn spec_effective_proxy_domain(c: ScanConfigView) -> Option<Seq<char>> {
    if !c.proxy_enabled {
        None
    } else {
        match c.proxy_domain {
            Some(d) => if trim(d).len() > 0 {
                Some(trim(d))
            } else {
                None
            },
            None => None,
        }
    }
}

/// An array of strings.
pub open spec fn strings_data(v: Seq<Seq<char>>) -> JsonData {
    JsonData::Array(Seq::new(v.len(), |i: int| JsonData::Str(v[i])))
}

pub open spec fn uint_data(n: nat) -> JsonData {
    JsonData::Number(JsonNumber::PosInt(n as u64))
}

/// The bare configuration object written back (without the outer
/// `opencode_scan` key).
pub open spec fn spec_config_value(c: ScanConfigView) -> JsonData {
    JsonData::Object(
        seq![
            ("cidrs"@, strings_data(c.cidrs)),
            ("auto_enabled"@, JsonData::Bool(c.auto_enabled)),
            (
                "interval_hours"@,
                uint_data(
                    match c.interval_hours {
                        Some(h) => h as nat,
                        None => 0,
                    },
                ),
            ),
            ("concurrency"@, uint_data(spec_effective_concurrency(c) as nat)),
            ("rotation_enabled"@, JsonData::Bool(c.rotation_enabled)),
            ("cooldown_minutes"@, uint_data(spec_effective_cooldown_minutes(c) as nat)),
            (
                "proxy_domain"@,
                JsonData::Str(
                    match c.proxy_domain {
                        Some(d) => d,
                        None => Seq::empty(),
                    },
                ),
            ),
            ("proxy_enabled"@, JsonData::Bool(c.proxy_enabled)),
            ("exit_pool"@, strings_data(c.exit_pool)),
        ],
    )
}

/// A JSON array of strings.
pub fn strings_value(v: &Vec<String>) -> (r: JsonValue)
    ensures
        r.data() == strings_data(string_views(v@)),
{
    let mut items: Vec<JsonValue> = Vec::new();
    let n = v.len();
    let mut i: usize = 0;
    while i < n
        invariant
            n == v@.len(),
            i <= n,
            items@.len() == i,
            forall|j: int| 0 <= j < i ==> #[trigger] items@[j].data() == JsonData::Str(v@[j]@),
        decreases n - i,
    {
        items.push(JsonValue::Str(v[i].clone()));
        i = i + 1;
    }
    proof {
        lemma_array_data(items);
        assert(items_data(items@) =~= strings_data(string_views(v@))->Array_0);
    }
    JsonValue::Array(items)
}

impl Default for OpenCodeScanConfig {
    fn default() -> (r: Self)
        ensures
            r@ == default_scan_config(),
    {
        let r = OpenCodeScanConfig {
            cidrs: Vec::new(),
            auto_enabled: false,
            interval_hours: None,
            concurrency: None,
            rotation_enabled: false,
            cooldown_minutes: None,
            proxy_domain: None,
            proxy_enabled: false,
            exit_pool: Vec::new(),
        };
        assert(string_views(r.cidrs@) =~= Seq::<Seq<char>>::empty());
        assert(string_views(r.exit_pool@) =~= Seq::<Seq<char>>::empty());
        r
    }
}

impl OpenCodeScanConfig {
    /// Reads the settings from a provider configuration.
    pub fn from_provider_config(config: &Option<JsonValue>) -> (r: Self)
        ensures
            r@ == spec_config_from(opt_data(*config)),
    {
        match config {
            Some(JsonValue::Object(object)) => {
                proof {
                    lemma_object_data(*object);
                }
                Self::from_provider_config_object(object)
            },
            _ => Self::default(),
        }
    }

    /// Reads the settings from a configuration object: its `opencode_scan`
    /// section when there is one, else the object itself (the shape of the
    /// body of a configuration update).
    pub fn from_provider_config_object(object: &Vec<(String, JsonValue)>) -> (r: Self)
        ensures
            r@ == spec_config_from_object(entries_data(object@)),
    {
        let section = scan_section_of(object);
        let cidrs = string_list(get_entry(section, "cidrs"));
        let auto_enabled = match field_bool_of(section, "auto_enabled") {
            Some(b) => b,
            None => false,
        };
        let interval_hours = match field_u64_of(section, "interval_hours") {
            Some(n) => Some(n as u32),
            None => None,
        };
        let concurrency = match field_u64_of(section, "concurrency") {
            Some(n) => Some(n as usize),
            None => None,
        };
        let rotation_enabled = match field_bool_of(section, "rotation_enabled") {
            Some(b) => b,
            None => false,
        };
        let cooldown_minutes = match field_u64_of(section, "cooldown_minutes") {
            Some(n) => Some(n as u32),
            None => None,
        };
        let proxy_domain = field_text_of(section, "proxy_domain");
        let proxy_enabled = match field_bool_of(section, "proxy_enabled") {
            Some(b) => b,
            None => false,
        };
        let exit_pool = string_list(get_entry(section, "exit_pool"));
        OpenCodeScanConfig {
            cidrs,
            auto_enabled,
            interval_hours,
            concurrency,
            rotation_enabled,
            cooldown_minutes,
            proxy_domain,
            proxy_enabled,
            exit_pool,
        }
    }

    /// Merges the fields that a configuration update names into the stored
    /// settings.  The update is partial: changing only the domain must not
    /// reset the blocks, the switches or the cool-down.
    pub fn merged_with_payload(existing: &Option<JsonValue>, payload: &Vec<(String, JsonValue)>) -> (r:
        Self)
        ensures
            r@ == spec_merged_config(opt_data(*existing), entries_data(payload@)),
    {
        let section = scan_section_of(payload);
        let mut result = Self::from_provider_config(existing);
        if get_entry(section, "cidrs").is_some() {
            result.cidrs = string_list(get_entry(section, "cidrs"));
        }
        match field_bool_of(section, "auto_enabled") {
            Some(b) => {
                result.auto_enabled = b;
            },
            None => {},
        }
        if get_entry(section, "interval_hours").is_some() {
            result.interval_hours = match field_u64_of(section, "interval_hours") {
                Some(n) => Some(n as u32),
                None => None,
            };
        }
        if get_entry(section, "concurrency").is_some() {
            result.concurrency = match field_u64_of(section, "concurrency") {
                Some(n) => Some(n as usize),
                None => None,
            };
        }
        match field_bool_of(section, "rotation_enabled") {
            Some(b) => {
                result.rotation_enabled = b;
            },
            None => {},
        }
        if get_entry(section, "cooldown_minutes").is_some() {
            result.cooldown_minutes = match field_u64_of(section, "cooldown_minutes") {
                Some(n) => Some(n as u32),
                None => None,
            };
        }
        if get_entry(section, "exit_pool").is_some() {
            result.exit_pool = string_list(get_entry(section, "exit_pool"));
        }
        match field_bool_of(section, "proxy_enabled") {
            Some(b) => {
                result.proxy_enabled = b;
            },
            None => {},
        }
        match get_entry(section, "proxy_domain") {
            Some(JsonValue::Str(domain)) => {
                let trimmed = trim_str(domain.as_str());
                if trimmed.len() > 0 {
                    result.proxy_domain = Some(string_from_chars(&trimmed));
                }
            },
            _ => {},
        }
        result
    }

    /// The bare configuration object (without the outer `opencode_scan`
    /// key); the caller decides where it is stored.
    pub fn to_provider_config_value(&self) -> (v: JsonValue)
        ensures
            v.data() == spec_config_value(self@),
    {
        let mut e: Vec<(String, JsonValue)> = Vec::new();
        e.push((owned("cidrs"), strings_value(&self.cidrs)));
        e.push((owned("auto_enabled"), JsonValue::Bool(self.auto_enabled)));
        let interval: u64 = match self.interval_hours {
            Some(h) => h as u64,
            None => 0,
        };
        e.push((owned("interval_hours"), JsonValue::Number(JsonNumber::PosInt(interval))));
        e.push((
            owned("concurrency"),
            JsonValue::Number(JsonNumber::PosInt(self.effective_concurrency() as u64)),
        ));
        e.push((owned("rotation_enabled"), JsonValue::Bool(self.rotation_enabled)));
        e.push((
            owned("cooldown_minutes"),
            JsonValue::Number(JsonNumber::PosInt(self.effective_cooldown_minutes() as u64)),
        ));
        let domain = match &self.proxy_domain {
            Some(d) => d.clone(),
            None => String::new(),
        };
        e.push((owned("proxy_domain"), JsonValue::Str(domain)));
        e.push((owned("proxy_enabled"), JsonValue::Bool(self.proxy_enabled)));
        e.push((owned("exit_pool"), strings_value(&self.exit_pool)));
        proof {
            lemma_object_data(e);
            assert(entries_data(e@) =~= spec_config_value(self@)->Object_0);
        }
        JsonValue::Object(e)
    }

    /// Probes run at once: the configured number (default 32), clamped to
    /// `1..=128`.
    pub fn effective_concurrency(&self) -> (n: usize)
        ensures
            n == spec_effective_concurrency(self@),
            1 <= n <= OPENCODE_SCAN_MAX_CONCURRENCY,
    {
        let n = match self.concurrency {
            Some(n) => n,
            None => OPENCODE_SCAN_DEFAULT_CONCURRENCY,
        };
        if n < 1 {
            1
        } else if n > OPENCODE_SCAN_MAX_CONCURRENCY {
            OPENCODE_SCAN_MAX_CONCURRENCY
        } else {
            n
        }
    }

    /// Whether automatic scanning really happens: switched on and an
    /// interval above zero.
    pub fn autoscan_effective(&self) -> (b: bool)
        ensures
            b == spec_autoscan_effective(self@),
    {
        self.auto_enabled && match self.interval_hours {
            Some(h) => h > 0,
            None => false,
        }
    }

    /// The cool-down in minutes, default 60 and at least 1.
    pub fn effective_cooldown_minutes(&self) -> (m: u32)
        ensures
            m == spec_effective_cooldown_minutes(self@),
            m >= 1,
    {
        let m = match self.cooldown_minutes {
            Some(m) => m,
            None => DEFAULT_COOLDOWN_MINUTES,
        };
        if m < 1 {
            1
        } else {
            m
        }
    }

    /// Whether rotation works: switched on, with exit IPs in the pool.
    pub fn rotation_effective(&self) -> (b: bool)
        ensures
            b == spec_rotation_effective(self@),
    {
        self.rotation_enabled && self.exit_pool.len() > 0
    }

    /// The front-proxy host of this request, or `None` to go to the
    /// official domain.  It is never written back to the endpoint.
    pub fn effective_proxy_domain(&self) -> (r: Option<String>)
        ensures
            opt_string_view(r) == spec_effective_proxy_domain(self@),
    {
        if !self.proxy_enabled {
            return None;
        }
        match &self.proxy_domain {
            Some(d) => {
                let t = trim_str(d.as_str());
                if t.len() > 0 {
                    Some(string_from_chars(&t))
                } else {
                    None
                }
            },
            None => None,
        }
    }

    /// The candidate IPs of the configured blocks that are not known yet:
    /// the smallest 4096 of them in `String` order, each once.  The network
    /// and broadcast addresses of each block are left out.
    pub fn candidate_ips(&self, known_ips: &[String]) -> (r: Vec<String>)
        ensures
            is_first_candidates(
                string_views(r@),
                self@.cidrs,
                string_views(known_ips@),
                OPENCODE_SCAN_MAX_CANDIDATES as nat,
                false,
            ),
    {
        cidr_candidate_ips(&self.cidrs, known_ips, OPENCODE_SCAN_MAX_CANDIDATES, false)
    }
}

/// Every text of the list is non-blank and has no surrounding whitespace.
pub open spec fn all_trimmed(v: Seq<Seq<char>>) -> bool {
    forall|i: int| 0 <= i < v.len() ==> trim(#[trigger] v[i]) == v[i] && v[i].len() > 0
}

/// Reading back an array of trimmed, non-blank strings gives the strings.
pub proof fn lemma_string_items_of_strings(v: Seq<Seq<char>>)
    requires
        all_trimmed(v),
    ensures
        crate::config_json::string_items(strings_data(v)->Array_0) == v,
    decreases v.len(),
{
    let items = strings_data(v)->Array_0;
    if v.len() > 0 {
        assert(items.drop_last() =~= strings_data(v.drop_last())->Array_0);
        assert forall|i: int| 0 <= i < v.drop_last().len() implies trim(#[trigger] v.drop_last()[i])
            == v.drop_last()[i] && v.drop_last()[i].len() > 0 by {
            assert(v.drop_last()[i] == v[i]);
        }
        lemma_string_items_of_strings(v.drop_last());
        assert(items.last() == JsonData::Str(v.last()));
        assert(trim(v[v.len() - 1]) == v[v.len() - 1]);
        assert(v.drop_last().push(v.last()) =~= v);
    } else {
        assert(v =~= Seq::<Seq<char>>::empty());
    }
}

/// The settings that a configuration object written back by
/// `to_provider_config_value` reproduces exactly: lists of trimmed,
/// non-blank texts, an interval, a concurrency in `1..=128`, a cool-down of
/// at least one minute, and a trimmed, non-blank domain if any.
pub open spec fn is_canonical_config(c: ScanConfigView) -> bool {
    &&& all_trimmed(c.cidrs)
    &&& all_trimmed(c.exit_pool)
    &&& c.interval_hours is Some
    &&& c.concurrency matches Some(n) && 1 <= n <= OPENCODE_SCAN_MAX_CONCURRENCY
    &&& c.cooldown_minutes matches Some(m) && m >= 1
    &&& c.proxy_domain matches Some(d) ==> trim(d) == d && d.len() > 0
}

proof fn lemma_config_value_keys(c: ScanConfigView)
    ensures
        ({
            let e = spec_config_value(c)->Object_0;
            &&& crate::json::key_index(e, "opencode_scan"@) is None
            &&& crate::json::key_index(e, "cidrs"@) == Some(0int)
            &&& crate::json::key_index(e, "auto_enabled"@) == Some(1int)
            &&& crate::json::key_index(e, "interval_hours"@) == Some(2int)
            &&& crate::json::key_index(e, "concurrency"@) == Some(3int)
            &&& crate::json::key_index(e, "rotation_enabled"@) == Some(4int)
            &&& crate::json::key_index(e, "cooldown_minutes"@) == Some(5int)
            &&& crate::json::key_index(e, "proxy_domain"@) == Some(6int)
            &&& crate::json::key_index(e, "proxy_enabled"@) == Some(7int)
            &&& crate::json::key_index(e, "exit_pool"@) == Some(8int)
        }),
{
    reveal_strlit("opencode_scan");
    reveal_strlit("cidrs");
    reveal_strlit("auto_enabled");
    reveal_strlit("interval_hours");
    reveal_strlit("concurrency");
    reveal_strlit("rotation_enabled");
    reveal_strlit("cooldown_minutes");
    reveal_strlit("proxy_domain");
    reveal_strlit("proxy_enabled");
    reveal_strlit("exit_pool");
    let e = spec_config_value(c)->Object_0;
    let keys = seq![
        "cidrs"@,
        "auto_enabled"@,
        "interval_hours"@,
        "concurrency"@,
        "rotation_enabled"@,
        "cooldown_minutes"@,
        "proxy_domain"@,
        "proxy_enabled"@,
        "exit_pool"@,
    ];
    assert forall|i: int| 0 <= i < 9 implies #[trigger] e[i].0 == keys[i] by {}
    assert forall|i: int, j: int| 0 <= i < 9 && 0 <= j < 9 && i != j implies keys[i] != keys[j] by {
        assert(keys[i].len() != keys[j].len() || keys[i][0] != keys[j][0]);
    }
    assert forall|i: int| 0 <= i < 9 implies keys[i] != "opencode_scan"@ by {
        assert(keys[i].len() != "opencode_scan"@.len() || keys[i][0] != "opencode_scan"@[0]);
    }
    crate::json::lemma_key_index(e, "opencode_scan"@);
    crate::json::lemma_key_index_is(e, "cidrs"@, 0);
    crate::json::lemma_key_index_is(e, "auto_enabled"@, 1);
    crate::json::lemma_key_index_is(e, "interval_hours"@, 2);
    crate::json::lemma_key_index_is(e, "concurrency"@, 3);
    crate::json::lemma_key_index_is(e, "rotation_enabled"@, 4);
    crate::json::lemma_key_index_is(e, "cooldown_minutes"@, 5);
    crate::json::lemma_key_index_is(e, "proxy_domain"@, 6);
    crate::json::lemma_key_index_is(e, "proxy_enabled"@, 7);
    crate::json::lemma_key_index_is(e, "exit_pool"@, 8);
}

/// Law: an update that names only the front-proxy domain changes only the
/// saved domain; the blocks, switches, interval, concurrency, cool-down and
/// exit pool stay as stored.
pub proof fn law_domain_update_keeps_other_settings(existing: Option<JsonData>, domain: Seq<char>)
    requires
        trim(domain).len() > 0,
    ensures
        spec_merged_config(existing, seq![("proxy_domain"@, JsonData::Str(domain))]) == (ScanConfigView {
            proxy_domain: Some(trim(domain)),
            ..spec_config_from(existing)
        }),
{
    let p = seq![("proxy_domain"@, JsonData::Str(domain))];
    reveal_strlit("proxy_domain");
    reveal_strlit("opencode_scan");
    reveal_strlit("cidrs");
    reveal_strlit("auto_enabled");
    reveal_strlit("interval_hours");
    reveal_strlit("concurrency");
    reveal_strlit("rotation_enabled");
    reveal_strlit("cooldown_minutes");
    reveal_strlit("proxy_enabled");
    reveal_strlit("exit_pool");
    let keys = seq![
        "opencode_scan"@,
        "cidrs"@,
        "auto_enabled"@,
        "interval_hours"@,
        "concurrency"@,
        "rotation_enabled"@,
        "cooldown_minutes"@,
        "proxy_enabled"@,
        "exit_pool"@,
    ];
    assert forall|k: int| 0 <= k < keys.len() implies key_index(p, #[trigger] keys[k]) is None by {
        crate::json::lemma_key_index(p, keys[k]);
        if keys[k].len() == "proxy_domain"@.len() {
            assert(keys[k][0] != "proxy_domain"@[0]);
        }
    }
    assert(key_index(p, keys[0]) is None);
    assert(scan_section(p) == p);
    crate::json::lemma_key_index_is(p, "proxy_domain"@, 0);
    assert(key_index(p, keys[1]) is None);
    assert(key_index(p, keys[2]) is None);
    assert(key_index(p, keys[3]) is None);
    assert(key_index(p, keys[4]) is None);
    assert(key_index(p, keys[5]) is None);
    assert(key_index(p, keys[6]) is None);
    assert(key_index(p, keys[7]) is None);
    assert(key_index(p, keys[8]) is None);
}

/// Law: switching the front proxy on or off changes only the switch; the
/// saved domain (and every other setting) stays as stored.
pub proof fn law_proxy_switch_keeps_saved_domain(existing: Option<JsonData>, on: bool)
    ensures
        spec_merged_config(existing, seq![("proxy_enabled"@, JsonData::Bool(on))]) == (ScanConfigView {
            proxy_enabled: on,
            ..spec_config_from(existing)
        }),
{
    let p = seq![("proxy_enabled"@, JsonData::Bool(on))];
    reveal_strlit("proxy_domain");
    reveal_strlit("opencode_scan");
    reveal_strlit("cidrs");
    reveal_strlit("auto_enabled");
    reveal_strlit("interval_hours");
    reveal_strlit("concurrency");
    reveal_strlit("rotation_enabled");
    reveal_strlit("cooldown_minutes");
    reveal_strlit("proxy_enabled");
    reveal_strlit("exit_pool");
    let keys = seq![
        "opencode_scan"@,
        "cidrs"@,
        "auto_enabled"@,
        "interval_hours"@,
        "concurrency"@,
        "rotation_enabled"@,
        "cooldown_minutes"@,
        "proxy_domain"@,
        "exit_pool"@,
    ];
    assert forall|k: int| 0 <= k < keys.len() implies key_index(p, #[trigger] keys[k]) is None by {
        crate::json::lemma_key_index(p, keys[k]);
        if keys[k].len() == "proxy_enabled"@.len() {
            assert(keys[k][0] != "proxy_enabled"@[0] || keys[k][6] != "proxy_enabled"@[6]);
        }
    }
    assert(key_index(p, keys[0]) is None);
    assert(scan_section(p) == p);
    crate::json::lemma_key_index_is(p, "proxy_enabled"@, 0);
    assert(key_index(p, keys[1]) is None);
    assert(key_index(p, keys[2]) is None);
    assert(key_index(p, keys[3]) is None);
    assert(key_index(p, keys[4]) is None);
    assert(key_index(p, keys[5]) is None);
    assert(key_index(p, keys[6]) is None);
    assert(key_index(p, keys[7]) is None);
    assert(key_index(p, keys[8]) is None);
}

/// Law: the settings written back by `to_provider_config_value` and read by
/// `from_provider_config` are the same settings, for every configuration
/// that can be written exactly (see `is_canonical_config`).
pub proof fn law_scan_config_round_trip(c: ScanConfigView)
    requires
        is_canonical_config(c),
    ensures
        spec_config_from(Some(spec_config_value(c))) == c,
{
    lemma_config_value_keys(c);
    let e = spec_config_value(c)->Object_0;
    assert(scan_section(e) == e);
    lemma_string_items_of_strings(c.cidrs);
    lemma_string_items_of_strings(c.exit_pool);
    assert(trim(Seq::<char>::empty()) =~= Seq::<char>::empty());
    let r = spec_config_from(Some(spec_config_value(c)));
    assert(r.cidrs =~= c.cidrs);
    assert(r.exit_pool =~= c.exit_pool);
}

} // verus!
