//! The decisions of the exit-IP pool's admin API: which provider and action
//! a request names, how a settings update is checked and stored, how
//! endpoint hosts are rewritten, and the response bodies.
use vstd::prelude::*;

use crate::candidates::string_views;
use crate::config_json::field;
use crate::ip::{char_vecs, parse_cidr, spec_parse_cidr, split_chars, split_on};
use crate::ip_pool::{
    opt_data, opt_string_view, spec_config_value, spec_effective_cooldown_minutes,
    spec_merged_config, spec_autoscan_effective, spec_rotation_effective, strings_data, strings_value, uint_data,
    OpenCodeScanConfig, ScanConfigView, OPENCODE_SCAN_DEFAULT_CONCURRENCY,
};
use crate::json::{
    entries_clone, entries_data, entries_set, get_entry, insert_entry, items_data, json_clone, lemma_array_data,
    lemma_object_data, JsonData, JsonNumber, JsonValue,
};
use crate::pool_status::{opt_text, CleanSummary, OpenCodeIpPoolStatus, ScanSummary, StatusView};
use crate::routes::OPENCODE_IP_POOL_PATH_PREFIX;
use crate::text::{
    chars_eq, chars_of, contains_char, eq_ignore_ascii_case, eq_ignore_ascii_case_chars, owned,
    push_chars, starts_with, starts_with_chars, string_from_chars, trim, trim_str,
};
use crate::url::{parse_url, spec_url_parse, spec_url_with_host, url_with_host};

verus! {

/// The official direct domain, which "restore original" puts back.
pub const OPENCODE_ORIGINAL_DOMAIN: &'static str = "opencode.ai";

/// The number of UTF-8 bytes of a character.
pub open spec fn utf8_len(c: char) -> nat {
    let u = c as u32;
    if u < 0x80 {
        1
    } else if u < 0x800 {
        2
    } else if u < 0x10000 {
        3
    } else {
        4
    }
}

/// The number of UTF-8 bytes of a text (`str::len`).
pub open spec fn utf8_len_seq(s: Seq<char>) -> nat
    decreases s.len(),
{
    if s.len() == 0 {
        0
    } else {
        utf8_len_seq(s.drop_last()) + utf8_len(s.last())
    }
}

/// The first non-empty part.
pub open spec fn first_nonempty(parts: Seq<Seq<char>>) -> Option<Seq<char>>
    decreases parts.len(),
{
    if parts.len() == 0 {
        None
    } else if parts[0].len() > 0 {
        Some(parts[0])
    } else {
        first_nonempty(parts.drop_first())
    }
}

/// The provider id of `/api/admin/opencode-ip-pool/providers/{id}[/action]`:
/// the first non-empty path segment after the prefix, when it is 36 bytes
/// long (a UUID).
pub open spec fn spec_provider_id(path: Seq<char>) -> Option<Seq<char>> {
    if starts_with(path, OPENCODE_IP_POOL_PATH_PREFIX@) {
        match first_nonempty(split_on(path.skip(OPENCODE_IP_POOL_PATH_PREFIX@.len() as int), '/')) {
            Some(seg) => if utf8_len_seq(seg) == 36 {
                Some(seg)
            } else {
                None
            },
            None => None,
        }
    } else {
        None
    }
}

proof fn lemma_utf8_len_take_mono(s: Seq<char>, i: int, j: int)
    requires
        0 <= i <= j <= s.len(),
    ensures
        utf8_len_seq(s.take(i)) <= utf8_len_seq(s.take(j)),
    decreases j - i,
{
    if i < j {
        assert(s.take(j).drop_last() =~= s.take(j - 1));
        lemma_utf8_len_take_mono(s, i, j - 1);
    }
}

/// Whether a text is `target` UTF-8 bytes long.
fn utf8_len_is(s: &Vec<char>, target: usize) -> (b: bool)
    requires
        target < 1000,
    ensures
        b == (utf8_len_seq(s@) == target),
{
    let n = s.len();
    let mut acc: usize = 0;
    let mut i: usize = 0;
    assert(s@.take(0) =~= Seq::<char>::empty());
    while i < n
        invariant
            n == s@.len(),
            i <= n,
            target < 1000,
            acc <= target,
            acc == utf8_len_seq(s@.take(i as int)),
        decreases n - i,
    {
        assert(s@.take(i + 1).drop_last() =~= s@.take(i as int));
        let u = s[i] as u32;
        let w: usize = if u < 0x80 {
            1
        } else if u < 0x800 {
            2
        } else if u < 0x10000 {
            3
        } else {
            4
        };
        acc = acc + w;
        i = i + 1;
        if acc > target {
            proof {
                lemma_utf8_len_take_mono(s@, i as int, n as int);
                assert(s@.take(n as int) =~= s@);
            }
            return false;
        }
    }
    assert(s@.take(n as int) =~= s@);
    acc == target
}

/// Reads the provider id from `/api/admin/opencode-ip-pool/providers/{id}[/action]`.
pub fn opencode_ip_pool_provider_id(path: &str) -> (r: Option<String>)
    ensures
        opt_string_view(r) == spec_provider_id(path@),
{
    let p = chars_of(path);
    let prefix = chars_of(OPENCODE_IP_POOL_PATH_PREFIX);
    if !starts_with_chars(&p, &prefix) {
        return None;
    }
    let mut rest: Vec<char> = Vec::new();
    let n = p.len();
    let mut i: usize = prefix.len();
    while i < n
        invariant
            n == p@.len(),
            prefix@.len() <= i <= n,
            rest@ == p@.subrange(prefix@.len() as int, i as int),
        decreases n - i,
    {
        rest.push(p[i]);
        assert(p@.subrange(prefix@.len() as int, i + 1) =~= p@.subrange(prefix@.len() as int, i as int).push(p@[i as int]));
        i = i + 1;
    }
    assert(rest@ =~= path@.skip(OPENCODE_IP_POOL_PATH_PREFIX@.len() as int));
    let parts = split_chars(&rest, '/');
    let ghost ps = char_vecs(parts@);
    let m = parts.len();
    let mut k: usize = 0;
    assert(ps.skip(0) =~= ps);
    while k < m
        invariant
            m == parts@.len(),
            ps == char_vecs(parts@),
            ps == split_on(path@.skip(OPENCODE_IP_POOL_PATH_PREFIX@.len() as int), '/'),
            starts_with(path@, OPENCODE_IP_POOL_PATH_PREFIX@),
            k <= m,
            first_nonempty(ps) == first_nonempty(ps.skip(k as int)),
        decreases m - k,
    {
        assert(ps.skip(k as int)[0] == parts@[k as int]@);
        assert(ps.skip(k as int).drop_first() =~= ps.skip(k + 1));
        if parts[k].len() > 0 {
            if utf8_len_is(&parts[k], 36) {
                return Some(string_from_chars(&parts[k]));
            }
            return None;
        }
        k = k + 1;
    }
    assert(ps.skip(m as int) =~= Seq::<Seq<char>>::empty());
    None
}

/// An action of the admin API.
#[derive(Debug, Clone, Copy, PartialEq, Eq, Structural)]
pub enum AdminAction {
    Status,
    SaveConfig,
    Scan,
    Clean,
    RestoreOriginal,
}

/// The action of a route kind.
pub open spec fn spec_admin_action(kind: Seq<char>) -> Option<AdminAction> {
    if kind == "get_opencode_ip_pool_status"@ {
        Some(AdminAction::Status)
    } else if kind == "save_opencode_ip_pool_config"@ {
        Some(AdminAction::SaveConfig)
    } else if kind == "run_opencode_ip_pool_scan"@ {
        Some(AdminAction::Scan)
    } else if kind == "run_opencode_ip_pool_clean"@ {
        Some(AdminAction::Clean)
    } else if kind == "restore_opencode_original_base_url"@ {
        Some(AdminAction::RestoreOriginal)
    } else {
        None
    }
}

/// The action that a route kind asks for.
pub fn admin_action_for(route_kind: &str) -> (r: Option<AdminAction>)
    ensures
        r == spec_admin_action(route_kind@),
{
    let k = chars_of(route_kind);
    if chars_eq(&k, &chars_of("get_opencode_ip_pool_status")) {
        Some(AdminAction::Status)
    } else if chars_eq(&k, &chars_of("save_opencode_ip_pool_config")) {
        Some(AdminAction::SaveConfig)
    } else if chars_eq(&k, &chars_of("run_opencode_ip_pool_scan")) {
        Some(AdminAction::Scan)
    } else if chars_eq(&k, &chars_of("run_opencode_ip_pool_clean")) {
        Some(AdminAction::Clean)
    } else if chars_eq(&k, &chars_of("restore_opencode_original_base_url")) {
        Some(AdminAction::RestoreOriginal)
    } else {
        None
    }
}

/// The first CIDR block that does not parse.
pub open spec fn first_bad_cidr(cidrs: Seq<Seq<char>>) -> Option<Seq<char>>
    decreases cidrs.len(),
{
    if cidrs.len() == 0 {
        None
    } else if spec_parse_cidr(cidrs[0]) is None {
        Some(cidrs[0])
    } else {
        first_bad_cidr(cidrs.drop_first())
    }
}

/// A checked settings update: the new settings, and the front-proxy domain
/// that the endpoints are to be moved to, when the update names one.
#[derive(Debug)]
pub struct ScanConfigUpdate {
    pub config: OpenCodeScanConfig,
    pub proxy_domain: Option<String>,
}

/// What checking a settings update gives: the merged settings, refused
/// when a block does not parse or the domain (the payload's top-level
/// `proxy_domain`, when it is a string) is blank or holds `/` or a space.
/// A valid domain is also saved in the settings.
pub open spec fn spec_check_update(
    existing: Option<JsonData>,
    payload: Seq<(Seq<char>, JsonData)>,
) -> Result<(ScanConfigView, Option<Seq<char>>), Seq<char>> {
    let c = spec_merged_config(existing, payload);
    match first_bad_cidr(c.cidrs) {
        Some(bad) => Err("无效的 CIDR: "@ + bad),
        None => match field(payload, "proxy_domain"@) {
            Some(JsonData::Str(d)) => {
                let t = trim(d);
                if t.len() == 0 {
                    Err("前置代理域名不能为空"@)
                } else if t.contains('/') || t.contains(' ') {
                    Err("前置代理域名格式无效"@)
                } else {
                    Ok((ScanConfigView { proxy_domain: Some(t), ..c }, Some(t)))
                }
            },
            _ => Ok((c, None)),
        },
    }
}

pub open spec fn update_view(r: Result<ScanConfigUpdate, String>) -> Result<
    (ScanConfigView, Option<Seq<char>>),
    Seq<char>,
> {
    match r {
        Ok(u) => Ok((u.config@, opt_string_view(u.proxy_domain))),
        Err(e) => Err(e@),
    }
}

/// No block of a list fails to parse exactly when none is reported bad.
proof fn lemma_first_bad_cidr(cidrs: Seq<Seq<char>>)
    ensures
        first_bad_cidr(cidrs) is None <==> forall|i: int|
            0 <= i < cidrs.len() ==> spec_parse_cidr(#[trigger] cidrs[i]) is Some,
    decreases cidrs.len(),
{
    if cidrs.len() > 0 {
        lemma_first_bad_cidr(cidrs.drop_first());
        if first_bad_cidr(cidrs) is None {
            assert forall|i: int| 0 <= i < cidrs.len() implies spec_parse_cidr(
                #[trigger] cidrs[i],
            ) is Some by {
                if i > 0 {
                    assert(cidrs.drop_first()[i - 1] == cidrs[i]);
                }
            }
        } else if spec_parse_cidr(cidrs[0]) is Some {
            let j = choose|j: int|
                0 <= j < cidrs.drop_first().len() && !(spec_parse_cidr(
                    #[trigger] cidrs.drop_first()[j],
                ) is Some);
            assert(cidrs[j + 1] == cidrs.drop_first()[j]);
        }
    }
}

/// Law: a settings update is accepted only when every CIDR block of the
/// merged settings parses, and those blocks are what is saved; when any
/// block of the merged settings does not parse, the update is refused.
pub proof fn law_config_update_keeps_only_valid_cidrs(
    existing: Option<JsonData>,
    payload: Seq<(Seq<char>, JsonData)>,
)
    ensures
        spec_check_update(existing, payload) matches Ok((c, _)) ==> {
            &&& c.cidrs == spec_merged_config(existing, payload).cidrs
            &&& forall|i: int| 0 <= i < c.cidrs.len() ==> spec_parse_cidr(#[trigger] c.cidrs[i]) is Some
        },
        (exists|i: int|
            0 <= i < spec_merged_config(existing, payload).cidrs.len() && spec_parse_cidr(
                #[trigger] spec_merged_config(existing, payload).cidrs[i],
            ) is None) ==> spec_check_update(existing, payload) is Err,
{
    lemma_first_bad_cidr(spec_merged_config(existing, payload).cidrs);
}

/// Checks a settings update (the body of `PUT .../config`, a JSON object).
pub fn check_scan_config_update(existing: &Option<JsonValue>, payload: &Vec<(String, JsonValue)>) -> (r:
    Result<ScanConfigUpdate, String>)
    ensures
        update_view(r) == spec_check_update(opt_data(*existing), entries_data(payload@)),
{
    let mut config = OpenCodeScanConfig::merged_with_payload(existing, payload);
    let ghost cs = config@.cidrs;
    let n = config.cidrs.len();
    let mut i: usize = 0;
    assert(cs.skip(0) =~= cs);
    while i < n
        invariant
            n == config.cidrs@.len(),
            cs == string_views(config.cidrs@),
            cs == config@.cidrs,
            config@ == spec_merged_config(opt_data(*existing), entries_data(payload@)),
            i <= n,
            first_bad_cidr(cs) == first_bad_cidr(cs.skip(i as int)),
        decreases n - i,
    {
        assert(cs.skip(i as int)[0] == config.cidrs@[i as int]@);
        assert(cs.skip(i as int).drop_first() =~= cs.skip(i + 1));
        if parse_cidr(config.cidrs[i].as_str()).is_none() {
            let mut msg = owned("无效的 CIDR: ");
            let bad = chars_of(config.cidrs[i].as_str());
            push_chars(&mut msg, &bad);
            return Err(msg);
        }
        i = i + 1;
    }
    assert(cs.skip(n as int) =~= Seq::<Seq<char>>::empty());
    match get_entry(payload, "proxy_domain") {
        Some(JsonValue::Str(domain)) => {
            let t = trim_str(domain.as_str());
            if t.len() == 0 {
                return Err(owned("前置代理域名不能为空"));
            }
            if contains_char(&t, '/') || contains_char(&t, ' ') {
                return Err(owned("前置代理域名格式无效"));
            }
            config.proxy_domain = Some(string_from_chars(&t));
            Ok(ScanConfigUpdate { config, proxy_domain: Some(string_from_chars(&t)) })
        },
        _ => Ok(ScanConfigUpdate { config, proxy_domain: None }),
    }
}

/// The provider configuration with the settings stored under
/// `opencode_scan` (the other keys are kept).
pub open spec fn spec_config_with_scan(existing: Option<JsonData>, c: ScanConfigView) -> JsonData {
    let base: Seq<(Seq<char>, JsonData)> = match existing {
        Some(JsonData::Object(e)) => e,
        _ => Seq::empty(),
    };
    JsonData::Object(entries_set(base, "opencode_scan"@, spec_config_value(c)))
}

/// Stores the settings in the provider configuration.
pub fn provider_config_with_scan(existing: &Option<JsonValue>, config: &OpenCodeScanConfig) -> (v:
    JsonValue)
    ensures
        v.data() == spec_config_with_scan(opt_data(*existing), config@),
{
    let mut entries: Vec<(String, JsonValue)> = match existing {
        Some(JsonValue::Object(e)) => {
            proof {
                lemma_object_data(*e);
            }
            entries_clone(e)
        },
        _ => {
            let empty: Vec<(String, JsonValue)> = Vec::new();
            assert(entries_data(empty@) =~= Seq::<(Seq<char>, JsonData)>::empty());
            empty
        },
    };
    insert_entry(&mut entries, owned("opencode_scan"), config.to_provider_config_value());
    proof {
        lemma_object_data(entries);
    }
    JsonValue::Object(entries)
}

/// What happens to an endpoint's base URL when its host is moved.
#[derive(Debug)]
pub enum HostRewrite {
    /// The endpoint is left as it is.
    Unchanged,
    /// The endpoint gets this base URL.
    Rewritten(String),
    /// The URL refused the new host.
    Refused,
}

/// The mathematical view of a [`HostRewrite`].
pub enum RewriteView {
    Unchanged,
    Rewritten(Seq<char>),
    Refused,
}

pub open spec fn rewrite_view(r: HostRewrite) -> RewriteView {
    match r {
        HostRewrite::Unchanged => RewriteView::Unchanged,
        HostRewrite::Rewritten(s) => RewriteView::Rewritten(s@),
        HostRewrite::Refused => RewriteView::Refused,
    }
}

/// Moving a base URL (trimmed) to `domain`: a text that is not a URL is
/// left, and so is one whose host already is the domain (ignoring ASCII
/// case); when `needs_host`, one without a host is left too.
pub open spec fn spec_host_rewrite(base: Seq<char>, domain: Seq<char>, needs_host: bool) -> RewriteView {
    let t = trim(base);
    match spec_url_parse(t) {
        None => RewriteView::Unchanged,
        Some(u) => {
            let keep = match u.host {
                Some(h) => eq_ignore_ascii_case(h, domain),
                None => needs_host,
            };
            if keep {
                RewriteView::Unchanged
            } else {
                match spec_url_with_host(t, domain) {
                    Some(s) => RewriteView::Rewritten(s),
                    None => RewriteView::Refused,
                }
            }
        },
    }
}

fn host_rewrite(base_url: &str, domain: &str, needs_host: bool) -> (r: HostRewrite)
    ensures
        rewrite_view(r) == spec_host_rewrite(base_url@, domain@, needs_host),
{
    let t = trim_str(base_url);
    let text = string_from_chars(&t);
    let parts = match parse_url(text.as_str()) {
        Some(u) => u,
        None => return HostRewrite::Unchanged,
    };
    let keep = match &parts.host {
        Some(h) => {
            let hc = chars_of(h.as_str());
            let dc = chars_of(domain);
            eq_ignore_ascii_case_chars(&hc, &dc)
        },
        None => needs_host,
    };
    if keep {
        return HostRewrite::Unchanged;
    }
    match url_with_host(text.as_str(), domain) {
        Some(s) => HostRewrite::Rewritten(s),
        None => HostRewrite::Refused,
    }
}

/// Moving an endpoint to the front-proxy domain: endpoints without a host,
/// or already there, are left; a refused host is skipped.
pub fn endpoint_proxy_rewrite(base_url: &str, domain: &str) -> (r: HostRewrite)
    ensures
        rewrite_view(r) == spec_host_rewrite(base_url@, domain@, true),
{
    host_rewrite(base_url, domain, true)
}

/// Moving an endpoint back to the official domain; a refused host counts
/// as an error of that endpoint.
pub fn endpoint_restore_rewrite(base_url: &str) -> (r: HostRewrite)
    ensures
        rewrite_view(r) == spec_host_rewrite(base_url@, OPENCODE_ORIGINAL_DOMAIN@, false),
{
    host_rewrite(base_url, OPENCODE_ORIGINAL_DOMAIN, false)
}

/// The detail shown when a provider is not an OpenCode provider.
pub const NOT_OPENCODE_PROVIDER_DETAIL: &'static str = "仅 OpenCode 类型供应商支持前置代理 IP 池";

/// Whether the admin API serves a provider of this type: only `opencode`
/// (ASCII case and surrounding whitespace aside).
pub fn is_opencode_provider(provider_type: &str) -> (b: bool)
    ensures
        b == crate::front_proxy::is_opencode_provider_type(provider_type@),
{
    let t = trim_str(provider_type);
    let o = chars_of("opencode");
    eq_ignore_ascii_case_chars(&t, &o)
}

/// The detail shown when a provider does not exist.
pub fn provider_not_found_detail(provider_id: &str) -> (s: String)
    ensures
        s@ == "Provider "@ + provider_id@ + " 不存在"@,
{
    let mut s = owned("Provider ");
    let id = chars_of(provider_id);
    push_chars(&mut s, &id);
    let tail = chars_of(" 不存在");
    push_chars(&mut s, &tail);
    s
}

/// `{"detail": <detail>}`, the body of an error response.
pub fn detail_body(detail: &str) -> (v: JsonValue)
    ensures
        v.data() == JsonData::Object(seq![("detail"@, JsonData::Str(detail@))]),
{
    let mut e: Vec<(String, JsonValue)> = Vec::new();
    e.push((owned("detail"), JsonValue::Str(owned(detail))));
    proof {
        lemma_object_data(e);
        assert(entries_data(e@) =~= seq![("detail"@, JsonData::Str(detail@))]);
    }
    JsonValue::Object(e)
}

pub open spec fn opt_str_data(o: Option<Seq<char>>) -> JsonData {
    match o {
        Some(s) => JsonData::Str(s),
        None => JsonData::Null,
    }
}

fn opt_str_value(o: &Option<String>) -> (v: JsonValue)
    ensures
        v.data() == opt_str_data(opt_string_view(*o)),
{
    match o {
        Some(s) => JsonValue::Str(s.clone()),
        None => JsonValue::Null,
    }
}

fn uint_value(n: u64) -> (v: JsonValue)
    ensures
        v.data() == uint_data(n as nat),
{
    JsonValue::Number(JsonNumber::PosInt(n))
}

/// The body of the status response.
pub open spec fn spec_status_body(
    provider_id: Seq<char>,
    s: StatusView,
    c: ScanConfigView,
    rotation_cursor: u64,
    proxy_domain: Option<Seq<char>>,
    pool_ips: Seq<JsonData>,
) -> JsonData {
    JsonData::Object(
        seq![
            ("provider_id"@, JsonData::Str(provider_id)),
            ("scanning"@, JsonData::Bool(s.scanning)),
            ("cleaning"@, JsonData::Bool(s.cleaning)),
            ("last_scan_at"@, opt_str_data(s.last_scan_at)),
            ("last_scan_targets"@, uint_data(s.last_scan_targets as nat)),
            ("last_scan_found"@, uint_data(s.last_scan_found as nat)),
            ("last_scan_added"@, uint_data(s.last_scan_added as nat)),
            ("last_clean_at"@, opt_str_data(s.last_clean_at)),
            ("last_clean_checked"@, uint_data(s.last_clean_checked as nat)),
            ("last_clean_removed"@, uint_data(s.last_clean_removed as nat)),
            ("auto_enabled"@, JsonData::Bool(c.auto_enabled)),
            ("autoscan_effective"@, JsonData::Bool(spec_autoscan_effective(c))),
            ("rotation_enabled"@, JsonData::Bool(c.rotation_enabled)),
            ("rotation_effective"@, JsonData::Bool(spec_rotation_effective(c))),
            ("cooldown_minutes"@, uint_data(spec_effective_cooldown_minutes(c) as nat)),
            ("rotation_cursor"@, uint_data(rotation_cursor as nat)),
            (
                "interval_hours"@,
                uint_data(
                    match c.interval_hours {
                        Some(h) => h as nat,
                        None => 0,
                    },
                ),
            ),
            (
                "concurrency"@,
                uint_data(
                    match c.concurrency {
                        Some(n) => n as nat,
                        None => OPENCODE_SCAN_DEFAULT_CONCURRENCY as nat,
                    },
                ),
            ),
            ("cidrs"@, strings_data(c.cidrs)),
            ("proxy_domain"@, opt_str_data(proxy_domain)),
            ("saved_proxy_domain"@, opt_str_data(c.proxy_domain)),
            ("original_domain"@, JsonData::Str(OPENCODE_ORIGINAL_DOMAIN@)),
            ("pool_ips"@, JsonData::Array(pool_ips)),
        ],
    )
}

/// The body of the status response: scanner status, settings, the current
/// endpoint host, and the pool IPs.
pub fn status_response_body(
    provider_id: &str,
    status: &OpenCodeIpPoolStatus,
    config: &OpenCodeScanConfig,
    rotation_cursor: u64,
    proxy_domain: &Option<String>,
    pool_ips: Vec<JsonValue>,
) -> (v: JsonValue)
    ensures
        v.data() == spec_status_body(
            provider_id@,
            status@,
            config@,
            rotation_cursor,
            opt_string_view(*proxy_domain),
            items_data(pool_ips@),
        ),
{
    let ghost ips = items_data(pool_ips@);
    let mut e: Vec<(String, JsonValue)> = Vec::new();
    e.push((owned("provider_id"), JsonValue::Str(owned(provider_id))));
    e.push((owned("scanning"), JsonValue::Bool(status.scanning)));
    e.push((owned("cleaning"), JsonValue::Bool(status.cleaning)));
    e.push((owned("last_scan_at"), opt_str_value(&status.last_scan_at)));
    e.push((owned("last_scan_targets"), uint_value(status.last_scan_targets)));
    e.push((owned("last_scan_found"), uint_value(status.last_scan_found)));
    e.push((owned("last_scan_added"), uint_value(status.last_scan_added)));
    e.push((owned("last_clean_at"), opt_str_value(&status.last_clean_at)));
    e.push((owned("last_clean_checked"), uint_value(status.last_clean_checked)));
    e.push((owned("last_clean_removed"), uint_value(status.last_clean_removed)));
    e.push((owned("auto_enabled"), JsonValue::Bool(config.auto_enabled)));
    e.push((owned("autoscan_effective"), JsonValue::Bool(config.autoscan_effective())));
    e.push((owned("rotation_enabled"), JsonValue::Bool(config.rotation_enabled)));
    e.push((owned("rotation_effective"), JsonValue::Bool(config.rotation_effective())));
    e.push((owned("cooldown_minutes"), uint_value(config.effective_cooldown_minutes() as u64)));
    e.push((owned("rotation_cursor"), uint_value(rotation_cursor)));
    let interval: u64 = match config.interval_hours {
        Some(h) => h as u64,
        None => 0,
    };
    e.push((owned("interval_hours"), uint_value(interval)));
    let concurrency: u64 = match config.concurrency {
        Some(n) => n as u64,
        None => OPENCODE_SCAN_DEFAULT_CONCURRENCY as u64,
    };
    e.push((owned("concurrency"), uint_value(concurrency)));
    e.push((owned("cidrs"), strings_value(&config.cidrs)));
    e.push((owned("proxy_domain"), opt_str_value(proxy_domain)));
    e.push((owned("saved_proxy_domain"), opt_str_value(&config.proxy_domain)));
    e.push((owned("original_domain"), JsonValue::Str(owned(OPENCODE_ORIGINAL_DOMAIN))));
    proof {
        lemma_array_data(pool_ips);
    }
    e.push((owned("pool_ips"), JsonValue::Array(pool_ips)));
    proof {
        lemma_object_data(e);
        assert(entries_data(e@) =~= spec_status_body(
            provider_id@,
            status@,
            config@,
            rotation_cursor,
            opt_string_view(*proxy_domain),
            ips,
        )->Object_0);
    }
    JsonValue::Object(e)
}

/// The body of a scan response.
pub fn scan_response_body(provider_id: &str, summary: ScanSummary) -> (v: JsonValue)
    ensures
        v.data() == JsonData::Object(
            seq![
                ("provider_id"@, JsonData::Str(provider_id@)),
                ("scanning"@, JsonData::Bool(false)),
                ("targets"@, uint_data(summary.targets as nat)),
                ("found"@, uint_data(summary.found as nat)),
                ("added"@, uint_data(summary.added as nat)),
            ],
        ),
{
    let mut e: Vec<(String, JsonValue)> = Vec::new();
    e.push((owned("provider_id"), JsonValue::Str(owned(provider_id))));
    e.push((owned("scanning"), JsonValue::Bool(false)));
    e.push((owned("targets"), uint_value(summary.targets)));
    e.push((owned("found"), uint_value(summary.found)));
    e.push((owned("added"), uint_value(summary.added)));
    proof {
        lemma_object_data(e);
        assert(entries_data(e@) =~= seq![
            ("provider_id"@, JsonData::Str(provider_id@)),
            ("scanning"@, JsonData::Bool(false)),
            ("targets"@, uint_data(summary.targets as nat)),
            ("found"@, uint_data(summary.found as nat)),
            ("added"@, uint_data(summary.added as nat)),
        ]);
    }
    JsonValue::Object(e)
}

/// The body of a clean response.
pub fn clean_response_body(provider_id: &str, summary: CleanSummary) -> (v: JsonValue)
    ensures
        v.data() == JsonData::Object(
            seq![
                ("provider_id"@, JsonData::Str(provider_id@)),
                ("cleaning"@, JsonData::Bool(false)),
                ("checked"@, uint_data(summary.checked as nat)),
                ("removed"@, uint_data(summary.removed as nat)),
            ],
        ),
{
    let mut e: Vec<(String, JsonValue)> = Vec::new();
    e.push((owned("provider_id"), JsonValue::Str(owned(provider_id))));
    e.push((owned("cleaning"), JsonValue::Bool(false)));
    e.push((owned("checked"), uint_value(summary.checked)));
    e.push((owned("removed"), uint_value(summary.removed)));
    proof {
        lemma_object_data(e);
        assert(entries_data(e@) =~= seq![
            ("provider_id"@, JsonData::Str(provider_id@)),
            ("cleaning"@, JsonData::Bool(false)),
            ("checked"@, uint_data(summary.checked as nat)),
            ("removed"@, uint_data(summary.removed as nat)),
        ]);
    }
    JsonValue::Object(e)
}

/// The body of a settings update response.
pub fn save_response_body(provider_id: &str, proxy_domain_changed: u64) -> (v: JsonValue)
    ensures
        v.data() == JsonData::Object(
            seq![
                ("provider_id"@, JsonData::Str(provider_id@)),
                ("saved"@, JsonData::Bool(true)),
                ("proxy_domain_changed"@, uint_data(proxy_domain_changed as nat)),
            ],
        ),
{
    let mut e: Vec<(String, JsonValue)> = Vec::new();
    e.push((owned("provider_id"), JsonValue::Str(owned(provider_id))));
    e.push((owned("saved"), JsonValue::Bool(true)));
    e.push((owned("proxy_domain_changed"), uint_value(proxy_domain_changed)));
    proof {
        lemma_object_data(e);
        assert(entries_data(e@) =~= seq![
            ("provider_id"@, JsonData::Str(provider_id@)),
            ("saved"@, JsonData::Bool(true)),
            ("proxy_domain_changed"@, uint_data(proxy_domain_changed as nat)),
        ]);
    }
    JsonValue::Object(e)
}

/// The body of a restore response: endpoints changed, and the ids of
/// those that could not be changed.
pub fn restore_response_body(provider_id: &str, changed: u64, errors: &Vec<String>) -> (v: JsonValue)
    ensures
        v.data() == JsonData::Object(
            seq![
                ("provider_id"@, JsonData::Str(provider_id@)),
                ("changed"@, uint_data(changed as nat)),
                ("errors"@, strings_data(string_views(errors@))),
            ],
        ),
{
    let mut e: Vec<(String, JsonValue)> = Vec::new();
    e.push((owned("provider_id"), JsonValue::Str(owned(provider_id))));
    e.push((owned("changed"), uint_value(changed)));
    e.push((owned("errors"), strings_value(errors)));
    proof {
        lemma_object_data(e);
        assert(entries_data(e@) =~= seq![
            ("provider_id"@, JsonData::Str(provider_id@)),
            ("changed"@, uint_data(changed as nat)),
            ("errors"@, strings_data(string_views(errors@))),
        ]);
    }
    JsonValue::Object(e)
}

} // verus!
