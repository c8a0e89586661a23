//! Pool keys, probe targets and probe answers of the exit-IP pool.
use vstd::prelude::*;

use crate::candidates::string_views;
use crate::ip::{parse_ip_addr_chars, spec_parse_ip_addr};
use crate::ip_pool::{
    opt_data, opt_string_view, spec_effective_concurrency, OpenCodeScanConfig,
    OPENCODE_EXIT_IP_METADATA_KEY, OPENCODE_POOL_KEY_API_KEY_PREFIX, OPENCODE_POOL_KEY_AUTH_TYPE,
};
use crate::json::{
    as_str, entries_data, get, json_as_str, json_get, lemma_object_data, JsonData, JsonValue,
};
use crate::pool_status::{count_true, PoolTaskError};
use crate::text::{
    chars_eq, chars_of, eq_ignore_ascii_case, eq_ignore_ascii_case_chars, owned, push_chars,
    string_from_chars, trim, trim_str,
};
use crate::url::{parse_url, port_or_known_default, spec_url_parse, UrlParts, UrlPartsView};

verus! {

/// A key of the provider catalog (the fields that the pool reads).
#[derive(Debug)]
pub struct StoredProviderCatalogKey {
    pub id: String,
    pub is_active: bool,
    pub upstream_metadata: Option<JsonValue>,
}

/// The exit IP of a pool key: the string `opencode_exit_ip` of its
/// metadata, trimmed, when it is an IP address.
pub open spec fn spec_pool_key_ip(metadata: Option<JsonData>) -> Option<Seq<char>> {
    match metadata {
        None => None,
        Some(m) => match json_get(m, "opencode_exit_ip"@) {
            None => None,
            Some(v) => match json_as_str(v) {
                None => None,
                Some(s) => if trim(s).len() > 0 && spec_parse_ip_addr(trim(s)) is Some {
                    Some(trim(s))
                } else {
                    None
                },
            },
        },
    }
}

/// The exit IP configured on a pool key (`upstream_metadata.opencode_exit_ip`,
/// its only source).
pub fn opencode_pool_key_ip(key: &StoredProviderCatalogKey) -> (r: Option<String>)
    ensures
        opt_string_view(r) == spec_pool_key_ip(opt_data(key.upstream_metadata)),
{
    let metadata = match &key.upstream_metadata {
        Some(m) => m,
        None => return None,
    };
    let value = match get(metadata, OPENCODE_EXIT_IP_METADATA_KEY) {
        Some(v) => v,
        None => return None,
    };
    let raw = match as_str(value) {
        Some(s) => s,
        None => return None,
    };
    let t = trim_str(raw.as_str());
    if t.len() == 0 || parse_ip_addr_chars(&t).is_none() {
        return None;
    }
    Some(string_from_chars(&t))
}

/// Whether a probe target is the official direct domain; probing it says
/// nothing about the pool's front-proxy IPs.
pub fn probe_target_is_official(domain: &str) -> (b: bool)
    ensures
        b == eq_ignore_ascii_case(trim(domain@), "opencode.ai"@),
{
    let t = trim_str(domain);
    let official = chars_of(crate::front_proxy::OPENCODE_ORIGINAL_DOMAIN);
    eq_ignore_ascii_case_chars(&t, &official)
}

/// The refusal of a scan (or clean pass) whose probe target is the official
/// domain.
pub fn probe_target_error(domain: &str, clean: bool) -> (r: Option<PoolTaskError>)
    ensures
        r == (if eq_ignore_ascii_case(trim(domain@), "opencode.ai"@) {
            Some(
                if clean {
                    PoolTaskError::CleanWithoutProxyDomain
                } else {
                    PoolTaskError::ScanWithoutProxyDomain
                },
            )
        } else {
            None
        }),
{
    if probe_target_is_official(domain) {
        if clean {
            Some(PoolTaskError::CleanWithoutProxyDomain)
        } else {
            Some(PoolTaskError::ScanWithoutProxyDomain)
        }
    } else {
        None
    }
}

/// The probes of a clean pass run at once: the scan's number, at most 32.
pub fn clean_concurrency(config: &OpenCodeScanConfig) -> (n: usize)
    ensures
        n == (if spec_effective_concurrency(config@) < 32 {
            spec_effective_concurrency(config@)
        } else {
            32
        }),
{
    let n = config.effective_concurrency();
    if n < 32 {
        n
    } else {
        32
    }
}

/// A status line (`HTTP/1.1 200 OK`) is healthy when the code after the
/// first space has three characters and starts with `2` or `3`.
pub open spec fn spec_healthy_status_line(s: Seq<u8>) -> bool {
    exists|sp: int|
        0 <= sp < s.len() && #[trigger] s[sp] == 32 && (forall|j: int| 0 <= j < sp ==> s[j] != 32)
            && sp + 3 < s.len() && (s[sp + 1] == 50 || s[sp + 1] == 51)
}

/// Law: the health of a status line is decided by the status code after
/// its first space (byte 32): healthy exactly when that code has three
/// bytes and begins with `2` (byte 50) or `3` (byte 51), so a 1xx, 4xx or
/// 5xx answer is never healthy.
pub proof fn law_status_line_health_is_2xx_or_3xx(s: Seq<u8>, sp: int)
    requires
        0 <= sp < s.len(),
        s[sp] == 32,
        forall|j: int| 0 <= j < sp ==> s[j] != 32,
    ensures
        spec_healthy_status_line(s) <==> (sp + 3 < s.len() && (s[sp + 1] == 50 || s[sp + 1] == 51)),
        sp + 1 < s.len() && s[sp + 1] != 50 && s[sp + 1] != 51 ==> !spec_healthy_status_line(s),
{
    if spec_healthy_status_line(s) {
        let q = choose|q: int|
            0 <= q < s.len() && #[trigger] s[q] == 32 && (forall|j: int| 0 <= j < q ==> s[j] != 32)
                && q + 3 < s.len() && (s[q + 1] == 50 || s[q + 1] == 51);
        if q < sp {
            assert(s[q] != 32);
        }
        if sp < q {
            assert(s[sp] != 32);
        }
    }
    if sp + 3 < s.len() && (s[sp + 1] == 50 || s[sp + 1] == 51) {
        assert(s[sp] == 32);
    }
}

/// Law: a status line without a space is never healthy.
pub proof fn law_status_line_without_space_is_unhealthy(s: Seq<u8>)
    requires
        forall|j: int| 0 <= j < s.len() ==> s[j] != 32,
    ensures
        !spec_healthy_status_line(s),
{
    if spec_healthy_status_line(s) {
        let q = choose|q: int|
            0 <= q < s.len() && #[trigger] s[q] == 32 && (forall|j: int| 0 <= j < q ==> s[j] != 32)
                && q + 3 < s.len() && (s[q + 1] == 50 || s[q + 1] == 51);
        assert(s[q] != 32);
    }
}

/// Law: a clean pass removes exactly the pool keys whose IP is not among
/// the healthy ones: every such key is in the result, and every key in the
/// result belongs to an entry whose IP is not healthy.
pub proof fn law_clean_removes_exactly_unhealthy_keys(
    entries: Seq<(Seq<char>, Seq<char>)>,
    healthy: Seq<Seq<char>>,
)
    ensures
        forall|i: int|
            0 <= i < entries.len() && !healthy.contains(#[trigger] entries[i].1) ==> spec_unhealthy_keys(
                entries,
                healthy,
            ).contains(entries[i].0),
        forall|k: Seq<char>|
            #[trigger] spec_unhealthy_keys(entries, healthy).contains(k) ==> exists|i: int|
                0 <= i < entries.len() && entries[i].0 == k && !healthy.contains(entries[i].1),
    decreases entries.len(),
{
    if entries.len() > 0 {
        let init = entries.drop_last();
        let rest = spec_unhealthy_keys(init, healthy);
        let r = spec_unhealthy_keys(entries, healthy);
        law_clean_removes_exactly_unhealthy_keys(init, healthy);
        let last = entries.last();
        assert forall|i: int|
            0 <= i < entries.len() && !healthy.contains(#[trigger] entries[i].1) implies r.contains(
                entries[i].0,
            ) by {
            if i < entries.len() - 1 {
                assert(init[i] == entries[i]);
                assert(rest.contains(entries[i].0));
                if !healthy.contains(last.1) {
                    let w = choose|w: int| 0 <= w < rest.len() && rest[w] == entries[i].0;
                    assert(r[w] == rest[w]);
                }
            } else {
                assert(r[r.len() - 1] == last.0);
            }
        }
        assert forall|k: Seq<char>| #[trigger] r.contains(k) implies exists|i: int|
            0 <= i < entries.len() && entries[i].0 == k && !healthy.contains(entries[i].1) by {
            let w = choose|w: int| 0 <= w < r.len() && r[w] == k;
            if w < rest.len() {
                assert(rest[w] == k);
                assert(rest.contains(k));
                let i = choose|i: int|
                    0 <= i < init.len() && init[i].0 == k && !healthy.contains(init[i].1);
                assert(entries[i] == init[i]);
            } else {
                assert(entries[entries.len() - 1].0 == k);
            }
        }
    }
}

/// Whether a response status line is healthy (2xx or 3xx).
pub fn is_healthy_status_line(status_line: &[u8]) -> (b: bool)
    ensures
        b == spec_healthy_status_line(status_line@),
{
    let n = status_line.len();
    let mut i: usize = 0;
    while i < n
        invariant
            n == status_line@.len(),
            i <= n,
            forall|j: int| 0 <= j < i ==> status_line@[j] != 32,
        decreases n - i,
    {
        if status_line[i] == 32 {
            let code_start = i + 1;
            if n - code_start <= 2 {
                proof {
                    if spec_healthy_status_line(status_line@) {
                        let sp = choose|sp: int|
                            0 <= sp < n && #[trigger] status_line@[sp] == 32 && (forall|j: int|
                                0 <= j < sp ==> status_line@[j] != 32) && sp + 3 < n && (
                            status_line@[sp + 1] == 50 || status_line@[sp + 1] == 51);
                        if sp < i {
                            assert(status_line@[sp] != 32);
                        }
                        if i < sp {
                            assert(status_line@[i as int] != 32);
                        }
                    }
                }
                return false;
            }
            let first = status_line[code_start];
            let ok = first == 50 || first == 51;
            proof {
                if spec_healthy_status_line(status_line@) {
                    let sp = choose|sp: int|
                        0 <= sp < n && #[trigger] status_line@[sp] == 32 && (forall|j: int|
                            0 <= j < sp ==> status_line@[j] != 32) && sp + 3 < n && (status_line@[sp
                            + 1] == 50 || status_line@[sp + 1] == 51);
                    if sp < i {
                        assert(status_line@[sp] != 32);
                    }
                    if i < sp {
                        assert(status_line@[i as int] != 32);
                    }
                }
                if ok {
                    assert(status_line@[i as int] == 32);
                }
            }
            return ok;
        }
        i = i + 1;
    }
    false
}

/// One byte of a response read for its status line: a line feed ends the
/// line (`Some(true)`); any other byte is kept, and a line longer than 1024
/// bytes is given up (`Some(false)`); otherwise reading goes on (`None`).
pub fn status_line_step(line: &mut Vec<u8>, byte: u8) -> (r: Option<bool>)
    ensures
        byte == 10 ==> r == Some(true) && final(line)@ == old(line)@,
        byte != 10 ==> final(line)@ == old(line)@.push(byte) && r == (if final(line)@.len() > 1024 {
            Some(false)
        } else {
            None
        }),
{
    if byte == 10 {
        return Some(true);
    }
    line.push(byte);
    if line.len() > 1024 {
        Some(false)
    } else {
        None
    }
}

/// The host and port of a parsed URL, when it has both.
pub open spec fn url_target(u: Option<UrlPartsView>) -> Option<(Seq<char>, u16)> {
    match u {
        Some(u) => match u.host {
            Some(h) => match port_or_known_default(u) {
                Some(p) => Some((h, p)),
                None => None,
            },
            None => None,
        },
        None => None,
    }
}

/// The first endpoint base URL (trimmed) that gives a host and a port.
pub open spec fn spec_endpoint_target(urls: Seq<Seq<char>>) -> Option<(Seq<char>, u16)>
    decreases urls.len(),
{
    if urls.len() == 0 {
        None
    } else {
        match url_target(spec_url_parse(trim(urls[0]))) {
            Some(t) => Some(t),
            None => spec_endpoint_target(urls.drop_first()),
        }
    }
}

pub open spec fn target_view(r: Option<(String, u16)>) -> Option<(Seq<char>, u16)> {
    match r {
        Some((h, p)) => Some((h@, p)),
        None => None,
    }
}

/// The host and port of a parsed URL.
pub fn target_of_url(url: Option<UrlParts>) -> (r: Option<(String, u16)>)
    ensures
        target_view(r) == url_target(crate::front_proxy::url_view(url)),
{
    match url {
        Some(u) => {
            let port = u.port_or_known_default();
            match (u.host, port) {
                (Some(h), Some(p)) => Some((h, p)),
                _ => None,
            }
        },
        None => None,
    }
}

/// The upstream host and port given by the endpoints' base URLs.
pub fn endpoint_target(base_urls: &[String]) -> (r: Option<(String, u16)>)
    ensures
        target_view(r) == spec_endpoint_target(string_views(base_urls@)),
{
    let ghost urls = string_views(base_urls@);
    let n = base_urls.len();
    let mut i: usize = 0;
    assert(urls.skip(0) =~= urls);
    while i < n
        invariant
            n == base_urls@.len(),
            urls == string_views(base_urls@),
            i <= n,
            spec_endpoint_target(urls) == spec_endpoint_target(urls.skip(i as int)),
        decreases n - i,
    {
        let ghost rest = urls.skip(i as int);
        assert(rest[0] == base_urls@[i as int]@);
        assert(rest.drop_first() =~= urls.skip(i + 1));
        let t = trim_str(base_urls[i].as_str());
        let text = string_from_chars(&t);
        let url = parse_url(text.as_str());
        match target_of_url(url) {
            Some(target) => {
                return Some(target);
            },
            None => {},
        }
        i = i + 1;
    }
    assert(urls.skip(n as int) =~= Seq::<Seq<char>>::empty());
    None
}

/// The probe target given by a saved front-proxy domain: the domain
/// (trimmed) and the port of `https://<domain>`, or 443.
pub open spec fn spec_proxy_domain_target(domain: Option<Seq<char>>) -> Option<(Seq<char>, u16)> {
    match domain {
        Some(d) => if trim(d).len() > 0 {
            Some(
                (
                    trim(d),
                    match spec_url_parse("https://"@ + d) {
                        Some(u) => match port_or_known_default(u) {
                            Some(p) => p,
                            None => 443,
                        },
                        None => 443,
                    },
                ),
            )
        } else {
            None
        },
        None => None,
    }
}

/// The probe target of a scan or clean pass when a front-proxy domain is
/// saved.  The pool's IPs are that domain's nodes; probing them under the
/// official name would fail and a clean pass would then empty the pool, so
/// the saved domain comes before the endpoint's host.
pub fn proxy_domain_target(config: &OpenCodeScanConfig) -> (r: Option<(String, u16)>)
    ensures
        target_view(r) == spec_proxy_domain_target(opt_string_view(config.proxy_domain)),
{
    let domain = match &config.proxy_domain {
        Some(d) => d,
        None => return None,
    };
    let t = trim_str(domain.as_str());
    if t.len() == 0 {
        return None;
    }
    let mut url_text = owned("https://");
    let dc = chars_of(domain.as_str());
    push_chars(&mut url_text, &dc);
    let port = match parse_url(url_text.as_str()) {
        Some(u) => match u.port_or_known_default() {
            Some(p) => p,
            None => 443,
        },
        None => 443,
    };
    Some((string_from_chars(&t), port))
}

/// The healthy IPs that are not known yet, in order.
pub open spec fn spec_new_ips(healthy: Seq<Seq<char>>, known: Seq<Seq<char>>) -> Seq<Seq<char>>
    decreases healthy.len(),
{
    if healthy.len() == 0 {
        Seq::empty()
    } else {
        let rest = spec_new_ips(healthy.drop_last(), known);
        if known.contains(healthy.last()) {
            rest
        } else {
            rest.push(healthy.last())
        }
    }
}

/// Law: the healthy IPs of a scan are exactly the probed IPs whose probe
/// succeeded: each of those is kept, and each kept IP had a successful
/// probe.
pub proof fn law_healthy_ips_are_the_successful_probes(items: Seq<Seq<char>>, flags: Seq<bool>)
    requires
        items.len() == flags.len(),
    ensures
        forall|i: int|
            0 <= i < items.len() && #[trigger] flags[i] ==> spec_selected(items, flags).contains(
                items[i],
            ),
        forall|x: Seq<char>|
            #[trigger] spec_selected(items, flags).contains(x) ==> exists|i: int|
                0 <= i < items.len() && flags[i] && items[i] == x,
    decreases items.len(),
{
    if items.len() > 0 {
        let ii = items.drop_last();
        let ff = flags.drop_last();
        let rest = spec_selected(ii, ff);
        let r = spec_selected(items, flags);
        law_healthy_ips_are_the_successful_probes(ii, ff);
        assert forall|i: int| 0 <= i < items.len() && #[trigger] flags[i] implies r.contains(items[i]) by {
            if i < items.len() - 1 {
                assert(ff[i] == flags[i] && ii[i] == items[i]);
                assert(rest.contains(items[i]));
                let w = choose|w: int| 0 <= w < rest.len() && rest[w] == items[i];
                assert(r[w] == rest[w]);
            } else {
                assert(r[r.len() - 1] == items.last());
            }
        }
        assert forall|x: Seq<char>| #[trigger] r.contains(x) implies exists|i: int|
            0 <= i < items.len() && flags[i] && items[i] == x by {
            let w = choose|w: int| 0 <= w < r.len() && r[w] == x;
            if w < rest.len() {
                assert(rest[w] == x);
                assert(rest.contains(x));
                let i = choose|i: int| 0 <= i < ii.len() && ff[i] && ii[i] == x;
                assert(flags[i] && items[i] == x);
            } else {
                assert(flags[items.len() - 1] && items[items.len() - 1] == x);
            }
        }
    }
}

/// Law: the IPs a scan makes keys for are exactly its healthy IPs that the
/// pool does not know yet.
pub proof fn law_new_ips_are_healthy_and_unknown(healthy: Seq<Seq<char>>, known: Seq<Seq<char>>)
    ensures
        forall|i: int|
            0 <= i < healthy.len() && !known.contains(#[trigger] healthy[i]) ==> spec_new_ips(
                healthy,
                known,
            ).contains(healthy[i]),
        forall|x: Seq<char>|
            #[trigger] spec_new_ips(healthy, known).contains(x) ==> healthy.contains(x) && !known.contains(x),
    decreases healthy.len(),
{
    if healthy.len() > 0 {
        let init = healthy.drop_last();
        let rest = spec_new_ips(init, known);
        let r = spec_new_ips(healthy, known);
        law_new_ips_are_healthy_and_unknown(init, known);
        assert forall|i: int|
            0 <= i < healthy.len() && !known.contains(#[trigger] healthy[i]) implies r.contains(
                healthy[i],
            ) by {
            if i < healthy.len() - 1 {
                assert(init[i] == healthy[i]);
                assert(rest.contains(healthy[i]));
                let w = choose|w: int| 0 <= w < rest.len() && rest[w] == healthy[i];
                assert(r[w] == rest[w]);
            } else {
                assert(r[r.len() - 1] == healthy.last());
            }
        }
        assert forall|x: Seq<char>| #[trigger] r.contains(x) implies healthy.contains(x)
            && !known.contains(x) by {
            let w = choose|w: int| 0 <= w < r.len() && r[w] == x;
            if w < rest.len() {
                assert(rest[w] == x);
                assert(rest.contains(x));
                let i = choose|i: int| 0 <= i < init.len() && init[i] == x;
                assert(healthy[i] == x);
            } else {
                assert(healthy[healthy.len() - 1] == x);
            }
        }
    }
}

fn contains_text(list: &[String], x: &str) -> (b: bool)
    ensures
        b == string_views(list@).contains(x@),
{
    let xc = chars_of(x);
    let n = list.len();
    let mut i: usize = 0;
    while i < n
        invariant
            n == list@.len(),
            i <= n,
            xc@ == x@,
            forall|j: int| 0 <= j < i ==> list@[j]@ != x@,
        decreases n - i,
    {
        let c = chars_of(list[i].as_str());
        if chars_eq(&c, &xc) {
            assert(string_views(list@)[i as int] == x@);
            return true;
        }
        i = i + 1;
    }
    proof {
        if string_views(list@).contains(x@) {
            let j = choose|j: int| 0 <= j < n && string_views(list@)[j] == x@;
            assert(list@[j]@ == x@);
        }
    }
    false
}

/// The items whose flag is set, in order.
pub open spec fn spec_selected(items: Seq<Seq<char>>, flags: Seq<bool>) -> Seq<Seq<char>>
    decreases items.len(),
{
    if items.len() == 0 || flags.len() == 0 {
        Seq::empty()
    } else {
        let r = spec_selected(items.drop_last(), flags.drop_last());
        if flags.last() {
            r.push(items.last())
        } else {
            r
        }
    }
}

proof fn lemma_selected_len(items: Seq<Seq<char>>, flags: Seq<bool>)
    requires
        items.len() == flags.len(),
    ensures
        spec_selected(items, flags).len() == count_true(flags),
    decreases items.len(),
{
    if items.len() > 0 {
        lemma_selected_len(items.drop_last(), flags.drop_last());
    }
}

/// The probed IPs whose probe succeeded (`probe_ok[i]` is the answer for
/// `ips[i]`), in order: one for each successful probe.
pub fn healthy_ips(ips: &[String], probe_ok: &[bool]) -> (r: Vec<String>)
    requires
        ips@.len() == probe_ok@.len(),
    ensures
        string_views(r@) == spec_selected(string_views(ips@), probe_ok@),
        r@.len() == count_true(probe_ok@),
{
    let ghost v = string_views(ips@);
    let mut out: Vec<String> = Vec::new();
    let n = ips.len();
    let mut i: usize = 0;
    assert(string_views(out@) =~= spec_selected(v.take(0), probe_ok@.take(0)));
    while i < n
        invariant
            n == ips@.len(),
            n == probe_ok@.len(),
            v == string_views(ips@),
            i <= n,
            out@.len() <= i,
            string_views(out@) == spec_selected(v.take(i as int), probe_ok@.take(i as int)),
        decreases n - i,
    {
        assert(v.take(i + 1).drop_last() =~= v.take(i as int));
        assert(probe_ok@.take(i + 1).drop_last() =~= probe_ok@.take(i as int));
        assert(v[i as int] == ips@[i as int]@);
        if probe_ok[i] {
            let ghost before = string_views(out@);
            out.push(ips[i].clone());
            assert(string_views(out@) =~= before.push(v[i as int]));
        }
        i = i + 1;
    }
    assert(v.take(n as int) =~= v);
    assert(probe_ok@.take(n as int) =~= probe_ok@);
    proof {
        lemma_selected_len(v, probe_ok@);
    }
    out
}

/// The healthy IPs of a scan for which a pool key is to be made: those not
/// in the pool yet.
pub fn new_healthy_ips(healthy: &[String], known: &[String]) -> (r: Vec<String>)
    ensures
        string_views(r@) == spec_new_ips(string_views(healthy@), string_views(known@)),
        r@.len() <= healthy@.len(),
{
    let ghost h = string_views(healthy@);
    let ghost k = string_views(known@);
    let mut out: Vec<String> = Vec::new();
    let n = healthy.len();
    let mut i: usize = 0;
    assert(string_views(out@) =~= spec_new_ips(h.take(0), k));
    while i < n
        invariant
            n == healthy@.len(),
            h == string_views(healthy@),
            k == string_views(known@),
            i <= n,
            out@.len() <= i,
            string_views(out@) == spec_new_ips(h.take(i as int), k),
        decreases n - i,
    {
        assert(h.take(i + 1).drop_last() =~= h.take(i as int));
        assert(h[i as int] == healthy@[i as int]@);
        if !contains_text(known, healthy[i].as_str()) {
            let ghost before = string_views(out@);
            out.push(healthy[i].clone());
            assert(string_views(out@) =~= before.push(h[i as int]));
        }
        i = i + 1;
    }
    assert(h.take(n as int) =~= h);
    out
}

/// The key ids of the pool entries `(key id, ip)` whose IP did not answer
/// as healthy, in order.
pub open spec fn spec_unhealthy_keys(entries: Seq<(Seq<char>, Seq<char>)>, healthy: Seq<Seq<char>>) -> Seq<
    Seq<char>,
>
    decreases entries.len(),
{
    if entries.len() == 0 {
        Seq::empty()
    } else {
        let rest = spec_unhealthy_keys(entries.drop_last(), healthy);
        if healthy.contains(entries.last().1) {
            rest
        } else {
            rest.push(entries.last().0)
        }
    }
}

pub open spec fn pair_views(e: Seq<(String, String)>) -> Seq<(Seq<char>, Seq<char>)> {
    Seq::new(e.len(), |i: int| (e[i].0@, e[i].1@))
}

/// The pool keys that a clean pass removes: those whose IP is not healthy.
pub fn unhealthy_key_ids(entries: &[(String, String)], healthy: &[String]) -> (r: Vec<String>)
    ensures
        string_views(r@) == spec_unhealthy_keys(pair_views(entries@), string_views(healthy@)),
{
    let ghost e = pair_views(entries@);
    let ghost h = string_views(healthy@);
    let mut out: Vec<String> = Vec::new();
    let n = entries.len();
    let mut i: usize = 0;
    assert(string_views(out@) =~= spec_unhealthy_keys(e.take(0), h));
    while i < n
        invariant
            n == entries@.len(),
            e == pair_views(entries@),
            h == string_views(healthy@),
            i <= n,
            string_views(out@) == spec_unhealthy_keys(e.take(i as int), h),
        decreases n - i,
    {
        assert(e.take(i + 1).drop_last() =~= e.take(i as int));
        assert(e[i as int] == (entries@[i as int].0@, entries@[i as int].1@));
        if !contains_text(healthy, entries[i].1.as_str()) {
            let ghost before = string_views(out@);
            out.push(entries[i].0.clone());
            assert(string_views(out@) =~= before.push(e[i as int].0));
        }
        i = i + 1;
    }
    assert(e.take(n as int) =~= e);
    out
}

/// What a pool key for a healthy IP is made of.
#[derive(Debug)]
pub struct PoolKeyPlan {
    /// `CDN IP <ip>`.
    pub name: String,
    /// `public-<ip>`: a placeholder, unique per IP.
    pub api_key: String,
    pub auth_type: String,
    pub api_formats: Vec<String>,
    /// `{"opencode_exit_ip": <ip>}`.
    pub upstream_metadata: JsonValue,
    pub note: String,
}

/// The pool key for a healthy exit IP.
pub fn pool_key_plan(ip: &str) -> (p: PoolKeyPlan)
    ensures
        p.name@ == "CDN IP "@ + ip@,
        p.api_key@ == OPENCODE_POOL_KEY_API_KEY_PREFIX@ + ip@,
        p.auth_type@ == OPENCODE_POOL_KEY_AUTH_TYPE@,
        string_views(p.api_formats@) == seq!["openai:chat"@],
        p.upstream_metadata.data() == JsonData::Object(
            seq![(OPENCODE_EXIT_IP_METADATA_KEY@, JsonData::Str(ip@))],
        ),
        p.note@ == "opencode ip pool (auto-scanned)"@,
{
    let ipc = chars_of(ip);
    let mut name = owned("CDN IP ");
    push_chars(&mut name, &ipc);
    let mut api_key = owned(OPENCODE_POOL_KEY_API_KEY_PREFIX);
    push_chars(&mut api_key, &ipc);
    let mut api_formats: Vec<String> = Vec::new();
    api_formats.push(owned("openai:chat"));
    assert(string_views(api_formats@) =~= seq!["openai:chat"@]);
    let mut meta: Vec<(String, JsonValue)> = Vec::new();
    meta.push((owned(OPENCODE_EXIT_IP_METADATA_KEY), JsonValue::Str(owned(ip))));
    proof {
        lemma_object_data(meta);
        assert(entries_data(meta@) =~= seq![(OPENCODE_EXIT_IP_METADATA_KEY@, JsonData::Str(ip@))]);
    }
    PoolKeyPlan {
        name,
        api_key,
        auth_type: owned(OPENCODE_POOL_KEY_AUTH_TYPE),
        api_formats,
        upstream_metadata: JsonValue::Object(meta),
        note: owned("opencode ip pool (auto-scanned)"),
    }
}

/// `{"key_id": <id>, "ip": <ip>, "is_active": <bool>}`.
pub open spec fn pool_ip_entry(id: Seq<char>, ip: Seq<char>, active: bool) -> JsonData {
    JsonData::Object(
        seq![
            ("key_id"@, JsonData::Str(id)),
            ("ip"@, JsonData::Str(ip)),
            ("is_active"@, JsonData::Bool(active)),
        ],
    )
}

/// The pool IPs shown on the status page: one entry per key with an exit
/// IP, in order, without any credential.
pub open spec fn spec_pool_ip_entries(keys: Seq<StoredProviderCatalogKey>) -> Seq<JsonData>
    decreases keys.len(),
{
    if keys.len() == 0 {
        Seq::empty()
    } else {
        let rest = spec_pool_ip_entries(keys.drop_last());
        let k = keys.last();
        match spec_pool_key_ip(opt_data(k.upstream_metadata)) {
            Some(ip) => rest.push(pool_ip_entry(k.id@, ip, k.is_active)),
            None => rest,
        }
    }
}

/// Lists a provider's pool IPs for the status page.
pub fn pool_ip_entries(keys: &[StoredProviderCatalogKey]) -> (r: Vec<JsonValue>)
    ensures
        crate::json::items_data(r@) == spec_pool_ip_entries(keys@),
{
    let mut out: Vec<JsonValue> = Vec::new();
    let n = keys.len();
    let mut i: usize = 0;
    assert(crate::json::items_data(out@) =~= spec_pool_ip_entries(keys@.take(0)));
    while i < n
        invariant
            n == keys@.len(),
            i <= n,
            crate::json::items_data(out@) == spec_pool_ip_entries(keys@.take(i as int)),
        decreases n - i,
    {
        assert(keys@.take(i + 1).drop_last() =~= keys@.take(i as int));
        assert(keys@.take(i + 1).last() == keys@[i as int]);
        match opencode_pool_key_ip(&keys[i]) {
            Some(ip) => {
                let mut e: Vec<(String, JsonValue)> = Vec::new();
                e.push((owned("key_id"), JsonValue::Str(keys[i].id.clone())));
                e.push((owned("ip"), JsonValue::Str(ip)));
                e.push((owned("is_active"), JsonValue::Bool(keys[i].is_active)));
                proof {
                    lemma_object_data(e);
                    assert(entries_data(e@) =~= pool_ip_entry(
                        keys@[i as int].id@,
                        spec_pool_key_ip(opt_data(keys@[i as int].upstream_metadata))->0,
                        keys@[i as int].is_active,
                    )->Object_0);
                }
                let ghost before = crate::json::items_data(out@);
                out.push(JsonValue::Object(e));
                assert(crate::json::items_data(out@) =~= spec_pool_ip_entries(keys@.take(i + 1)));
            },
            None => {},
        }
        i = i + 1;
    }
    assert(keys@.take(n as int) =~= keys@);
    out
}

/// The pool entries `(key id, exit ip)` of the keys that carry an exit IP,
/// in order: what a scan counts as known and a clean pass probes.
pub open spec fn spec_pool_key_entries(keys: Seq<StoredProviderCatalogKey>) -> Seq<(Seq<char>, Seq<char>)>
    decreases keys.len(),
{
    if keys.len() == 0 {
        Seq::empty()
    } else {
        let rest = spec_pool_key_entries(keys.drop_last());
        let k = keys.last();
        match spec_pool_key_ip(opt_data(k.upstream_metadata)) {
            Some(ip) => rest.push((k.id@, ip)),
            None => rest,
        }
    }
}

/// The keys of a provider that carry an exit IP, with that IP.
pub fn pool_key_entries(keys: &[StoredProviderCatalogKey]) -> (r: Vec<(String, String)>)
    ensures
        pair_views(r@) == spec_pool_key_entries(keys@),
{
    let mut out: Vec<(String, String)> = Vec::new();
    let n = keys.len();
    let mut i: usize = 0;
    assert(pair_views(out@) =~= spec_pool_key_entries(keys@.take(0)));
    while i < n
        invariant
            n == keys@.len(),
            i <= n,
            pair_views(out@) == spec_pool_key_entries(keys@.take(i as int)),
        decreases n - i,
    {
        assert(keys@.take(i + 1).drop_last() =~= keys@.take(i as int));
        assert(keys@.take(i + 1).last() == keys@[i as int]);
        match opencode_pool_key_ip(&keys[i]) {
            Some(ip) => {
                let ghost before = pair_views(out@);
                out.push((keys[i].id.clone(), ip));
                assert(pair_views(out@) =~= before.push(pair_views(out@).last()));
                assert(pair_views(out@) =~= spec_pool_key_entries(keys@.take(i + 1)));
            },
            None => {},
        }
        i = i + 1;
    }
    assert(keys@.take(n as int) =~= keys@);
    out
}

/// The host of the first endpoint base URL (trimmed) that has one.
pub open spec fn spec_endpoint_host(urls: Seq<Seq<char>>) -> Option<Seq<char>>
    decreases urls.len(),
{
    if urls.len() == 0 {
        None
    } else {
        match spec_url_parse(trim(urls[0])) {
            Some(u) => match u.host {
                Some(h) => Some(h),
                None => spec_endpoint_host(urls.drop_first()),
            },
            None => spec_endpoint_host(urls.drop_first()),
        }
    }
}

/// The host the endpoints currently use (the front-proxy domain while the
/// proxy is on).
pub fn endpoint_host(base_urls: &[String]) -> (r: Option<String>)
    ensures
        opt_string_view(r) == spec_endpoint_host(string_views(base_urls@)),
{
    let ghost urls = string_views(base_urls@);
    let n = base_urls.len();
    let mut i: usize = 0;
    assert(urls.skip(0) =~= urls);
    while i < n
        invariant
            n == base_urls@.len(),
            urls == string_views(base_urls@),
            i <= n,
            spec_endpoint_host(urls) == spec_endpoint_host(urls.skip(i as int)),
        decreases n - i,
    {
        let ghost rest = urls.skip(i as int);
        assert(rest[0] == base_urls@[i as int]@);
        assert(rest.drop_first() =~= urls.skip(i + 1));
        let t = trim_str(base_urls[i].as_str());
        let text = string_from_chars(&t);
        match parse_url(text.as_str()) {
            Some(u) => match u.host {
                Some(h) => {
                    return Some(h);
                },
                None => {},
            },
            None => {},
        }
        i = i + 1;
    }
    assert(urls.skip(n as int) =~= Seq::<Seq<char>>::empty());
    None
}

/// `str::trim_start_matches` with a character.
pub open spec fn strip_leading(s: Seq<char>, c: char) -> Seq<char>
    decreases s.len(),
{
    if s.len() > 0 && s[0] == c {
        strip_leading(s.drop_first(), c)
    } else {
        s
    }
}

/// `str::trim_end_matches` with a character.
pub open spec fn strip_trailing(s: Seq<char>, c: char) -> Seq<char>
    decreases s.len(),
{
    if s.len() > 0 && s.last() == c {
        strip_trailing(s.drop_last(), c)
    } else {
        s
    }
}

/// The TLS server name of a probe: an IP address, or a DNS name.
#[derive(Debug)]
pub enum ProbeServerName {
    Ip(crate::ip::IpValue),
    Name(String),
}

/// The host of a probe without surrounding whitespace, leading `[` and
/// trailing `]`.
pub open spec fn bare_probe_host(host: Seq<char>) -> Seq<char> {
    strip_trailing(strip_leading(trim(host), '['), ']')
}

fn strip_leading_chars(s: &Vec<char>, c: char) -> (r: Vec<char>)
    ensures
        r@ == strip_leading(s@, c),
{
    let n = s.len();
    let mut i: usize = 0;
    assert(s@.skip(0) =~= s@);
    while i < n && s[i] == c
        invariant
            n == s@.len(),
            i <= n,
            strip_leading(s@, c) == strip_leading(s@.skip(i as int), c),
        decreases n - i,
    {
        assert(s@.skip(i as int).drop_first() =~= s@.skip(i + 1));
        i = i + 1;
    }
    let mut out: Vec<char> = Vec::new();
    let mut j: usize = i;
    while j < n
        invariant
            n == s@.len(),
            i <= j <= n,
            out@ == s@.subrange(i as int, j as int),
        decreases n - j,
    {
        out.push(s[j]);
        assert(s@.subrange(i as int, j + 1) =~= s@.subrange(i as int, j as int).push(s@[j as int]));
        j = j + 1;
    }
    assert(out@ =~= s@.skip(i as int));
    out
}

fn strip_trailing_chars(s: &Vec<char>, c: char) -> (r: Vec<char>)
    ensures
        r@ == strip_trailing(s@, c),
{
    let mut k: usize = s.len();
    assert(s@.take(k as int) =~= s@);
    while k > 0 && s[k - 1] == c
        invariant
            k <= s@.len(),
            strip_trailing(s@, c) == strip_trailing(s@.take(k as int), c),
        decreases k,
    {
        assert(s@.take(k as int).drop_last() =~= s@.take(k - 1));
        k = k - 1;
    }
    let mut out: Vec<char> = Vec::new();
    let mut j: usize = 0;
    while j < k
        invariant
            k <= s@.len(),
            j <= k,
            out@ == s@.take(j as int),
        decreases k - j,
    {
        out.push(s[j]);
        assert(s@.take(j + 1) =~= s@.take(j as int).push(s@[j as int]));
        j = j + 1;
    }
    out
}

/// The TLS server name for probing a host: an IP address when the bare
/// host is one, its name otherwise.
pub fn probe_server_name(host: &str) -> (r: ProbeServerName)
    ensures
        match r {
            ProbeServerName::Ip(ip) => spec_parse_ip_addr(bare_probe_host(host@)) == Some(ip),
            ProbeServerName::Name(name) => spec_parse_ip_addr(bare_probe_host(host@)) is None
                && name@ == bare_probe_host(host@),
        },
{
    let t = trim_str(host);
    let a = strip_leading_chars(&t, '[');
    let b = strip_trailing_chars(&a, ']');
    match parse_ip_addr_chars(&b) {
        Some(ip) => ProbeServerName::Ip(ip),
        None => ProbeServerName::Name(string_from_chars(&b)),
    }
}

/// The probe request of a scan: `GET /zen/v1/models` with the OpenCode
/// fingerprint headers.
pub open spec fn spec_probe_request(domain: Seq<char>, user_agent: Seq<char>, session_id: Seq<char>) -> Seq<char> {
    "GET /zen/v1/models HTTP/1.1\r\nHost: "@ + domain + "\r\nUser-Agent: "@ + user_agent
        + "\r\nAuthorization: Bearer public\r\nAccept: application/json\r\nx-opencode-session: "@
        + session_id + "\r\nConnection: close\r\n\r\n"@
}

/// The probe request of a scan, with the OpenCode client's `User-Agent` and
/// a fresh session id.
pub fn scan_probe_request(domain: &str) -> (text: String)
    ensures
        exists|sid: Seq<char>|
            crate::session::has_session_id_shape(sid) && text@ == spec_probe_request(
                domain@,
                crate::front_proxy::spec_opencode_user_agent(),
                sid,
            ),
{
    let ua = crate::front_proxy::opencode_user_agent();
    let sid = crate::front_proxy::new_opencode_session_id();
    let mut text = owned("GET /zen/v1/models HTTP/1.1\r\nHost: ");
    push_chars(&mut text, &chars_of(domain));
    push_chars(&mut text, &chars_of("\r\nUser-Agent: "));
    push_chars(&mut text, &chars_of(ua.as_str()));
    push_chars(
        &mut text,
        &chars_of(
            "\r\nAuthorization: Bearer public\r\nAccept: application/json\r\nx-opencode-session: ",
        ),
    );
    push_chars(&mut text, &chars_of(sid.as_str()));
    push_chars(&mut text, &chars_of("\r\nConnection: close\r\n\r\n"));
    assert(text@ =~= spec_probe_request(domain@, ua@, sid@));
    text
}

} // verus!
