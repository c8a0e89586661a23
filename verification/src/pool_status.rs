//! The scanner's status, per provider, and the transitions that a scan or a
//! clean pass makes to it.
//!
//! A scan or clean pass on a provider is refused while another of the same
//! kind runs on it; its outcome is recorded when it ends.
use vstd::prelude::*;

use crate::candidates::is_first_candidates;
use crate::ip_pool::{OpenCodeScanConfig, OPENCODE_SCAN_MAX_CANDIDATES};
use crate::json::{
    entries_map, key_index, lemma_entries_map_empty, lemma_entries_map_push,
    lemma_entries_map_update, lemma_key_index, lemma_key_index_is,
};
use crate::text::{chars_eq, chars_of, owned};

verus! {

/// The status of the scanner of one provider (in memory, per process).
#[derive(Clone, Debug)]
pub struct OpenCodeIpPoolStatus {
    pub scanning: bool,
    pub cleaning: bool,
    pub last_scan_at: Option<String>,
    /// Unix seconds of the last completed scan (for interval checks).
    pub last_scan_at_unix_secs: Option<u64>,
    pub last_scan_targets: u64,
    pub last_scan_found: u64,
    pub last_scan_added: u64,
    pub last_clean_at: Option<String>,
    pub last_clean_checked: u64,
    pub last_clean_removed: u64,
}

/// The mathematical view of a status.
pub struct StatusView {
    pub scanning: bool,
    pub cleaning: bool,
    pub last_scan_at: Option<Seq<char>>,
    pub last_scan_at_unix_secs: Option<u64>,
    pub last_scan_targets: u64,
    pub last_scan_found: u64,
    pub last_scan_added: u64,
    pub last_clean_at: Option<Seq<char>>,
    pub last_clean_checked: u64,
    pub last_clean_removed: u64,
}

pub open spec fn opt_text(s: Option<String>) -> Option<Seq<char>> {
    match s {
        Some(x) => Some(x@),
        None => None,
    }
}

impl View for OpenCodeIpPoolStatus {
    type V = StatusView;

    open spec fn view(&self) -> StatusView {
        StatusView {
            scanning: self.scanning,
            cleaning: self.cleaning,
            last_scan_at: opt_text(self.last_scan_at),
            last_scan_at_unix_secs: self.last_scan_at_unix_secs,
            last_scan_targets: self.last_scan_targets,
            last_scan_found: self.last_scan_found,
            last_scan_added: self.last_scan_added,
            last_clean_at: opt_text(self.last_clean_at),
            last_clean_checked: self.last_clean_checked,
            last_clean_removed: self.last_clean_removed,
        }
    }
}

/// The status of a provider that has never been scanned or cleaned.
pub open spec fn default_status() -> StatusView {
    StatusView {
        scanning: false,
        cleaning: false,
        last_scan_at: None,
        last_scan_at_unix_secs: None,
        last_scan_targets: 0,
        last_scan_found: 0,
        last_scan_added: 0,
        last_clean_at: None,
        last_clean_checked: 0,
        last_clean_removed: 0,
    }
}

impl Default for OpenCodeIpPoolStatus {
    fn default() -> (s: Self)
        ensures
            s@ == default_status(),
    {
        OpenCodeIpPoolStatus {
            scanning: false,
            cleaning: false,
            last_scan_at: None,
            last_scan_at_unix_secs: None,
            last_scan_targets: 0,
            last_scan_found: 0,
            last_scan_added: 0,
            last_clean_at: None,
            last_clean_checked: 0,
            last_clean_removed: 0,
        }
    }
}

fn copy_text(s: &Option<String>) -> (r: Option<String>)
    ensures
        opt_text(r) == opt_text(*s),
{
    match s {
        Some(x) => Some(x.clone()),
        None => None,
    }
}

impl OpenCodeIpPoolStatus {
    /// A copy of the status.
    pub fn snapshot(&self) -> (s: Self)
        ensures
            s@ == self@,
    {
        OpenCodeIpPoolStatus {
            scanning: self.scanning,
            cleaning: self.cleaning,
            last_scan_at: copy_text(&self.last_scan_at),
            last_scan_at_unix_secs: self.last_scan_at_unix_secs,
            last_scan_targets: self.last_scan_targets,
            last_scan_found: self.last_scan_found,
            last_scan_added: self.last_scan_added,
            last_clean_at: copy_text(&self.last_clean_at),
            last_clean_checked: self.last_clean_checked,
            last_clean_removed: self.last_clean_removed,
        }
    }
}

/// The summary of a completed scan.
#[derive(Debug, Default, Clone, Copy)]
pub struct ScanSummary {
    pub targets: u64,
    pub found: u64,
    pub added: u64,
}

/// The number of `true` flags.
pub open spec fn count_true(flags: Seq<bool>) -> nat
    decreases flags.len(),
{
    if flags.len() == 0 {
        0
    } else {
        count_true(flags.drop_last()) + if flags.last() {
            1nat
        } else {
            0nat
        }
    }
}

proof fn lemma_count_true_le(flags: Seq<bool>)
    ensures
        count_true(flags) <= flags.len(),
    decreases flags.len(),
{
    if flags.len() > 0 {
        lemma_count_true_le(flags.drop_last());
    }
}

/// The summary of a scan: the candidate IPs it probed, whether each probe
/// succeeded (`probe_ok[i]` is the answer for `candidates[i]`), and for each
/// new healthy IP whether its pool key was made.  The keys made are what the
/// scan found and added; there are no more of them than healthy candidates,
/// and no more of those than candidates.
pub fn scan_summary(candidates: &[String], probe_ok: &[bool], created: &[bool]) -> (s:
    ScanSummary)
    requires
        probe_ok@.len() == candidates@.len(),
        created@.len() <= count_true(probe_ok@),
    ensures
        s.targets == candidates@.len(),
        s.added == count_true(created@),
        s.found == s.added,
        s.added <= count_true(probe_ok@),
        count_true(probe_ok@) <= s.targets,
{
    proof {
        lemma_count_true_le(probe_ok@);
        lemma_count_true_le(created@);
    }
    let n = created.len();
    let mut added: u64 = 0;
    let mut i: usize = 0;
    while i < n
        invariant
            n == created@.len(),
            n <= candidates@.len(),
            i <= n,
            added == count_true(created@.take(i as int)),
        decreases n - i,
    {
        proof {
            assert(created@.take(i + 1).drop_last() =~= created@.take(i as int));
            lemma_count_true_le(created@.take(i as int));
        }
        if created[i] {
            added = added + 1;
        }
        i = i + 1;
    }
    proof {
        assert(created@.take(n as int) =~= created@);
    }
    ScanSummary { targets: candidates.len() as u64, found: added, added }
}

/// A scan probes at most the cap of candidates, so what it finds and adds is
/// bounded by what it probed, and that by the cap: for the candidates that
/// `candidate_ips` lists, any probe answers for them, and any record of the
/// keys made for the new healthy ones,
/// `added <= healthy <= targets <= OPENCODE_SCAN_MAX_CANDIDATES`.
pub proof fn law_scan_summary_bounded(
    candidates: Seq<Seq<char>>,
    cidrs: Seq<Seq<char>>,
    known: Seq<Seq<char>>,
    skip_edges: bool,
    probe_ok: Seq<bool>,
    created: Seq<bool>,
)
    requires
        is_first_candidates(
            candidates,
            cidrs,
            known,
            OPENCODE_SCAN_MAX_CANDIDATES as nat,
            skip_edges,
        ),
        probe_ok.len() == candidates.len(),
        created.len() <= count_true(probe_ok),
    ensures
        count_true(created) <= count_true(probe_ok),
        count_true(probe_ok) <= candidates.len(),
        candidates.len() <= OPENCODE_SCAN_MAX_CANDIDATES,
{
    lemma_count_true_le(created);
    lemma_count_true_le(probe_ok);
}

/// The summary of a completed clean pass.
#[derive(Debug, Default, Clone, Copy)]
pub struct CleanSummary {
    pub checked: u64,
    pub removed: u64,
}

/// The status of each provider, by provider id.
#[derive(Debug)]
pub struct StatusMap {
    entries: Vec<(String, OpenCodeIpPoolStatus)>,
}

pub open spec fn status_entries(e: Seq<(String, OpenCodeIpPoolStatus)>) -> Seq<(Seq<char>, StatusView)> {
    Seq::new(e.len(), |i: int| (e[i].0@, e[i].1@))
}

impl View for StatusMap {
    type V = Map<Seq<char>, StatusView>;

    closed spec fn view(&self) -> Map<Seq<char>, StatusView> {
        entries_map(status_entries(self.entries@))
    }
}

/// The status of a provider: the recorded one, or the default.
pub open spec fn status_of(m: Map<Seq<char>, StatusView>, id: Seq<char>) -> StatusView {
    if m.contains_key(id) {
        m[id]
    } else {
        default_status()
    }
}

impl StatusMap {
    /// A map with no provider.
    pub fn new() -> (m: StatusMap)
        ensures
            m@ == Map::<Seq<char>, StatusView>::empty(),
    {
        let m = StatusMap { entries: Vec::new() };
        proof {
            lemma_entries_map_empty(status_entries(m.entries@));
        }
        m
    }

    fn index_of(&self, id: &str) -> (r: Option<usize>)
        ensures
            r matches Some(i) ==> i < self.entries@.len() && key_index(
                status_entries(self.entries@),
                id@,
            ) == Some(i as int),
            r is None ==> key_index(status_entries(self.entries@), id@) is None,
    {
        let ghost se = status_entries(self.entries@);
        let k = chars_of(id);
        let n = self.entries.len();
        let mut i: usize = 0;
        while i < n
            invariant
                n == self.entries@.len(),
                se == status_entries(self.entries@),
                k@ == id@,
                i <= n,
                forall|j: int| 0 <= j < i ==> se[j].0 != id@,
            decreases n - i,
        {
            let ek = chars_of(self.entries[i].0.as_str());
            if chars_eq(&ek, &k) {
                proof {
                    lemma_key_index_is(se, id@, i as int);
                }
                return Some(i);
            }
            i = i + 1;
        }
        proof {
            lemma_key_index(se, id@);
        }
        None
    }

    /// The status of a provider (the default when none is recorded).
    pub fn status_for(&self, provider_id: &str) -> (s: OpenCodeIpPoolStatus)
        ensures
            s@ == status_of(self@, provider_id@),
    {
        match self.index_of(provider_id) {
            Some(i) => self.entries[i].1.snapshot(),
            None => OpenCodeIpPoolStatus::default(),
        }
    }

    /// Records the status of a provider.
    pub fn set(&mut self, provider_id: &str, status: OpenCodeIpPoolStatus)
        ensures
            final(self)@ == old(self)@.insert(provider_id@, status@),
    {
        let ghost se = status_entries(self.entries@);
        let ghost kv = provider_id@;
        let ghost vv = status@;
        match self.index_of(provider_id) {
            Some(i) => {
                self.entries.set(i, (owned(provider_id), status));
                assert(status_entries(self.entries@) =~= se.update(i as int, (kv, vv)));
                proof {
                    lemma_entries_map_update(se, kv, vv, i as int);
                }
            },
            None => {
                self.entries.push((owned(provider_id), status));
                assert(status_entries(self.entries@) =~= se.push((kv, vv)));
                proof {
                    lemma_entries_map_push(se, kv, vv);
                }
            },
        }
    }

    /// Updates the status of a provider: `patch` gets the current status
    /// (the default when none is recorded) and gives the new one.
    pub fn update<F: FnOnce(OpenCodeIpPoolStatus) -> OpenCodeIpPoolStatus>(
        &mut self,
        provider_id: &str,
        patch: F,
    )
        requires
            forall|s: OpenCodeIpPoolStatus| #[trigger] patch.requires((s,)),
        ensures
            exists|before: OpenCodeIpPoolStatus, after: OpenCodeIpPoolStatus|
                before@ == status_of(old(self)@, provider_id@) && #[trigger] patch.ensures(
                    (before,),
                    after,
                ) && final(self)@ == old(self)@.insert(provider_id@, after@),
    {
        let current = self.status_for(provider_id);
        let ghost before = current;
        let next = patch(current);
        let ghost after = next;
        self.set(provider_id, next);
        assert(patch.ensures((before,), after));
    }
}

/// Errors of the pool's scan and clean passes.
#[derive(Debug, Clone, Copy, PartialEq, Eq, Structural)]
pub enum PoolTaskError {
    /// No CIDR block is configured.
    NoCidrs,
    /// A scan of the provider is already running.
    ScanInProgress,
    /// A clean pass of the provider is already running.
    CleanInProgress,
    /// The probe target is the official domain (no front-proxy domain is
    /// saved), so a scan cannot tell which exit IPs work.
    ScanWithoutProxyDomain,
    /// The probe target is the official domain, so a clean pass would
    /// remove the whole pool.
    CleanWithoutProxyDomain,
    /// No endpoint gives an upstream host and port.
    NoUpstreamTarget,
}

impl PoolTaskError {
    /// The message shown to the administrator.
    pub fn message(&self) -> (s: String)
        ensures
            s@ == match self {
                PoolTaskError::NoCidrs => "未配置扫描网段，请先在扫描配置中添加 CIDR"@,
                PoolTaskError::ScanInProgress => "扫描正在进行中"@,
                PoolTaskError::CleanInProgress => "清理正在进行中"@,
                PoolTaskError::ScanWithoutProxyDomain =>
                    "未配置前置代理域名，无法判断出口 IP 是否可用；请先在前置代理池里填写并保存 CDN 域名，再执行扫描"@,
                PoolTaskError::CleanWithoutProxyDomain =>
                    "未配置前置代理域名，无法判断出口 IP 是否可用；请先在前置代理池里填写并保存 CDN 域名，再执行清理"@,
                PoolTaskError::NoUpstreamTarget => "无法从供应商端点解析上游域名/端口，请先配置端点"@,
            },
    {
        match self {
            PoolTaskError::NoCidrs => owned("未配置扫描网段，请先在扫描配置中添加 CIDR"),
            PoolTaskError::ScanInProgress => owned("扫描正在进行中"),
            PoolTaskError::CleanInProgress => owned("清理正在进行中"),
            PoolTaskError::ScanWithoutProxyDomain => owned(
                "未配置前置代理域名，无法判断出口 IP 是否可用；请先在前置代理池里填写并保存 CDN 域名，再执行扫描",
            ),
            PoolTaskError::CleanWithoutProxyDomain => owned(
                "未配置前置代理域名，无法判断出口 IP 是否可用；请先在前置代理池里填写并保存 CDN 域名，再执行清理",
            ),
            PoolTaskError::NoUpstreamTarget => owned(
                "无法从供应商端点解析上游域名/端口，请先配置端点",
            ),
        }
    }
}

/// A status with `scanning` set.
pub open spec fn with_scanning(s: StatusView, on: bool) -> StatusView {
    StatusView { scanning: on, ..s }
}

/// A status with `cleaning` set.
pub open spec fn with_cleaning(s: StatusView, on: bool) -> StatusView {
    StatusView { cleaning: on, ..s }
}

/// What starting a scan does: refused without CIDR blocks or while a scan
/// runs; otherwise the provider is marked as scanning.
pub open spec fn spec_begin_scan(
    m: Map<Seq<char>, StatusView>,
    id: Seq<char>,
    has_cidrs: bool,
) -> (Result<(), PoolTaskError>, Map<Seq<char>, StatusView>) {
    if !has_cidrs {
        (Err(PoolTaskError::NoCidrs), m)
    } else if status_of(m, id).scanning {
        (Err(PoolTaskError::ScanInProgress), m)
    } else {
        (Ok(()), m.insert(id, with_scanning(status_of(m, id), true)))
    }
}

/// What ending a scan records: not scanning any more, and, for a scan that
/// completed, its numbers and time (the time text is none when the clock
/// cannot be written as a date).
pub open spec fn spec_finish_scan(
    m: Map<Seq<char>, StatusView>,
    id: Seq<char>,
    outcome: Option<ScanSummary>,
    at: Option<Seq<char>>,
    at_secs: u64,
) -> Map<Seq<char>, StatusView> {
    let s = with_scanning(status_of(m, id), false);
    match outcome {
        None => m.insert(id, s),
        Some(summary) => m.insert(
            id,
            StatusView {
                last_scan_targets: summary.targets,
                last_scan_found: summary.found,
                last_scan_added: summary.added,
                last_scan_at: at,
                last_scan_at_unix_secs: Some(at_secs),
                ..s
            },
        ),
    }
}

/// What starting a clean pass does: refused while one runs; otherwise the
/// provider is marked as cleaning.
pub open spec fn spec_begin_clean(m: Map<Seq<char>, StatusView>, id: Seq<char>) -> (
    Result<(), PoolTaskError>,
    Map<Seq<char>, StatusView>,
) {
    if status_of(m, id).cleaning {
        (Err(PoolTaskError::CleanInProgress), m)
    } else {
        (Ok(()), m.insert(id, with_cleaning(status_of(m, id), true)))
    }
}

/// What ending a clean pass records.
pub open spec fn spec_finish_clean(
    m: Map<Seq<char>, StatusView>,
    id: Seq<char>,
    outcome: Option<CleanSummary>,
    at: Option<Seq<char>>,
) -> Map<Seq<char>, StatusView> {
    let s = with_cleaning(status_of(m, id), false);
    match outcome {
        None => m.insert(id, s),
        Some(summary) => m.insert(
            id,
            StatusView {
                last_clean_checked: summary.checked,
                last_clean_removed: summary.removed,
                last_clean_at: at,
                ..s
            },
        ),
    }
}

/// Starts a scan of a provider.
pub fn begin_pool_scan(map: &mut StatusMap, provider_id: &str, config: &OpenCodeScanConfig) -> (r:
    Result<(), PoolTaskError>)
    ensures
        (r, final(map)@) == spec_begin_scan(old(map)@, provider_id@, config.cidrs@.len() > 0),
{
    if config.cidrs.len() == 0 {
        return Err(PoolTaskError::NoCidrs);
    }
    let mut status = map.status_for(provider_id);
    if status.scanning {
        return Err(PoolTaskError::ScanInProgress);
    }
    status.scanning = true;
    map.set(provider_id, status);
    Ok(())
}

/// Ends a scan of a provider, recording its outcome when it completed.
pub fn finish_pool_scan(
    map: &mut StatusMap,
    provider_id: &str,
    outcome: Option<ScanSummary>,
    at: Option<String>,
    at_secs: u64,
)
    ensures
        final(map)@ == spec_finish_scan(old(map)@, provider_id@, outcome, opt_text(at), at_secs),
{
    let mut status = map.status_for(provider_id);
    status.scanning = false;
    match outcome {
        Some(summary) => {
            status.last_scan_targets = summary.targets;
            status.last_scan_found = summary.found;
            status.last_scan_added = summary.added;
            status.last_scan_at = at;
            status.last_scan_at_unix_secs = Some(at_secs);
        },
        None => {},
    }
    map.set(provider_id, status);
}

/// Starts a scan of the maintenance scanner, whose settings always hold a
/// CIDR block: refused only while a scan runs.
pub fn begin_maintenance_scan(map: &mut StatusMap, provider_id: &str) -> (r: Result<(), PoolTaskError>)
    ensures
        (r, final(map)@) == spec_begin_scan(old(map)@, provider_id@, true),
{
    let mut status = map.status_for(provider_id);
    if status.scanning {
        return Err(PoolTaskError::ScanInProgress);
    }
    status.scanning = true;
    map.set(provider_id, status);
    Ok(())
}

/// Starts a clean pass of a provider.
pub fn begin_pool_clean(map: &mut StatusMap, provider_id: &str) -> (r: Result<(), PoolTaskError>)
    ensures
        (r, final(map)@) == spec_begin_clean(old(map)@, provider_id@),
{
    let mut status = map.status_for(provider_id);
    if status.cleaning {
        return Err(PoolTaskError::CleanInProgress);
    }
    status.cleaning = true;
    map.set(provider_id, status);
    Ok(())
}

/// Ends a clean pass of a provider, recording its outcome when it
/// completed.
pub fn finish_pool_clean(
    map: &mut StatusMap,
    provider_id: &str,
    outcome: Option<CleanSummary>,
    at: Option<String>,
)
    ensures
        final(map)@ == spec_finish_clean(old(map)@, provider_id@, outcome, opt_text(at)),
{
    let mut status = map.status_for(provider_id);
    status.cleaning = false;
    match outcome {
        Some(summary) => {
            status.last_clean_checked = summary.checked;
            status.last_clean_removed = summary.removed;
            status.last_clean_at = at;
        },
        None => {},
    }
    map.set(provider_id, status);
}

/// Ends a scan of a provider now (by the system clock), recording its
/// outcome when it completed.
pub fn finish_pool_scan_now(map: &mut StatusMap, provider_id: &str, outcome: Option<ScanSummary>)
    ensures
        exists|at: Option<Seq<char>>, at_secs: u64|
            final(map)@ == spec_finish_scan(old(map)@, provider_id@, outcome, at, at_secs),
{
    let at = crate::clock::now_rfc3339();
    let at_secs = crate::clock::now_unix_secs();
    let ghost a = opt_text(at);
    finish_pool_scan(map, provider_id, outcome, at, at_secs);
    assert(final(map)@ == spec_finish_scan(old(map)@, provider_id@, outcome, a, at_secs));
}

/// Ends a clean pass of a provider now (by the system clock), recording
/// its outcome when it completed.
pub fn finish_pool_clean_now(map: &mut StatusMap, provider_id: &str, outcome: Option<CleanSummary>)
    ensures
        exists|at: Option<Seq<char>>| final(map)@ == spec_finish_clean(old(map)@, provider_id@, outcome, at),
{
    let at = crate::clock::now_rfc3339();
    let ghost a = opt_text(at);
    finish_pool_clean(map, provider_id, outcome, at);
    assert(final(map)@ == spec_finish_clean(old(map)@, provider_id@, outcome, a));
}

/// Recording the status of one provider leaves every other provider's
/// status as it was.
pub proof fn law_status_is_per_provider(
    m: Map<Seq<char>, StatusView>,
    id: Seq<char>,
    s: StatusView,
    other: Seq<char>,
)
    requires
        other != id,
    ensures
        status_of(m.insert(id, s), other) == status_of(m, other),
        status_of(m.insert(id, s), id) == s,
{
}

/// A scan of a provider cannot start while another scan of it runs: once
/// a scan has started, starting one again is refused and changes nothing.
pub proof fn law_scan_is_exclusive(m: Map<Seq<char>, StatusView>, id: Seq<char>)
    requires
        spec_begin_scan(m, id, true).0 is Ok,
    ensures
        spec_begin_scan(spec_begin_scan(m, id, true).1, id, true) == (
            Err::<(), PoolTaskError>(PoolTaskError::ScanInProgress),
            spec_begin_scan(m, id, true).1,
        ),
{
}

/// A clean pass of a provider cannot start while another one runs.
pub proof fn law_clean_is_exclusive(m: Map<Seq<char>, StatusView>, id: Seq<char>)
    requires
        spec_begin_clean(m, id).0 is Ok,
    ensures
        spec_begin_clean(spec_begin_clean(m, id).1, id) == (
            Err::<(), PoolTaskError>(PoolTaskError::CleanInProgress),
            spec_begin_clean(m, id).1,
        ),
{
}

/// Once a scan has ended, however it ended, the provider is no longer
/// scanning and a new scan may start.
pub proof fn law_scan_can_start_after_finish(
    m: Map<Seq<char>, StatusView>,
    id: Seq<char>,
    outcome: Option<ScanSummary>,
    at: Option<Seq<char>>,
    at_secs: u64,
)
    ensures
        spec_begin_scan(spec_finish_scan(m, id, outcome, at, at_secs), id, true).0 is Ok,
{
}

/// Scanning and cleaning do not touch each other's flag: a scan's start
/// and end leave `cleaning` as it was.
pub proof fn law_scan_leaves_cleaning(
    m: Map<Seq<char>, StatusView>,
    id: Seq<char>,
    outcome: Option<ScanSummary>,
    at: Option<Seq<char>>,
    at_secs: u64,
)
    ensures
        status_of(spec_begin_scan(m, id, true).1, id).cleaning == status_of(m, id).cleaning,
        status_of(spec_finish_scan(m, id, outcome, at, at_secs), id).cleaning == status_of(
            m,
            id,
        ).cleaning,
{
}

} // verus!
