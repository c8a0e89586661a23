//! Least-in-flight selection with cursor rotation over the exit-IP pool, and
//! the quota cool-down bookkeeping around it.
//!
//! The runtime key-value store (cursor, cool-down marks) is reached by the
//! caller; the functions here take what it returned and decide.
use vstd::prelude::*;
use vstd::multiset::Multiset;
use vstd::relations::{sorted_by, total_ordering};

use crate::text::{
    dec_text, is_digit, lemma_dec_text, lemma_trim_noop, push_decimal,
    chars_lt, chars_of, lemma_seq_lt_irreflexive, lemma_seq_lt_total, lemma_seq_lt_transitive,
    owned, parse_u64_chars, parse_unsigned, push_chars, seq_le, seq_lt, string_from_chars, trim,
    trim_str,
};
use crate::ip::char_vecs;
use crate::candidates::string_views;

verus! {

broadcast use vstd::seq_lib::group_to_multiset_ensures, vstd::multiset::group_multiset_axioms;

/// Time to live of the rotation cursor (one day).
pub const ROTATION_CURSOR_TTL_SECONDS: u64 = 86400;

/// Default cool-down after the quota of an exit IP ran out (minutes).
pub const DEFAULT_COOLDOWN_MINUTES: u32 = 60;

/// One rotation candidate.
#[derive(Clone, Debug, PartialEq, Eq)]
pub struct RotationCandidate {
    pub key_id: String,
    /// Requests currently in flight; fewer is preferred.
    pub in_flight: u64,
}

pub open spec fn candidate_views(c: Seq<RotationCandidate>) -> Seq<(Seq<char>, u64)> {
    c.map_values(|x: RotationCandidate| (x.key_id@, x.in_flight))
}

/// The smallest in-flight count (0 for no candidates).
pub open spec fn min_in_flight(s: Seq<(Seq<char>, u64)>) -> u64
    decreases s.len(),
{
    if s.len() == 0 {
        0
    } else if s.len() == 1 {
        s[0].1
    } else {
        let m = min_in_flight(s.drop_last());
        if s.last().1 < m {
            s.last().1
        } else {
            m
        }
    }
}

/// The key ids of the candidates with `m` requests in flight.
pub open spec fn keys_with(s: Seq<(Seq<char>, u64)>, m: u64) -> Multiset<Seq<char>>
    decreases s.len(),
{
    if s.len() == 0 {
        Multiset::empty()
    } else {
        let r = keys_with(s.drop_last(), m);
        if s.last().1 == m {
            r.insert(s.last().0)
        } else {
            r
        }
    }
}

/// The key ids of the least loaded candidates.
pub open spec fn min_group(s: Seq<(Seq<char>, u64)>) -> Multiset<Seq<char>> {
    keys_with(s, min_in_flight(s))
}

/// Order of key ids: `String` order.
pub open spec fn key_order() -> spec_fn(Seq<char>, Seq<char>) -> bool {
    |a: Seq<char>, b: Seq<char>| seq_le(a, b)
}

pub proof fn lemma_key_order_total()
    ensures
        total_ordering(key_order()),
{
    let r = key_order();
    assert forall|x: Seq<char>, y: Seq<char>| #[trigger] r(x, y) && #[trigger] r(y, x) implies x
        == y by {
        lemma_seq_lt_total(x, y);
    }
    assert forall|x: Seq<char>, y: Seq<char>, z: Seq<char>| #[trigger] r(x, y) && #[trigger] r(
        y,
        z,
    ) implies r(x, z) by {
        if x != y && y != z {
            lemma_seq_lt_transitive(x, y, z);
        }
    }
    assert forall|x: Seq<char>, y: Seq<char>| #[trigger] r(x, y) || #[trigger] r(y, x) by {
        lemma_seq_lt_total(x, y);
    }
}

proof fn lemma_min_in_flight(s: Seq<(Seq<char>, u64)>)
    requires
        s.len() > 0,
    ensures
        exists|i: int| 0 <= i < s.len() && #[trigger] s[i].1 == min_in_flight(s),
        forall|i: int| 0 <= i < s.len() ==> min_in_flight(s) <= #[trigger] s[i].1,
    decreases s.len(),
{
    if s.len() > 1 {
        let d = s.drop_last();
        lemma_min_in_flight(d);
        let i = choose|i: int| 0 <= i < d.len() && #[trigger] d[i].1 == min_in_flight(d);
        assert(s[i] == d[i]);
        if s.last().1 < min_in_flight(d) {
            assert(s[s.len() - 1].1 == min_in_flight(s));
        }
        assert forall|j: int| 0 <= j < s.len() implies min_in_flight(s) <= #[trigger] s[j].1 by {
            if j < s.len() - 1 {
                assert(s[j] == d[j]);
            }
        }
    } else {
        assert(s[0].1 == min_in_flight(s));
    }
}

/// `keys_with` counts exactly the candidates `(k, m)`.
proof fn lemma_keys_with_count(s: Seq<(Seq<char>, u64)>, m: u64, k: Seq<char>)
    ensures
        keys_with(s, m).count(k) == s.to_multiset().count((k, m)),
    decreases s.len(),
{
    if s.len() > 0 {
        lemma_keys_with_count(s.drop_last(), m, k);
        assert(s =~= s.drop_last().push(s.last()));
        assert(s.to_multiset() == s.drop_last().to_multiset().insert(s.last()));
    } else {
        assert(s.to_multiset() =~= Multiset::<(Seq<char>, u64)>::empty());
    }
}

/// Law: every key of the picked group comes from a candidate with the
/// fewest requests in flight, and no candidate has fewer.
pub proof fn law_min_group_is_least_loaded(s: Seq<(Seq<char>, u64)>, k: Seq<char>)
    requires
        min_group(s).count(k) > 0,
    ensures
        s.contains((k, min_in_flight(s))),
        forall|i: int| 0 <= i < s.len() ==> min_in_flight(s) <= #[trigger] s[i].1,
{
    lemma_keys_with_count(s, min_in_flight(s), k);
    lemma_min_in_flight(s);
}

/// Law: when there are candidates, the picked group is not empty.
pub proof fn law_min_group_nonempty(s: Seq<(Seq<char>, u64)>)
    requires
        s.len() > 0,
    ensures
        min_group(s).len() > 0,
{
    lemma_min_in_flight(s);
    let i = choose|i: int| 0 <= i < s.len() && #[trigger] s[i].1 == min_in_flight(s);
    lemma_keys_with_count(s, min_in_flight(s), s[i].0);
    assert(s.to_multiset().count(s[i]) > 0);
    assert(s[i] == (s[i].0, min_in_flight(s)));
}

/// The least loaded group depends only on the candidates, not on their order.
proof fn lemma_min_group_multiset(a: Seq<(Seq<char>, u64)>, b: Seq<(Seq<char>, u64)>)
    requires
        a.to_multiset() == b.to_multiset(),
    ensures
        min_group(a) == min_group(b),
{
    assert(a.to_multiset().len() == a.len());
    assert(b.to_multiset().len() == b.len());
    if a.len() > 0 {
        assert(b.len() == a.len());
        lemma_min_in_flight(a);
        lemma_min_in_flight(b);
        let i = choose|i: int| 0 <= i < a.len() && #[trigger] a[i].1 == min_in_flight(a);
        let j = choose|j: int| 0 <= j < b.len() && #[trigger] b[j].1 == min_in_flight(b);
        assert(a.to_multiset().count(a[i]) > 0);
        assert(b.contains(a[i]));
        let bi = choose|x: int| 0 <= x < b.len() && b[x] == a[i];
        assert(b[bi].1 >= min_in_flight(b));
        assert(b.to_multiset().count(b[j]) > 0);
        assert(a.contains(b[j]));
        let aj = choose|x: int| 0 <= x < a.len() && a[x] == b[j];
        assert(a[aj].1 >= min_in_flight(a));
        assert(min_in_flight(a) == min_in_flight(b));
    } else {
        assert(b.len() == 0);
    }
    let m = min_in_flight(a);
    assert forall|k: Seq<char>| min_group(a).count(k) == min_group(b).count(k) by {
        lemma_keys_with_count(a, m, k);
        lemma_keys_with_count(b, m, k);
    }
    assert(min_group(a) =~= min_group(b));
}

/// Law: the group picked from the candidates does not depend on the order in
/// which the candidates are given.
pub proof fn law_min_group_ignores_candidate_order(
    a: Seq<(Seq<char>, u64)>,
    b: Seq<(Seq<char>, u64)>,
    ga: Seq<Seq<char>>,
    gb: Seq<Seq<char>>,
)
    requires
        a.to_multiset() == b.to_multiset(),
        sorted_by(ga, key_order()),
        ga.to_multiset() == min_group(a),
        sorted_by(gb, key_order()),
        gb.to_multiset() == min_group(b),
    ensures
        ga == gb,
{
    lemma_min_group_multiset(a, b);
    lemma_key_order_total();
    vstd::seq_lib::lemma_sorted_unique(ga, gb, key_order());
}

/// The key ids of the candidates with the fewest requests in flight, in
/// `String` order (the same key id may occur more than once).
pub fn pick_min_inflight_group(candidates: &[RotationCandidate]) -> (group: Vec<String>)
    ensures
        sorted_by(string_views(group@), key_order()),
        string_views(group@).to_multiset() == min_group(candidate_views(candidates@)),
{
    let ghost cv = candidate_views(candidates@);
    let n = candidates.len();
    if n == 0 {
        let g: Vec<String> = Vec::new();
        assert(string_views(g@) =~= Seq::<Seq<char>>::empty());
        assert(string_views(g@).to_multiset() =~= Multiset::<Seq<char>>::empty());
        return g;
    }
    let mut min = candidates[0].in_flight;
    let mut i: usize = 1;
    assert(cv.take(1).len() == 1);
    assert(cv.take(1)[0] == cv[0]);
    while i < n
        invariant
            n == candidates@.len(),
            cv == candidate_views(candidates@),
            1 <= i <= n,
            min == min_in_flight(cv.take(i as int)),
        decreases n - i,
    {
        assert(cv.take(i + 1).drop_last() =~= cv.take(i as int));
        assert(cv.take(i + 1).last() == cv[i as int]);
        assert(cv[i as int].1 == candidates@[i as int].in_flight);
        if candidates[i].in_flight < min {
            min = candidates[i].in_flight;
        }
        i = i + 1;
    }
    assert(cv.take(n as int) =~= cv);
    // Collect the least loaded keys, keeping them sorted.
    let mut sorted: Vec<Vec<char>> = Vec::new();
    let mut j: usize = 0;
    proof {
        lemma_key_order_total();
    }
    assert(char_vecs(sorted@).to_multiset() =~= Multiset::<Seq<char>>::empty());
    while j < n
        invariant
            n == candidates@.len(),
            cv == candidate_views(candidates@),
            j <= n,
            min == min_in_flight(cv),
            total_ordering(key_order()),
            sorted_by(char_vecs(sorted@), key_order()),
            char_vecs(sorted@).to_multiset() == keys_with(cv.take(j as int), min),
        decreases n - j,
    {
        assert(cv.take(j + 1).drop_last() =~= cv.take(j as int));
        assert(cv.take(j + 1).last() == cv[j as int]);
        assert(cv[j as int] == (candidates@[j as int].key_id@, candidates@[j as int].in_flight));
        if candidates[j].in_flight == min {
            let x = chars_of(candidates[j].key_id.as_str());
            insert_sorted(&mut sorted, x);
        }
        j = j + 1;
    }
    assert(cv.take(n as int) =~= cv);
    let mut group: Vec<String> = Vec::new();
    let m = sorted.len();
    let mut k: usize = 0;
    while k < m
        invariant
            m == sorted@.len(),
            k <= m,
            group@.len() == k,
            string_views(group@) == char_vecs(sorted@).take(k as int),
        decreases m - k,
    {
        let s = string_from_chars(&sorted[k]);
        let ghost before = group@;
        group.push(s);
        assert forall|t: int| 0 <= t < k + 1 implies #[trigger] string_views(group@)[t]
            == char_vecs(sorted@).take(k + 1)[t] by {
            if t < k {
                assert(string_views(before)[t] == char_vecs(sorted@).take(k as int)[t]);
                assert(group@[t] == before[t]);
            }
        }
        assert(string_views(group@) =~= char_vecs(sorted@).take(k + 1));
        k = k + 1;
    }
    assert(char_vecs(sorted@).take(m as int) =~= char_vecs(sorted@));
    group
}

/// Inserts `x` into a list sorted in `String` order, after its equals.
fn insert_sorted(v: &mut Vec<Vec<char>>, x: Vec<char>)
    requires
        sorted_by(char_vecs(old(v)@), key_order()),
        total_ordering(key_order()),
    ensures
        sorted_by(char_vecs(final(v)@), key_order()),
        char_vecs(final(v)@).to_multiset() == char_vecs(old(v)@).to_multiset().insert(x@),
{
    let ghost o = char_vecs(v@);
    let n = v.len();
    let mut pos: usize = n;
    // Find the first element greater than `x`, scanning from the end.
    while pos > 0 && chars_lt(&x, &v[pos - 1])
        invariant
            n == v@.len(),
            o == char_vecs(v@),
            pos <= n,
            forall|t: int| pos <= t < n ==> seq_lt(x@, #[trigger] o[t]),
        decreases pos,
    {
        assert(o[pos - 1] == v@[pos - 1]@);
        pos = pos - 1;
    }
    proof {
        if pos > 0 {
            assert(o[pos - 1] == v@[pos - 1]@);
            assert(!seq_lt(x@, o[pos - 1]));
            lemma_seq_lt_total(x@, o[pos - 1]);
        }
    }
    let ghost xv = x@;
    v.insert(pos, x);
    let ghost ins = o.insert(pos as int, xv);
    assert(char_vecs(v@) =~= ins);
    let ghost r = key_order();
    assert forall|a: int, b: int| 0 <= a < b < ins.len() implies #[trigger] r(ins[a], ins[b]) by {
        if b < pos {
            assert(ins[a] == o[a] && ins[b] == o[b]);
        } else if b == pos {
            assert(ins[a] == o[a]);
            assert(ins[b] == xv);
            assert(!seq_lt(xv, o[pos - 1]));
            assert(r(o[pos - 1], xv));
            // o[a] <= o[pos - 1] <= x
            if a < pos - 1 {
                assert(r(o[a], o[pos - 1]));
                assert(r(o[a], xv));
            }
        } else if a < pos {
            assert(ins[a] == o[a] && ins[b] == o[b - 1]);
        } else if a == pos {
            assert(ins[b] == o[b - 1]);
            assert(seq_lt(xv, o[b - 1]));
        } else {
            assert(ins[a] == o[a - 1] && ins[b] == o[b - 1]);
        }
    }
    assert(ins.to_multiset() == o.to_multiset().insert(xv));
}

/// What `rotate_with_cursor` picks: the member at `cursor` modulo the group
/// size.
pub open spec fn rotation_pick(group: Seq<Seq<char>>, cursor: u64) -> Option<Seq<char>> {
    if group.len() == 0 {
        None
    } else {
        Some(group[(cursor as nat % group.len()) as int])
    }
}

/// Picks the group member at `cursor` modulo the group size.
pub fn rotate_with_cursor(group: &[String], cursor: u64) -> (r: Option<String>)
    ensures
        r is None <==> group@.len() == 0,
        r matches Some(s) ==> Some(s@) == rotation_pick(string_views(group@), cursor),
{
    if group.len() == 0 {
        return None;
    }
    let index = (cursor % (group.len() as u64)) as usize;
    let picked = group[index].clone();
    assert(string_views(group@)[index as int] == group@[index as int]@);
    Some(picked)
}

/// Law: consecutive cursors visit the members in turn and wrap around after
/// the last one.
pub proof fn law_rotation_wraps(group: Seq<Seq<char>>, cursor: u64)
    requires
        group.len() > 0,
        cursor + group.len() <= u64::MAX,
    ensures
        rotation_pick(group, (cursor + group.len()) as u64) == rotation_pick(group, cursor),
        cursor as nat % group.len() + 1 < group.len() ==> rotation_pick(group, (cursor + 1) as u64)
            == Some(group[(cursor as nat % group.len()) + 1int]),
{
    let n = group.len();
    assert((cursor as nat + n) % n == cursor as nat % n) by (nonlinear_arith)
        requires
            n > 0,
    ;
    assert(cursor as nat % n + 1 < n ==> (cursor as nat + 1) % n == cursor as nat % n + 1)
        by (nonlinear_arith)
        requires
            n > 0,
    ;
}

/// The member picked `d` cursors after `cursor`.
pub open spec fn pick_after(group: Seq<Seq<char>>, cursor: u64, d: nat) -> Option<Seq<char>> {
    rotation_pick(group, (cursor + d) as u64)
}

/// Law: within any `group.len()` consecutive cursors every member is picked.
pub proof fn law_rotation_visits_every_member(group: Seq<Seq<char>>, cursor: u64, member: int)
    requires
        0 <= member < group.len(),
        cursor + group.len() <= u64::MAX,
    ensures
        exists|d: nat| d < group.len() && #[trigger] pick_after(group, cursor, d) == Some(group[member]),
{
    let n = group.len();
    let c = cursor as nat;
    let d: nat = ((member + n - c % n) % (n as int)) as nat;
    assert((c + d) % n == member) by (nonlinear_arith)
        requires
            n > 0,
            0 <= member < n,
            d == (member + n - c % n) % (n as int),
    ;
    assert(pick_after(group, cursor, d) == Some(group[member]));
}

/// The cursor that follows a stored one: the stored value plus one (wrapping),
/// or 1 when nothing (or nothing numeric) was stored.
pub open spec fn spec_next_cursor(taken: Option<Seq<char>>) -> u64 {
    match taken {
        Some(raw) => match parse_unsigned(trim(raw), u64::MAX as nat) {
            Some(previous) => if previous == u64::MAX {
                0
            } else {
                (previous + 1) as u64
            },
            None => 1,
        },
        None => 1,
    }
}

/// The next rotation cursor, from the value taken (and deleted) from the
/// store; the caller writes it back with `ROTATION_CURSOR_TTL_SECONDS`.
pub fn next_rotation_cursor_value(taken: Option<&str>) -> (next: u64)
    ensures
        next == spec_next_cursor(
            match taken {
                Some(s) => Some(s@),
                None => None,
            },
        ),
{
    match taken {
        Some(raw) => {
            let t = trim_str(raw);
            match parse_u64_chars(&t) {
                Some(previous) => previous.wrapping_add(1),
                None => 1,
            }
        },
        None => 1,
    }
}

/// The cursor shown for a stored value: the stored number, or 0.
pub open spec fn spec_peek_cursor(stored: Option<Seq<char>>) -> u64 {
    match stored {
        Some(s) => match parse_unsigned(trim(s), u64::MAX as nat) {
            Some(v) => v as u64,
            None => 0,
        },
        None => 0,
    }
}

/// The stored rotation cursor for display: the stored number, or 0.
pub fn peek_rotation_cursor_value(stored: Option<&str>) -> (cursor: u64)
    ensures
        cursor == spec_peek_cursor(
            match stored {
                Some(s) => Some(s@),
                None => None,
            },
        ),
{
    match stored {
        Some(raw) => {
            let t = trim_str(raw);
            match parse_u64_chars(&t) {
                Some(v) => v,
                None => 0,
            }
        },
        None => 0,
    }
}

/// The text under which a cursor is stored: its decimal digits.
pub fn cursor_text(cursor: u64) -> (text: String)
    ensures
        text@ == dec_text(cursor as nat),
{
    let mut text = String::new();
    push_decimal(&mut text, cursor);
    assert(text@ =~= dec_text(cursor as nat));
    text
}

/// Law: a stored cursor reads back as itself, and the next request
/// advances it by one (wrapping after `u64::MAX`); the first request on an
/// empty store gets 1.
pub proof fn law_cursor_round_trip(cursor: u64)
    ensures
        spec_peek_cursor(Some(dec_text(cursor as nat))) == cursor,
        spec_next_cursor(Some(dec_text(cursor as nat))) == (if cursor == u64::MAX {
            0
        } else {
            (cursor + 1) as u64
        }),
        spec_next_cursor(None) == 1,
{
    let t = dec_text(cursor as nat);
    lemma_dec_text(cursor as nat);
    assert(is_digit(t[0]));
    assert(is_digit(t.last()));
    lemma_trim_noop(t);
    assert(t[0] != '+');
}

/// What is stored under a provider's cursor key after `k` requests from an
/// empty store, each taking the stored value and writing back the text of
/// the next cursor.
pub open spec fn stored_cursor_after(k: nat) -> Option<Seq<char>>
    decreases k,
{
    if k == 0 {
        None
    } else {
        Some(dec_text(spec_next_cursor(stored_cursor_after((k - 1) as nat)) as nat))
    }
}

/// Law: from an empty store, and with no other writer, the `k`-th request
/// gets cursor `k` (the cursor goes 1, 2, ..., k), and a peek after it shows
/// `k` (for `k` up to `u64::MAX`).
pub proof fn law_cursor_counts_requests(k: nat)
    requires
        1 <= k <= u64::MAX,
    ensures
        spec_next_cursor(stored_cursor_after((k - 1) as nat)) == k,
        stored_cursor_after(k) == Some(dec_text(k)),
        spec_peek_cursor(stored_cursor_after(k)) == k,
    decreases k,
{
    law_cursor_round_trip(0);
    if k > 1 {
        law_cursor_counts_requests((k - 1) as nat);
        law_cursor_round_trip((k - 1) as u64);
    }
    law_cursor_round_trip(k as u64);
}

/// Seconds a cool-down mark lives: the minutes (at least one) times 60.
pub fn cooldown_ttl_seconds(cooldown_minutes: u32) -> (ttl: u64)
    ensures
        ttl == (if cooldown_minutes >= 1 {
            cooldown_minutes
        } else {
            1
        }) * 60,
{
    let minutes: u64 = if cooldown_minutes >= 1 {
        cooldown_minutes as u64
    } else {
        1
    };
    minutes * 60
}

/// Store key of the rotation cursor of a provider.
pub fn cursor_key(provider_id: &str) -> (key: String)
    ensures
        key@ == "opencode_pool:rotation:cursor:"@ + provider_id@,
{
    let mut key = owned("opencode_pool:rotation:cursor:");
    let id = chars_of(provider_id);
    push_chars(&mut key, &id);
    key
}

/// Store key of the cool-down mark of a key (or exit IP) of a provider.
pub fn cooldown_key(provider_id: &str, key_id: &str) -> (key: String)
    ensures
        key@ == "opencode_pool:cooldown:"@ + provider_id@ + ":"@ + key_id@,
{
    let mut key = owned("opencode_pool:cooldown:");
    let id = chars_of(provider_id);
    push_chars(&mut key, &id);
    let sep = chars_of(":");
    push_chars(&mut key, &sep);
    let k = chars_of(key_id);
    push_chars(&mut key, &k);
    key
}

/// The key ids that are not cooling down, in their order (`cooling[i]` is
/// the store's answer for `key_ids[i]`).
pub fn alive_keys(key_ids: &[String], cooling: &[bool]) -> (alive: Vec<String>)
    requires
        key_ids@.len() == cooling@.len(),
    ensures
        alive@ == alive_spec(key_ids@, cooling@),
{
    let mut alive: Vec<String> = Vec::new();
    let n = key_ids.len();
    let mut i: usize = 0;
    while i < n
        invariant
            n == key_ids@.len(),
            n == cooling@.len(),
            i <= n,
            alive@ == alive_spec(key_ids@.take(i as int), cooling@.take(i as int)),
        decreases n - i,
    {
        assert(key_ids@.take(i + 1).drop_last() =~= key_ids@.take(i as int));
        assert(cooling@.take(i + 1).drop_last() =~= cooling@.take(i as int));
        if !cooling[i] {
            alive.push(key_ids[i].clone());
        }
        i = i + 1;
    }
    assert(key_ids@.take(n as int) =~= key_ids@);
    assert(cooling@.take(n as int) =~= cooling@);
    alive
}

/// The keys whose flag is false, in order.
pub open spec fn alive_spec(keys: Seq<String>, cooling: Seq<bool>) -> Seq<String>
    decreases keys.len(),
{
    if keys.len() == 0 || cooling.len() == 0 {
        Seq::empty()
    } else {
        let r = alive_spec(keys.drop_last(), cooling.drop_last());
        if cooling.last() {
            r
        } else {
            r.push(keys.last())
        }
    }
}

/// What picking an exit IP decides before the cursor is needed.
#[derive(Debug)]
pub enum ExitIpPick {
    /// The pick is made: no IP for an empty pool, the first IP when every
    /// IP cools down (the pool must not close), the only usable IP.
    Chosen(Option<String>),
    /// Several IPs are usable: advance the cursor and rotate among them.
    Rotate(Vec<String>),
}

/// What picking an exit IP decides, given each IP's cool-down answer.
pub open spec fn spec_plan_exit_ip(pool: Seq<String>, cooling: Seq<bool>) -> (Option<Option<String>>, Seq<String>) {
    let usable = alive_spec(pool, cooling);
    if pool.len() == 0 {
        (Some(None), Seq::empty())
    } else if usable.len() == 0 {
        (Some(Some(pool[0])), Seq::empty())
    } else if usable.len() == 1 {
        (Some(Some(usable[0])), Seq::empty())
    } else {
        (None, usable)
    }
}

pub open spec fn exit_pick_view(p: ExitIpPick) -> (Option<Option<String>>, Seq<String>) {
    match p {
        ExitIpPick::Chosen(c) => (Some(c), Seq::empty()),
        ExitIpPick::Rotate(v) => (None, v@),
    }
}

/// Picks the exit IP of a request from the provider's pool (`cooling[i]`
/// is whether `exit_pool[i]` cools down).  Cooling IPs are skipped; with a
/// single usable IP the cursor is not advanced.
pub fn plan_exit_ip(exit_pool: &[String], cooling: &[bool]) -> (r: ExitIpPick)
    requires
        exit_pool@.len() == cooling@.len(),
    ensures
        exit_pick_view(r) == spec_plan_exit_ip(exit_pool@, cooling@),
{
    if exit_pool.len() == 0 {
        return ExitIpPick::Chosen(None);
    }
    let usable = alive_keys(exit_pool, cooling);
    if usable.len() == 0 {
        return ExitIpPick::Chosen(Some(exit_pool[0].clone()));
    }
    if usable.len() == 1 {
        return ExitIpPick::Chosen(Some(usable[0].clone()));
    }
    ExitIpPick::Rotate(usable)
}

/// The exit IP of a request: the plan's choice, or, when the plan rotates,
/// the usable IP at the cursor.
pub open spec fn spec_pick_exit_ip(pool: Seq<String>, cooling: Seq<bool>, cursor: u64) -> Option<
    Seq<char>,
> {
    let (chosen, usable) = spec_plan_exit_ip(pool, cooling);
    match chosen {
        Some(Some(ip)) => Some(ip@),
        Some(None) => None,
        None => rotation_pick(string_views(usable), cursor),
    }
}

/// What the keys that are not cooling down are: keys whose flag is false,
/// and at least one when some flag is false.
proof fn lemma_alive_spec(keys: Seq<String>, cooling: Seq<bool>)
    requires
        keys.len() == cooling.len(),
    ensures
        forall|k: int|
            0 <= k < alive_spec(keys, cooling).len() ==> exists|i: int|
                0 <= i < keys.len() && keys[i] == #[trigger] alive_spec(keys, cooling)[k] && !cooling[i],
        (exists|j: int| 0 <= j < keys.len() && !cooling[j]) ==> alive_spec(keys, cooling).len() > 0,
    decreases keys.len(),
{
    if keys.len() > 0 {
        let dk = keys.drop_last();
        let dc = cooling.drop_last();
        lemma_alive_spec(dk, dc);
        let r = alive_spec(dk, dc);
        let a = alive_spec(keys, cooling);
        assert forall|k: int| 0 <= k < a.len() implies exists|i: int|
            0 <= i < keys.len() && keys[i] == #[trigger] a[k] && !cooling[i] by {
            if k < r.len() {
                let i = choose|i: int| 0 <= i < dk.len() && dk[i] == r[k] && !dc[i];
                assert(keys[i] == a[k] && !cooling[i]);
            } else {
                let i = keys.len() - 1;
                assert(keys[i] == a[k] && !cooling[i]);
            }
        }
        if exists|j: int| 0 <= j < keys.len() && !cooling[j] {
            let j = choose|j: int| 0 <= j < keys.len() && !cooling[j];
            if j < keys.len() - 1 {
                assert(!dc[j]);
            }
        }
    }
}

/// Law: the exit IP of a request comes from the pool, and it cools down
/// only when every IP of the pool does; an empty pool gives none.
pub proof fn law_exit_ip_skips_cooling(pool: Seq<String>, cooling: Seq<bool>, cursor: u64)
    requires
        pool.len() == cooling.len(),
    ensures
        pool.len() == 0 ==> spec_pick_exit_ip(pool, cooling, cursor) is None,
        pool.len() > 0 ==> exists|i: int|
            0 <= i < pool.len() && spec_pick_exit_ip(pool, cooling, cursor) == Some(pool[i]@) && (
            !cooling[i] || forall|j: int| 0 <= j < pool.len() ==> cooling[j]),
{
    lemma_alive_spec(pool, cooling);
    let usable = alive_spec(pool, cooling);
    if pool.len() > 0 {
        if usable.len() == 0 {
            assert forall|j: int| 0 <= j < pool.len() implies cooling[j] by {}
            assert(spec_pick_exit_ip(pool, cooling, cursor) == Some(pool[0]@));
            let w: int = 0;
            assert(0 <= w < pool.len() && spec_pick_exit_ip(pool, cooling, cursor) == Some(pool[w]@)
                && (!cooling[w] || forall|j: int| 0 <= j < pool.len() ==> cooling[j]));
        } else {
            let k: int = if usable.len() == 1 {
                0
            } else {
                (cursor as nat % usable.len()) as int
            };
            assert(0 <= k < usable.len());
            let i = choose|i: int| 0 <= i < pool.len() && pool[i] == #[trigger] usable[k] && !cooling[i];
            assert(string_views(usable)[k] == usable[k]@);
            assert(spec_pick_exit_ip(pool, cooling, cursor) == Some(pool[i]@));
            assert(0 <= i < pool.len() && spec_pick_exit_ip(pool, cooling, cursor) == Some(pool[i]@)
                && (!cooling[i] || forall|j: int| 0 <= j < pool.len() ==> cooling[j]));
        }
    }
}


/// What reordering the pool's candidate slots decides before the cursor is
/// needed.
#[derive(Debug)]
pub enum SlotRotation {
    /// Leave the slots as they are: fewer than two slots, or every key
    /// cools down.
    Keep,
    /// One key is usable: it alone fills the slots, and the cursor is not
    /// consumed.
    Fixed(Vec<String>),
    /// Several keys are usable: advance the cursor and rotate them.
    Rotate(Vec<String>),
}

/// The decision for `keys` in slot order with their cool-down flags: 0 is
/// keep, 1 is fixed, 2 is rotate, with the usable keys.
pub open spec fn spec_slot_rotation(keys: Seq<String>, cooling: Seq<bool>) -> (u8, Seq<String>) {
    let alive = alive_spec(keys, cooling);
    if keys.len() < 2 || alive.len() == 0 {
        (0, Seq::empty())
    } else if alive.len() == 1 {
        (1, alive)
    } else {
        (2, alive)
    }
}

pub open spec fn slot_rotation_view(r: SlotRotation) -> (u8, Seq<String>) {
    match r {
        SlotRotation::Keep => (0, Seq::empty()),
        SlotRotation::Fixed(v) => (1, v@),
        SlotRotation::Rotate(v) => (2, v@),
    }
}

/// Decides how the pool's candidate slots are reordered.
pub fn plan_slot_rotation(key_ids_in_slot_order: &[String], cooling: &[bool]) -> (r: SlotRotation)
    requires
        key_ids_in_slot_order@.len() == cooling@.len(),
    ensures
        slot_rotation_view(r) == spec_slot_rotation(key_ids_in_slot_order@, cooling@),
{
    if key_ids_in_slot_order.len() < 2 {
        return SlotRotation::Keep;
    }
    let alive = alive_keys(key_ids_in_slot_order, cooling);
    if alive.len() == 0 {
        SlotRotation::Keep
    } else if alive.len() == 1 {
        SlotRotation::Fixed(alive)
    } else {
        SlotRotation::Rotate(alive)
    }
}

/// The slot order after rotating by `cursor`: slot `i` gets the key at
/// `cursor + i` (wrapping at 2^64) modulo the number of keys.
pub open spec fn rotated_slots(alive: Seq<Seq<char>>, cursor: u64) -> Seq<Seq<char>> {
    Seq::new(
        alive.len(),
        |i: int| alive[((((cursor as nat + i) % 0x1_0000_0000_0000_0000) as nat) % alive.len()) as int],
    )
}

/// Rotates the keys that are not cooling down over the pool's slots.
/// `None` (an empty list) means the slots stay as they are.
pub fn rotate_slots(alive: &[String], cursor: u64) -> (r: Option<Vec<String>>)
    ensures
        alive@.len() == 0 ==> r is None,
        alive@.len() > 0 ==> (r matches Some(v) && string_views(v@) == rotated_slots(
            string_views(alive@),
            cursor,
        )),
{
    let n = alive.len();
    if n == 0 {
        return None;
    }
    let ghost a = string_views(alive@);
    let mut out: Vec<String> = Vec::new();
    let mut offset: usize = 0;
    while offset < n
        invariant
            n == alive@.len(),
            n > 0,
            a == string_views(alive@),
            offset <= n,
            out@.len() == offset,
            forall|i: int| 0 <= i < offset ==> #[trigger] string_views(out@)[i] == rotated_slots(a, cursor)[i],
        decreases n - offset,
    {
        let c = cursor.wrapping_add(offset as u64);
        let picked = rotate_with_cursor(alive, c);
        match picked {
            Some(p) => {
                proof {
                    assert(c as nat == (cursor as nat + offset) % 0x1_0000_0000_0000_0000);
                }
                let ghost pv = p@;
                let ghost before = out@;
                assert(pv == rotated_slots(a, cursor)[offset as int]);
                out.push(p);
                assert forall|i: int| 0 <= i < offset + 1 implies #[trigger] string_views(out@)[i]
                    == rotated_slots(a, cursor)[i] by {
                    if i < offset {
                        assert(out@[i] == before[i]);
                        assert(string_views(before)[i] == rotated_slots(a, cursor)[i]);
                    } else {
                        assert(out@[i]@ == pv);
                    }
                }
            },
            None => {},
        }
        offset = offset + 1;
    }
    assert(string_views(out@) =~= rotated_slots(a, cursor));
    Some(out)
}

/// Law: when the cursor does not wrap, every key that is not cooling down
/// gets exactly one slot: the rotated order is the keys, shifted.
pub proof fn law_rotated_slots_cover_every_key(alive: Seq<Seq<char>>, cursor: u64, k: int)
    requires
        0 <= k < alive.len(),
        cursor + alive.len() <= u64::MAX,
    ensures
        exists|i: int| 0 <= i < alive.len() && #[trigger] rotated_slots(alive, cursor)[i] == alive[k],
        rotated_slots(alive, cursor).len() == alive.len(),
{
    let n = alive.len();
    let c = cursor as nat;
    let i: int = ((k + n - c % n) % (n as int));
    assert(0 <= i < n) by (nonlinear_arith)
        requires
            n > 0,
            i == (k + n - c % n) % (n as int),
    ;
    assert((c + i) % (n as int) == k) by (nonlinear_arith)
        requires
            n > 0,
            0 <= k < n,
            i == (k + n - c % n) % (n as int),
    ;
    assert((c + i) % 0x1_0000_0000_0000_0000 == c + i) by (nonlinear_arith)
        requires
            c + i < 0x1_0000_0000_0000_0000,
            0 <= i,
    ;
    assert(rotated_slots(alive, cursor)[i] == alive[k]);
}

} // verus!
