//! Enumeration of candidate exit IPs from IPv4 CIDR blocks.
//!
//! The candidates of a block are its addresses without the network and the
//! broadcast address (blocks larger than `/2` are cut to their first `2^30`
//! addresses).  All blocks are pooled, addresses already known are dropped,
//! and the result is the smallest `cap` of them in `String` order, each once.
//! The maintenance scanner also drops every address whose last octet is 0
//! or 255.
use vstd::prelude::*;

use crate::ip::{
    char_vecs, ipv4_chars, ipv4_text, lemma_pow2n_pos, parse_cidr, pow2_u64, pow2n, spec_parse_cidr,
};
use crate::text::{
    chars_eq, chars_lt, chars_of, dec_text, dec_value, digit_val, ends_with, is_digit,
    lemma_dec_text, lemma_seq_lt_irreflexive, lemma_seq_lt_total, lemma_seq_lt_transitive, seq_le,
    seq_lt, string_from_chars,
};

verus! {

/// The character views of a sequence of `String`s.
pub open spec fn string_views(v: Seq<String>) -> Seq<Seq<char>> {
    v.map_values(|s: String| s@)
}

/// Number of addresses enumerated for a block with a prefix of `bits` bits.
pub open spec fn host_count(bits: u32) -> nat {
    let host_bits: int = if 32 - bits >= 1 {
        32 - bits
    } else {
        1
    };
    let capped: int = if host_bits <= 30 {
        host_bits
    } else {
        30
    };
    pow2n(capped as nat)
}

/// The text of the address at offset `off` of the block starting at `net`.
pub open spec fn host_text(net: u32, off: nat) -> Seq<char> {
    ipv4_text((net + off) as u32)
}

/// Whether the address at offset `off` of the block at `net` is kept: every
/// address, or, when `skip_edges`, those whose last octet is neither 0 nor
/// 255 (`x.x.x.0` and `x.x.x.255`).
pub open spec fn host_kept(net: u32, off: nat, skip_edges: bool) -> bool {
    let last = ((net + off) as u32) % 256;
    !(skip_edges && (last == 0 || last == 255))
}

/// Whether `ip` is the text of an address of `cidr` other than its first and
/// last enumerated address (and, when `skip_edges`, not ending in octet 0
/// or 255).
pub open spec fn cidr_host(cidr: Seq<char>, ip: Seq<char>, skip_edges: bool) -> bool {
    match spec_parse_cidr(cidr) {
        Some((net, bits)) => exists|off: nat|
            1 <= off && off + 1 < host_count(bits) && ip == #[trigger] host_text(net, off)
                && host_kept(net, off, skip_edges),
        None => false,
    }
}

/// Whether `ip` is a scan candidate for the blocks `cidrs`, given the
/// addresses already `known`.
pub open spec fn is_scan_candidate(
    cidrs: Seq<Seq<char>>,
    known: Seq<Seq<char>>,
    ip: Seq<char>,
    skip_edges: bool,
) -> bool {
    &&& exists|k: int| 0 <= k < cidrs.len() && cidr_host(#[trigger] cidrs[k], ip, skip_edges)
    &&& !known.contains(ip)
}

pub open spec fn strictly_sorted(r: Seq<Seq<char>>) -> bool {
    forall|i: int, j: int| 0 <= i < j < r.len() ==> seq_lt(#[trigger] r[i], #[trigger] r[j])
}

/// `r` is the list of the smallest (at most `cap`) sequences satisfying
/// `pred`, in increasing order, each once.
pub open spec fn is_first_of(r: Seq<Seq<char>>, pred: spec_fn(Seq<char>) -> bool, cap: nat) -> bool {
    &&& strictly_sorted(r)
    &&& r.len() <= cap
    &&& forall|i: int| 0 <= i < r.len() ==> pred(#[trigger] r[i])
    &&& forall|x: Seq<char>|
        #[trigger] pred(x) && !r.contains(x) ==> r.len() == cap && seq_lt(r.last(), x)
}

/// `r` is the list of the smallest (at most `cap`) scan candidates, in
/// increasing order, each once.
pub open spec fn is_first_candidates(
    r: Seq<Seq<char>>,
    cidrs: Seq<Seq<char>>,
    known: Seq<Seq<char>>,
    cap: nat,
    skip_edges: bool,
) -> bool {
    is_first_of(r, |x: Seq<char>| is_scan_candidate(cidrs, known, x, skip_edges), cap)
}

proof fn lemma_first_of_same(
    r: Seq<Seq<char>>,
    p1: spec_fn(Seq<char>) -> bool,
    p2: spec_fn(Seq<char>) -> bool,
    cap: nat,
)
    requires
        is_first_of(r, p1, cap),
        forall|x: Seq<char>| #[trigger] p1(x) == p2(x),
    ensures
        is_first_of(r, p2, cap),
{
    assert forall|i: int| 0 <= i < r.len() implies p2(#[trigger] r[i]) by {
        assert(p1(r[i]));
    }
    assert forall|x: Seq<char>| #[trigger] p2(x) && !r.contains(x) implies r.len() == cap
        && seq_lt(r.last(), x) by {
        assert(p1(x));
    }
}

/// Adding `x` to the predicate as `insert_capped` adds it to the list.
proof fn lemma_first_of_add(
    o: Seq<Seq<char>>,
    n: Seq<Seq<char>>,
    p: spec_fn(Seq<char>) -> bool,
    q: spec_fn(Seq<char>) -> bool,
    x: Seq<char>,
    cap: nat,
)
    requires
        is_first_of(o, p, cap),
        forall|y: Seq<char>| #[trigger] q(y) == (p(y) || y == x),
        strictly_sorted(n),
        n.len() <= cap,
        forall|i: int| 0 <= i < n.len() ==> o.contains(#[trigger] n[i]) || n[i] == x,
        forall|y: Seq<char>|
            (o.contains(y) || y == x) && !n.contains(y) ==> n.len() == cap && seq_lt(n.last(), y),
        o.len() == cap ==> n.len() == cap && seq_le(n.last(), o.last()),
    ensures
        is_first_of(n, q, cap),
{
    assert forall|i: int| 0 <= i < n.len() implies q(#[trigger] n[i]) by {
        if o.contains(n[i]) {
            let j = choose|j: int| 0 <= j < o.len() && o[j] == n[i];
            assert(p(o[j]));
        }
    }
    assert forall|y: Seq<char>| #[trigger] q(y) && !n.contains(y) implies n.len() == cap && seq_lt(
        n.last(),
        y,
    ) by {
        if !(o.contains(y) || y == x) {
            assert(p(y));
            assert(o.len() == cap && seq_lt(o.last(), y));
            if n.last() != o.last() {
                lemma_seq_lt_transitive(n.last(), o.last(), y);
            }
        }
    }
}

/// Inserts `x` into the strictly sorted `r`, keeping at most `cap` smallest
/// elements.
fn insert_capped(r: &mut Vec<Vec<char>>, x: Vec<char>, cap: usize)
    requires
        strictly_sorted(char_vecs(old(r)@)),
        old(r)@.len() <= cap,
        cap >= 1,
    ensures
        strictly_sorted(char_vecs(final(r)@)),
        final(r)@.len() <= cap,
        forall|i: int|
            0 <= i < char_vecs(final(r)@).len() ==> char_vecs(old(r)@).contains(
                #[trigger] char_vecs(final(r)@)[i],
            ) || char_vecs(final(r)@)[i] == x@,
        forall|y: Seq<char>|
            (char_vecs(old(r)@).contains(y) || y == x@) && !char_vecs(final(r)@).contains(y)
                ==> final(r)@.len() == cap && seq_lt(char_vecs(final(r)@).last(), y),
        old(r)@.len() == cap ==> final(r)@.len() == cap && seq_le(
            char_vecs(final(r)@).last(),
            char_vecs(old(r)@).last(),
        ),
{
    let ghost o = char_vecs(r@);
    assert forall|i: int| 0 <= i < o.len() implies o.contains(#[trigger] o[i]) by {}
    let len = r.len();
    let mut lo: usize = 0;
    let mut hi: usize = len;
    while lo < hi
        invariant
            len == r@.len(),
            o == char_vecs(r@),
            strictly_sorted(o),
            lo <= hi <= len,
            forall|i: int| 0 <= i < lo ==> seq_lt(#[trigger] o[i], x@),
            forall|i: int| hi <= i < len ==> !seq_lt(#[trigger] o[i], x@),
        decreases hi - lo,
    {
        let mid = lo + (hi - lo) / 2;
        assert(r@[mid as int]@ == o[mid as int]);
        if chars_lt(&r[mid], &x) {
            proof {
                assert forall|i: int| 0 <= i < mid + 1 implies seq_lt(#[trigger] o[i], x@) by {
                    if i < mid {
                        assert(seq_lt(o[i], o[mid as int]));
                        lemma_seq_lt_transitive(o[i], o[mid as int], x@);
                    }
                }
            }
            lo = mid + 1;
        } else {
            proof {
                assert forall|i: int| mid <= i < len implies !seq_lt(#[trigger] o[i], x@) by {
                    if i > mid && seq_lt(o[i], x@) {
                        assert(seq_lt(o[mid as int], o[i]));
                        lemma_seq_lt_transitive(o[mid as int], o[i], x@);
                    }
                }
            }
            hi = mid;
        }
    }
    let pos = lo;
    if pos < len {
        assert(r@[pos as int]@ == o[pos as int]);
        if chars_eq(&r[pos], &x) {
            assert(o.contains(x@));
            return ;
        }
    }
    if pos == len && len == cap {
        proof {
            assert forall|y: Seq<char>|
                (o.contains(y) || y == x@) && !o.contains(y) implies r@.len() == cap && seq_lt(
                o.last(),
                y,
            ) by {
                assert(y == x@);
                assert(seq_lt(o[len - 1], x@));
            }
        }
        return ;
    }
    // Every element from `pos` on is greater than `x`.
    proof {
        assert forall|i: int| pos <= i < len implies seq_lt(x@, #[trigger] o[i]) by {
            lemma_seq_lt_total(o[i], x@);
            if i == pos {
                assert(o[i] != x@);
            } else {
                assert(seq_lt(o[pos as int], o[i]));
                lemma_seq_lt_total(o[pos as int], x@);
                lemma_seq_lt_transitive(x@, o[pos as int], o[i]);
            }
        }
    }
    let ghost xv = x@;
    r.insert(pos, x);
    let ghost ins = o.insert(pos as int, xv);
    assert(char_vecs(r@) =~= ins);
    assert(strictly_sorted(ins)) by {
        assert forall|i: int, j: int| 0 <= i < j < ins.len() implies seq_lt(
            #[trigger] ins[i],
            #[trigger] ins[j],
        ) by {
            if j < pos {
                assert(ins[i] == o[i] && ins[j] == o[j]);
            } else if j == pos {
                assert(ins[i] == o[i]);
            } else if i < pos {
                assert(ins[i] == o[i] && ins[j] == o[j - 1]);
                assert(seq_lt(o[i], xv));
                lemma_seq_lt_transitive(o[i], xv, o[j - 1]);
            } else if i == pos {
                assert(ins[j] == o[j - 1]);
            } else {
                assert(ins[i] == o[i - 1] && ins[j] == o[j - 1]);
            }
        }
    }
    assert forall|y: Seq<char>| o.contains(y) || y == xv implies ins.contains(y) by {
        if y == xv {
            assert(ins[pos as int] == y);
        } else {
            let k = choose|k: int| 0 <= k < o.len() && o[k] == y;
            if k < pos {
                assert(ins[k] == y);
            } else {
                assert(ins[k + 1] == y);
            }
        }
    }
    assert forall|i: int| 0 <= i < ins.len() implies o.contains(#[trigger] ins[i]) || ins[i] == xv by {
        if i < pos {
            assert(o[i] == ins[i]);
        } else if i > pos {
            assert(o[i - 1] == ins[i]);
        }
    }
    if r.len() > cap {
        let ghost dropped = ins.last();
        r.pop();
        let ghost fin = char_vecs(r@);
        assert(fin =~= ins.drop_last());
        assert(strictly_sorted(fin)) by {
            assert forall|i: int, j: int| 0 <= i < j < fin.len() implies seq_lt(
                #[trigger] fin[i],
                #[trigger] fin[j],
            ) by {
                assert(fin[i] == ins[i] && fin[j] == ins[j]);
            }
        }
        assert(seq_lt(fin.last(), dropped)) by {
            assert(fin.last() == ins[ins.len() - 2]);
        }
        assert forall|y: Seq<char>|
            (o.contains(y) || y == xv) && !fin.contains(y) implies r@.len() == cap && seq_lt(
            fin.last(),
            y,
        ) by {
            assert(ins.contains(y));
            let k = choose|k: int| 0 <= k < ins.len() && ins[k] == y;
            if k < ins.len() - 1 {
                assert(fin[k] == y);
            }
        }
        assert forall|i: int| 0 <= i < fin.len() implies o.contains(#[trigger] fin[i]) || fin[i]
            == xv by {
            assert(fin[i] == ins[i]);
        }
        proof {
            // The last kept element is at most the old last one.
            if pos < len {
                assert(fin.last() == ins[len - 1]);
                if pos == len - 1 {
                    assert(ins[len - 1] == xv);
                    assert(seq_lt(xv, o[len - 1]));
                } else {
                    assert(ins[len - 1] == o[len - 2]);
                    assert(seq_lt(o[len - 2], o[len - 1]));
                }
            }
        }
    } else {

    }
}

/// The candidate addresses of `cidrs` that are not `known`: the smallest
/// `cap` of them in `String` order, each once.
pub fn cidr_candidate_ips(cidrs: &[String], known_ips: &[String], cap: usize, skip_edges: bool) -> (out: Vec<String>)
    requires
        cap >= 1,
    ensures
        is_first_candidates(
            string_views(out@),
            string_views(cidrs@),
            string_views(known_ips@),
            cap as nat,
            skip_edges,
        ),
{
    let ghost cs = string_views(cidrs@);
    let ghost ks = string_views(known_ips@);
    let mut known: Vec<Vec<char>> = Vec::new();
    let nk = known_ips.len();
    let mut t: usize = 0;
    while t < nk
        invariant
            nk == known_ips@.len(),
            t <= nk,
            ks == string_views(known_ips@),
            known@.len() == t,
            char_vecs(known@) == ks.take(t as int),
        decreases nk - t,
    {
        let v = chars_of(known_ips[t].as_str());
        assert(ks[t as int] == known_ips@[t as int]@);
        let ghost before = known@;
        known.push(v);
        assert(known@ == before.push(known@[t as int]));
        assert forall|j: int| 0 <= j < t + 1 implies #[trigger] char_vecs(known@)[j] == ks.take(
            t + 1,
        )[j] by {
            if j < t {
                assert(char_vecs(before)[j] == ks.take(t as int)[j]);
            }
        }
        assert(char_vecs(known@) =~= ks.take(t + 1));
        t = t + 1;
    }
    assert(ks.take(nk as int) =~= ks);
    let mut r: Vec<Vec<char>> = Vec::new();
    let nc = cidrs.len();
    let mut k: usize = 0;
    assert(char_vecs(r@) =~= Seq::<Seq<char>>::empty());
    while k < nc
        invariant
            nc == cidrs@.len(),
            k <= nc,
            cap >= 1,
            cs == string_views(cidrs@),
            ks == string_views(known_ips@),
            char_vecs(known@) == ks,
            is_first_candidates(char_vecs(r@), cs.take(k as int), ks, cap as nat, skip_edges),
        decreases nc - k,
    {
        let ghost before = char_vecs(r@);
        assert(cs[k as int] == cidrs@[k as int]@);
        match parse_cidr(cidrs[k].as_str()) {
            None => {
                proof {
                    assert forall|x: Seq<char>|
                        is_scan_candidate(cs.take(k + 1), ks, x, skip_edges) implies is_scan_candidate(
                        cs.take(k as int),
                        ks,
                        x,
                        skip_edges,
                    ) by {
                        let j = choose|j: int|
                            0 <= j < k + 1 && cidr_host(#[trigger] cs.take(k + 1)[j], x, skip_edges);
                        assert(j != k);
                        assert(cs.take(k as int)[j] == cs.take(k + 1)[j]);
                    }
                    assert forall|x: Seq<char>|
                        is_scan_candidate(cs.take(k as int), ks, x, skip_edges) implies is_scan_candidate(
                        cs.take(k + 1),
                        ks,
                        x,
                        skip_edges,
                    ) by {
                        let j = choose|j: int|
                            0 <= j < k && cidr_host(#[trigger] cs.take(k as int)[j], x, skip_edges);
                        assert(cs.take(k as int)[j] == cs.take(k + 1)[j]);
                    }
                    lemma_first_of_same(
                        char_vecs(r@),
                        |x: Seq<char>| is_scan_candidate(cs.take(k as int), ks, x, skip_edges),
                        |x: Seq<char>| is_scan_candidate(cs.take(k + 1), ks, x, skip_edges),
                        cap as nat,
                    );
                }
            },
            Some((net, bits)) => {
                scan_block(&mut r, &known, net, bits, cap, skip_edges, Ghost(cs), Ghost(ks), Ghost(k as int));
            },
        }
        k = k + 1;
    }
    assert(cs.take(nc as int) =~= cs);
    let mut out: Vec<String> = Vec::new();
    let n = r.len();
    let mut i: usize = 0;
    while i < n
        invariant
            n == r@.len(),
            i <= n,
            out@.len() == i,
            string_views(out@) == char_vecs(r@).take(i as int),
        decreases n - i,
    {
        let s = string_from_chars(&r[i]);
        assert(char_vecs(r@)[i as int] == r@[i as int]@);
        let ghost before = out@;
        out.push(s);
        assert forall|j: int| 0 <= j < i + 1 implies #[trigger] string_views(out@)[j] == char_vecs(r@).take(i + 1)[j] by {
            if j < i {
                assert(string_views(before)[j] == char_vecs(r@).take(i as int)[j]);
                assert(out@[j] == before[j]);
            }
        }
        assert(string_views(out@) =~= char_vecs(r@).take(i + 1));
        i = i + 1;
    }
    assert(char_vecs(r@).take(n as int) =~= char_vecs(r@));
    out
}

/// Whether `x` occurs in `known`.
fn is_known(known: &Vec<Vec<char>>, x: &Vec<char>) -> (b: bool)
    ensures
        b == char_vecs(known@).contains(x@),
{
    let n = known.len();
    let mut i: usize = 0;
    while i < n
        invariant
            n == known@.len(),
            i <= n,
            forall|j: int| 0 <= j < i ==> char_vecs(known@)[j] != x@,
        decreases n - i,
    {
        if chars_eq(&known[i], x) {
            assert(char_vecs(known@)[i as int] == x@);
            return true;
        }
        i = i + 1;
    }
    false
}

/// The scan candidates of the first `k` blocks, plus the addresses of block
/// `k` at offsets below `off`.
pub open spec fn scanned_so_far(
    cs: Seq<Seq<char>>,
    ks: Seq<Seq<char>>,
    k: int,
    net: u32,
    off: nat,
    skip_edges: bool,
) -> spec_fn(Seq<char>) -> bool {
    |y: Seq<char>|
        is_scan_candidate(cs.take(k), ks, y, skip_edges) || (!ks.contains(y) && exists|o: nat|
            1 <= o < off && y == #[trigger] host_text(net, o) && host_kept(net, o, skip_edges))
}

/// Adds the candidates of one parsed block (`cs[k]`).
fn scan_block(
    r: &mut Vec<Vec<char>>,
    known: &Vec<Vec<char>>,
    net: u32,
    bits: u32,
    cap: usize,
    skip_edges: bool,
    Ghost(cs): Ghost<Seq<Seq<char>>>,
    Ghost(ks): Ghost<Seq<Seq<char>>>,
    Ghost(k): Ghost<int>,
)
    requires
        0 <= k < cs.len(),
        spec_parse_cidr(cs[k]) == Some((net, bits)),
        cap >= 1,
        char_vecs(known@) == ks,
        is_first_candidates(char_vecs(old(r)@), cs.take(k), ks, cap as nat, skip_edges),
    ensures
        is_first_candidates(char_vecs(final(r)@), cs.take(k + 1), ks, cap as nat, skip_edges),
{
    assert(1 <= bits <= 32);
    let host_bits: u32 = if 32 - bits >= 1 {
        32 - bits
    } else {
        1
    };
    let capped: u32 = if host_bits <= 30 {
        host_bits
    } else {
        30
    };
    let hc: u64 = pow2_u64(capped);
    assert(hc as nat == host_count(bits));
    assert(hc >= 2) by {
        assert(pow2n(capped as nat) == 2 * pow2n((capped - 1) as nat));
        lemma_pow2n_pos((capped - 1) as nat);
    }
    proof {
        lemma_first_of_same(
            char_vecs(r@),
            |x: Seq<char>| is_scan_candidate(cs.take(k), ks, x, skip_edges),
            scanned_so_far(cs, ks, k, net, 1, skip_edges),
            cap as nat,
        );
    }
    let mut off: u64 = 1;
    while off + 1 < hc
        invariant
            1 <= off < hc,
            hc <= 0x1_0000_0000,
            cap >= 1,
            char_vecs(known@) == ks,
            is_first_of(char_vecs(r@), scanned_so_far(cs, ks, k, net, off as nat, skip_edges), cap as nat),
        decreases hc - off,
    {
        let value = (net as u64 + off) as u32;
        let last = value % 256;
        let kept = !(skip_edges && (last == 0 || last == 255));
        assert(kept == host_kept(net, off as nat, skip_edges));
        let x = ipv4_chars(value);
        let ghost xv = x@;
        let ghost o = char_vecs(r@);
        let ghost p = scanned_so_far(cs, ks, k, net, off as nat, skip_edges);
        let ghost q = scanned_so_far(cs, ks, k, net, (off + 1) as nat, skip_edges);
        assert(xv == host_text(net, off as nat));
        if !kept || is_known(known, &x) {
            proof {
                lemma_step_skipped(cs, ks, k, net, off as nat, skip_edges);
                lemma_first_of_same(o, p, q, cap as nat);
            }
        } else {
            insert_capped(r, x, cap);
            proof {
                lemma_step_new(cs, ks, k, net, off as nat, skip_edges);
                lemma_first_of_add(o, char_vecs(r@), p, q, xv, cap as nat);
            }
        }
        off = off + 1;
    }
    proof {
        lemma_block_done(cs, ks, k, net, bits, off as nat, skip_edges);
        lemma_first_of_same(
            char_vecs(r@),
            scanned_so_far(cs, ks, k, net, off as nat, skip_edges),
            |x: Seq<char>| is_scan_candidate(cs.take(k + 1), ks, x, skip_edges),
            cap as nat,
        );
    }
}

/// An address that is known or not kept adds nothing.
proof fn lemma_step_skipped(
    cs: Seq<Seq<char>>,
    ks: Seq<Seq<char>>,
    k: int,
    net: u32,
    off: nat,
    skip_edges: bool,
)
    requires
        ks.contains(host_text(net, off)) || !host_kept(net, off, skip_edges),
    ensures
        forall|y: Seq<char>|
            #[trigger] scanned_so_far(cs, ks, k, net, off, skip_edges)(y) == scanned_so_far(
                cs,
                ks,
                k,
                net,
                off + 1,
                skip_edges,
            )(y),
{
    let p = scanned_so_far(cs, ks, k, net, off, skip_edges);
    let q = scanned_so_far(cs, ks, k, net, off + 1, skip_edges);
    assert forall|y: Seq<char>| #[trigger] p(y) == q(y) by {
        if q(y) && !is_scan_candidate(cs.take(k), ks, y, skip_edges) {
            let w = choose|w: nat|
                1 <= w < off + 1 && y == #[trigger] host_text(net, w) && host_kept(net, w, skip_edges);
            if w != off {
                assert(p(y));
            }
        }
        if p(y) && !is_scan_candidate(cs.take(k), ks, y, skip_edges) {
            let w = choose|w: nat|
                1 <= w < off && y == #[trigger] host_text(net, w) && host_kept(net, w, skip_edges);
            assert(1 <= w < off + 1);
        }
    }
}

proof fn lemma_step_new(
    cs: Seq<Seq<char>>,
    ks: Seq<Seq<char>>,
    k: int,
    net: u32,
    off: nat,
    skip_edges: bool,
)
    requires
        !ks.contains(host_text(net, off)),
        host_kept(net, off, skip_edges),
        off >= 1,
    ensures
        forall|y: Seq<char>|
            #[trigger] scanned_so_far(cs, ks, k, net, off + 1, skip_edges)(y) == (scanned_so_far(
                cs,
                ks,
                k,
                net,
                off,
                skip_edges,
            )(y) || y == host_text(net, off)),
{
    let p = scanned_so_far(cs, ks, k, net, off, skip_edges);
    let q = scanned_so_far(cs, ks, k, net, off + 1, skip_edges);
    assert forall|y: Seq<char>| #[trigger] q(y) == (p(y) || y == host_text(net, off)) by {
        if q(y) && !is_scan_candidate(cs.take(k), ks, y, skip_edges) {
            let w = choose|w: nat|
                1 <= w < off + 1 && y == #[trigger] host_text(net, w) && host_kept(net, w, skip_edges);
            if w != off {
                assert(p(y));
            }
        }
        if y == host_text(net, off) {
            assert(1 <= off < off + 1 && y == host_text(net, off) && host_kept(net, off, skip_edges));
        }
        if p(y) && !is_scan_candidate(cs.take(k), ks, y, skip_edges) {
            let w = choose|w: nat|
                1 <= w < off && y == #[trigger] host_text(net, w) && host_kept(net, w, skip_edges);
            assert(1 <= w < off + 1);
        }
    }
}

proof fn lemma_cidr_host_intro(cidr: Seq<char>, net: u32, bits: u32, w: nat, skip_edges: bool)
    requires
        spec_parse_cidr(cidr) == Some((net, bits)),
        1 <= w,
        w + 1 < host_count(bits),
        host_kept(net, w, skip_edges),
    ensures
        cidr_host(cidr, host_text(net, w), skip_edges),
{
    let (n2, b2) = spec_parse_cidr(cidr)->0;
    assert(n2 == net && b2 == bits);
    assert(1 <= w && w + 1 < host_count(b2) && host_text(net, w) == host_text(n2, w) && host_kept(
        n2,
        w,
        skip_edges,
    ));
}

#[verifier::rlimit(40)]
proof fn lemma_block_done(
    cs: Seq<Seq<char>>,
    ks: Seq<Seq<char>>,
    k: int,
    net: u32,
    bits: u32,
    off: nat,
    skip_edges: bool,
)
    requires
        0 <= k < cs.len(),
        spec_parse_cidr(cs[k]) == Some((net, bits)),
        off >= 1,
        off + 1 >= host_count(bits),
        off < host_count(bits),
    ensures
        forall|y: Seq<char>|
            #[trigger] scanned_so_far(cs, ks, k, net, off, skip_edges)(y) == is_scan_candidate(
                cs.take(k + 1),
                ks,
                y,
                skip_edges,
            ),
{
    let p = scanned_so_far(cs, ks, k, net, off, skip_edges);
    {
        assert forall|y: Seq<char>| #[trigger] p(y) == is_scan_candidate(cs.take(k + 1), ks, y, skip_edges) by {
            if is_scan_candidate(cs.take(k), ks, y, skip_edges) {
                let j = choose|j: int| 0 <= j < k && cidr_host(#[trigger] cs.take(k)[j], y, skip_edges);
                assert(cs.take(k + 1)[j] == cs.take(k)[j]);
            }
            if p(y) && !is_scan_candidate(cs.take(k), ks, y, skip_edges) {
                let w = choose|w: nat|
                    1 <= w < off && y == host_text(net, w as nat) && host_kept(net, w, skip_edges);
                lemma_cidr_host_intro(cs[k], net, bits, w, skip_edges);
                assert(cidr_host(cs[k], y, skip_edges));
                assert(cs.take(k + 1)[k] == cs[k]);
            }
            if is_scan_candidate(cs.take(k + 1), ks, y, skip_edges) {
                let j = choose|j: int|
                    0 <= j < k + 1 && cidr_host(#[trigger] cs.take(k + 1)[j], y, skip_edges);
                if j < k {
                    assert(cs.take(k)[j] == cs.take(k + 1)[j]);
                } else {
                    assert(cs.take(k + 1)[j] == cs[k]);
                    let w = choose|w: nat|
                        1 <= w && w + 1 < host_count(bits) && y == host_text(net, w as nat)
                            && host_kept(net, w, skip_edges);
                    assert(w < off);
                }
            }
        }
    }
}

/// The text of an address whose last octet is neither 0 nor 255 ends in
/// neither `.0` nor `.255`.
proof fn lemma_kept_text(v: u32)
    requires
        v % 256 != 0,
        v % 256 != 255,
    ensures
        !ends_with(ipv4_text(v), ".0"@),
        !ends_with(ipv4_text(v), ".255"@),
{
    reveal_strlit(".0");
    reveal_strlit(".255");
    let d = v as nat % 256;
    let t = ipv4_text(v);
    let x = dec_text(d);
    lemma_dec_text(d);
    let p = t.subrange(0, t.len() - x.len() - 1);
    assert(t == p + seq!['.'] + x);
    let n = t.len() as int;
    let m = x.len() as int;
    assert(t[n - 1] == x[m - 1]);
    if ends_with(t, ".0"@) {
        assert(t.subrange(n - 2, n)[0] == '.');
        if m >= 2 {
            assert(t[n - 2] == x[m - 2]);
            assert(is_digit(x[m - 2]));
        } else {
            let w = t.subrange(n - 2, n);
            assert(w == ".0"@);
            assert(w[1] == '0');
            assert(w[1] == t[n - 1]);
            assert(x[0] == '0');
            assert(digit_val('0') == 0);
            assert(x.drop_last() =~= Seq::<char>::empty());
            assert(dec_value(x) == dec_value(x.drop_last()) * 10 + digit_val(x.last()));
            assert(false);
        }
    }
    if ends_with(t, ".255"@) {
        let w = t.subrange(n - 4, n);
        assert(w[0] == '.' && w[1] == '2' && w[2] == '5' && w[3] == '5');
        if m == 1 {
            assert(t[n - 2] == '.');
            assert(w[2] == t[n - 2]);
        } else if m == 2 {
            assert(t[n - 3] == '.');
            assert(w[1] == t[n - 3]);
        } else {
            assert(m == 3);
            assert(x =~= seq!['2', '5', '5']) by {
                assert(x[0] == t[n - 3] && x[1] == t[n - 2] && x[2] == t[n - 1]);
            }
            let x2 = x.drop_last();
            let x1 = x2.drop_last();
            assert(x1 =~= seq!['2']);
            assert(digit_val('2') == 2);
            assert(digit_val('5') == 5);
            assert(x1.drop_last() =~= Seq::<char>::empty());
            assert(x1.last() == '2');
            assert(dec_value(x1.drop_last()) == 0);
            assert(dec_value(x1) == dec_value(x1.drop_last()) * 10 + digit_val(x1.last()));
            assert(dec_value(x1) == 2);
            assert(x2.last() == '5' && x.last() == '5');
            assert(dec_value(x2) == dec_value(x1) * 10 + digit_val(x2.last()));
            assert(dec_value(x2) == 25);
            assert(dec_value(x) == dec_value(x2) * 10 + digit_val(x.last()));
            assert(dec_value(x) == 255);
            assert(false);
        }
    }
}

/// Law: the candidates that skip edge octets (the maintenance scanner's)
/// hold no address that ends in `.0` or `.255`.
pub proof fn law_candidates_skip_edge_octets(
    r: Seq<Seq<char>>,
    cidrs: Seq<Seq<char>>,
    known: Seq<Seq<char>>,
    cap: nat,
)
    requires
        is_first_candidates(r, cidrs, known, cap, true),
    ensures
        forall|i: int|
            0 <= i < r.len() ==> !ends_with(#[trigger] r[i], ".0"@) && !ends_with(r[i], ".255"@),
{
    assert forall|i: int| 0 <= i < r.len() implies !ends_with(#[trigger] r[i], ".0"@) && !ends_with(
        r[i],
        ".255"@,
    ) by {
        assert(is_scan_candidate(cidrs, known, r[i], true));
        let k = choose|k: int| 0 <= k < cidrs.len() && cidr_host(#[trigger] cidrs[k], r[i], true);
        let (net, bits) = spec_parse_cidr(cidrs[k])->0;
        let off = choose|off: nat|
            1 <= off && off + 1 < host_count(bits) && r[i] == #[trigger] host_text(net, off)
                && host_kept(net, off, true);
        lemma_kept_text((net + off) as u32);
    }
}

} // verus!
