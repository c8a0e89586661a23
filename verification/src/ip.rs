//! IP address text: dotted-decimal IPv4 parsing and formatting, IPv4 CIDR
//! blocks, and general `IpAddr` parsing.
use vstd::prelude::*;

use crate::text::{
    all_digits, chars_of, dec_text, dec_value, is_digit, parse_u32_chars, parse_unsigned,
    push_decimal_chars, trim, trim_chars,
};

verus! {

/// An IP address as plain integers (`IpAddr::V4` / `IpAddr::V6`).
#[derive(Clone, Copy, Debug, PartialEq, Eq, Structural)]
pub enum IpValue {
    V4(u32),
    V6(u128),
}

/// Splits `s` at every `sep` (`str::split` with a `char` pattern).
pub open spec fn split_on(s: Seq<char>, sep: char) -> Seq<Seq<char>>
    decreases s.len(),
{
    if s.len() == 0 {
        seq![Seq::<char>::empty()]
    } else {
        let r = split_on(s.drop_last(), sep);
        if s.last() == sep {
            r.push(Seq::<char>::empty())
        } else {
            r.update(r.len() - 1, r.last().push(s.last()))
        }
    }
}

pub proof fn lemma_split_on_nonempty(s: Seq<char>, sep: char)
    ensures
        split_on(s, sep).len() >= 1,
    decreases s.len(),
{
    if s.len() > 0 {
        lemma_split_on_nonempty(s.drop_last(), sep);
    }
}

/// One octet of a dotted-decimal IPv4 address: one to three decimal digits,
/// no leading zero (octal forms are refused), and a value of at most 255.
pub open spec fn is_octet_text(p: Seq<char>) -> bool {
    &&& 1 <= p.len() <= 3
    &&& all_digits(p)
    &&& (p.len() == 1 || p[0] != '0')
    &&& dec_value(p) <= 255
}

pub open spec fn octets_value(a: nat, b: nat, c: nat, d: nat) -> nat {
    a * 16777216 + b * 65536 + c * 256 + d
}

/// `Ipv4Addr`'s `FromStr`: exactly four dot-separated octets.
pub open spec fn spec_parse_ipv4(s: Seq<char>) -> Option<u32> {
    let parts = split_on(s, '.');
    if parts.len() == 4 && is_octet_text(parts[0]) && is_octet_text(parts[1]) && is_octet_text(
        parts[2],
    ) && is_octet_text(parts[3]) {
        Some(
            octets_value(
                dec_value(parts[0]),
                dec_value(parts[1]),
                dec_value(parts[2]),
                dec_value(parts[3]),
            ) as u32,
        )
    } else {
        None
    }
}

/// The dotted-decimal text of an IPv4 address (`Ipv4Addr`'s `Display`).
pub open spec fn ipv4_text(v: u32) -> Seq<char> {
    dec_text(v as nat / 16777216) + seq!['.'] + dec_text((v as nat / 65536) % 256) + seq!['.']
        + dec_text((v as nat / 256) % 256) + seq!['.'] + dec_text(v as nat % 256)
}

/// Character vectors viewed as sequences.
pub open spec fn char_vecs(v: Seq<Vec<char>>) -> Seq<Seq<char>> {
    Seq::new(v.len(), |i: int| v[i]@)
}

/// Splits a character slice at every `sep`.
pub fn split_chars(s: &[char], sep: char) -> (parts: Vec<Vec<char>>)
    ensures
        char_vecs(parts@) == split_on(s@, sep),
{
    let n = s.len();
    let mut done: Vec<Vec<char>> = Vec::new();
    let mut cur: Vec<char> = Vec::new();
    let mut i: usize = 0;
    assert(s@.take(0) =~= Seq::<char>::empty());
    assert(char_vecs(done@).push(cur@) =~= split_on(s@.take(0), sep));
    while i < n
        invariant
            n == s@.len(),
            i <= n,
            char_vecs(done@).push(cur@) == split_on(s@.take(i as int), sep),
        decreases n - i,
    {
        let c = s[i];
        let ghost prev = s@.take(i as int);
        assert(s@.take(i + 1).drop_last() =~= prev);
        assert(s@.take(i + 1).last() == c);
        if c == sep {
            let ghost old_done = done@;
            done.push(cur);
            cur = Vec::new();
            assert(char_vecs(done@) =~= char_vecs(old_done).push(split_on(prev, sep).last()));
            assert(char_vecs(done@).push(cur@) =~= split_on(s@.take(i + 1), sep));
        } else {
            let ghost old_cur = cur@;
            cur.push(c);
            assert(char_vecs(done@).push(cur@) =~= split_on(s@.take(i + 1), sep));
        }
        i = i + 1;
    }
    assert(s@.take(n as int) =~= s@);
    let ghost before = char_vecs(done@);
    done.push(cur);
    assert(char_vecs(done@) =~= before.push(done@[done@.len() - 1]@));
    done
}

/// The value of one IPv4 octet text, when it is one.
pub fn octet_value(p: &[char]) -> (r: Option<u32>)
    ensures
        r is Some <==> is_octet_text(p@),
        r matches Some(v) ==> v as nat == dec_value(p@),
{
    let n = p.len();
    if n < 1 || n > 3 {
        return None;
    }
    if n > 1 && p[0] == '0' {
        return None;
    }
    let mut acc: u32 = 0;
    let mut i: usize = 0;
    while i < n
        invariant
            n == p@.len(),
            1 <= n <= 3,
            i <= n,
            all_digits(p@.take(i as int)),
            acc as nat == dec_value(p@.take(i as int)),
            acc < 1000,
            i == 0 ==> acc == 0,
            i == 1 ==> acc < 10,
            i == 2 ==> acc < 100,
        decreases n - i,
    {
        let c = p[i];
        if !('0' <= c && c <= '9') {
            assert(!is_digit(p@[i as int]));
            return None;
        }
        assert(p@.take(i + 1).drop_last() =~= p@.take(i as int));
        acc = acc * 10 + (c as u32 - 48);
        i = i + 1;
    }
    assert(p@.take(n as int) =~= p@);
    if acc > 255 {
        None
    } else {
        Some(acc)
    }
}

/// Parses dotted-decimal IPv4 text (`Ipv4Addr`'s `FromStr`).
pub fn parse_ipv4_chars(s: &[char]) -> (r: Option<u32>)
    ensures
        r == spec_parse_ipv4(s@),
{
    let parts = split_chars(s, '.');
    assert(parts@.len() == split_on(s@, '.').len());
    if parts.len() != 4 {
        return None;
    }
    proof {
        assert(char_vecs(parts@)[0] == parts@[0]@);
        assert(char_vecs(parts@)[1] == parts@[1]@);
        assert(char_vecs(parts@)[2] == parts@[2]@);
        assert(char_vecs(parts@)[3] == parts@[3]@);
    }
    let a = match octet_value(&parts[0]) {
        Some(v) => v,
        None => return None,
    };
    let b = match octet_value(&parts[1]) {
        Some(v) => v,
        None => return None,
    };
    let c = match octet_value(&parts[2]) {
        Some(v) => v,
        None => return None,
    };
    let d = match octet_value(&parts[3]) {
        Some(v) => v,
        None => return None,
    };
    Some(a * 16777216 + b * 65536 + c * 256 + d)
}

/// Appends the dotted-decimal text of an IPv4 address.
pub fn push_ipv4_chars(out: &mut Vec<char>, v: u32)
    ensures
        final(out)@ == old(out)@ + ipv4_text(v),
{
    push_decimal_chars(out, (v / 16777216) as u64);
    out.push('.');
    push_decimal_chars(out, ((v / 65536) % 256) as u64);
    out.push('.');
    push_decimal_chars(out, ((v / 256) % 256) as u64);
    out.push('.');
    push_decimal_chars(out, (v % 256) as u64);
    assert(final(out)@ =~= old(out)@ + ipv4_text(v));
}

/// The dotted-decimal text of an IPv4 address.
pub fn ipv4_chars(v: u32) -> (out: Vec<char>)
    ensures
        out@ == ipv4_text(v),
{
    let mut out: Vec<char> = Vec::new();
    push_ipv4_chars(&mut out, v);
    assert(out@ =~= ipv4_text(v));
    out
}

pub open spec fn is_hex_digit(c: char) -> bool {
    ('0' <= c && c <= '9') || ('a' <= c && c <= 'f') || ('A' <= c && c <= 'F')
}

pub open spec fn hex_digit_value(c: char) -> nat {
    if '0' <= c && c <= '9' {
        ((c as u32) - 48) as nat
    } else if 'a' <= c && c <= 'f' {
        ((c as u32) - 87) as nat
    } else {
        ((c as u32) - 55) as nat
    }
}

pub open spec fn hex_value(s: Seq<char>) -> nat
    decreases s.len(),
{
    if s.len() == 0 {
        0
    } else {
        hex_value(s.drop_last()) * 16 + hex_digit_value(s.last())
    }
}

/// One IPv6 group: one to four hex digits (leading zeros allowed).
pub open spec fn is_hex_group(p: Seq<char>) -> bool {
    &&& 1 <= p.len() <= 4
    &&& forall|i: int| 0 <= i < p.len() ==> is_hex_digit(#[trigger] p[i])
}

/// The 16-bit groups that a list of colon-separated parts stands for: each
/// hex group is one, an embedded IPv4 address (allowed as the last part) is
/// two.  `None` when a part is neither.
pub open spec fn parts_groups(ps: Seq<Seq<char>>, v4_last: bool) -> Option<Seq<u16>>
    decreases ps.len(),
{
    if ps.len() == 0 {
        Some(Seq::empty())
    } else {
        match parts_groups(ps.drop_last(), false) {
            None => None,
            Some(front) => if is_hex_group(ps.last()) {
                Some(front.push(hex_value(ps.last()) as u16))
            } else if v4_last && spec_parse_ipv4(ps.last()) is Some {
                let v = spec_parse_ipv4(ps.last())->0;
                Some(front.push((v / 65536) as u16).push((v % 65536) as u16))
            } else {
                None
            },
        }
    }
}

/// The address made of eight 16-bit groups, most significant first.
pub open spec fn groups_value(gs: Seq<u16>) -> nat
    decreases gs.len(),
{
    if gs.len() == 0 {
        0
    } else {
        groups_value(gs.drop_last()) * 65536 + gs.last() as nat
    }
}

pub open spec fn all_empty(ps: Seq<Seq<char>>) -> bool {
    forall|i: int| 0 <= i < ps.len() ==> (#[trigger] ps[i]).len() == 0
}

/// `head` groups, then zero groups, then `tail` groups, when at least one
/// zero group fits.
pub open spec fn compressed(head: Seq<Seq<char>>, tail: Seq<Seq<char>>) -> Option<u128> {
    match (parts_groups(head, false), parts_groups(tail, true)) {
        (Some(h), Some(t)) => if h.len() + t.len() <= 7 {
            Some(
                groups_value(
                    h + Seq::new((8 - h.len() - t.len()) as nat, |i: int| 0u16) + t,
                ) as u128,
            )
        } else {
            None
        },
        _ => None,
    }
}

/// `Ipv6Addr`'s `FromStr`: eight colon-separated groups of one to four hex
/// digits, the last two of which may be written as an IPv4 address; one
/// `::` may stand for one or more zero groups.
pub open spec fn spec_parse_ipv6(s: Seq<char>) -> Option<u128> {
    let p = split_on(s, ':');
    let n = p.len();
    if n == 3 && all_empty(p) {
        Some(0)
    } else if n >= 3 && p[0].len() == 0 && p[1].len() == 0 {
        let tail = p.skip(2);
        if tail.len() == 0 || !(forall|i: int| 0 <= i < tail.len() ==> (#[trigger] tail[i]).len() > 0) {
            None
        } else {
            compressed(Seq::empty(), tail)
        }
    } else if n >= 3 && p[n - 1].len() == 0 && p[n - 2].len() == 0 {
        compressed(p.take(n - 2), Seq::empty())
    } else if exists|k: int| 0 < k < n - 1 && (#[trigger] p[k]).len() == 0 {
        let k = choose|k: int| 0 < k < n - 1 && (#[trigger] p[k]).len() == 0;
        compressed(p.take(k), p.skip(k + 1))
    } else {
        match parts_groups(p, true) {
            Some(g) => if g.len() == 8 {
                Some(groups_value(g) as u128)
            } else {
                None
            },
            None => None,
        }
    }
}

/// `IpAddr`'s `FromStr`: an IPv4 address, or else an IPv6 address.
pub open spec fn spec_parse_ip_addr(s: Seq<char>) -> Option<IpValue> {
    match spec_parse_ipv4(s) {
        Some(v) => Some(IpValue::V4(v)),
        None => match spec_parse_ipv6(s) {
            Some(v) => Some(IpValue::V6(v)),
            None => None,
        },
    }
}

/// A part that stands for groups is never empty.
proof fn lemma_parts_groups_nonempty(ps: Seq<Seq<char>>, v4_last: bool)
    requires
        parts_groups(ps, v4_last) is Some,
    ensures
        forall|i: int| 0 <= i < ps.len() ==> (#[trigger] ps[i]).len() > 0,
    decreases ps.len(),
{
    if ps.len() > 0 {
        lemma_parts_groups_nonempty(ps.drop_last(), false);
        assert(split_on(Seq::<char>::empty(), '.').len() == 1);
        assert forall|i: int| 0 <= i < ps.len() implies (#[trigger] ps[i]).len() > 0 by {
            if i < ps.len() - 1 {
                assert(ps.drop_last()[i] == ps[i]);
            } else if ps[i].len() == 0 {
                assert(ps[i] =~= Seq::<char>::empty());
            }
        }
    }
}

fn hex_group_value(p: &[char]) -> (r: Option<u16>)
    ensures
        r is Some <==> is_hex_group(p@),
        r matches Some(v) ==> v as nat == hex_value(p@),
{
    let n = p.len();
    if n < 1 || n > 4 {
        return None;
    }
    let mut acc: u32 = 0;
    let mut i: usize = 0;
    while i < n
        invariant
            n == p@.len(),
            1 <= n <= 4,
            i <= n,
            forall|k: int| 0 <= k < i ==> is_hex_digit(#[trigger] p@[k]),
            acc as nat == hex_value(p@.take(i as int)),
            i == 0 ==> acc == 0,
            i == 1 ==> acc < 16,
            i == 2 ==> acc < 256,
            i == 3 ==> acc < 4096,
            i == 4 ==> acc < 65536,
        decreases n - i,
    {
        let c = p[i];
        let d: u32 = if '0' <= c && c <= '9' {
            c as u32 - 48
        } else if 'a' <= c && c <= 'f' {
            c as u32 - 87
        } else if 'A' <= c && c <= 'F' {
            c as u32 - 55
        } else {
            assert(!is_hex_digit(p@[i as int]));
            return None;
        };
        assert(p@.take(i + 1).drop_last() =~= p@.take(i as int));
        acc = acc * 16 + d;
        i = i + 1;
    }
    assert(p@.take(n as int) =~= p@);
    Some(acc as u16)
}

/// The groups of the parts `ps[start..end]`.
fn parts_groups_exec(ps: &Vec<Vec<char>>, start: usize, end: usize, v4_last: bool) -> (r: Option<
    Vec<u16>,
>)
    requires
        start <= end <= ps@.len(),
    ensures
        r matches Some(g) ==> parts_groups(char_vecs(ps@).subrange(start as int, end as int), v4_last)
            == Some(g@),
        r is None ==> parts_groups(char_vecs(ps@).subrange(start as int, end as int), v4_last) is None,
{
    let ghost cv = char_vecs(ps@);
    let mut g: Vec<u16> = Vec::new();
    if start == end {
        assert(cv.subrange(start as int, end as int) =~= Seq::<Seq<char>>::empty());
        return Some(g);
    }
    let last = end - 1;
    let mut i: usize = start;
    assert(cv.subrange(start as int, start as int) =~= Seq::<Seq<char>>::empty());
    while i < last
        invariant
            start <= i <= last,
            last + 1 == end,
            end <= ps@.len(),
            cv == char_vecs(ps@),
            parts_groups(cv.subrange(start as int, i as int), false) == Some(g@),
        decreases last - i,
    {
        assert(cv.subrange(start as int, i + 1).drop_last() =~= cv.subrange(start as int, i as int));
        assert(cv[i as int] == ps@[i as int]@);
        match hex_group_value(&ps[i]) {
            Some(v) => {
                g.push(v);
            },
            None => {
                proof {
                    if spec_parse_ipv4(cv[i as int]) is Some {
                    }
                    lemma_parts_groups_prefix_none(cv.subrange(start as int, end as int), (i - start + 1) as int);
                    assert(cv.subrange(start as int, end as int).take((i - start + 1) as int) =~= cv.subrange(start as int, i + 1));
                }
                return None;
            },
        }
        i = i + 1;
    }
    let ghost front = cv.subrange(start as int, last as int);
    assert(cv.subrange(start as int, end as int).drop_last() =~= front);
    assert(cv[last as int] == ps@[last as int]@);
    match hex_group_value(&ps[last]) {
        Some(v) => {
            g.push(v);
            Some(g)
        },
        None => {
            if v4_last {
                match parse_ipv4_chars(&ps[last]) {
                    Some(a) => {
                        g.push((a / 65536) as u16);
                        g.push((a % 65536) as u16);
                        Some(g)
                    },
                    None => None,
                }
            } else {
                None
            }
        },
    }
}

/// A prefix that stands for no groups makes the whole list stand for none.
proof fn lemma_parts_groups_prefix_none(ps: Seq<Seq<char>>, k: int)
    requires
        0 < k <= ps.len(),
        parts_groups(ps.take(k), false) is None,
    ensures
        parts_groups(ps, false) is None,
        parts_groups(ps, true) is None || k == ps.len(),
    decreases ps.len() - k,
{
    if k < ps.len() {
        assert(ps.drop_last().take(k) =~= ps.take(k));
        lemma_parts_groups_prefix_none(ps.drop_last(), k);
    } else {
        assert(ps.take(k) =~= ps);
    }
}

proof fn lemma_groups_value_bound(gs: Seq<u16>)
    ensures
        groups_value(gs) < pow2n(16 * gs.len()),
    decreases gs.len(),
{
    if gs.len() > 0 {
        lemma_groups_value_bound(gs.drop_last());
        lemma_pow2n_add(16 * (gs.len() - 1) as nat, 16);
        reveal_with_fuel(pow2n, 17);
        assert(groups_value(gs) < pow2n(16 * gs.len())) by (nonlinear_arith)
            requires
                groups_value(gs) == groups_value(gs.drop_last()) * 65536 + gs.last() as nat,
                groups_value(gs.drop_last()) < pow2n(16 * (gs.len() - 1) as nat),
                pow2n(16 * gs.len()) == pow2n(16 * (gs.len() - 1) as nat) * pow2n(16),
                pow2n(16) == 65536,
                gs.last() < 65536,
        ;
    }
}

proof fn lemma_pow2n_add(a: nat, b: nat)
    ensures
        pow2n(a + b) == pow2n(a) * pow2n(b),
    decreases a,
{
    if a > 0 {
        let a1 = (a - 1) as nat;
        lemma_pow2n_add(a1, b);
        assert((a + b) as nat - 1 == a1 + b);
        assert(pow2n(a + b) == 2 * pow2n(a1 + b));
        assert(pow2n(a) == 2 * pow2n(a1));
        assert(pow2n(a + b) == pow2n(a) * pow2n(b)) by (nonlinear_arith)
            requires
                pow2n(a + b) == 2 * pow2n(a1 + b),
                pow2n(a1 + b) == pow2n(a1) * pow2n(b),
                pow2n(a) == 2 * pow2n(a1),
        ;
    } else {
        assert(pow2n(a) == 1);
        assert(a + b == b);
    }
}

/// The 128-bit value of eight groups.
fn groups_to_u128(g: &Vec<u16>) -> (v: u128)
    requires
        g@.len() == 8,
    ensures
        v as nat == groups_value(g@),
{
    let mut acc: u128 = 0;
    let mut i: usize = 0;
    proof {
        lemma_pow2n_add(112, 16);
        reveal_with_fuel(pow2n, 17);
    }
    while i < 8
        invariant
            g@.len() == 8,
            i <= 8,
            acc as nat == groups_value(g@.take(i as int)),
            pow2n(128) == pow2n(112) * 65536,
        decreases 8 - i,
    {
        proof {
            lemma_groups_value_bound(g@.take(i as int));
            lemma_pow2n_mono(16 * i as nat, 112);
            assert(g@.take(i + 1).drop_last() =~= g@.take(i as int));
            assert(acc * 65536 + g@[i as int] < pow2n(128)) by (nonlinear_arith)
                requires
                    acc < pow2n(16 * i as nat),
                    pow2n(16 * i as nat) <= pow2n(112),
                    pow2n(128) == pow2n(112) * 65536,
                    g@[i as int] < 65536,
            ;
            lemma_pow2n_128();
        }
        acc = acc * 65536 + g[i] as u128;
        i = i + 1;
    }
    assert(g@.take(8) =~= g@);
    acc
}

proof fn lemma_pow2n_128()
    ensures
        pow2n(128) == 0x1_0000_0000_0000_0000_0000_0000_0000_0000,
{
    lemma_pow2n_add(64, 64);
    lemma_pow2n_add(32, 32);
    lemma_pow2n_32();
    assert(pow2n(64) == 0x1_0000_0000_0000_0000) by (nonlinear_arith)
        requires
            pow2n(64) == pow2n(32) * pow2n(32),
            pow2n(32) == 0x1_0000_0000,
    ;
    assert(pow2n(128) == 0x1_0000_0000_0000_0000_0000_0000_0000_0000) by (nonlinear_arith)
        requires
            pow2n(128) == pow2n(64) * pow2n(64),
            pow2n(64) == 0x1_0000_0000_0000_0000,
    ;
}

/// `head` groups, zeros, `tail` groups.
fn compressed_exec(ps: &Vec<Vec<char>>, hs: usize, he: usize, ts: usize, te: usize) -> (r: Option<
    u128,
>)
    requires
        hs <= he <= ps@.len(),
        ts <= te <= ps@.len(),
    ensures
        r == compressed(
            char_vecs(ps@).subrange(hs as int, he as int),
            char_vecs(ps@).subrange(ts as int, te as int),
        ),
{
    let h = match parts_groups_exec(ps, hs, he, false) {
        Some(h) => h,
        None => return None,
    };
    let t = match parts_groups_exec(ps, ts, te, true) {
        Some(t) => t,
        None => return None,
    };
    if h.len() > 7 || t.len() > 7 - h.len() {
        return None;
    }
    let mut all: Vec<u16> = Vec::new();
    let mut i: usize = 0;
    while i < h.len()
        invariant
            i <= h@.len(),
            all@ == h@.take(i as int),
        decreases h@.len() - i,
    {
        all.push(h[i]);
        assert(h@.take(i + 1) =~= h@.take(i as int).push(h@[i as int]));
        i = i + 1;
    }
    assert(h@.take(h@.len() as int) =~= h@);
    let zeros = 8 - h.len() - t.len();
    let mut z: usize = 0;
    while z < zeros
        invariant
            z <= zeros,
            zeros == 8 - h@.len() - t@.len(),
            all@ == h@ + Seq::new(z as nat, |k: int| 0u16),
        decreases zeros - z,
    {
        all.push(0);
        assert(all@ =~= h@ + Seq::new((z + 1) as nat, |k: int| 0u16));
        z = z + 1;
    }
    let mut j: usize = 0;
    while j < t.len()
        invariant
            j <= t@.len(),
            zeros == 8 - h@.len() - t@.len(),
            all@ == h@ + Seq::new(zeros as nat, |k: int| 0u16) + t@.take(j as int),
        decreases t@.len() - j,
    {
        all.push(t[j]);
        assert(all@ =~= h@ + Seq::new(zeros as nat, |k: int| 0u16) + t@.take(j + 1));
        j = j + 1;
    }
    assert(t@.take(t@.len() as int) =~= t@);
    let v = groups_to_u128(&all);
    Some(v)
}

/// Parses IPv6 text (`Ipv6Addr`'s `FromStr`).
pub fn parse_ipv6_chars(s: &[char]) -> (r: Option<u128>)
    ensures
        r == spec_parse_ipv6(s@),
{
    let p = split_chars(s, ':');
    let ghost cv = char_vecs(p@);
    assert(cv == split_on(s@, ':'));
    let n = p.len();
    assert(cv.len() == n);
    proof {
        lemma_split_on_nonempty(s@, ':');
    }
    if n == 3 && p[0].len() == 0 && p[1].len() == 0 && p[2].len() == 0 {
        assert(cv[0] == p@[0]@ && cv[1] == p@[1]@ && cv[2] == p@[2]@);
        assert(all_empty(cv));
        return Some(0);
    }
    proof {
        if n == 3 && all_empty(cv) {
            assert(cv[0].len() == 0 && cv[1].len() == 0 && cv[2].len() == 0);
            assert(cv[0] == p@[0]@ && cv[1] == p@[1]@ && cv[2] == p@[2]@);
        }
    }
    if n >= 3 && p[0].len() == 0 && p[1].len() == 0 {
        assert(cv[0] == p@[0]@ && cv[1] == p@[1]@);
        let ghost tail = cv.skip(2);
        assert(tail =~= cv.subrange(2, n as int));
        let mut i: usize = 2;
        while i < n
            invariant
                2 <= i <= n,
                n == p@.len(),
                cv == char_vecs(p@),
                tail == cv.skip(2),
                !(n == 3 && all_empty(cv)),
                cv[0].len() == 0,
                cv[1].len() == 0,
                cv == split_on(s@, ':'),
                forall|k: int| 2 <= k < i ==> (#[trigger] cv[k]).len() > 0,
            decreases n - i,
        {
            assert(cv[i as int] == p@[i as int]@);
            if p[i].len() == 0 {
                assert(tail[i - 2] == cv[i as int]);
                assert(tail[i - 2].len() == 0);
                assert(!(forall|j: int| 0 <= j < tail.len() ==> (#[trigger] tail[j]).len() > 0));
                assert(!(n == 3 && all_empty(cv)));
                return None;
            }
            i = i + 1;
        }
        assert forall|k: int| 0 <= k < tail.len() implies (#[trigger] tail[k]).len() > 0 by {
            assert(tail[k] == cv[k + 2]);
        }
        let r = compressed_exec(&p, 0, 0, 2, n);
        assert(cv.subrange(0, 0) =~= Seq::<Seq<char>>::empty());
        return r;
    }
    if n >= 3 && p[n - 1].len() == 0 && p[n - 2].len() == 0 {
        assert(cv[n - 1] == p@[n - 1]@ && cv[n - 2] == p@[n - 2]@);
        assert(!(cv[0].len() == 0 && cv[1].len() == 0));
        let r = compressed_exec(&p, 0, n - 2, 0, 0);
        assert(cv.subrange(0, (n - 2) as int) =~= cv.take(n - 2));
        assert(cv.subrange(0, 0) =~= Seq::<Seq<char>>::empty());
        return r;
    }
    proof {
        if n >= 3 {
            assert(cv[0] == p@[0]@ && cv[1] == p@[1]@);
            assert(cv[n - 1] == p@[n - 1]@ && cv[n - 2] == p@[n - 2]@);
        }
    }
    // Look for the `::` in the middle.
    let mut k: usize = 1;
    while k < n - 1 && p[k].len() != 0
        invariant
            1 <= k,
            n >= 1,
            n == p@.len(),
            cv == char_vecs(p@),
            forall|j: int| 0 < j < k && j < n - 1 ==> (#[trigger] cv[j]).len() > 0,
        decreases n - k,
    {
        assert(cv[k as int] == p@[k as int]@);
        k = k + 1;
    }
    if k < n - 1 {
        assert(cv[k as int] == p@[k as int]@);
        assert(cv[k as int].len() == 0);
        let r = compressed_exec(&p, 0, k, k + 1, n);
        proof {
            let c = choose|c: int| 0 < c < n - 1 && (#[trigger] cv[c]).len() == 0;
            assert(cv.subrange(0, k as int) =~= cv.take(k as int));
            assert(cv.subrange(k + 1, n as int) =~= cv.skip(k + 1));
            if c != k {
                assert(c > k);
                // The other empty part lies in the tail: no groups either way.
                assert(cv.skip(k + 1)[c - k - 1].len() == 0);
                if parts_groups(cv.skip(k + 1), true) is Some {
                    lemma_parts_groups_nonempty(cv.skip(k + 1), true);
                }
                assert(cv.take(c)[k as int].len() == 0);
                if parts_groups(cv.take(c), false) is Some {
                    lemma_parts_groups_nonempty(cv.take(c), false);
                }
            }
        }
        return r;
    }
    assert(!exists|j: int| 0 < j < n - 1 && (#[trigger] cv[j]).len() == 0);
    match parts_groups_exec(&p, 0, n, true) {
        Some(g) => {
            assert(cv.subrange(0, n as int) =~= cv);
            if g.len() == 8 {
                let v = groups_to_u128(&g);
                Some(v)
            } else {
                None
            }
        },
        None => {
            assert(cv.subrange(0, n as int) =~= cv);
            None
        },
    }
}

/// Parses an IP address (`IpAddr`'s `FromStr`).
pub fn parse_ip_addr_chars(s: &[char]) -> (r: Option<IpValue>)
    ensures
        r == spec_parse_ip_addr(s@),
{
    match parse_ipv4_chars(s) {
        Some(v) => Some(IpValue::V4(v)),
        None => match parse_ipv6_chars(s) {
            Some(v) => Some(IpValue::V6(v)),
            None => None,
        },
    }
}

/// `65536^k`.
pub open spec fn pow65536(k: nat) -> nat
    decreases k,
{
    if k == 0 {
        1
    } else {
        65536 * pow65536((k - 1) as nat)
    }
}

/// The eight 16-bit groups of an IPv6 address, most significant first
/// (`Ipv6Addr::segments`).
pub open spec fn v6_groups(v: u128) -> Seq<u16> {
    Seq::new(8, |i: int| ((v as nat / pow65536((7 - i) as nat)) % 65536) as u16)
}

/// A lowercase hexadecimal digit.
pub open spec fn hex_digit_char(d: nat) -> char {
    if d < 10 {
        ((48 + d) as u32) as char
    } else {
        ((87 + d) as u32) as char
    }
}

/// `{:x}`: lowercase hexadecimal without leading zeros.
pub open spec fn hex_text(n: nat) -> Seq<char>
    decreases n,
{
    if n < 16 {
        seq![hex_digit_char(n)]
    } else {
        hex_text(n / 16).push(hex_digit_char(n % 16))
    }
}

/// Groups in hexadecimal, separated by colons.
pub open spec fn hex_join(gs: Seq<u16>) -> Seq<char>
    decreases gs.len(),
{
    if gs.len() == 0 {
        Seq::empty()
    } else if gs.len() == 1 {
        hex_text(gs[0] as nat)
    } else {
        hex_join(gs.drop_last()) + seq![':'] + hex_text(gs.last() as nat)
    }
}

/// Runs of zero groups over a prefix: (start and length of the current
/// run, start and length of the first longest run).
pub open spec fn zero_runs(gs: Seq<u16>) -> (nat, nat, nat, nat)
    decreases gs.len(),
{
    if gs.len() == 0 {
        (0, 0, 0, 0)
    } else {
        let (cs, cl, bs, bl) = zero_runs(gs.drop_last());
        if gs.last() == 0 {
            let ns: nat = if cl == 0 {
                (gs.len() - 1) as nat
            } else {
                cs
            };
            let nl: nat = cl + 1;
            if nl > bl {
                (ns, nl, ns, nl)
            } else {
                (ns, nl, bs, bl)
            }
        } else {
            (0, 0, bs, bl)
        }
    }
}

/// `Ipv6Addr`'s `Display`: an IPv4-mapped address as `::ffff:a.b.c.d`;
/// otherwise the groups in hexadecimal with the first longest run of two or
/// more zero groups written as `::`.
pub open spec fn ipv6_text(v: u128) -> Seq<char> {
    let g = v6_groups(v);
    if g[0] == 0 && g[1] == 0 && g[2] == 0 && g[3] == 0 && g[4] == 0 && g[5] == 0xffff {
        "::ffff:"@ + ipv4_text((g[6] as nat * 65536 + g[7] as nat) as u32)
    } else {
        let r = zero_runs(g);
        if r.3 > 1 {
            hex_join(g.take(r.2 as int)) + "::"@ + hex_join(g.skip((r.2 + r.3) as int))
        } else {
            hex_join(g)
        }
    }
}

/// The text of an IP address (`IpAddr`'s `Display`).
pub open spec fn ip_text(ip: IpValue) -> Seq<char> {
    match ip {
        IpValue::V4(v) => ipv4_text(v),
        IpValue::V6(v) => ipv6_text(v),
    }
}

/// Appends the lowercase hexadecimal text of `n`.
fn push_hex_chars(out: &mut Vec<char>, n: u32)
    ensures
        final(out)@ == old(out)@ + hex_text(n as nat),
    decreases n,
{
    if n >= 16 {
        push_hex_chars(out, n / 16);
    }
    let d = (n % 16) as u8;
    let c = if d < 10 {
        (48u8 + d) as char
    } else {
        (87u8 + d) as char
    };
    assert(c == hex_digit_char((n % 16) as nat));
    out.push(c);
    proof {
        if n >= 16 {
            assert(hex_text(n as nat) == hex_text((n / 16) as nat).push(hex_digit_char((n % 16) as nat)));
        }
    }
    assert(final(out)@ =~= old(out)@ + hex_text(n as nat));
}

/// Appends the groups `g[start..end]` in hexadecimal, separated by colons.
fn push_hex_join(out: &mut Vec<char>, g: &Vec<u16>, start: usize, end: usize)
    requires
        start <= end <= g@.len(),
    ensures
        final(out)@ == old(out)@ + hex_join(g@.subrange(start as int, end as int)),
{
    let mut k: usize = start;
    assert(g@.subrange(start as int, start as int) =~= Seq::<u16>::empty());
    while k < end
        invariant
            start <= k <= end,
            end <= g@.len(),
            out@ == old(out)@ + hex_join(g@.subrange(start as int, k as int)),
        decreases end - k,
    {
        let ghost before = out@;
        assert(g@.subrange(start as int, k + 1).drop_last() =~= g@.subrange(start as int, k as int));
        if k > start {
            out.push(':');
        }
        push_hex_chars(out, g[k] as u32);
        proof {
            let sub = g@.subrange(start as int, k + 1);
            if k == start {
                assert(sub.len() == 1);
                assert(hex_join(sub) == hex_text(sub[0] as nat));
            } else {
                assert(hex_join(sub) == hex_join(sub.drop_last()) + seq![':'] + hex_text(sub.last() as nat));
            }
        }
        assert(out@ =~= old(out)@ + hex_join(g@.subrange(start as int, k + 1)));
        k = k + 1;
    }
}

/// The eight groups of an IPv6 address.
fn v6_groups_exec(v: u128) -> (g: Vec<u16>)
    ensures
        g@ == v6_groups(v),
{
    let mut rev: Vec<u16> = Vec::new();
    let mut rem: u128 = v;
    let mut j: usize = 0;
    assert(pow65536(0) == 1);
    assert(v as nat / 1 == v as nat);
    while j < 8
        invariant
            j <= 8,
            rev@.len() == j,
            rem as nat == v as nat / pow65536(j as nat),
            forall|k: int| 0 <= k < j ==> #[trigger] rev@[k] == ((v as nat / pow65536(k as nat)) % 65536) as u16,
        decreases 8 - j,
    {
        rev.push((rem % 65536) as u16);
        proof {
            lemma_pow65536_pos(j as nat);
            vstd::arithmetic::div_mod::lemma_div_denominator(v as int, pow65536(j as nat) as int, 65536);
            assert(pow65536((j + 1) as nat) == pow65536(j as nat) * 65536) by (nonlinear_arith)
                requires
                    pow65536((j + 1) as nat) == 65536 * pow65536(j as nat),
            ;
        }
        rem = rem / 65536;
        j = j + 1;
    }
    let mut g: Vec<u16> = Vec::new();
    let mut i: usize = 0;
    while i < 8
        invariant
            i <= 8,
            rev@.len() == 8,
            g@.len() == i,
            forall|k: int| 0 <= k < 8 ==> #[trigger] rev@[k] == ((v as nat / pow65536(k as nat)) % 65536) as u16,
            forall|k: int| 0 <= k < i ==> #[trigger] g@[k] == v6_groups(v)[k],
        decreases 8 - i,
    {
        g.push(rev[7 - i]);
        i = i + 1;
    }
    assert(g@ =~= v6_groups(v));
    g
}

proof fn lemma_pow65536_pos(k: nat)
    ensures
        pow65536(k) >= 1,
    decreases k,
{
    if k > 0 {
        lemma_pow65536_pos((k - 1) as nat);
    }
}

/// The first longest run of zero groups (start, length).
fn longest_zero_run(g: &Vec<u16>) -> (r: (usize, usize))
    requires
        g@.len() == 8,
    ensures
        r.0 as nat == zero_runs(g@).2,
        r.1 as nat == zero_runs(g@).3,
        r.0 + r.1 <= 8,
{
    let mut cs: usize = 0;
    let mut cl: usize = 0;
    let mut bs: usize = 0;
    let mut bl: usize = 0;
    let mut i: usize = 0;
    while i < 8
        invariant
            i <= 8,
            g@.len() == 8,
            (cs as nat, cl as nat, bs as nat, bl as nat) == zero_runs(g@.take(i as int)),
            cs + cl <= i,
            bs + bl <= i,
        decreases 8 - i,
    {
        assert(g@.take(i + 1).drop_last() =~= g@.take(i as int));
        if g[i] == 0 {
            if cl == 0 {
                cs = i;
            }
            cl = cl + 1;
            if cl > bl {
                bs = cs;
                bl = cl;
            }
        } else {
            cs = 0;
            cl = 0;
        }
        i = i + 1;
    }
    assert(g@.take(8) =~= g@);
    (bs, bl)
}

/// Appends the text of an IPv6 address (`Ipv6Addr`'s `Display`).
pub fn push_ipv6_chars(out: &mut Vec<char>, v: u128)
    ensures
        final(out)@ == old(out)@ + ipv6_text(v),
{
    let g = v6_groups_exec(v);
    if g[0] == 0 && g[1] == 0 && g[2] == 0 && g[3] == 0 && g[4] == 0 && g[5] == 0xffff {
        let prefix = chars_of("::ffff:");
        let mut i: usize = 0;
        while i < prefix.len()
            invariant
                i <= prefix@.len(),
                out@ == old(out)@ + prefix@.take(i as int),
            decreases prefix@.len() - i,
        {
            out.push(prefix[i]);
            assert(prefix@.take(i + 1) =~= prefix@.take(i as int).push(prefix@[i as int]));
            i = i + 1;
        }
        assert(prefix@.take(prefix@.len() as int) =~= prefix@);
        let a: u32 = (g[6] as u32) * 65536 + (g[7] as u32);
        push_ipv4_chars(out, a);
        assert(final(out)@ =~= old(out)@ + ipv6_text(v));
    } else {
        let (bs, bl) = longest_zero_run(&g);
        if bl > 1 {
            push_hex_join(out, &g, 0, bs);
            out.push(':');
            out.push(':');
            push_hex_join(out, &g, bs + bl, 8);
            proof {
                reveal_strlit("::");
                assert(g@.subrange(0, bs as int) =~= g@.take(bs as int));
                assert(g@.subrange((bs + bl) as int, 8) =~= g@.skip((bs + bl) as int));
            }
            assert(final(out)@ =~= old(out)@ + ipv6_text(v));
        } else {
            push_hex_join(out, &g, 0, 8);
            assert(g@.subrange(0, 8) =~= g@);
            assert(final(out)@ =~= old(out)@ + ipv6_text(v));
        }
    }
}

impl IpValue {
    /// The text of the address (`IpAddr`'s `Display`).
    pub fn to_text(&self) -> (s: String)
        ensures
            s@ == ip_text(*self),
    {
        let mut out: Vec<char> = Vec::new();
        match self {
            IpValue::V4(v) => push_ipv4_chars(&mut out, *v),
            IpValue::V6(v) => push_ipv6_chars(&mut out, *v),
        }
        assert(out@ =~= ip_text(*self));
        crate::text::string_from_chars(&out)
    }
}

/// The first index at which `c` occurs in `s`.
pub open spec fn first_index_of(s: Seq<char>, c: char) -> Option<int> {
    if s.contains(c) {
        Some(choose|i: int| 0 <= i < s.len() && s[i] == c && forall|j: int| 0 <= j < i ==> s[j] != c)
    } else {
        None
    }
}

/// `str::split_once` with a `char` pattern.
pub open spec fn split_once(s: Seq<char>, c: char) -> Option<(Seq<char>, Seq<char>)> {
    match first_index_of(s, c) {
        Some(i) => Some((s.subrange(0, i), s.subrange(i + 1, s.len() as int))),
        None => None,
    }
}

/// `2^e`.
pub open spec fn pow2n(e: nat) -> nat
    decreases e,
{
    if e == 0 {
        1
    } else {
        2 * pow2n((e - 1) as nat)
    }
}

/// The network address of `value` with a prefix of `bits` bits: the low
/// `32 - bits` bits cleared.
pub open spec fn network_address(value: u32, bits: u32) -> u32 {
    let size = pow2n((32 - bits) as nat);
    ((value as nat / size) * size) as u32
}

/// An IPv4 CIDR block `a.b.c.d/len`: the network address and the prefix
/// length, for a prefix length from 1 to 32 (surrounding whitespace of both
/// parts is ignored).
pub open spec fn spec_parse_cidr(cidr: Seq<char>) -> Option<(u32, u32)> {
    match split_once(cidr, '/') {
        None => None,
        Some((addr, len)) => match parse_unsigned(trim(len), u32::MAX as nat) {
            None => None,
            Some(bits) => if bits == 0 || bits > 32 {
                None
            } else {
                match spec_parse_ipv4(trim(addr)) {
                    Some(value) => Some((network_address(value, bits as u32), bits as u32)),
                    None => None,
                }
            },
        },
    }
}

pub proof fn lemma_pow2n_mono(i: nat, j: nat)
    requires
        i <= j,
    ensures
        pow2n(i) <= pow2n(j),
    decreases j,
{
    if i < j {
        lemma_pow2n_mono(i, (j - 1) as nat);
    }
}

pub proof fn lemma_pow2n_pos(e: nat)
    ensures
        pow2n(e) >= 1,
    decreases e,
{
    if e > 0 {
        lemma_pow2n_pos((e - 1) as nat);
    }
}

pub proof fn lemma_pow2n_32()
    ensures
        pow2n(32) == 0x1_0000_0000,
{
    reveal_with_fuel(pow2n, 33);
}

/// `2^e` for small exponents.
pub fn pow2_u64(e: u32) -> (r: u64)
    requires
        e <= 32,
    ensures
        r as nat == pow2n(e as nat),
        r >= 1,
        r <= 0x1_0000_0000,
{
    let mut r: u64 = 1;
    let mut i: u32 = 0;
    proof {
        lemma_pow2n_32();
    }
    while i < e
        invariant
            i <= e <= 32,
            r as nat == pow2n(i as nat),
            r >= 1,
            pow2n(32) == 0x1_0000_0000,
        decreases e - i,
    {
        proof {
            lemma_pow2n_mono((i + 1) as nat, 32);
        }
        r = r * 2;
        i = i + 1;
    }
    proof {
        lemma_pow2n_mono(e as nat, 32);
    }
    r
}

/// Finds the first index of `c`.
fn find_char(s: &[char], c: char) -> (r: Option<usize>)
    ensures
        r matches Some(i) ==> first_index_of(s@, c) == Some(i as int) && i < s@.len(),
        r is None ==> first_index_of(s@, c) is None,
{
    let n = s.len();
    let mut i: usize = 0;
    while i < n
        invariant
            n == s@.len(),
            i <= n,
            forall|j: int| 0 <= j < i ==> s@[j] != c,
        decreases n - i,
    {
        if s[i] == c {
            proof {
                assert(s@.contains(c));
                let k = choose|k: int|
                    0 <= k < s@.len() && s@[k] == c && forall|j: int| 0 <= j < k ==> s@[j] != c;
                assert(0 <= i < s@.len() && s@[i as int] == c && forall|j: int|
                    0 <= j < i ==> s@[j] != c);
                if k < i {
                    assert(s@[k] != c);
                }
                if i < k {
                    assert(s@[i as int] != c);
                }
            }
            return Some(i);
        }
        i = i + 1;
    }
    None
}

/// Parses an IPv4 CIDR (`a.b.c.d/len`) into (network address, prefix length).
pub fn parse_cidr(cidr: &str) -> (r: Option<(u32, u32)>)
    ensures
        r == spec_parse_cidr(cidr@),
{
    let chars = chars_of(cidr);
    let slash = match find_char(&chars, '/') {
        Some(i) => i,
        None => return None,
    };
    let mut addr: Vec<char> = Vec::new();
    let mut len_part: Vec<char> = Vec::new();
    let n = chars.len();
    let mut i: usize = 0;
    while i < n
        invariant
            n == chars@.len(),
            slash < n,
            i <= n,
            addr@ == chars@.subrange(0, if i < slash { i as int } else { slash as int }),
            len_part@ == (if i <= slash + 1 {
                Seq::<char>::empty()
            } else {
                chars@.subrange(slash + 1, i as int)
            }),
        decreases n - i,
    {
        if i < slash {
            addr.push(chars[i]);
            assert(chars@.subrange(0, i + 1) =~= chars@.subrange(0, i as int).push(chars@[i as int]));
        } else if i > slash {
            len_part.push(chars[i]);
            assert(chars@.subrange(slash + 1, i + 1) =~= (if i <= slash + 1 {
                Seq::<char>::empty()
            } else {
                chars@.subrange(slash + 1, i as int)
            }).push(chars@[i as int]));
        }
        i = i + 1;
    }
    assert(len_part@ =~= chars@.subrange(slash + 1, n as int));
    let len_trimmed = trim_chars(&len_part);
    let bits = match parse_u32_chars(&len_trimmed) {
        Some(b) => b,
        None => return None,
    };
    if bits == 0 || bits > 32 {
        return None;
    }
    let addr_trimmed = trim_chars(&addr);
    let value = match parse_ipv4_chars(&addr_trimmed) {
        Some(v) => v,
        None => return None,
    };
    let size = pow2_u64(32 - bits);
    let q = (value as u64) / size;
    proof {
        assert(q * size <= value) by (nonlinear_arith)
            requires
                q == (value as u64) / size,
                size >= 1,
        ;
    }
    let network = (q * size) as u32;
    Some((network, bits))
}

/// A text without the separator is one part.
pub proof fn lemma_split_on_no_sep(s: Seq<char>, sep: char)
    requires
        forall|i: int| 0 <= i < s.len() ==> s[i] != sep,
    ensures
        split_on(s, sep) == seq![s],
    decreases s.len(),
{
    if s.len() > 0 {
        lemma_split_on_no_sep(s.drop_last(), sep);
        assert(s.drop_last().push(s.last()) =~= s);
        assert(seq![s.drop_last()].update(0, s.drop_last().push(s.last())) =~= seq![s]);
    } else {
        assert(s =~= Seq::<char>::empty());
    }
}

/// Splitting `x`, a separator, then `y`, gives the parts of `x` then those
/// of `y`.
pub proof fn lemma_split_on_concat(x: Seq<char>, y: Seq<char>, sep: char)
    ensures
        split_on(x + seq![sep] + y, sep) == split_on(x, sep) + split_on(y, sep),
    decreases y.len(),
{
    let s = x + seq![sep] + y;
    lemma_split_on_nonempty(x, sep);
    if y.len() == 0 {
        assert(s.drop_last() =~= x);
        assert(split_on(y, sep) == seq![Seq::<char>::empty()]);
        assert(split_on(x, sep).push(Seq::<char>::empty()) =~= split_on(x, sep) + split_on(y, sep));
    } else {
        lemma_split_on_concat(x, y.drop_last(), sep);
        lemma_split_on_nonempty(y.drop_last(), sep);
        assert(s.drop_last() =~= x + seq![sep] + y.drop_last());
        assert(s.last() == y.last());
        let a = split_on(x, sep);
        let b = split_on(y.drop_last(), sep);
        if y.last() == sep {
            assert((a + b).push(Seq::<char>::empty()) =~= a + b.push(Seq::<char>::empty()));
        } else {
            let r = a + b;
            assert(r.update(r.len() - 1, r.last().push(y.last())) =~= a + b.update(
                b.len() - 1,
                b.last().push(y.last()),
            ));
        }
    }
}

proof fn lemma_dec_no_dot(n: nat)
    ensures
        forall|i: int| 0 <= i < dec_text(n).len() ==> dec_text(n)[i] != '.',
        is_octet_text(dec_text(n)) <== n <= 255,
        dec_value(dec_text(n)) == n,
{
    crate::text::lemma_dec_text(n);
    assert forall|i: int| 0 <= i < dec_text(n).len() implies dec_text(n)[i] != '.' by {
        assert(is_digit(dec_text(n)[i]));
    }
    if n <= 255 {
        if n < 10 {
            assert(dec_text(n).len() == 1);
        }
    }
}

/// Law: the dotted-decimal text of an IPv4 address parses back to it.
pub proof fn law_ipv4_text_round_trip(v: u32)
    ensures
        spec_parse_ipv4(ipv4_text(v)) == Some(v),
        spec_parse_ip_addr(ipv4_text(v)) == Some(IpValue::V4(v)),
{
    let a = v as nat / 16777216;
    let b = (v as nat / 65536) % 256;
    let c = (v as nat / 256) % 256;
    let d = v as nat % 256;
    assert(a <= 255);
    lemma_dec_no_dot(a);
    lemma_dec_no_dot(b);
    lemma_dec_no_dot(c);
    lemma_dec_no_dot(d);
    lemma_split_on_no_sep(dec_text(a), '.');
    lemma_split_on_no_sep(dec_text(b), '.');
    lemma_split_on_no_sep(dec_text(c), '.');
    lemma_split_on_no_sep(dec_text(d), '.');
    let x1 = dec_text(a);
    let x2 = x1 + seq!['.'] + dec_text(b);
    let x3 = x2 + seq!['.'] + dec_text(c);
    let x4 = x3 + seq!['.'] + dec_text(d);
    assert(x4 =~= ipv4_text(v));
    lemma_split_on_concat(x1, dec_text(b), '.');
    lemma_split_on_concat(x2, dec_text(c), '.');
    lemma_split_on_concat(x3, dec_text(d), '.');
    let parts = split_on(ipv4_text(v), '.');
    assert(parts =~= seq![dec_text(a), dec_text(b), dec_text(c), dec_text(d)]);
    assert(v == (v / 16777216) * 16777216 + ((v / 65536) % 256) * 65536 + ((v / 256) % 256) * 256 + v
        % 256) by (bit_vector);
    assert(octets_value(a, b, c, d) == v as nat);
}

/// The text of an IPv4 address starts and ends with a digit.
pub proof fn lemma_ipv4_text_ends(v: u32)
    ensures
        ipv4_text(v).len() > 0,
        !crate::text::is_ws(ipv4_text(v)[0]),
        !crate::text::is_ws(ipv4_text(v).last()),
{
    let a = v as nat / 16777216;
    let d = v as nat % 256;
    crate::text::lemma_dec_text(a);
    crate::text::lemma_dec_text(d);
    let t = ipv4_text(v);
    assert(t[0] == dec_text(a)[0]);
    assert(t.last() == dec_text(d).last());
    assert(is_digit(dec_text(a)[0]));
    assert(is_digit(dec_text(d)[dec_text(d).len() - 1]));
}

/// Appending text without the separator extends the last part.
pub proof fn lemma_split_on_append(s: Seq<char>, w: Seq<char>, sep: char)
    requires
        forall|i: int| 0 <= i < w.len() ==> w[i] != sep,
    ensures
        split_on(s, sep).len() >= 1,
        split_on(s + w, sep) == split_on(s, sep).update(
            split_on(s, sep).len() - 1,
            split_on(s, sep).last() + w,
        ),
    decreases w.len(),
{
    lemma_split_on_nonempty(s, sep);
    let r = split_on(s, sep);
    if w.len() == 0 {
        assert(s + w =~= s);
        assert(r.last() + w =~= r.last());
        assert(r.update(r.len() - 1, r.last()) =~= r);
    } else {
        assert forall|i: int| 0 <= i < w.drop_last().len() implies w.drop_last()[i] != sep by {
            assert(w.drop_last()[i] == w[i]);
        }
        lemma_split_on_append(s, w.drop_last(), sep);
        assert((s + w).drop_last() =~= s + w.drop_last());
        assert((s + w).last() == w.last());
        let q = r.update(r.len() - 1, r.last() + w.drop_last());
        assert(q.update(q.len() - 1, q.last().push(w.last())) =~= r.update(r.len() - 1, r.last() + w))
            by {
            assert((r.last() + w.drop_last()).push(w.last()) =~= r.last() + w);
        }
    }
}

/// The first part is a prefix, and the whole text when it is the only one.
pub proof fn lemma_split_on_first(s: Seq<char>, sep: char)
    ensures
        split_on(s, sep).len() >= 1,
        split_on(s, sep)[0] == s.take(split_on(s, sep)[0].len() as int),
        split_on(s, sep)[0].len() <= s.len(),
        split_on(s, sep).len() == 1 ==> split_on(s, sep)[0] == s,
    decreases s.len(),
{
    lemma_split_on_nonempty(s, sep);
    if s.len() > 0 {
        let d = s.drop_last();
        lemma_split_on_first(d, sep);
        let r = split_on(d, sep);
        let m = r[0].len() as int;
        if s.last() == sep {
            assert(split_on(s, sep)[0] == r[0]);
            assert(d.take(m) =~= s.take(m));
        } else if r.len() == 1 {
            assert(split_on(s, sep)[0] == r[0].push(s.last()));
            assert(r[0].push(s.last()) =~= s);
            assert(s.take(s.len() as int) =~= s);
        } else {
            assert(split_on(s, sep)[0] == r[0]);
            assert(d.take(m) =~= s.take(m));
        }
    } else {
        assert(s.take(0) =~= s);
    }
}

} // verus!
