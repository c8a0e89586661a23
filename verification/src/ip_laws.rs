//! The text of an IP address parses back to the address.
use vstd::prelude::*;

use crate::ip::{
    network_address, pow2n, spec_parse_cidr, ip_text, ipv4_text, ipv6_text, spec_parse_ip_addr, IpValue, all_empty, compressed, groups_value, lemma_split_on_first, spec_parse_ipv4, spec_parse_ipv6, hex_digit_char, hex_digit_value, hex_join, hex_text, hex_value, is_hex_digit,
    is_hex_group, lemma_split_on_concat, lemma_split_on_no_sep, parts_groups, pow65536, split_on,
    v6_groups, zero_runs,
};
use crate::text::{dec_text, is_digit, is_ws, lemma_dec_text};

verus! {

/// A lowercase hex digit is a hex digit of its own value, and neither a
/// separator nor whitespace.
proof fn lemma_hex_digit_char(d: nat)
    requires
        d < 16,
    ensures
        is_hex_digit(hex_digit_char(d)),
        hex_digit_value(hex_digit_char(d)) == d,
        hex_digit_char(d) != ':',
        hex_digit_char(d) != '.',
        !is_ws(hex_digit_char(d)),
{
    let c = hex_digit_char(d);
    if d < 10 {
        assert(c as u32 == 48 + d);
    } else {
        assert(c as u32 == 87 + d);
    }
}

/// What the hexadecimal text of a number is made of.
proof fn lemma_hex_text(n: nat)
    ensures
        hex_text(n).len() >= 1,
        forall|i: int|
            0 <= i < hex_text(n).len() ==> {
                &&& is_hex_digit(#[trigger] hex_text(n)[i])
                &&& hex_text(n)[i] != ':'
                &&& hex_text(n)[i] != '.'
                &&& !is_ws(hex_text(n)[i])
            },
        hex_value(hex_text(n)) == n,
        n < 16 ==> hex_text(n).len() == 1,
        n < 256 ==> hex_text(n).len() <= 2,
        n < 4096 ==> hex_text(n).len() <= 3,
        n < 65536 ==> hex_text(n).len() <= 4,
    decreases n,
{
    if n < 16 {
        lemma_hex_digit_char(n);
        let t = hex_text(n);
        assert(t == seq![hex_digit_char(n)]);
        assert(t.drop_last() =~= Seq::<char>::empty());
        assert(hex_value(t) == hex_value(t.drop_last()) * 16 + hex_digit_value(t.last()));
    } else {
        lemma_hex_digit_char(n % 16);
        lemma_hex_text(n / 16);
        let t = hex_text(n / 16);
        let s = hex_text(n);
        assert(s == t.push(hex_digit_char(n % 16)));
        assert(s.drop_last() =~= t);
        assert(hex_value(s) == hex_value(t) * 16 + hex_digit_value(s.last()));
        assert forall|i: int| 0 <= i < s.len() implies {
            &&& is_hex_digit(#[trigger] s[i])
            &&& s[i] != ':'
            &&& s[i] != '.'
            &&& !is_ws(s[i])
        } by {
            if i < t.len() {
                assert(s[i] == t[i]);
            }
        }
    }
}

/// The text of a 16-bit group is one IPv6 group of the group's value.
proof fn lemma_hex_group(g: u16)
    ensures
        is_hex_group(hex_text(g as nat)),
        hex_value(hex_text(g as nat)) as u16 == g,
{
    lemma_hex_text(g as nat);
}

/// The hexadecimal texts of groups.
pub open spec fn hex_parts(gs: Seq<u16>) -> Seq<Seq<char>> {
    Seq::new(gs.len(), |i: int| hex_text(gs[i] as nat))
}

/// A character of an IPv6 text that is not an embedded IPv4 address.
pub open spec fn is_v6_char(c: char) -> bool {
    (is_hex_digit(c) || c == ':') && c != '.' && !is_ws(c)
}

/// Joined group texts split back into the group texts at the colons.
proof fn lemma_hex_join(gs: Seq<u16>)
    requires
        gs.len() >= 1,
    ensures
        split_on(hex_join(gs), ':') == hex_parts(gs),
        hex_join(gs).len() >= 1,
        forall|i: int| 0 <= i < hex_join(gs).len() ==> is_v6_char(#[trigger] hex_join(gs)[i]),
        is_hex_digit(hex_join(gs)[0]),
        is_hex_digit(hex_join(gs).last()),
    decreases gs.len(),
{
    let j = hex_join(gs);
    if gs.len() == 1 {
        lemma_hex_text(gs[0] as nat);
        lemma_split_on_no_sep(j, ':');
        assert(hex_parts(gs) =~= seq![j]);
    } else {
        let d = gs.drop_last();
        lemma_hex_join(d);
        lemma_hex_text(gs.last() as nat);
        let h = hex_join(d);
        let t = hex_text(gs.last() as nat);
        assert(j == h + seq![':'] + t);
        lemma_split_on_no_sep(t, ':');
        lemma_split_on_concat(h, t, ':');
        assert(hex_parts(d) + seq![t] =~= hex_parts(gs));
        assert forall|i: int| 0 <= i < j.len() implies is_v6_char(#[trigger] j[i]) by {
            if i < h.len() {
                assert(j[i] == h[i]);
            } else if i > h.len() {
                assert(j[i] == t[i - h.len() - 1]);
            }
        }
        assert(j[0] == h[0]);
        assert(j.last() == t.last());
    }
}

/// Group texts stand for their groups, wherever an embedded IPv4 address
/// would be allowed.
proof fn lemma_parts_groups_hex(gs: Seq<u16>, v4_last: bool)
    ensures
        parts_groups(hex_parts(gs), v4_last) == Some(gs),
    decreases gs.len(),
{
    if gs.len() > 0 {
        let d = gs.drop_last();
        lemma_parts_groups_hex(d, false);
        assert(hex_parts(gs).drop_last() =~= hex_parts(d));
        lemma_hex_group(gs.last());
        assert(d.push(gs.last()) =~= gs);
    } else {
        assert(hex_parts(gs) =~= Seq::<Seq<char>>::empty());
        assert(gs =~= Seq::<u16>::empty());
    }
}

/// The groups of the first `k` groups of an address make `v / 65536^(8-k)`.
proof fn lemma_groups_value_prefix(v: u128, k: nat)
    requires
        k <= 8,
    ensures
        groups_value(v6_groups(v).take(k as int)) == v as nat / pow65536((8 - k) as nat),
    decreases k,
{
    let g = v6_groups(v);
    if k == 0 {
        reveal_with_fuel(pow65536, 9);
        assert(g.take(0) =~= Seq::<u16>::empty());
        assert(pow65536(8) == 0x1_0000_0000_0000_0000_0000_0000_0000_0000);
        assert(v as nat / pow65536(8) == 0) by (nonlinear_arith)
            requires
                v < 0x1_0000_0000_0000_0000_0000_0000_0000_0000,
                pow65536(8) == 0x1_0000_0000_0000_0000_0000_0000_0000_0000,
        ;
    } else {
        let j = (k - 1) as nat;
        lemma_groups_value_prefix(v, j);
        assert(g.take(k as int).drop_last() =~= g.take(j as int));
        let p = pow65536((7 - j) as nat);
        assert(pow65536((8 - j) as nat) == 65536 * p);
        lemma_pow65536_positive((7 - j) as nat);
        vstd::arithmetic::div_mod::lemma_div_denominator(v as int, p as int, 65536);
        let q = v as nat / p;
        assert(g[j as int] == (q % 65536) as u16);
        assert(v as nat / (p * 65536) == q / 65536);
        assert(p * 65536 == 65536 * p) by (nonlinear_arith);
        assert((q / 65536) * 65536 + q % 65536 == q) by (nonlinear_arith);
        assert(groups_value(g.take(k as int)) == groups_value(g.take(j as int)) * 65536 + g[j as int]
            as nat);
    }
}

proof fn lemma_pow65536_positive(k: nat)
    ensures
        pow65536(k) >= 1,
    decreases k,
{
    if k > 0 {
        lemma_pow65536_positive((k - 1) as nat);
    }
}

/// The runs that `zero_runs` reports are runs of zero groups within the
/// groups.
proof fn lemma_zero_runs(gs: Seq<u16>)
    ensures
        ({
            let (cs, cl, bs, bl) = zero_runs(gs);
            &&& cs + cl <= gs.len()
            &&& bs + bl <= gs.len()
            &&& cl > 0 ==> cs + cl == gs.len()
            &&& forall|i: int| cs <= i < cs + cl ==> gs[i] == 0
            &&& forall|i: int| bs <= i < bs + bl ==> gs[i] == 0
        }),
    decreases gs.len(),
{
    if gs.len() > 0 {
        let d = gs.drop_last();
        lemma_zero_runs(d);
        assert forall|i: int| 0 <= i < d.len() implies gs[i] == d[i] by {}
    }
}

/// A text without a dot is no IPv4 address.
proof fn lemma_no_dot_not_ipv4(s: Seq<char>)
    requires
        forall|i: int| 0 <= i < s.len() ==> s[i] != '.',
    ensures
        spec_parse_ipv4(s) is None,
{
    lemma_split_on_no_sep(s, '.');
}

/// A text that starts with a colon is no IPv4 address.
proof fn lemma_colon_first_not_ipv4(s: Seq<char>)
    requires
        s.len() > 0,
        s[0] == ':',
    ensures
        spec_parse_ipv4(s) is None,
{
    lemma_split_on_first(s, '.');
    let p0 = split_on(s, '.')[0];
    if p0.len() > 0 {
        assert(p0[0] == s[0]);
        assert(!is_digit(p0[0]));
    }
}

/// The parts of a joined group text: the group texts, or one empty part
/// when there is no group.
pub open spec fn join_parts(gs: Seq<u16>) -> Seq<Seq<char>> {
    if gs.len() == 0 {
        seq![Seq::<char>::empty()]
    } else {
        hex_parts(gs)
    }
}

proof fn lemma_join_parts(gs: Seq<u16>)
    ensures
        split_on(hex_join(gs), ':') == join_parts(gs),
        forall|i: int| 0 <= i < hex_join(gs).len() ==> is_v6_char(#[trigger] hex_join(gs)[i]),
{
    if gs.len() == 0 {
        assert(hex_join(gs) =~= Seq::<char>::empty());
    } else {
        lemma_hex_join(gs);
    }
}

/// Splitting a text with `::` between two joined group texts.
proof fn lemma_split_compressed(h: Seq<u16>, t: Seq<u16>)
    ensures
        split_on(hex_join(h) + "::"@ + hex_join(t), ':') == join_parts(h) + seq![
            Seq::<char>::empty(),
        ] + join_parts(t),
{
    reveal_strlit("::");
    let e = Seq::<char>::empty();
    let x = hex_join(h);
    let y = hex_join(t);
    assert(x + "::"@ + y =~= x + seq![':'] + (e + seq![':'] + y));
    lemma_split_on_concat(e, y, ':');
    lemma_split_on_concat(x, e + seq![':'] + y, ':');
    lemma_join_parts(h);
    lemma_join_parts(t);
    assert(split_on(e, ':') == seq![e]);
}

/// The groups with the zero run `[s, s + l)` taken out and put back.
proof fn lemma_zero_run_groups(g: Seq<u16>, s: nat, l: nat)
    requires
        s + l <= g.len(),
        forall|i: int| s <= i < s + l ==> g[i] == 0,
    ensures
        g.take(s as int) + Seq::new(l, |i: int| 0u16) + g.skip((s + l) as int) == g,
{
    assert(g.take(s as int) + Seq::new(l, |i: int| 0u16) + g.skip((s + l) as int) =~= g);
}

/// A plain (uncompressed) IPv6 text parses back to its address.
proof fn lemma_plain_round_trip(v: u128)
    ensures
        spec_parse_ipv6(hex_join(v6_groups(v))) == Some(v),
        spec_parse_ipv4(hex_join(v6_groups(v))) is None,
{
    let g = v6_groups(v);
    let text = hex_join(g);
    lemma_hex_join(g);
    let p = split_on(text, ':');
    assert(p == hex_parts(g));
    assert forall|k: int| 0 <= k < p.len() implies (#[trigger] p[k]).len() > 0 by {
        lemma_hex_text(g[k] as nat);
    }
    assert(p[0].len() > 0);
    assert(p[7].len() > 0);
    lemma_parts_groups_hex(g, true);
    lemma_groups_value_v6(v);
    lemma_no_dot_not_ipv4(text);
}

/// A compressed IPv6 text parses back to its address.
proof fn lemma_compressed_round_trip(v: u128, s: nat, l: nat)
    requires
        l >= 2,
        s + l <= 8,
        forall|i: int| s <= i < s + l ==> v6_groups(v)[i] == 0,
    ensures
        spec_parse_ipv6(
            hex_join(v6_groups(v).take(s as int)) + "::"@ + hex_join(v6_groups(v).skip((s + l) as int)),
        ) == Some(v),
        spec_parse_ipv4(
            hex_join(v6_groups(v).take(s as int)) + "::"@ + hex_join(v6_groups(v).skip((s + l) as int)),
        ) is None,
{
    reveal_strlit("::");
    let g = v6_groups(v);
    let h = g.take(s as int);
    let t = g.skip((s + l) as int);
    let text = hex_join(h) + "::"@ + hex_join(t);
    let e = Seq::<char>::empty();
    lemma_split_compressed(h, t);
    lemma_join_parts(h);
    lemma_join_parts(t);
    let p = split_on(text, ':');
    let n = p.len();
    assert(p == join_parts(h) + seq![e] + join_parts(t));
    lemma_groups_value_v6(v);
    lemma_zero_run_groups(g, s, l);
    lemma_parts_groups_hex(h, false);
    lemma_parts_groups_hex(t, true);
    assert forall|k: int| 0 <= k < h.len() implies (#[trigger] hex_parts(h)[k]).len() > 0 by {
        lemma_hex_text(h[k] as nat);
    }
    assert forall|k: int| 0 <= k < t.len() implies (#[trigger] hex_parts(t)[k]).len() > 0 by {
        lemma_hex_text(t[k] as nat);
    }
    assert forall|i: int| 0 <= i < text.len() implies text[i] != '.' by {
        if i < hex_join(h).len() {
            assert(text[i] == hex_join(h)[i]);
        } else if i >= hex_join(h).len() + 2 {
            assert(text[i] == hex_join(t)[i - hex_join(h).len() - 2]);
        }
    }
    lemma_no_dot_not_ipv4(text);
    let zeros = Seq::new(l, |i: int| 0u16);
    if h.len() == 0 && t.len() == 0 {
        assert(p =~= seq![e, e, e]);
        assert(all_empty(p));
        assert(g =~= zeros);
        assert(groups_value(g) == 0) by {
            lemma_groups_value_zeros(l);
        }
    } else if h.len() == 0 {
        assert(p =~= seq![e, e] + hex_parts(t));
        assert(p[2].len() > 0);
        let tail = p.skip(2);
        assert(tail =~= hex_parts(t));
        assert(Seq::<u16>::empty() + Seq::new((8 - 0 - t.len()) as nat, |i: int| 0u16) + t =~= h + zeros
            + t);
        assert(compressed(Seq::empty(), tail) == Some(v));
    } else if t.len() == 0 {
        assert(p =~= hex_parts(h) + seq![e, e]);
        assert(p[0].len() > 0);
        assert(p.take(n - 2) =~= hex_parts(h));
        assert(h + Seq::new((8 - h.len() - 0) as nat, |i: int| 0u16) + Seq::<u16>::empty() =~= h + zeros
            + t);
        assert(compressed(p.take(n - 2), Seq::empty()) == Some(v));
    } else {
        let m = h.len() as int;
        assert(p =~= hex_parts(h) + seq![e] + hex_parts(t));
        assert(p[0].len() > 0);
        assert(p[n - 1].len() > 0);
        assert(p[m].len() == 0);
        assert forall|k: int| 0 < k < n - 1 && (#[trigger] p[k]).len() == 0 implies k == m by {
            if k < m {
                assert(p[k] == hex_parts(h)[k]);
            } else if k > m {
                assert(p[k] == hex_parts(t)[k - m - 1]);
            }
        }
        let k = choose|k: int| 0 < k < n - 1 && (#[trigger] p[k]).len() == 0;
        assert(k == m);
        assert(p.take(m) =~= hex_parts(h));
        assert(p.skip(m + 1) =~= hex_parts(t));
        assert(h + Seq::new((8 - h.len() - t.len()) as nat, |i: int| 0u16) + t =~= h + zeros + t);
        assert(compressed(p.take(m), p.skip(m + 1)) == Some(v));
    }
}

/// The dotted-decimal text of an IPv4 address has at least seven
/// characters, all digits and dots.
proof fn lemma_ipv4_text_chars(a: u32)
    ensures
        ipv4_text(a).len() >= 7,
        forall|i: int| 0 <= i < ipv4_text(a).len() ==> {
            ||| is_digit(#[trigger] ipv4_text(a)[i])
            ||| ipv4_text(a)[i] == '.'
        },
{
    let d1 = dec_text(a as nat / 16777216);
    let d2 = dec_text((a as nat / 65536) % 256);
    let d3 = dec_text((a as nat / 256) % 256);
    let d4 = dec_text(a as nat % 256);
    lemma_dec_text(a as nat / 16777216);
    lemma_dec_text((a as nat / 65536) % 256);
    lemma_dec_text((a as nat / 256) % 256);
    lemma_dec_text(a as nat % 256);
    let t = ipv4_text(a);
    let l1 = d1.len() as int;
    let l2 = l1 + 1 + d2.len();
    let l3 = l2 + 1 + d3.len();
    assert forall|i: int| 0 <= i < t.len() implies {
        ||| is_digit(#[trigger] t[i])
        ||| t[i] == '.'
    } by {
        if i < l1 {
            assert(t[i] == d1[i]);
        } else if l1 < i < l2 {
            assert(t[i] == d2[i - l1 - 1]);
        } else if l2 < i < l3 {
            assert(t[i] == d3[i - l2 - 1]);
        } else if l3 < i {
            assert(t[i] == d4[i - l3 - 1]);
        }
    }
}

/// The text of an IPv4-mapped IPv6 address parses back to the address.
proof fn lemma_mapped_round_trip(v: u128)
    requires
        v6_groups(v)[0] == 0,
        v6_groups(v)[1] == 0,
        v6_groups(v)[2] == 0,
        v6_groups(v)[3] == 0,
        v6_groups(v)[4] == 0,
        v6_groups(v)[5] == 0xffff,
    ensures
        spec_parse_ipv6(
            "::ffff:"@ + ipv4_text((v6_groups(v)[6] as nat * 65536 + v6_groups(v)[7] as nat) as u32),
        ) == Some(v),
        spec_parse_ipv4(
            "::ffff:"@ + ipv4_text((v6_groups(v)[6] as nat * 65536 + v6_groups(v)[7] as nat) as u32),
        ) is None,
{
    reveal_strlit("::ffff:");
    reveal_strlit("ffff");
    let g = v6_groups(v);
    let a = (g[6] as nat * 65536 + g[7] as nat) as u32;
    assert(a as nat == g[6] as nat * 65536 + g[7] as nat);
    let w = ipv4_text(a);
    let text = "::ffff:"@ + w;
    let e = Seq::<char>::empty();
    let f = "ffff"@;
    lemma_ipv4_text_chars(a);
    assert forall|i: int| 0 <= i < w.len() implies w[i] != ':' by {
        if is_digit(w[i]) {
        }
    }
    assert forall|i: int| 0 <= i < f.len() implies f[i] != ':' by {}
    lemma_split_on_no_sep(w, ':');
    lemma_split_on_no_sep(f, ':');
    assert(text =~= e + seq![':'] + (e + seq![':'] + (f + seq![':'] + w)));
    lemma_split_on_concat(f, w, ':');
    lemma_split_on_concat(e, f + seq![':'] + w, ':');
    lemma_split_on_concat(e, e + seq![':'] + (f + seq![':'] + w), ':');
    assert(split_on(e, ':') == seq![e]);
    let p = split_on(text, ':');
    assert(p =~= seq![e, e, f, w]);
    let tail = p.skip(2);
    assert(tail =~= seq![f, w]);
    // The embedded IPv4 part stands for the last two groups.
    crate::ip::law_ipv4_text_round_trip(a);
    assert(!is_hex_group(w));
    reveal_with_fuel(hex_value, 5);
    assert(is_hex_group(f));
    assert(hex_value(f) == 65535);
    assert(seq![f].drop_last() =~= Seq::<Seq<char>>::empty());
    assert(tail.drop_last() =~= seq![f]);
    assert(parts_groups(seq![f], false) == Some(seq![0xffffu16]));
    assert(a / 65536 == g[6]);
    assert(a % 65536 == g[7]);
    let t = seq![0xffffu16, g[6], g[7]];
    assert(parts_groups(tail, true) == Some(t));
    assert(Seq::<u16>::empty() + Seq::new((8 - 0 - 3) as nat, |i: int| 0u16) + t =~= g);
    lemma_groups_value_v6(v);
    assert(compressed(Seq::empty(), tail) == Some(v));
    lemma_colon_first_not_ipv4(text);
}

/// Law: the text of an IPv6 address (`Ipv6Addr`'s `Display`) parses back
/// to the address (`IpAddr`'s `FromStr`).
pub proof fn law_ipv6_text_round_trip(v: u128)
    ensures
        spec_parse_ipv6(ipv6_text(v)) == Some(v),
        spec_parse_ip_addr(ipv6_text(v)) == Some(IpValue::V6(v)),
{
    let g = v6_groups(v);
    if g[0] == 0 && g[1] == 0 && g[2] == 0 && g[3] == 0 && g[4] == 0 && g[5] == 0xffff {
        lemma_mapped_round_trip(v);
    } else {
        let r = zero_runs(g);
        lemma_zero_runs(g);
        if r.3 > 1 {
            lemma_compressed_round_trip(v, r.2, r.3);
        } else {
            lemma_plain_round_trip(v);
        }
    }
}

/// Law: the text of an IP address (`IpAddr`'s `Display`) parses back to
/// the address.
pub proof fn law_ip_text_round_trip(ip: IpValue)
    ensures
        spec_parse_ip_addr(ip_text(ip)) == Some(ip),
{
    match ip {
        IpValue::V4(a) => crate::ip::law_ipv4_text_round_trip(a),
        IpValue::V6(v) => law_ipv6_text_round_trip(v),
    }
}

/// The text of an IP address is not blank and neither starts nor ends
/// with whitespace.
pub proof fn lemma_ip_text_ends(ip: IpValue)
    ensures
        ip_text(ip).len() > 0,
        !is_ws(ip_text(ip)[0]),
        !is_ws(ip_text(ip).last()),
{
    match ip {
        IpValue::V4(a) => crate::ip::lemma_ipv4_text_ends(a),
        IpValue::V6(v) => {
            let g = v6_groups(v);
            let text = ipv6_text(v);
            assert(!is_ws(':'));
            if g[0] == 0 && g[1] == 0 && g[2] == 0 && g[3] == 0 && g[4] == 0 && g[5] == 0xffff {
                reveal_strlit("::ffff:");
                let a = (g[6] as nat * 65536 + g[7] as nat) as u32;
                crate::ip::lemma_ipv4_text_ends(a);
                assert(text[0] == ':');
                assert(text.last() == ipv4_text(a).last());
            } else {
                let r = zero_runs(g);
                lemma_zero_runs(g);
                if r.3 > 1 {
                    reveal_strlit("::");
                    let x = hex_join(g.take(r.2 as int));
                    let y = hex_join(g.skip((r.2 + r.3) as int));
                    lemma_join_parts(g.take(r.2 as int));
                    lemma_join_parts(g.skip((r.2 + r.3) as int));
                    assert(text == x + "::"@ + y);
                    if x.len() > 0 {
                        assert(text[0] == x[0]);
                        assert(is_v6_char(x[0]));
                    } else {
                        assert(text[0] == ':');
                    }
                    if y.len() > 0 {
                        assert(text.last() == y.last());
                        assert(is_v6_char(y[y.len() - 1]));
                    } else {
                        assert(text.last() == ':');
                    }
                } else {
                    lemma_hex_join(g);
                    assert(is_v6_char(text[0]));
                    assert(is_v6_char(text[text.len() - 1]));
                }
            }
        },
    }
}

/// Zero groups make zero.
proof fn lemma_groups_value_zeros(l: nat)
    ensures
        groups_value(Seq::new(l, |i: int| 0u16)) == 0,
    decreases l,
{
    if l > 0 {
        lemma_groups_value_zeros((l - 1) as nat);
        assert(Seq::new(l, |i: int| 0u16).drop_last() =~= Seq::new((l - 1) as nat, |i: int| 0u16));
    }
}

/// The groups of an address make the address.
proof fn lemma_groups_value_v6(v: u128)
    ensures
        groups_value(v6_groups(v)) == v as nat,
{
    lemma_groups_value_prefix(v, 8);
    assert(v6_groups(v).take(8) =~= v6_groups(v));
    assert(pow65536(0) == 1);
    assert(v as nat / 1 == v as nat);
}

/// A network address is its own network address.
proof fn lemma_network_address_fixed(value: u32, bits: u32)
    requires
        1 <= bits <= 32,
    ensures
        network_address(network_address(value, bits), bits) == network_address(value, bits),
{
    let size = pow2n((32 - bits) as nat);
    crate::ip::lemma_pow2n_pos((32 - bits) as nat);
    let q = value as nat / size;
    assert(q * size <= value) by (nonlinear_arith)
        requires
            q == value as nat / size,
            size >= 1,
    ;
    let n = network_address(value, bits);
    assert(n as nat == q * size);
    vstd::arithmetic::div_mod::lemma_div_multiples_vanish(q as int, size as int);
    assert(size * q == q * size) by (nonlinear_arith);
    assert(n as nat / size == q);
}

/// `pow2n` is vstd's `pow2`.
proof fn lemma_pow2n_is_pow2(e: nat)
    ensures
        pow2n(e) == vstd::arithmetic::power2::pow2(e),
    decreases e,
{
    if e == 0 {
        vstd::arithmetic::power2::lemma2_to64();
    } else {
        lemma_pow2n_is_pow2((e - 1) as nat);
        vstd::arithmetic::power2::lemma_pow2_unfold(e);
    }
}

/// A network address has no host bits set.
proof fn lemma_network_address_low_bits(value: u32, bits: u32)
    requires
        1 <= bits <= 32,
    ensures
        network_address(value, bits) & !(u32::MAX << ((32 - bits) as u32)) == 0,
{
    let k: u32 = (32 - bits) as u32;
    let size = pow2n(k as nat);
    crate::ip::lemma_pow2n_pos(k as nat);
    let q = value as nat / size;
    assert(q * size <= value) by (nonlinear_arith)
        requires
            q == value as nat / size,
            size >= 1,
    ;
    assert((q * size) % size == 0) by (nonlinear_arith)
        requires
            size >= 1,
    ;
    let n = network_address(value, bits);
    assert(n as nat == q * size);
    lemma_pow2n_is_pow2(k as nat);
    vstd::bits::lemma_u32_pow2_no_overflow(k as nat);
    vstd::bits::lemma_u32_low_bits_mask_is_mod(n, k as nat);
    vstd::bits::lemma_u32_shl_is_mul(1u32, k);
    let one_shl: u32 = 1u32 << k;
    assert(one_shl as nat == size);
    assert(!(0xffff_ffffu32 << k) == ((1u32 << k) - 1) as u32) by (bit_vector)
        requires
            k < 32,
    ;
    assert(vstd::bits::low_bits_mask(k as nat) == size - 1);
    assert(u32::MAX == 0xffff_ffffu32);
}

/// Law: a parsed CIDR block's network address has no host bits set: with
/// a prefix of `b` bits, `n & !(u32::MAX << (32 - b)) == 0`.
pub proof fn law_cidr_network_has_no_host_bits(cidr: Seq<char>)
    ensures
        spec_parse_cidr(cidr) matches Some((n, b)) ==> {
            &&& 1 <= b <= 32
            &&& n & !(u32::MAX << ((32 - b) as u32)) == 0
        },
{
    if let Some((addr, len)) = crate::ip::split_once(cidr, '/') {
        if let Some(bits) = crate::text::parse_unsigned(crate::text::trim(len), u32::MAX as nat) {
            if 1 <= bits <= 32 {
                if let Some(value) = spec_parse_ipv4(crate::text::trim(addr)) {
                    lemma_network_address_low_bits(value, bits as u32);
                }
            }
        }
    }
}

/// Law: the text `a.b.c.d/len` of a CIDR block's network address and
/// prefix length parses back to that address and length, and the address
/// has no host bits set.
pub proof fn law_cidr_text_round_trip(value: u32, bits: u32)
    requires
        1 <= bits <= 32,
    ensures
        network_address(network_address(value, bits), bits) == network_address(value, bits),
        spec_parse_cidr(ipv4_text(network_address(value, bits)) + seq!['/'] + dec_text(bits as nat))
            == Some((network_address(value, bits), bits)),
{
    lemma_network_address_fixed(value, bits);
    let n = network_address(value, bits);
    let a = ipv4_text(n);
    let d = dec_text(bits as nat);
    let t = a + seq!['/'] + d;
    let l = a.len() as int;
    lemma_ipv4_text_chars(n);
    crate::ip::law_ipv4_text_round_trip(n);
    crate::ip::lemma_ipv4_text_ends(n);
    crate::text::lemma_trim_noop(a);
    lemma_dec_text(bits as nat);
    assert(is_digit(d[0]) && is_digit(d.last()));
    crate::text::lemma_trim_noop(d);
    assert forall|j: int| 0 <= j < l implies t[j] != '/' by {
        assert(t[j] == a[j]);
        if is_digit(a[j]) {
        }
    }
    assert(t[l] == '/');
    assert(t.contains('/'));
    let i = choose|i: int| 0 <= i < t.len() && t[i] == '/' && forall|j: int| 0 <= j < i ==> t[j] != '/';
    if i < l {
        assert(t[i] != '/');
    }
    if i > l {
        assert(t[l] != '/');
    }
    assert(i == l);
    assert(t.subrange(0, l) =~= a);
    assert(t.subrange(l + 1, t.len() as int) =~= d);
    assert(d[0] != '+');
}

} // verus!
