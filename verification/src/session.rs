//! OpenCode session ids and client versions.
//!
//! Session ids follow the official OpenCode client shape: `ses_` + 12
//! lowercase hex digits + 14 `[A-Za-z0-9]` digits.  The upstream free-tier
//! fingerprint check rejects ids that do not match this shape.
use vstd::prelude::*;

use crate::ip::split_on;
use crate::text::{
    all_digits, chars_of, is_digit, owned, parse_u32_chars, parse_unsigned, trim, trim_str,
    string_from_chars,
};
use crate::ip::split_chars;
use crate::ip::char_vecs;

verus! {

/// The character with code point `c`.
pub open spec fn code_char(c: nat) -> char {
    (c as u32) as char
}

/// `"0123456789abcdef"[v]`.
pub open spec fn hex_char(v: nat) -> char {
    if v < 10 {
        code_char(48 + v)
    } else {
        code_char(87 + v)
    }
}

/// `"0123456789abcdefghijklmnopqrstuvwxyzABCDEFGHIJKLMNOPQRSTUVWXYZ"[v]`.
pub open spec fn alnum_char(v: nat) -> char {
    if v < 10 {
        code_char(48 + v)
    } else if v < 36 {
        code_char(87 + v)
    } else {
        code_char(29 + v)
    }
}

/// `"ABCDEFGHIJKLMNOPQRSTUVWXYZabcdefghijklmnopqrstuvwxyz0123456789"[v]`.
pub open spec fn alnum_upper_first_char(v: nat) -> char {
    if v < 26 {
        code_char(65 + v)
    } else if v < 52 {
        code_char(71 + v)
    } else {
        code_char((v - 4) as nat)
    }
}

/// The character that a byte selects from one of the two 62-letter
/// alphabets: digits first, or capitals first.
pub open spec fn alnum_select(b: u8, upper_first: bool) -> char {
    if upper_first {
        alnum_upper_first_char(b as nat % 62)
    } else {
        alnum_char(b as nat % 62)
    }
}

pub open spec fn is_lower_hex(c: char) -> bool {
    ('0' <= c && c <= '9') || ('a' <= c && c <= 'f')
}

pub open spec fn is_ascii_alnum(c: char) -> bool {
    ('0' <= c && c <= '9') || ('a' <= c && c <= 'z') || ('A' <= c && c <= 'Z')
}

/// `ses_` + 12 lowercase hex digits + 14 `[A-Za-z0-9]` digits.
pub open spec fn has_session_id_shape(s: Seq<char>) -> bool {
    &&& s.len() == 30
    &&& s.take(4) == "ses_"@
    &&& forall|i: int| 4 <= i < 16 ==> is_lower_hex(#[trigger] s[i])
    &&& forall|i: int| 16 <= i < 30 ==> is_ascii_alnum(#[trigger] s[i])
}

/// The session id made from 26 random bytes: the first 12 select hex
/// digits, the last 14 select from `0-9a-zA-Z`.
pub open spec fn session_id_text(bytes: Seq<u8>) -> Seq<char> {
    session_id_text_with(bytes, false)
}

/// The session id made from 26 random bytes, the last 14 selecting from
/// the given alphabet.
pub open spec fn session_id_text_with(bytes: Seq<u8>, upper_first: bool) -> Seq<char> {
    "ses_"@ + Seq::new(12, |i: int| hex_char(bytes[i] as nat % 16)) + Seq::new(
        14,
        |i: int| alnum_select(bytes[12 + i], upper_first),
    )
}

/// `len` bytes from the operating system's random source, through the
/// `ring` provider of `rustls` (`SecureRandom::fill` on
/// `rustls::crypto::ring::default_provider().secure_random`); `None` when
/// that source reports a failure (`GetRandomFailed`).
///
/// The bytes themselves are chance: the contract states only their number.
#[verifier::external_body]
pub(crate) fn os_random_bytes(len: usize) -> (bytes: Option<Vec<u8>>)
    ensures
        bytes matches Some(b) ==> b@.len() == len,
{
    let mut buf: Vec<u8> = vec![0u8; len];
    let provider = rustls::crypto::ring::default_provider();
    match rustls::crypto::SecureRandom::fill(provider.secure_random, &mut buf) {
        Ok(()) => Some(buf),
        Err(_) => None,
    }
}

/// The step added to the seed of the time/counter stream after each byte.
pub const FALLBACK_SEED_STEP: u64 = 0x9e37_79b9_7f4a_7c15;

/// One xorshift step: `s ^= s << 13; s ^= s >> 7; s ^= s << 17`.
pub open spec fn xorshift_step(s: u64) -> u64 {
    let a = s ^ (s << 13u64);
    let b = a ^ (a >> 7u64);
    b ^ (b << 17u64)
}

/// `n` bytes of the time/counter stream from `seed` and `state`: each byte
/// is the low byte of the state after a xorshift step, after which the seed
/// advances by `FALLBACK_SEED_STEP` (wrapping) and is mixed into the state.
pub open spec fn fallback_stream(seed: u64, state: u64, n: nat) -> Seq<u8>
    decreases n,
{
    if n == 0 {
        Seq::empty()
    } else {
        let s = xorshift_step(state);
        let next_seed = seed.wrapping_add(FALLBACK_SEED_STEP);
        seq![(s & 0xffu64) as u8] + fallback_stream(next_seed, s ^ next_seed, (n - 1) as nat)
    }
}

/// The seed of the time/counter stream: the clock's nanoseconds mixed with
/// the counter times `FALLBACK_SEED_STEP` (wrapping).
pub open spec fn fallback_seed(now_nanos: u64, counter: u64) -> u64 {
    now_nanos ^ counter.wrapping_mul(FALLBACK_SEED_STEP)
}

/// The 26 bytes used when the operating system gives no random bytes.
pub open spec fn spec_fallback_bytes(now_nanos: u64, counter: u64) -> Seq<u8> {
    fallback_stream(fallback_seed(now_nanos, counter), fallback_seed(now_nanos, counter), 26)
}

/// The 26 bytes of the time/counter stream for a clock reading in
/// nanoseconds and a counter (distinct per call within a process).
pub fn fallback_session_bytes(now_nanos: u64, counter: u64) -> (bytes: Vec<u8>)
    ensures
        bytes@ == spec_fallback_bytes(now_nanos, counter),
        bytes@.len() == 26,
{
    let mut seed: u64 = now_nanos ^ counter.wrapping_mul(FALLBACK_SEED_STEP);
    let mut state: u64 = seed;
    let mut bytes: Vec<u8> = Vec::new();
    let mut i: usize = 0;
    while i < 26
        invariant
            i <= 26,
            bytes@.len() == i,
            bytes@ + fallback_stream(seed, state, (26 - i) as nat) == spec_fallback_bytes(
                now_nanos,
                counter,
            ),
        decreases 26 - i,
    {
        let ghost before = bytes@;
        let ghost seed0 = seed;
        let ghost state0 = state;
        state = state ^ (state << 13u64);
        state = state ^ (state >> 7u64);
        state = state ^ (state << 17u64);
        let b: u8 = (state & 0xffu64) as u8;
        bytes.push(b);
        seed = seed.wrapping_add(FALLBACK_SEED_STEP);
        state = state ^ seed;
        proof {
            let rest = fallback_stream(seed, state, (26 - i - 1) as nat);
            assert(fallback_stream(seed0, state0, (26 - i) as nat) == seq![b] + rest);
            assert(before + (seq![b] + rest) =~= bytes@ + rest);
        }
        i = i + 1;
    }
    assert(bytes@ + fallback_stream(seed, state, 0) =~= bytes@);
    bytes
}

/// The bytes that a session id is drawn from: those of the operating system
/// when it gave 26, else the time/counter stream.
pub open spec fn spec_session_bytes(os: Option<Seq<u8>>, now_nanos: u64, counter: u64) -> Seq<
    u8,
> {
    match os {
        Some(b) => if b.len() == 26 {
            b
        } else {
            spec_fallback_bytes(now_nanos, counter)
        },
        None => spec_fallback_bytes(now_nanos, counter),
    }
}

/// The view of optional bytes.
pub open spec fn opt_bytes(os: Option<Vec<u8>>) -> Option<Seq<u8>> {
    match os {
        Some(b) => Some(b@),
        None => None,
    }
}

/// The bytes that a session id is drawn from (see `spec_session_bytes`).
pub fn session_bytes(os: Option<Vec<u8>>, now_nanos: u64, counter: u64) -> (bytes: Vec<u8>)
    ensures
        bytes@ == spec_session_bytes(opt_bytes(os), now_nanos, counter),
        bytes@.len() == 26,
{
    match os {
        Some(b) => if b.len() == 26 {
            b
        } else {
            fallback_session_bytes(now_nanos, counter)
        },
        None => fallback_session_bytes(now_nanos, counter),
    }
}

/// The session id for the bytes of the operating system's random source
/// (`os`), or, when it gave none, for the time/counter stream of a clock
/// reading in nanoseconds and a counter.
pub fn session_id_from_sources(os: Option<Vec<u8>>, now_nanos: u64, counter: u64) -> (id: String)
    ensures
        id@ == session_id_text(spec_session_bytes(opt_bytes(os), now_nanos, counter)),
        has_session_id_shape(id@),
{
    let bytes = session_bytes(os, now_nanos, counter);
    session_id_from_bytes(&bytes)
}

/// The session id for 26 random bytes (alphabet `0-9a-zA-Z`).
pub fn session_id_from_bytes(bytes: &[u8]) -> (id: String)
    requires
        bytes@.len() == 26,
    ensures
        id@ == session_id_text(bytes@),
        has_session_id_shape(id@),
{
    session_id_with(bytes, false)
}

/// The session id for 26 random bytes, with either alphabet.
pub(crate) fn session_id_with(bytes: &[u8], upper_first: bool) -> (id: String)
    requires
        bytes@.len() == 26,
    ensures
        id@ == session_id_text_with(bytes@, upper_first),
        has_session_id_shape(id@),
{
    let mut chars: Vec<char> = Vec::new();
    let mut i: usize = 0;
    while i < 12
        invariant
            bytes@.len() == 26,
            i <= 12,
            chars@ == Seq::new(i as nat, |k: int| hex_char(bytes@[k] as nat % 16)),
        decreases 12 - i,
    {
        let v = bytes[i] % 16;
        let c = if v < 10 {
            (48u8 + v) as char
        } else {
            (87u8 + v) as char
        };
        assert(c == hex_char(bytes@[i as int] as nat % 16));
        chars.push(c);
        assert(chars@ =~= Seq::new((i + 1) as nat, |k: int| hex_char(bytes@[k] as nat % 16)));
        i = i + 1;
    }
    let mut j: usize = 0;
    while j < 14
        invariant
            bytes@.len() == 26,
            j <= 14,
            chars@ == Seq::new(12, |k: int| hex_char(bytes@[k] as nat % 16)) + Seq::new(
                j as nat,
                |k: int| alnum_select(bytes@[12 + k], upper_first),
            ),
        decreases 14 - j,
    {
        let v = bytes[12 + j] % 62;
        let c = if upper_first {
            if v < 26 {
                (65u8 + v) as char
            } else if v < 52 {
                (71u8 + v) as char
            } else {
                (v - 4) as char
            }
        } else {
            if v < 10 {
                (48u8 + v) as char
            } else if v < 36 {
                (87u8 + v) as char
            } else {
                (29u8 + v) as char
            }
        };
        assert(c == alnum_select(bytes@[12 + j], upper_first));
        chars.push(c);
        assert(chars@ =~= Seq::new(12, |k: int| hex_char(bytes@[k] as nat % 16)) + Seq::new(
            (j + 1) as nat,
            |k: int| alnum_select(bytes@[12 + k], upper_first),
        ));
        j = j + 1;
    }
    let mut id = owned("ses_");
    crate::text::push_chars(&mut id, &chars);
    proof {
        assert(id@ =~= session_id_text_with(bytes@, upper_first));
        lemma_session_id_shape(bytes@, upper_first);
    }
    id
}

proof fn lemma_session_id_shape(bytes: Seq<u8>, upper_first: bool)
    requires
        bytes.len() == 26,
    ensures
        has_session_id_shape(session_id_text_with(bytes, upper_first)),
{
    let s = session_id_text_with(bytes, upper_first);
    reveal_strlit("ses_");
    assert(s.take(4) =~= "ses_"@);
    assert forall|i: int| 4 <= i < 16 implies is_lower_hex(#[trigger] s[i]) by {
        let v = bytes[i - 4] as nat % 16;
        assert(s[i] == hex_char(v));
    }
    assert forall|i: int| 16 <= i < 30 implies is_ascii_alnum(#[trigger] s[i]) by {
        assert(s[i] == alnum_select(bytes[12 + (i - 16)], upper_first));
    }
}

/// Generates an official-shape OpenCode session id from 26 bytes of the
/// operating system's random source; when that source fails, from the
/// time/counter stream of the clock's nanoseconds (counter 0: a process-wide
/// counter needs a `static`, which this library does not keep).
pub fn new_session_id() -> (id: String)
    ensures
        has_session_id_shape(id@),
        exists|os: Option<Seq<u8>>, now_nanos: u64|
            id@ == session_id_text(spec_session_bytes(os, now_nanos, 0)),
{
    let os = os_random_bytes(26);
    let now_nanos: u64 = match os {
        Some(_) => 0,
        None => crate::clock::now_unix_nanos(),
    };
    let ghost o = opt_bytes(os);
    let id = session_id_from_sources(os, now_nanos, 0);
    assert(id@ == session_id_text(spec_session_bytes(o, now_nanos, 0)));
    id
}

/// The longest prefix of decimal digits.
pub open spec fn digit_prefix(s: Seq<char>) -> Seq<char>
    decreases s.len(),
{
    if s.len() > 0 && is_digit(s[0]) {
        seq![s[0]] + digit_prefix(s.drop_first())
    } else {
        Seq::empty()
    }
}

/// One version component: the leading digits as a `u32`, 0 when there are
/// none or they do not fit.
pub open spec fn version_component(part: Seq<char>) -> u32 {
    match parse_unsigned(digit_prefix(part), u32::MAX as nat) {
        Some(v) => v as u32,
        None => 0,
    }
}

/// The first three dot-separated components (missing ones are 0).
pub open spec fn spec_version_parts(version: Seq<char>) -> Seq<u32> {
    let parts = split_on(version, '.');
    Seq::new(
        3,
        |i: int|
            if i < parts.len() {
                version_component(parts[i])
            } else {
                0
            },
    )
}

/// Three-way comparison of component lists: -1, 0 or 1.
pub open spec fn compare_parts(l: Seq<u32>, r: Seq<u32>) -> i32 {
    if l[0] < r[0] {
        -1i32
    } else if l[0] > r[0] {
        1
    } else if l[1] < r[1] {
        -1i32
    } else if l[1] > r[1] {
        1
    } else if l[2] < r[2] {
        -1i32
    } else if l[2] > r[2] {
        1
    } else {
        0
    }
}

pub open spec fn spec_compare_client_version(left: Seq<char>, right: Seq<char>) -> i32 {
    compare_parts(spec_version_parts(left), spec_version_parts(right))
}

fn digit_prefix_chars(s: &[char]) -> (out: Vec<char>)
    ensures
        out@ == digit_prefix(s@),
{
    let n = s.len();
    let mut i: usize = 0;
    assert(s@.skip(0) =~= s@);
    assert(s@.take(0) + digit_prefix(s@.skip(0)) =~= digit_prefix(s@));
    while i < n && '0' <= s[i] && s[i] <= '9'
        invariant
            n == s@.len(),
            i <= n,
            forall|k: int| 0 <= k < i ==> is_digit(#[trigger] s@[k]),
            digit_prefix(s@) == s@.take(i as int) + digit_prefix(s@.skip(i as int)),
        decreases n - i,
    {
        proof {
            let rest = s@.skip(i as int);
            assert(rest.drop_first() =~= s@.skip(i + 1));
            assert(s@.take(i + 1) =~= s@.take(i as int) + seq![s@[i as int]]);
            assert(digit_prefix(rest) == seq![rest[0]] + digit_prefix(rest.drop_first()));
        }
        i = i + 1;
    }
    proof {
        assert(s@.skip(0) =~= s@);
        assert(digit_prefix(s@.skip(i as int)) =~= Seq::<char>::empty());
    }
    let mut out: Vec<char> = Vec::new();
    let mut k: usize = 0;
    while k < i
        invariant
            i <= n,
            n == s@.len(),
            k <= i,
            out@ == s@.take(k as int),
        decreases i - k,
    {
        out.push(s[k]);
        assert(s@.take(k + 1) =~= s@.take(k as int).push(s@[k as int]));
        k = k + 1;
    }
    assert(digit_prefix(s@) =~= s@.take(i as int));
    out
}

/// The first three numeric components of a dotted version.
fn version_parts(version: &str) -> (parts: [u32; 3])
    ensures
        parts@ == spec_version_parts(version@),
{
    let chars = chars_of(version);
    let pieces = split_chars(&chars, '.');
    let mut parts = [0u32; 3];
    let mut index: usize = 0;
    let ghost sp = split_on(version@, '.');
    assert(char_vecs(pieces@) == sp);
    while index < 3 && index < pieces.len()
        invariant
            index <= 3,
            index <= pieces@.len(),
            pieces@.len() == sp.len(),
            sp == char_vecs(pieces@),
            forall|k: int| 0 <= k < index ==> parts@[k] == version_component(sp[k]),
            forall|k: int| index <= k < 3 ==> parts@[k] == 0,
        decreases 3 - index,
    {
        assert(sp[index as int] == pieces@[index as int]@);
        let digits = digit_prefix_chars(&pieces[index]);
        let value = match parse_u32_chars(&digits) {
            Some(v) => v,
            None => 0,
        };
        parts[index] = value;
        index = index + 1;
    }
    assert forall|k: int| 0 <= k < 3 implies parts@[k] == spec_version_parts(version@)[k] by {
        assert(spec_version_parts(version@)[k] == (if k < sp.len() {
            version_component(sp[k])
        } else {
            0
        }));
        if k < sp.len() {
            assert(k < index);
        } else {
            assert(k >= index);
        }
    }
    assert(parts@ =~= spec_version_parts(version@));
    parts
}

/// Compares two dotted-decimal client versions: -1 when `left < right`, 0
/// when equal and 1 when `left > right`.  Non-numeric components count as 0,
/// so `1.17.0` and `1.17` compare equal.
pub fn compare_client_version(left: &str, right: &str) -> (r: i32)
    ensures
        r == spec_compare_client_version(left@, right@),
{
    let l = version_parts(left);
    let r = version_parts(right);
    let mut index: usize = 0;
    while index < 3
        invariant
            index <= 3,
            l@ == spec_version_parts(left@),
            r@ == spec_version_parts(right@),
            forall|k: int| 0 <= k < index ==> l@[k] == r@[k],
        decreases 3 - index,
    {
        if l[index] < r[index] {
            return -1;
        }
        if l[index] > r[index] {
            return 1;
        }
        index = index + 1;
    }
    0
}

/// Law: every version compares equal to itself.
pub proof fn law_compare_reflexive(v: Seq<char>)
    ensures
        spec_compare_client_version(v, v) == 0,
{
}

/// Law: swapping the arguments negates the comparison.
pub proof fn law_compare_antisymmetric(a: Seq<char>, b: Seq<char>)
    ensures
        spec_compare_client_version(a, b) == -(spec_compare_client_version(b, a) as int),
{
}

/// Law: the comparison is transitive.
pub proof fn law_compare_transitive(a: Seq<char>, b: Seq<char>, c: Seq<char>)
    requires
        spec_compare_client_version(a, b) <= 0,
        spec_compare_client_version(b, c) <= 0,
    ensures
        spec_compare_client_version(a, c) <= 0,
{
}

/// Text after a non-digit does not change the leading digits.
pub proof fn lemma_digit_prefix_append(p: Seq<char>, w: Seq<char>)
    requires
        w.len() == 0 || !is_digit(w[0]),
    ensures
        digit_prefix(p + w) == digit_prefix(p),
    decreases p.len(),
{
    if p.len() == 0 {
        assert(p + w =~= w);
        assert(digit_prefix(p) == Seq::<char>::empty());
    } else {
        assert((p + w)[0] == p[0]);
        if is_digit(p[0]) {
            assert((p + w).drop_first() =~= p.drop_first() + w);
            lemma_digit_prefix_append(p.drop_first(), w);
        }
    }
}

/// Trailing whitespace does not change the version components.
pub proof fn lemma_version_parts_trim_end(v: Seq<char>)
    ensures
        spec_version_parts(crate::text::trim_end(v)) == spec_version_parts(v),
{
    let k = crate::text::lemma_trim_end_take(v);
    let t = v.take(k);
    let w = v.skip(k);
    assert(t + w =~= v);
    assert forall|i: int| 0 <= i < w.len() implies w[i] != '.' by {
        assert(w[i] == v[k + i]);
        assert(crate::text::is_ws(v[k + i]));
    }
    crate::ip::lemma_split_on_append(t, w, '.');
    let pt = split_on(t, '.');
    let pv = split_on(v, '.');
    assert(pv.len() == pt.len());
    if w.len() > 0 {
        assert(w[0] == v[k]);
        assert(crate::text::is_ws(v[k]));
    }
    lemma_digit_prefix_append(pt.last(), w);
    assert forall|i: int| 0 <= i < pt.len() implies version_component(#[trigger] pv[i])
        == version_component(pt[i]) by {
        if i == pt.len() - 1 {
            assert(pv[i] == pt.last() + w);
        } else {
            assert(pv[i] == pt[i]);
        }
    }
    assert(spec_version_parts(t) =~= spec_version_parts(v));
}

/// A version that starts with whitespace (or is empty) has 0 as its first
/// component.
pub proof fn lemma_version_leading_ws(v: Seq<char>)
    requires
        v.len() == 0 || crate::text::is_ws(v[0]),
    ensures
        spec_version_parts(v)[0] == 0,
{
    crate::ip::lemma_split_on_first(v, '.');
    let p0 = split_on(v, '.')[0];
    if p0.len() > 0 {
        assert(p0[0] == v[0]);
    }
    assert(digit_prefix(p0) == Seq::<char>::empty());
}

/// The components of a literal version text.
pub proof fn lemma_version_literal(text: Seq<char>, a: Seq<char>, b: Seq<char>, c: Seq<char>)
    requires
        text == a + seq!['.'] + b + seq!['.'] + c,
        forall|i: int| 0 <= i < a.len() ==> is_digit(#[trigger] a[i]),
        forall|i: int| 0 <= i < b.len() ==> is_digit(#[trigger] b[i]),
        forall|i: int| 0 <= i < c.len() ==> is_digit(#[trigger] c[i]),
        a.len() > 0,
        b.len() > 0,
        c.len() > 0,
        crate::text::dec_value(a) <= u32::MAX,
        crate::text::dec_value(b) <= u32::MAX,
        crate::text::dec_value(c) <= u32::MAX,
    ensures
        spec_version_parts(text) == seq![
            crate::text::dec_value(a) as u32,
            crate::text::dec_value(b) as u32,
            crate::text::dec_value(c) as u32,
        ],
{
    assert forall|i: int| 0 <= i < a.len() implies a[i] != '.' by {
        assert(is_digit(a[i]));
    }
    assert forall|i: int| 0 <= i < b.len() implies b[i] != '.' by {
        assert(is_digit(b[i]));
    }
    assert forall|i: int| 0 <= i < c.len() implies c[i] != '.' by {
        assert(is_digit(c[i]));
    }
    crate::ip::lemma_split_on_no_sep(a, '.');
    crate::ip::lemma_split_on_no_sep(b, '.');
    crate::ip::lemma_split_on_no_sep(c, '.');
    crate::ip::lemma_split_on_concat(a, b, '.');
    crate::ip::lemma_split_on_concat(a + seq!['.'] + b, c, '.');
    assert(split_on(text, '.') =~= seq![a, b, c]);
    lemma_digit_prefix_all(a);
    lemma_digit_prefix_all(b);
    lemma_digit_prefix_all(c);
    assert(spec_version_parts(text) =~= seq![
        crate::text::dec_value(a) as u32,
        crate::text::dec_value(b) as u32,
        crate::text::dec_value(c) as u32,
    ]);
}

/// The leading digits of a text of digits are the text.
pub proof fn lemma_digit_prefix_all(s: Seq<char>)
    requires
        forall|i: int| 0 <= i < s.len() ==> is_digit(#[trigger] s[i]),
    ensures
        digit_prefix(s) == s,
    decreases s.len(),
{
    if s.len() > 0 {
        assert forall|i: int| 0 <= i < s.drop_first().len() implies is_digit(
            #[trigger] s.drop_first()[i],
        ) by {
            assert(s.drop_first()[i] == s[i + 1]);
        }
        lemma_digit_prefix_all(s.drop_first());
        assert(seq![s[0]] + s.drop_first() =~= s);
    } else {
        assert(s =~= Seq::<char>::empty());
    }
}

} // verus!
