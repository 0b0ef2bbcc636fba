//! Decoding of announcement payloads that arrive as hex or base64 text.

use vstd::prelude::*;
use crate::audio::announcement::{announcement_chunks, chunk_views, chunked};
use crate::bounded::{payload_bytes, payload_new, payload_push, payload_slice, ANNOUNCEMENT_PAYLOAD_CAPACITY};
use crate::text::{trim_chars, trim_str};
use vstd::string::StringSliceAdditionalSpecFns;

verus! {

/// The bytes `str::is_ascii_whitespace` accepts: space, tab, line feed,
/// form feed and carriage return.
pub open spec fn is_ascii_ws(b: u8) -> bool {
    b == 0x20 || b == 0x09 || b == 0x0A || b == 0x0C || b == 0x0D
}

/// The bytes of `s` that are not ASCII white space, in order.
pub open spec fn significant(s: Seq<u8>) -> Seq<u8> {
    s.filter(|b: u8| !is_ascii_ws(b))
}

/// The value of a hexadecimal digit.
pub open spec fn nibble(b: u8) -> Option<u8> {
    if 0x30 <= b <= 0x39 {
        Some((b - 0x30) as u8)
    } else if 0x61 <= b <= 0x66 {
        Some((b - 0x61 + 10) as u8)
    } else if 0x41 <= b <= 0x46 {
        Some((b - 0x41 + 10) as u8)
    } else {
        None
    }
}

/// The value of a base64 digit (standard alphabet).
pub open spec fn sextet(b: u8) -> Option<u8> {
    if 0x41 <= b <= 0x5A {
        Some((b - 0x41) as u8)
    } else if 0x61 <= b <= 0x7A {
        Some((b - 0x61 + 26) as u8)
    } else if 0x30 <= b <= 0x39 {
        Some((b - 0x30 + 52) as u8)
    } else if b == 0x2B {
        Some(62u8)
    } else if b == 0x2F {
        Some(63u8)
    } else {
        None
    }
}

/// Every digit of `f` is a hexadecimal digit.
pub open spec fn all_hex(f: Seq<u8>) -> bool {
    forall|i: int| 0 <= i < f.len() ==> (#[trigger] nibble(f[i])) is Some
}

/// The bytes spelled by consecutive pairs of hexadecimal digits.
pub open spec fn hex_pairs(f: Seq<u8>) -> Seq<u8> {
    Seq::new(f.len() / 2, |i: int| (nibble(f[2 * i])->0 * 16 + nibble(f[2 * i + 1])->0) as u8)
}

/// What `decode_hex` gives for payload bytes `s`: the hex decoding of its
/// non-white-space bytes, when they are an even number of hex digits that
/// decode to at most the payload capacity.
pub open spec fn hex_decoding(s: Seq<u8>) -> Option<Seq<u8>> {
    let f = significant(s);
    if f.len() % 2 == 0 && all_hex(f) && f.len() / 2 <= ANNOUNCEMENT_PAYLOAD_CAPACITY {
        Some(hex_pairs(f))
    } else {
        None
    }
}

/// The digits before the first `=` (the start of base64 padding).
pub open spec fn before_pad(f: Seq<u8>) -> Seq<u8>
    decreases f.len(),
{
    if f.len() == 0 {
        f
    } else if f[0] == 0x3D {
        Seq::empty()
    } else {
        seq![f[0]] + before_pad(f.drop_first())
    }
}

/// The digits of `g` that base64 decoding checks: all of every complete
/// group of four, and of a trailing partial group only when it has two or
/// three digits (a lone trailing digit is ignored).
pub open spec fn checked_digits(g: Seq<u8>) -> int {
    let q = g.len() / 4;
    let r = g.len() % 4;
    if r >= 2 { g.len() as int } else { 4 * q as int }
}

/// The base64 digits that decoding checks are all valid.
pub open spec fn all_b64(g: Seq<u8>) -> bool {
    forall|i: int| 0 <= i < checked_digits(g) ==> (#[trigger] sextet(g[i])) is Some
}

/// The digit at `i` as a base64 value.
pub open spec fn sx(g: Seq<u8>, i: int) -> int {
    sextet(g[i])->0 as int
}

/// Byte `j` (0, 1 or 2) of the group of four digits starting at `at`.
pub open spec fn group_byte(g: Seq<u8>, at: int, j: int) -> u8 {
    if j == 0 {
        (sx(g, at) * 4 + sx(g, at + 1) / 16) as u8
    } else if j == 1 {
        ((sx(g, at + 1) % 16) * 16 + sx(g, at + 2) / 4) as u8
    } else {
        ((sx(g, at + 2) % 4) * 64 + sx(g, at + 3)) as u8
    }
}

/// How many bytes the digits of `g` decode to.
pub open spec fn b64_len(g: Seq<u8>) -> int {
    let r = g.len() % 4;
    3 * (g.len() / 4) + if r == 2 { 1int } else if r == 3 { 2int } else { 0int }
}

/// The bytes the digits of `g` decode to.
pub open spec fn b64_bytes(g: Seq<u8>) -> Seq<u8> {
    Seq::new(b64_len(g) as nat, |k: int| group_byte(g, 4 * (k / 3), k % 3))
}

/// What `decode_base64` gives for payload bytes `s`: the decoding of the
/// non-white-space digits before the first `=`, when the digits it checks
/// are valid and the result fits the payload capacity.
pub open spec fn base64_decoding(s: Seq<u8>) -> Option<Seq<u8>> {
    let g = before_pad(significant(s));
    if all_b64(g) && b64_len(g) <= ANNOUNCEMENT_PAYLOAD_CAPACITY {
        Some(b64_bytes(g))
    } else {
        None
    }
}

/// What `decode_announcement_payload` gives for a payload: nothing for a
/// blank payload, else the hex decoding of the trimmed text, else its
/// base64 decoding.
pub open spec fn announcement_decoding(payload: Seq<char>) -> Option<Seq<u8>> {
    let t = trim_chars(payload);
    if t.len() == 0 {
        None
    } else if hex_decoding(vstd::utf8::encode_utf8(t)) is Some {
        hex_decoding(vstd::utf8::encode_utf8(t))
    } else {
        base64_decoding(vstd::utf8::encode_utf8(t))
    }
}

/// The decoded bytes a decoder result holds, as a sequence.
pub open spec fn decoded(r: Option<heapless::Vec<u8, ANNOUNCEMENT_PAYLOAD_CAPACITY>>) -> Option<Seq<u8>> {
    match r {
        Some(v) => Some(payload_bytes(v)),
        None => None,
    }
}

proof fn lemma_significant_step(s: Seq<u8>, k: int)
    requires
        0 <= k < s.len(),
    ensures
        significant(s.take(k + 1)) == if is_ascii_ws(s[k]) {
            significant(s.take(k))
        } else {
            significant(s.take(k)).push(s[k])
        },
{
    reveal(Seq::filter);
    assert(s.take(k + 1).drop_last() =~= s.take(k));
}

proof fn lemma_significant_prefix(s: Seq<u8>, k: int)
    requires
        0 <= k <= s.len(),
    ensures
        significant(s) == significant(s.take(k)) + significant(s.skip(k)),
{
    assert(s =~= s.take(k) + s.skip(k));
    Seq::filter_distributes_over_add(s.take(k), s.skip(k), |b: u8| !is_ascii_ws(b));
}

proof fn lemma_significant_all(s: Seq<u8>)
    ensures
        significant(s.take(s.len() as int)) == significant(s),
{
    assert(s.take(s.len() as int) =~= s);
}

/// The value of a hexadecimal digit, if `byte` is one.
pub fn nibble_value(byte: u8) -> (r: Option<u8>)
    ensures
        r == nibble(byte),
{
    if byte >= 0x30 && byte <= 0x39 {
        Some(byte - 0x30)
    } else if byte >= 0x61 && byte <= 0x66 {
        Some(10 + byte - 0x61)
    } else if byte >= 0x41 && byte <= 0x46 {
        Some(10 + byte - 0x41)
    } else {
        None
    }
}

/// The value of a base64 digit, if `byte` is one.
pub fn b64_value(byte: u8) -> (r: Option<u8>)
    ensures
        r == sextet(byte),
{
    if byte >= 0x41 && byte <= 0x5A {
        Some(byte - 0x41)
    } else if byte >= 0x61 && byte <= 0x7A {
        Some(26 + byte - 0x61)
    } else if byte >= 0x30 && byte <= 0x39 {
        Some(52 + byte - 0x30)
    } else if byte == 0x2B {
        Some(62)
    } else if byte == 0x2F {
        Some(63)
    } else {
        None
    }
}

fn is_ascii_whitespace(b: u8) -> (r: bool)
    ensures
        r == is_ascii_ws(b),
{
    b == 0x20 || b == 0x09 || b == 0x0A || b == 0x0C || b == 0x0D
}

proof fn lemma_join_nibbles(h: u8, l: u8)
    requires
        h < 16,
        l < 16,
    ensures
        (h << 4u8) | l == h * 16 + l,
{
    assert((h << 4u8) | l == h * 16 + l) by (bit_vector)
        requires
            h < 16,
            l < 16,
    ;
}

/// Decode hexadecimal text, ignoring ASCII white space.
pub fn decode_hex(payload: &str) -> (r: Option<heapless::Vec<u8, ANNOUNCEMENT_PAYLOAD_CAPACITY>>)
    ensures
        decoded(r) == hex_decoding(payload.spec_bytes()),
{
    let bytes = payload.as_bytes();
    let ghost s = bytes@;
    let mut out = payload_new();
    let mut high: u8 = 0;
    let mut have_high = false;
    let mut k: usize = 0;
    while k < bytes.len()
        invariant
            s == bytes@,
            s == payload.spec_bytes(),
            k <= s.len(),
            have_high == (significant(s.take(k as int)).len() % 2 == 1),
            all_hex(significant(s.take(k as int))),
            have_high ==> high as int == nibble(significant(s.take(k as int)).last())->0,
            payload_bytes(out) == hex_pairs(significant(s.take(k as int))),
            payload_bytes(out).len() <= ANNOUNCEMENT_PAYLOAD_CAPACITY,
        decreases s.len() - k,
    {
        let b = bytes[k];
        let ghost f = significant(s.take(k as int));
        proof {
            lemma_significant_step(s, k as int);
        }
        if !is_ascii_whitespace(b) {
            let ghost f1 = f.push(b);
            match nibble_value(b) {
                None => {
                    proof {
                        lemma_significant_prefix(s, k + 1);
                        assert(significant(s)[f.len() as int] == b);
                    }
                    return None;
                },
                Some(n) => {
                    if have_high {
                        proof {
                            lemma_join_nibbles(high, n);
                        }
                        let byte = (high << 4u8) | n;
                        match payload_push(&mut out, byte) {
                            Err(_) => {
                                proof {
                                    lemma_significant_prefix(s, k + 1);
                                    let ff = significant(s);
                                    if ff.len() % 2 == 0 && all_hex(ff) {
                                        assert(ff.len() >= f1.len());
                                    }
                                }
                                return None;
                            },
                            Ok(()) => {},
                        }
                        have_high = false;
                        assert(payload_bytes(out) =~= hex_pairs(f1));
                    } else {
                        high = n;
                        have_high = true;
                        assert(hex_pairs(f1) =~= hex_pairs(f));
                    }
                },
            }
        }
        k = k + 1;
    }
    proof {
        lemma_significant_all(s);
    }
    if have_high {
        return None;
    }
    Some(out)
}


/// No padding character occurs in `f`.
pub open spec fn pad_free(f: Seq<u8>) -> bool {
    forall|i: int| 0 <= i < f.len() ==> #[trigger] f[i] != 0x3D
}

proof fn lemma_before_pad_append(a: Seq<u8>, b: Seq<u8>)
    requires
        pad_free(a),
    ensures
        before_pad(a + b) == a + before_pad(b),
    decreases a.len(),
{
    if a.len() == 0 {
        assert(a + b =~= b);
        assert(a + before_pad(b) =~= before_pad(b));
    } else {
        let ab = a + b;
        assert(ab[0] == a[0]);
        assert(ab.drop_first() =~= a.drop_first() + b);
        lemma_before_pad_append(a.drop_first(), b);
        assert(a =~= seq![a[0]] + a.drop_first());
        assert(seq![a[0]] + (a.drop_first() + before_pad(b)) =~= a + before_pad(b));
    }
}

proof fn lemma_before_pad_free(a: Seq<u8>)
    requires
        pad_free(a),
    ensures
        before_pad(a) == a,
{
    lemma_before_pad_append(a, Seq::empty());
    assert(a + Seq::<u8>::empty() =~= a);
}

/// The significant prefix seen so far is a prefix of the digits decoded.
proof fn lemma_pad_free_prefix(s: Seq<u8>, k: int)
    requires
        0 <= k <= s.len(),
        pad_free(significant(s.take(k))),
    ensures
        before_pad(significant(s)) == significant(s.take(k)) + before_pad(significant(s.skip(k))),
{
    lemma_significant_prefix(s, k);
    lemma_before_pad_append(significant(s.take(k)), significant(s.skip(k)));
}

/// Decoding stops at the first `=`.
proof fn lemma_pad_cut(s: Seq<u8>, k: int)
    requires
        0 <= k < s.len(),
        s[k] == 0x3D,
        pad_free(significant(s.take(k))),
    ensures
        before_pad(significant(s)) == significant(s.take(k)),
{
    let a = significant(s.take(k));
    lemma_significant_prefix(s, k + 1);
    lemma_significant_step(s, k);
    let b = significant(s.skip(k + 1));
    assert(significant(s) =~= a + (seq![0x3Du8] + b));
    lemma_before_pad_append(a, seq![0x3Du8] + b);
    assert((seq![0x3Du8] + b)[0] == 0x3D);
    assert(before_pad(seq![0x3Du8] + b) =~= Seq::<u8>::empty());
    assert(a + Seq::<u8>::empty() =~= a);
}

proof fn lemma_join_sextets(a: u8, b: u8, c: u8, d: u8)
    requires
        a < 64,
        b < 64,
        c < 64,
        d < 64,
    ensures
        (a << 2u8) | (b >> 4u8) == a * 4 + b / 16,
        ((b & 0x0Fu8) << 4u8) | (c >> 2u8) == (b % 16) * 16 + c / 4,
        ((c & 0x03u8) << 6u8) | d == (c % 4) * 64 + d,
{
    assert((a << 2u8) | (b >> 4u8) == a * 4 + b / 16) by (bit_vector)
        requires
            a < 64,
            b < 64,
    ;
    assert(((b & 0x0Fu8) << 4u8) | (c >> 2u8) == (b % 16) * 16 + c / 4) by (bit_vector)
        requires
            b < 64,
            c < 64,
    ;
    assert(((c & 0x03u8) << 6u8) | d == (c % 4) * 64 + d) by (bit_vector)
        requires
            c < 64,
            d < 64,
    ;
}

/// The complete groups of four digits at the front of `g`.
pub open spec fn full_groups(g: Seq<u8>) -> Seq<u8> {
    g.take(4 * (g.len() / 4) as int)
}

proof fn lemma_bytes_agree(g: Seq<u8>, h: Seq<u8>, n: int)
    requires
        0 <= n <= g.len(),
        n <= h.len(),
        forall|i: int| 0 <= i < n ==> g[i] == h[i],
    ensures
        forall|k: int| 0 <= k && 4 * (k / 3) + 3 < n ==> #[trigger] group_byte(g, 4 * (k / 3), k % 3)
            == group_byte(h, 4 * (k / 3), k % 3),
{
    assert forall|k: int| 0 <= k && 4 * (k / 3) + 3 < n implies #[trigger] group_byte(g, 4 * (k / 3), k % 3)
        == group_byte(h, 4 * (k / 3), k % 3) by {
        let at = 4 * (k / 3);
        assert(g[at] == h[at]);
        assert(g[at + 1] == h[at + 1]);
        assert(g[at + 2] == h[at + 2]);
        assert(g[at + 3] == h[at + 3]);
    }
}

/// Decode base64 text (standard alphabet), ignoring ASCII white space and
/// stopping at the first `=`.
pub fn decode_base64(payload: &str) -> (r: Option<heapless::Vec<u8, ANNOUNCEMENT_PAYLOAD_CAPACITY>>)
    ensures
        decoded(r) == base64_decoding(payload.spec_bytes()),
{
    let bytes = payload.as_bytes();
    let ghost s = bytes@;
    let mut out = payload_new();
    let mut chars: [u8; 4] = [0u8; 4];
    let mut count: usize = 0;
    let mut k: usize = 0;
    let mut cut = false;
    while k < bytes.len()
        invariant_except_break
            !cut,
        invariant
            s == bytes@,
            s == payload.spec_bytes(),
            k <= s.len(),
            pad_free(significant(s.take(k as int))),
            count == significant(s.take(k as int)).len(),
            forall|j: int| 0 <= j < count % 4 ==> #[trigger] chars@[j] == significant(s.take(k as int))[4 * (count / 4) + j],
            forall|i: int| 0 <= i < 4 * (count / 4) ==> (#[trigger] sextet(significant(s.take(k as int))[i])) is Some,
            payload_bytes(out) == b64_bytes(full_groups(significant(s.take(k as int)))),
            payload_bytes(out).len() <= ANNOUNCEMENT_PAYLOAD_CAPACITY,
        ensures
            cut ==> before_pad(significant(s)) == significant(s.take(k as int)),
            !cut ==> k == s.len(),
        decreases s.len() - k,
    {
        let b = bytes[k];
        let ghost g = significant(s.take(k as int));
        proof {
            lemma_significant_step(s, k as int);
        }
        if !is_ascii_whitespace(b) {
            if b == 0x3D {
                proof {
                    lemma_pad_cut(s, k as int);
                }
                cut = true;
                break;
            }
            let ghost g1 = g.push(b);
            assert(pad_free(g1));
            let ghost c0 = count as int;
            let ghost ch0 = chars@;
            assert forall|j: int| 0 <= j < c0 % 4 implies #[trigger] ch0[j] == g1[4 * (c0 / 4) + j] by {
                assert(ch0[j] == g[4 * (c0 / 4) + j]);
            }
            chars[count % 4] = b;
            assert(chars@ == ch0.update(c0 % 4, b));
            count = count + 1;
            assert(g1[c0] == b);
            if count % 4 == 0 {
                let ghost m = count / 4;
                assert(c0 / 4 == m - 1 && c0 % 4 == 3);
                proof {
                    lemma_pad_free_prefix(s, k + 1);
                    assert(chars@[0] == ch0[0]);
                    assert(chars@[1] == ch0[1]);
                    assert(chars@[2] == ch0[2]);
                    assert(chars@[0] == g1[4 * (m - 1)]);
                    assert(chars@[1] == g1[4 * (m - 1) + 1]);
                    assert(chars@[2] == g1[4 * (m - 1) + 2]);
                    assert(chars@[3] == g1[4 * (m - 1) + 3]);
                    let gf = before_pad(significant(s));
                    assert forall|i: int| 0 <= i < g1.len() implies gf[i] == g1[i] by {
                        assert(gf == g1 + before_pad(significant(s.skip(k + 1))));
                    }
                    assert(4 * m <= checked_digits(gf));
                }
                let a = match b64_value(chars[0]) {
                    Some(v) => v,
                    None => {
                        assert(!all_b64(before_pad(significant(s)))) by {
                            assert(sextet(before_pad(significant(s))[4 * (m - 1)]) is None);
                        }
                        return None;
                    },
                };
                let bb = match b64_value(chars[1]) {
                    Some(v) => v,
                    None => {
                        assert(!all_b64(before_pad(significant(s)))) by {
                            assert(sextet(before_pad(significant(s))[4 * (m - 1) + 1]) is None);
                        }
                        return None;
                    },
                };
                let c = match b64_value(chars[2]) {
                    Some(v) => v,
                    None => {
                        assert(!all_b64(before_pad(significant(s)))) by {
                            assert(sextet(before_pad(significant(s))[4 * (m - 1) + 2]) is None);
                        }
                        return None;
                    },
                };
                let d = match b64_value(chars[3]) {
                    Some(v) => v,
                    None => {
                        assert(!all_b64(before_pad(significant(s)))) by {
                            assert(sextet(before_pad(significant(s))[4 * (m - 1) + 3]) is None);
                        }
                        return None;
                    },
                };
                proof {
                    lemma_join_sextets(a, bb, c, d);
                }
                let ghost before_out = payload_bytes(out);
                let ghost gf = before_pad(significant(s));
                if payload_push(&mut out, (a << 2u8) | (bb >> 4u8)).is_err() {
                    assert(b64_len(gf) > ANNOUNCEMENT_PAYLOAD_CAPACITY);
                    return None;
                }
                if payload_push(&mut out, ((bb & 0x0Fu8) << 4u8) | (c >> 2u8)).is_err() {
                    assert(b64_len(gf) > ANNOUNCEMENT_PAYLOAD_CAPACITY);
                    return None;
                }
                if payload_push(&mut out, ((c & 0x03u8) << 6u8) | d).is_err() {
                    assert(b64_len(gf) > ANNOUNCEMENT_PAYLOAD_CAPACITY);
                    return None;
                }
                proof {
                    let fg = full_groups(g);
                    let fg1 = full_groups(g1);
                    assert(fg1 =~= g1);
                    lemma_bytes_agree(fg, fg1, fg.len() as int);
                    assert(payload_bytes(out) =~= b64_bytes(fg1)) by {
                        assert forall|q: int| 0 <= q < 3 * m implies #[trigger] payload_bytes(out)[q]
                            == b64_bytes(fg1)[q] by {
                            if q < 3 * (m - 1) {
                                assert(payload_bytes(out)[q] == before_out[q]);
                                assert(4 * (q / 3) + 3 < fg.len());
                            } else {
                                assert(q / 3 == m - 1);
                            }
                        }
                    }
                }
            } else {
                proof {
                    assert(count / 4 == c0 / 4 && count % 4 == c0 % 4 + 1);
                    assert(full_groups(g1) =~= full_groups(g));
                    assert forall|j: int| 0 <= j < count % 4 implies #[trigger] chars@[j] == g1[4 * (count / 4) + j] by {
                        if j < c0 % 4 {
                            assert(chars@[j] == ch0[j]);
                        }
                    }
                    assert forall|i: int| 0 <= i < 4 * (count / 4) implies (#[trigger] sextet(g1[i])) is Some by {
                        assert(g1[i] == g[i]);
                    }
                }
            }
        }
        k = k + 1;
    }
    proof {
        if !cut {
            lemma_significant_all(s);
            lemma_before_pad_free(significant(s));
        }
    }
    let ghost g = before_pad(significant(s));
    let ghost m = count / 4;
    let rem = count % 4;
    let ghost fg = full_groups(g);
    assert(g == significant(s.take(k as int)));
    assert(rem >= 1 ==> chars@[0] == g[4 * m]);
    assert(rem >= 2 ==> chars@[1] == g[4 * m + 1]);
    assert(rem >= 3 ==> chars@[2] == g[4 * m + 2]);
    if rem == 2 || rem == 3 {
        let a = match b64_value(chars[0]) {
            Some(v) => v,
            None => {
                assert(sextet(g[4 * m]) is None);
                return None;
            },
        };
        let bb = match b64_value(chars[1]) {
            Some(v) => v,
            None => {
                assert(sextet(g[4 * m + 1]) is None);
                return None;
            },
        };
        let c = if rem == 3 {
            match b64_value(chars[2]) {
                Some(v) => v,
                None => {
                    assert(sextet(g[4 * m + 2]) is None);
                    return None;
                },
            }
        } else {
            0u8
        };
        proof {
            lemma_join_sextets(a, bb, c, 0u8);
        }
        let ghost before_out = payload_bytes(out);
        if payload_push(&mut out, (a << 2u8) | (bb >> 4u8)).is_err() {
            return None;
        }
        if rem == 3 {
            if payload_push(&mut out, ((bb & 0x0Fu8) << 4u8) | (c >> 2u8)).is_err() {
                return None;
            }
        }
        proof {
            lemma_bytes_agree(fg, g, fg.len() as int);
            assert forall|q: int| 0 <= q < b64_len(g) implies #[trigger] payload_bytes(out)[q]
                == b64_bytes(g)[q] by {
                if q < 3 * m {
                    assert(payload_bytes(out)[q] == before_out[q]);
                    assert(4 * (q / 3) + 3 < fg.len());
                } else {
                    assert(q / 3 == m);
                }
            }
            assert(payload_bytes(out) =~= b64_bytes(g));
            assert forall|i: int| 0 <= i < checked_digits(g) implies (#[trigger] sextet(g[i])) is Some by {
                if i >= 4 * m {
                    assert(i == 4 * m || i == 4 * m + 1 || i == 4 * m + 2);
                }
            }
        }
    } else {
        proof {
            assert(fg =~= g.take(4 * m));
            lemma_bytes_agree(fg, g, fg.len() as int);
            assert forall|q: int| 0 <= q < b64_len(g) implies #[trigger] payload_bytes(out)[q]
                == b64_bytes(g)[q] by {
                assert(4 * (q / 3) + 3 < fg.len());
            }
            assert(payload_bytes(out) =~= b64_bytes(g));
        }
    }
    Some(out)
}

/// Decode an announcement payload: the trimmed text is tried as hex first,
/// then as base64; a blank payload decodes to nothing.
pub fn decode_announcement_payload(payload: &str) -> (r: Option<heapless::Vec<u8, ANNOUNCEMENT_PAYLOAD_CAPACITY>>)
    ensures
        decoded(r) == announcement_decoding(payload@),
{
    let cleaned = trim_str(payload);
    if cleaned.is_empty() {
        return None;
    }
    if let Some(bytes) = decode_hex(cleaned) {
        return Some(bytes);
    }
    decode_base64(cleaned)
}

/// Two payloads that differ only in ASCII white space decode alike, as hex
/// and as base64.
pub proof fn lemma_white_space_ignored(s: Seq<u8>, t: Seq<u8>)
    requires
        significant(s) == significant(t),
    ensures
        hex_decoding(s) == hex_decoding(t),
        base64_decoding(s) == base64_decoding(t),
{
}

proof fn lemma_before_pad_cut(a: Seq<u8>, b: Seq<u8>)
    requires
        a.contains(0x3Du8),
    ensures
        before_pad(a + b) == before_pad(a),
    decreases a.len(),
{
    let ab = a + b;
    assert(ab[0] == a[0]);
    if a[0] != 0x3D {
        assert(ab.drop_first() =~= a.drop_first() + b);
        let i = choose|i: int| 0 <= i < a.len() && a[i] == 0x3Du8;
        assert(a.drop_first()[i - 1] == 0x3Du8);
        lemma_before_pad_cut(a.drop_first(), b);
    }
}

/// Base64 decoding ignores everything after the first `=`.
pub proof fn lemma_base64_stops_at_pad(s: Seq<u8>, t: Seq<u8>)
    requires
        s.contains(0x3Du8),
    ensures
        base64_decoding(s + t) == base64_decoding(s),
{
    let p = |b: u8| !is_ascii_ws(b);
    Seq::filter_distributes_over_add(s, t, p);
    s.lemma_filter_contains_rev(p, 0x3Du8);
    lemma_before_pad_cut(significant(s), significant(t));
}

/// `f` spells the bytes `b` in hexadecimal: two digits per byte, the high
/// one first, each digit in either case.
pub open spec fn spells_hex(f: Seq<u8>, b: Seq<u8>) -> bool {
    &&& f.len() == 2 * b.len()
    &&& forall|i: int|
        #![trigger b[i]]
        0 <= i < b.len() ==> nibble(f[2 * i]) == Some((b[i] / 16) as u8) && nibble(f[2 * i + 1]) == Some(
            (b[i] % 16) as u8,
        )
}

/// Hex digits written from bytes, with any white space between them, decode
/// back to those bytes (when they fit the payload capacity).
pub proof fn lemma_hex_round_trip(s: Seq<u8>, b: Seq<u8>)
    requires
        spells_hex(significant(s), b),
        b.len() <= ANNOUNCEMENT_PAYLOAD_CAPACITY,
    ensures
        hex_decoding(s) == Some(b),
{
    let f = significant(s);
    assert forall|j: int| 0 <= j < f.len() implies (#[trigger] nibble(f[j])) is Some by {
        let i = j / 2;
        assert(0 <= i < b.len());
        assert(b[i] == b[i]);
        assert(spells_hex(f, b));
        assert(nibble(f[2 * i]) == Some((b[i] / 16) as u8));
        assert(nibble(f[2 * i]) is Some && nibble(f[2 * i + 1]) is Some);
        if j % 2 == 0 {
            assert(j == 2 * i);
            assert(f[j] == f[2 * i]);
        } else {
            assert(j == 2 * i + 1);
            assert(f[j] == f[2 * i + 1]);
        }
    }
    assert forall|i: int| 0 <= i < b.len() implies #[trigger] hex_pairs(f)[i] == b[i] by {
        assert(b[i] == b[i]);
        assert((b[i] / 16) * 16 + b[i] % 16 == b[i]);
    }
    assert(hex_pairs(f) =~= b);
}

/// The character of a base64 digit value (standard alphabet).
pub open spec fn b64_char(v: int) -> u8 {
    if v < 26 {
        (65 + v) as u8
    } else if v < 52 {
        (71 + v) as u8
    } else if v < 62 {
        (v - 4) as u8
    } else if v == 62 {
        0x2Bu8
    } else {
        0x2Fu8
    }
}

/// Byte `i` of `b`, or zero past its end.
pub open spec fn octet(b: Seq<u8>, i: int) -> int {
    if i < b.len() { b[i] as int } else { 0 }
}

/// The value of digit `j` of the base64 encoding of `b`: each group of
/// three bytes gives four six-bit digits, high bits first.
pub open spec fn b64_digit(b: Seq<u8>, j: int) -> int {
    let g = 3 * (j / 4);
    let x = octet(b, g);
    let y = octet(b, g + 1);
    let z = octet(b, g + 2);
    if j % 4 == 0 {
        x / 4
    } else if j % 4 == 1 {
        (x % 4) * 16 + y / 16
    } else if j % 4 == 2 {
        (y % 16) * 4 + z / 64
    } else {
        z % 64
    }
}

/// Digits in the base64 encoding of `n` bytes, without padding.
pub open spec fn b64_encoded_len(n: int) -> int {
    4 * (n / 3) + if n % 3 == 1 { 2int } else if n % 3 == 2 { 3int } else { 0int }
}

/// The standard (RFC 4648) base64 encoding of `b`, without padding.
pub open spec fn b64_encode(b: Seq<u8>) -> Seq<u8> {
    Seq::new(b64_encoded_len(b.len() as int) as nat, |j: int| b64_char(b64_digit(b, j)))
}

proof fn lemma_b64_char(v: int)
    requires
        0 <= v < 64,
    ensures
        sextet(b64_char(v)) == Some(v as u8),
        b64_char(v) != 0x3D,
{
}

proof fn lemma_regroup(x: int, y: int, z: int)
    requires
        0 <= x < 256,
        0 <= y < 256,
        0 <= z < 256,
    ensures
        0 <= x / 4 < 64,
        0 <= (x % 4) * 16 + y / 16 < 64,
        0 <= (y % 16) * 4 + z / 64 < 64,
        0 <= z % 64 < 64,
        (x / 4) * 4 + ((x % 4) * 16 + y / 16) / 16 == x,
        (((x % 4) * 16 + y / 16) % 16) * 16 + ((y % 16) * 4 + z / 64) / 4 == y,
        (((y % 16) * 4 + z / 64) % 4) * 64 + z % 64 == z,
{
}

/// Base64 written from bytes, optionally followed by padding or anything
/// that starts with `=`, and with any white space between digits, decodes
/// back to those bytes (when they fit the payload capacity).
pub proof fn lemma_base64_round_trip(s: Seq<u8>, b: Seq<u8>, pad: Seq<u8>)
    requires
        significant(s) == b64_encode(b) + pad,
        pad.len() == 0 || pad[0] == 0x3D,
        b.len() <= ANNOUNCEMENT_PAYLOAD_CAPACITY,
    ensures
        base64_decoding(s) == Some(b),
{
    let g = b64_encode(b);
    let n = b.len() as int;
    assert forall|j: int| 0 <= j < g.len() implies 0 <= #[trigger] b64_digit(b, j) < 64 by {
        let k = 3 * (j / 4);
        lemma_regroup(octet(b, k), octet(b, k + 1), octet(b, k + 2));
    }
    assert forall|i: int| 0 <= i < g.len() implies #[trigger] g[i] != 0x3D by {
        lemma_b64_char(b64_digit(b, i));
    }
    lemma_before_pad_append(g, pad);
    assert(before_pad(pad) =~= Seq::<u8>::empty());
    assert(g + Seq::<u8>::empty() =~= g);
    assert(before_pad(significant(s)) == g);
    assert(checked_digits(g) == g.len());
    assert forall|i: int| 0 <= i < checked_digits(g) implies (#[trigger] sextet(g[i])) is Some by {
        lemma_b64_char(b64_digit(b, i));
    }
    assert(b64_len(g) == n);
    assert forall|k: int| 0 <= k < n implies #[trigger] b64_bytes(g)[k] == b[k] by {
        let at = 4 * (k / 3);
        let g0 = 3 * (k / 3);
        let x = octet(b, g0);
        let y = octet(b, g0 + 1);
        let z = octet(b, g0 + 2);
        lemma_regroup(x, y, z);
        assert((at) / 4 == k / 3 && (at + 1) / 4 == k / 3 && (at + 2) / 4 == k / 3 && (at + 3) / 4 == k / 3);
        lemma_b64_char(b64_digit(b, at));
        if at + 1 < g.len() {
            lemma_b64_char(b64_digit(b, at + 1));
        }
        if at + 2 < g.len() {
            lemma_b64_char(b64_digit(b, at + 2));
        }
        if at + 3 < g.len() {
            lemma_b64_char(b64_digit(b, at + 3));
        }
        if k % 3 == 0 {
            assert(g0 == k);
        } else if k % 3 == 1 {
            assert(g0 + 1 == k);
        } else {
            assert(g0 + 2 == k);
        }
    }
    assert(b64_bytes(g) =~= b);
}

/// The chunks an announcement payload is played in, in order; `None` when
/// the payload does not decode.
pub fn announcement_playback(payload: &str) -> (r: Option<Vec<Vec<u8>>>)
    ensures
        r is Some <==> announcement_decoding(payload@) is Some,
        r matches Some(cs) ==> (announcement_decoding(payload@) matches Some(b) && chunked(chunk_views(cs@), b)),
{
    match decode_announcement_payload(payload) {
        Some(bytes) => Some(announcement_chunks(payload_slice(&bytes))),
        None => None,
    }
}

} // verus!
