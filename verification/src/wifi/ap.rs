//! Request handling of the setup portal served in access-point mode.

use vstd::prelude::*;
use vstd::string::StringSliceAdditionalSpecFns;
use crate::wifi::{fitted, WifiCredentials, PASSWORD_CAPACITY, SSID_CAPACITY};
use crate::bounded::{new_128, text_128, write_char_128, write_str_128};
use crate::text::{decimal, lemma_encode_concat, range_equals, utf8_len};
use crate::audio::payload::{nibble, nibble_value};

verus! {

/// SSID of the setup access point.
pub const AP_SSID: &'static str = "ESpeaker-Setup";

/// Address of the setup access point.
pub const AP_IP: &'static str = "192.168.4.1";

/// TCP port of the portal.
pub const AP_PORT: u16 = 80;

/// The blank line (`\r\n\r\n`) that ends the HTTP headers starts at `i`.
pub open spec fn separator_at(b: Seq<u8>, i: int) -> bool {
    0 <= i && i + 4 <= b.len() && b[i] == 13 && b[i + 1] == 10 && b[i + 2] == 13 && b[i + 3] == 10
}

/// The first blank line at or after `from`.
pub open spec fn find_separator(b: Seq<u8>, from: int) -> Option<int>
    decreases b.len() - from,
{
    if from < 0 || from + 4 > b.len() {
        None
    } else if separator_at(b, from) {
        Some(from)
    } else {
        find_separator(b, from + 1)
    }
}

/// The first index in `[i, end)` holding `x`, or `end` when there is none.
pub open spec fn index_from(b: Seq<u8>, x: u8, i: int, end: int) -> int
    decreases end - i,
{
    if i >= end {
        end
    } else if b[i] == x {
        i
    } else {
        index_from(b, x, i + 1, end)
    }
}

pub proof fn lemma_index_from_bounds(b: Seq<u8>, x: u8, i: int, end: int)
    requires
        i <= end,
    ensures
        i <= index_from(b, x, i, end) <= end,
    decreases end - i,
{
    if i < end && b[i] != x {
        lemma_index_from_bounds(b, x, i + 1, end);
    }
}

/// The form key `ssid`.
pub open spec fn ssid_key() -> Seq<u8> {
    seq![0x73u8, 0x73u8, 0x69u8, 0x64u8]
}

/// The form key `password`.
pub open spec fn password_key() -> Seq<u8> {
    seq![0x70u8, 0x61u8, 0x73u8, 0x73u8, 0x77u8, 0x6fu8, 0x72u8, 0x64u8]
}

/// The URL-decoding of form text (`application/x-www-form-urlencoded`):
/// `+` stands for a space and `%XX`, with two hex digits, for the byte
/// `0xXX`; any other byte, a `%` without two hex digits after it included,
/// stands for itself.
pub open spec fn url_decode(s: Seq<u8>) -> Seq<u8>
    decreases s.len(),
{
    if s.len() == 0 {
        Seq::empty()
    } else if s[0] == 0x2B {
        seq![0x20u8] + url_decode(s.drop_first())
    } else if s[0] == 0x25 && s.len() >= 3 && nibble(s[1]) is Some && nibble(s[2]) is Some {
        seq![(nibble(s[1])->0 * 16 + nibble(s[2])->0) as u8] + url_decode(s.skip(3))
    } else {
        seq![s[0]] + url_decode(s.drop_first())
    }
}

/// The form field `b[lo..hi]` applied to the values found so far: a
/// `key=value` pair whose decoded key is `ssid` or `password` sets that
/// value, decoded.
pub open spec fn apply_field(b: Seq<u8>, lo: int, hi: int, cur: (Seq<u8>, Seq<u8>)) -> (Seq<u8>, Seq<u8>) {
    let e = index_from(b, 0x3D, lo, hi);
    if e >= hi {
        cur
    } else if url_decode(b.subrange(lo, e)) == ssid_key() {
        (url_decode(b.subrange(e + 1, hi)), cur.1)
    } else if url_decode(b.subrange(lo, e)) == password_key() {
        (cur.0, url_decode(b.subrange(e + 1, hi)))
    } else {
        cur
    }
}

/// The `&`-separated fields of `b[pos..end]` applied in order, the last
/// occurrence of a key winning.
pub open spec fn scan_fields(b: Seq<u8>, pos: int, end: int, cur: (Seq<u8>, Seq<u8>)) -> (Seq<u8>, Seq<u8>)
    decreases end - pos,
    when pos <= end
{
    let a = index_from(b, 0x26, pos, end);
    proof {
        lemma_index_from_bounds(b, 0x26, pos, end);
    }
    let next = apply_field(b, pos, a, cur);
    if a >= end {
        next
    } else {
        scan_fields(b, a + 1, end, next)
    }
}

/// The SSID and password that a portal request carries: its body is the
/// text after the first blank line (up to a second one, if any), read as
/// the URL-encoded form `ssid=...&password=...`; there are none without a
/// blank line or with an empty SSID.
pub open spec fn credentials_in_request(b: Seq<u8>) -> Option<(Seq<u8>, Seq<u8>)> {
    match find_separator(b, 0) {
        None => None,
        Some(i) => {
            let start = i + 4;
            let end = match find_separator(b, start) {
                Some(j) => j,
                None => b.len() as int,
            };
            let f = scan_fields(b, start, end, (Seq::empty(), Seq::empty()));
            if f.0.len() == 0 {
                None
            } else {
                Some(f)
            }
        },
    }
}

/// The first blank line at or after `from`, if any.
fn find_separator_exec(b: &[u8], from: usize) -> (r: Option<usize>)
    ensures
        match r {
            Some(i) => find_separator(b@, from as int) == Some(i as int),
            None => find_separator(b@, from as int) is None,
        },
        r matches Some(i) ==> from <= i && i + 4 <= b@.len(),
{
    let mut i = from;
    while b.len() >= 4 && i <= b.len() - 4
        invariant
            from <= i,
            find_separator(b@, from as int) == find_separator(b@, i as int),
        decreases b@.len() - i,
    {
        if b[i] == 13 && b[i + 1] == 10 && b[i + 2] == 13 && b[i + 3] == 10 {
            return Some(i);
        }
        i = i + 1;
    }
    None
}

fn index_from_exec(b: &[u8], x: u8, from: usize, end: usize) -> (r: usize)
    requires
        from <= end <= b@.len(),
    ensures
        r == index_from(b@, x, from as int, end as int),
        from <= r <= end,
{
    let mut i = from;
    while i < end
        invariant
            from <= i <= end <= b@.len(),
            index_from(b@, x, from as int, end as int) == index_from(b@, x, i as int, end as int),
        decreases end - i,
    {
        if b[i] == x {
            return i;
        }
        i = i + 1;
    }
    i
}

/// The URL-decoding of `b[lo..hi]`.
fn url_decode_range(b: &[u8], lo: usize, hi: usize) -> (out: Vec<u8>)
    requires
        lo <= hi <= b@.len(),
    ensures
        out@ == url_decode(b@.subrange(lo as int, hi as int)),
{
    let mut out: Vec<u8> = Vec::new();
    let mut i = lo;
    while i < hi
        invariant
            lo <= i <= hi <= b@.len(),
            out@ + url_decode(b@.subrange(i as int, hi as int)) == url_decode(b@.subrange(lo as int, hi as int)),
        decreases hi - i,
    {
        let ghost rest = b@.subrange(i as int, hi as int);
        let ghost before = out@;
        let c = b[i];
        let mut step: usize = 1;
        let mut decoded: u8 = c;
        if c == 0x2B {
            decoded = 0x20;
        } else if c == 0x25 && hi - i >= 3 {
            match (nibble_value(b[i + 1]), nibble_value(b[i + 2])) {
                (Some(h), Some(l)) => {
                    decoded = h * 16 + l;
                    step = 3;
                },
                _ => {},
            }
        }
        out.push(decoded);
        proof {
            assert(rest[0] == c);
            if step == 3 {
                assert(rest[1] == b@[i + 1]);
                assert(rest[2] == b@[i + 2]);
                assert(rest.skip(3) =~= b@.subrange(i + 3, hi as int));
            } else {
                assert(rest.drop_first() =~= b@.subrange(i + 1, hi as int));
            }
            assert(url_decode(rest) == seq![decoded] + url_decode(b@.subrange(i + step, hi as int)));
            assert(out@ + url_decode(b@.subrange(i + step, hi as int)) =~= before + (seq![decoded]
                + url_decode(b@.subrange(i + step, hi as int))));
        }
        i = i + step;
    }
    assert(out@ + url_decode(b@.subrange(hi as int, hi as int)) =~= out@);
    out
}

/// Read the SSID and password out of a portal form submission.
pub fn parse_credentials(request: &str) -> (r: Option<WifiCredentials>)
    ensures
        match r {
            Some(c) => credentials_in_request(request.spec_bytes()) matches Some(f)
                && c@.ssid == fitted(f.0, SSID_CAPACITY as int)
                && c@.password == fitted(f.1, PASSWORD_CAPACITY as int),
            None => credentials_in_request(request.spec_bytes()) is None,
        },
{
    let b = request.as_bytes();
    let first = match find_separator_exec(b, 0) {
        Some(i) => i,
        None => return None,
    };
    assert(first + 4 <= b@.len());
    assert(b@.len() == b.len());
    let start = first + 4;
    let end = match find_separator_exec(b, start) {
        Some(j) => j,
        None => b.len(),
    };
    proof {
        assert(start <= end);
    }
    let ssid_name: [u8; 4] = [0x73, 0x73, 0x69, 0x64];
    let password_name: [u8; 8] = [0x70, 0x61, 0x73, 0x73, 0x77, 0x6f, 0x72, 0x64];
    assert(ssid_name@ =~= ssid_key());
    assert(password_name@ =~= password_key());
    let mut s_lo: usize = 0;
    let mut s_hi: usize = 0;
    let mut p_lo: usize = 0;
    let mut p_hi: usize = 0;
    let mut pos = start;
    let ghost init = (Seq::<u8>::empty(), Seq::<u8>::empty());
    assert(b@.subrange(0, 0) =~= Seq::<u8>::empty());
    assert(url_decode(b@.subrange(0, 0)) =~= Seq::<u8>::empty());
    loop
        invariant
            start <= pos <= end <= b@.len(),
            s_lo <= s_hi <= b@.len(),
            p_lo <= p_hi <= b@.len(),
            ssid_name@ == ssid_key(),
            password_name@ == password_key(),
            scan_fields(b@, start as int, end as int, init) == scan_fields(
                b@,
                pos as int,
                end as int,
                (url_decode(b@.subrange(s_lo as int, s_hi as int)), url_decode(b@.subrange(p_lo as int, p_hi as int))),
            ),
        ensures
            scan_fields(b@, start as int, end as int, init) == (
                url_decode(b@.subrange(s_lo as int, s_hi as int)),
                url_decode(b@.subrange(p_lo as int, p_hi as int)),
            ),
            s_lo <= s_hi <= b@.len(),
            p_lo <= p_hi <= b@.len(),
        decreases end - pos,
    {
        let a = index_from_exec(b, 0x26, pos, end);
        let e = index_from_exec(b, 0x3D, pos, a);
        if e < a {
            let key = url_decode_range(b, pos, e);
            assert(key@.subrange(0, key@.len() as int) =~= key@);
            if range_equals(key.as_slice(), 0, key.len(), ssid_name.as_slice()) {
                s_lo = e + 1;
                s_hi = a;
            } else if range_equals(key.as_slice(), 0, key.len(), password_name.as_slice()) {
                p_lo = e + 1;
                p_hi = a;
            }
        }
        if a >= end {
            break;
        }
        pos = a + 1;
    }
    let ssid = url_decode_range(b, s_lo, s_hi);
    if ssid.len() == 0 {
        return None;
    }
    let password = url_decode_range(b, p_lo, p_hi);
    Some(WifiCredentials::from_parts(ssid.as_slice(), password.as_slice()))
}

/// The request bytes received so far hold the end of the HTTP headers.
pub fn request_complete(buf: &[u8]) -> (r: bool)
    ensures
        r == (find_separator(buf@, 0) is Some),
{
    find_separator_exec(buf, 0).is_some()
}

/// The request is a form submission (its text starts with `POST`).
pub open spec fn is_post(b: Seq<u8>) -> bool {
    b.len() >= 4 && b[0] == 0x50 && b[1] == 0x4F && b[2] == 0x53 && b[3] == 0x54
}

/// What the portal does with a request: a form submission that carries
/// credentials yields them (and the portal is done); anything else is
/// answered with the portal page.
pub fn handle_portal_request(request: &str) -> (r: Option<WifiCredentials>)
    ensures
        !is_post(request.spec_bytes()) ==> r is None,
        is_post(request.spec_bytes()) ==> match r {
            Some(c) => credentials_in_request(request.spec_bytes()) matches Some(f)
                && c@.ssid == fitted(f.0, SSID_CAPACITY as int)
                && c@.password == fitted(f.1, PASSWORD_CAPACITY as int),
            None => credentials_in_request(request.spec_bytes()) is None,
        },
{
    let b = request.as_bytes();
    if b.len() >= 4 && b[0] == 0x50 && b[1] == 0x4F && b[2] == 0x53 && b[3] == 0x54 {
        parse_credentials(request)
    } else {
        None
    }
}

/// The response header announcing an HTML page of `n` bytes.
pub open spec fn header_text(n: nat) -> Seq<char> {
    "HTTP/1.0 200 OK\r\nContent-Type: text/html\r\nContent-Length: "@ + decimal(n) + "\r\n\r\n"@
}

spec fn pow10(k: nat) -> nat
    decreases k,
{
    if k == 0 { 1 } else { 10 * pow10((k - 1) as nat) }
}

proof fn lemma_decimal_len(n: nat, k: nat)
    requires
        k >= 1,
        n < pow10(k),
    ensures
        decimal(n).len() <= k,
    decreases k,
{
    if n >= 10 {
        assert(pow10(0) == 1);
        assert(pow10(1) == 10);
        assert(k >= 2);
        assert(pow10(k) == 10 * pow10((k - 1) as nat));
        lemma_decimal_len(n / 10, (k - 1) as nat);
    }
}

proof fn lemma_usize_decimal_len(n: usize)
    ensures
        decimal(n as nat).len() <= 20,
{
    reveal_with_fuel(pow10, 21);
    assert(pow10(20) == 100_000_000_000_000_000_000);
    lemma_decimal_len(n as nat, 20);
}

proof fn lemma_decimal_ascii(n: nat)
    ensures
        vstd::utf8::is_ascii_chars(decimal(n)),
        1 <= decimal(n).len(),
        utf8_len(decimal(n)) == decimal(n).len(),
    decreases n,
{
    if n >= 10 {
        lemma_decimal_ascii(n / 10);
    }
    vstd::utf8::is_ascii_chars_encode_utf8(decimal(n));
}

proof fn lemma_ascii_char_len(c: char)
    requires
        '\0' <= c <= '\u{7f}',
    ensures
        utf8_len(seq![c]) == 1,
{
    assert(vstd::utf8::is_ascii_chars(seq![c]));
    vstd::utf8::is_ascii_chars_encode_utf8(seq![c]);
}

fn write_decimal_128(s: &mut heapless::String<128>, n: usize)
    requires
        utf8_len(text_128(*old(s))) + decimal(n as nat).len() <= 128,
    ensures
        text_128(*final(s)) == text_128(*old(s)) + decimal(n as nat),
        utf8_len(text_128(*final(s))) == utf8_len(text_128(*old(s))) + decimal(n as nat).len(),
    decreases n,
{
    let ghost before = text_128(*s);
    if n >= 10 {
        proof {
            lemma_decimal_ascii((n / 10) as nat);
        }
        write_decimal_128(s, n / 10);
    }
    let digit: u8 = (n % 10) as u8;
    let c = (48u8 + digit) as char;
    proof {
        lemma_ascii_char_len(c);
        lemma_encode_concat(text_128(*s), seq![c]);
        lemma_decimal_ascii(n as nat);
        lemma_encode_concat(before, decimal(n as nat));
    }
    let _ = write_char_128(s, c);
    proof {
        if n >= 10 {
            assert(decimal(n as nat) == decimal((n / 10) as nat).push(c));
            assert(before + decimal(n as nat) =~= (before + decimal((n / 10) as nat)).push(c));
        } else {
            assert(decimal(n as nat) =~= seq![c]);
            assert(before + decimal(n as nat) =~= before.push(c));
        }
    }
}

/// The response header for an HTML page of `content_len` bytes.
pub fn format_header(content_len: usize) -> (s: heapless::String<128>)
    ensures
        text_128(s) == header_text(content_len as nat),
{
    let head = "HTTP/1.0 200 OK\r\nContent-Type: text/html\r\nContent-Length: ";
    let tail = "\r\n\r\n";
    proof {
        reveal_strlit("HTTP/1.0 200 OK\r\nContent-Type: text/html\r\nContent-Length: ");
        reveal_strlit("\r\n\r\n");
        assert(vstd::utf8::is_ascii_chars(head@));
        assert(vstd::utf8::is_ascii_chars(tail@));
        vstd::utf8::is_ascii_chars_encode_utf8(head@);
        vstd::utf8::is_ascii_chars_encode_utf8(tail@);
        lemma_decimal_ascii(content_len as nat);
        lemma_usize_decimal_len(content_len);
        assert(vstd::utf8::encode_utf8(Seq::<char>::empty()) =~= Seq::<u8>::empty());
    }
    let mut s = new_128();
    let _ = write_str_128(&mut s, head);
    proof {
        assert(Seq::<char>::empty() + head@ =~= head@);
    }
    write_decimal_128(&mut s, content_len);
    proof {
        lemma_encode_concat(head@, decimal(content_len as nat));
    }
    let _ = write_str_128(&mut s, tail);
    s
}

} // verus!
