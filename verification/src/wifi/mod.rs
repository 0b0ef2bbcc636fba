//! Wi-Fi configuration: credentials, the persisted device configuration
//! and the setup portal's request handling.

pub mod ap;

use vstd::prelude::*;
use crate::bounded::{as_str_32, as_str_64, new_32, new_64, push_32, push_64, text_32, text_64};
use crate::text::{lemma_encode_concat, str_from_utf8, utf8_len};
use vstd::string::StringSliceAdditionalSpecFns;

verus! {

/// Capacity of an SSID, in bytes.
pub const SSID_CAPACITY: usize = 32;

/// Capacity of a password, in bytes.
pub const PASSWORD_CAPACITY: usize = 64;

/// Failures of the Wi-Fi bring-up and of the setup portal.
#[derive(Debug, Clone, Copy, PartialEq, Eq, Structural)]
pub enum WifiError {
    InitFailed,
    ApStartFailed,
    StaConnectFailed,
    DhcpFailed,
    SocketError,
    Timeout,
    InvalidCredentials,
}

/// A UTF-8 continuation byte (`10xxxxxx`).
pub open spec fn is_continuation(b: u8) -> bool {
    0x80 <= b <= 0xBF
}

/// The largest cut `k <= at` that does not split a UTF-8 character of `b`.
pub open spec fn char_floor(b: Seq<u8>, at: int) -> int
    decreases at,
{
    if at <= 0 {
        0
    } else if at >= b.len() || !is_continuation(b[at]) {
        at
    } else {
        char_floor(b, at - 1)
    }
}

/// How many bytes of `b` are kept under a capacity of `cap` bytes: all of
/// it when it fits, else the longest prefix that ends on a character
/// boundary.
pub open spec fn fitted_len(b: Seq<u8>, cap: int) -> int {
    if b.len() <= cap { b.len() as int } else { char_floor(b, cap) }
}

/// `b` cut down to a capacity of `cap` bytes.
pub open spec fn fitted(b: Seq<u8>, cap: int) -> Seq<u8> {
    b.take(fitted_len(b, cap))
}

proof fn lemma_char_floor_bounds(b: Seq<u8>, at: int)
    ensures
        0 <= char_floor(b, at) <= if at < 0 { 0 } else { at },
    decreases at,
{
    if at > 0 && at < b.len() && is_continuation(b[at]) {
        lemma_char_floor_bounds(b, at - 1);
    }
}

fn fitted_len_exec(b: &[u8], cap: usize) -> (n: usize)
    ensures
        n == fitted_len(b@, cap as int),
        n <= cap,
        n <= b@.len(),
{
    if b.len() <= cap {
        return b.len();
    }
    let mut k: usize = cap;
    proof {
        lemma_char_floor_bounds(b@, cap as int);
    }
    while k > 0 && (b[k] >= 0x80 && b[k] <= 0xBF)
        invariant
            k <= cap < b@.len(),
            char_floor(b@, k as int) == char_floor(b@, cap as int),
        decreases k,
    {
        k = k - 1;
    }
    k
}

/// Wi-Fi station credentials: an SSID of at most 32 bytes and a password
/// of at most 64 bytes, each stored zero-padded.
pub struct WifiCredentials {
    pub(crate) ssid: [u8; 32],
    pub(crate) password: [u8; 64],
    pub(crate) ssid_len: usize,
    pub(crate) password_len: usize,
}

/// The content of a credential record: the two byte strings.
pub struct CredentialsView {
    pub ssid: Seq<u8>,
    pub password: Seq<u8>,
}

/// A padded field holds its content followed by zero bytes.
pub open spec fn padded_field(stored: Seq<u8>, len: int, content: Seq<u8>) -> bool {
    &&& content.len() == len
    &&& stored.take(len) == content
    &&& forall|i: int| len <= i < stored.len() ==> #[trigger] stored[i] == 0
}

impl View for WifiCredentials {
    type V = CredentialsView;

    closed spec fn view(&self) -> CredentialsView {
        CredentialsView {
            ssid: self.ssid@.take(self.ssid_len as int),
            password: self.password@.take(self.password_len as int),
        }
    }
}

fn zero_padded<const N: usize>(src: &[u8], len: usize) -> (out: [u8; N])
    requires
        len <= N,
        len <= src@.len(),
    ensures
        padded_field(out@, len as int, src@.take(len as int)),
{
    let mut out = [0u8; N];
    let mut i: usize = 0;
    while i < len
        invariant
            i <= len,
            len <= N,
            len <= src@.len(),
            out@.len() == N,
            forall|j: int| 0 <= j < i ==> #[trigger] out@[j] == src@[j],
            forall|j: int| i <= j < N ==> #[trigger] out@[j] == 0,
        decreases len - i,
    {
        out[i] = src[i];
        i = i + 1;
    }
    assert(out@.take(len as int) =~= src@.take(len as int));
    out
}

impl WifiCredentials {
    #[verifier::type_invariant]
    spec fn inv(self) -> bool {
        &&& self.ssid_len <= SSID_CAPACITY
        &&& self.password_len <= PASSWORD_CAPACITY
        &&& forall|i: int| self.ssid_len <= i < 32 ==> #[trigger] self.ssid@[i] == 0
        &&& forall|i: int| self.password_len <= i < 64 ==> #[trigger] self.password@[i] == 0
    }

    /// Credentials from raw SSID and password bytes, each cut at a
    /// character boundary to its capacity.
    pub fn from_parts(ssid: &[u8], password: &[u8]) -> (c: Self)
        ensures
            c@.ssid == fitted(ssid@, SSID_CAPACITY as int),
            c@.password == fitted(password@, PASSWORD_CAPACITY as int),
    {
        let sl = fitted_len_exec(ssid, SSID_CAPACITY);
        let pl = fitted_len_exec(password, PASSWORD_CAPACITY);
        let s: [u8; 32] = zero_padded(ssid, sl);
        let p: [u8; 64] = zero_padded(password, pl);
        WifiCredentials { ssid: s, password: p, ssid_len: sl, password_len: pl }
    }

    /// Credentials from an SSID and a password, each cut at a character
    /// boundary to its capacity.
    pub fn new(ssid: &str, password: &str) -> (c: Self)
        ensures
            c@.ssid == fitted(ssid.spec_bytes(), SSID_CAPACITY as int),
            c@.password == fitted(password.spec_bytes(), PASSWORD_CAPACITY as int),
    {
        Self::from_parts(ssid.as_bytes(), password.as_bytes())
    }

    /// The SSID bytes.
    pub fn ssid_bytes(&self) -> (b: &[u8])
        ensures
            b@ == self@.ssid,
            b@.len() <= SSID_CAPACITY,
    {
        proof {
            use_type_invariant(self);
        }
        vstd::slice::slice_subrange(self.ssid.as_slice(), 0, self.ssid_len)
    }

    /// The password bytes.
    pub fn password_bytes(&self) -> (b: &[u8])
        ensures
            b@ == self@.password,
            b@.len() <= PASSWORD_CAPACITY,
    {
        proof {
            use_type_invariant(self);
        }
        vstd::slice::slice_subrange(self.password.as_slice(), 0, self.password_len)
    }

    /// The SSID as text; empty when the stored bytes are not UTF-8.
    pub fn ssid_str(&self) -> (s: &str)
        ensures
            vstd::utf8::valid_utf8(self@.ssid) ==> s.spec_bytes() == self@.ssid,
            !vstd::utf8::valid_utf8(self@.ssid) ==> s@.len() == 0,
    {
        match str_from_utf8(self.ssid_bytes()) {
            Some(s) => s,
            None => {
                proof {
                    reveal_strlit("");
                }
                ""
            },
        }
    }

    /// The password as text; empty when the stored bytes are not UTF-8.
    pub fn password_str(&self) -> (s: &str)
        ensures
            vstd::utf8::valid_utf8(self@.password) ==> s.spec_bytes() == self@.password,
            !vstd::utf8::valid_utf8(self@.password) ==> s@.len() == 0,
    {
        match str_from_utf8(self.password_bytes()) {
            Some(s) => s,
            None => {
                proof {
                    reveal_strlit("");
                }
                ""
            },
        }
    }
}

/// `t` is the longest prefix of `s` whose UTF-8 encoding fits in `cap`
/// bytes: characters are kept in order until the first one that does not
/// fit.
pub open spec fn is_truncation(t: Seq<char>, s: Seq<char>, cap: int) -> bool {
    &&& t.len() <= s.len()
    &&& t == s.take(t.len() as int)
    &&& utf8_len(t) <= cap
    &&& (t.len() == s.len() || utf8_len(s.take(t.len() + 1int)) > cap)
}

/// A longer prefix never encodes to fewer bytes.
pub proof fn lemma_utf8_len_prefix(s: Seq<char>, a: int, b: int)
    requires
        0 <= a <= b <= s.len(),
    ensures
        utf8_len(s.take(a)) <= utf8_len(s.take(b)),
{
    assert(s.take(b) =~= s.take(a) + s.subrange(a, b));
    lemma_encode_concat(s.take(a), s.subrange(a, b));
}

/// The truncation of a text to a capacity is unique.
pub proof fn lemma_truncation_unique(t1: Seq<char>, t2: Seq<char>, s: Seq<char>, cap: int)
    requires
        is_truncation(t1, s, cap),
        is_truncation(t2, s, cap),
    ensures
        t1 == t2,
{
    if t1.len() < t2.len() {
        lemma_utf8_len_prefix(s, t1.len() + 1int, t2.len() as int);
    } else if t2.len() < t1.len() {
        lemma_utf8_len_prefix(s, t2.len() + 1int, t1.len() as int);
    }
}

/// A text that fits its capacity is kept whole.
pub proof fn lemma_fitting_text_kept(s: Seq<char>, cap: int)
    requires
        utf8_len(s) <= cap,
    ensures
        is_truncation(s, s, cap),
{
    assert(s.take(s.len() as int) =~= s);
}

fn truncated_32(s: &str) -> (out: heapless::String<32>)
    ensures
        is_truncation(text_32(out), s@, 32),
{
    broadcast use vstd::string::axiom_spec_iter;
    let mut out = new_32();
    let ghost mut kept: int = 0;
    let mut full = false;
    proof {
        assert(s@.take(0) =~= Seq::<char>::empty());
        assert(vstd::utf8::encode_utf8(Seq::<char>::empty()) =~= Seq::<u8>::empty());
    }
    for ch in it: s.chars()
        invariant
            it.seq() == s@,
            0 <= kept <= it.index(),
            text_32(out) == s@.take(kept),
            utf8_len(s@.take(kept)) <= 32,
            !full ==> kept == it.index(),
            full ==> kept < s@.len() && utf8_len(s@.take(kept + 1)) > 32,
    {
        if !full {
            proof {
                assert(s@.take(kept + 1) =~= s@.take(kept).push(ch));
                lemma_encode_concat(s@.take(kept), seq![ch]);
                assert(s@.take(kept).push(ch) =~= s@.take(kept) + seq![ch]);
            }
            match push_32(&mut out, ch) {
                Ok(()) => {
                    proof {
                        kept = kept + 1;
                    }
                },
                Err(()) => {
                    full = true;
                },
            }
        }
    }
    proof {
        if !full {
            assert(s@.take(kept) =~= s@);
        }
    }
    out
}

fn truncated_64(s: &str) -> (out: heapless::String<64>)
    ensures
        is_truncation(text_64(out), s@, 64),
{
    broadcast use vstd::string::axiom_spec_iter;
    let mut out = new_64();
    let ghost mut kept: int = 0;
    let mut full = false;
    proof {
        assert(s@.take(0) =~= Seq::<char>::empty());
        assert(vstd::utf8::encode_utf8(Seq::<char>::empty()) =~= Seq::<u8>::empty());
    }
    for ch in it: s.chars()
        invariant
            it.seq() == s@,
            0 <= kept <= it.index(),
            text_64(out) == s@.take(kept),
            utf8_len(s@.take(kept)) <= 64,
            !full ==> kept == it.index(),
            full ==> kept < s@.len() && utf8_len(s@.take(kept + 1)) > 64,
    {
        if !full {
            proof {
                assert(s@.take(kept + 1) =~= s@.take(kept).push(ch));
                lemma_encode_concat(s@.take(kept), seq![ch]);
                assert(s@.take(kept).push(ch) =~= s@.take(kept) + seq![ch]);
            }
            match push_64(&mut out, ch) {
                Ok(()) => {
                    proof {
                        kept = kept + 1;
                    }
                },
                Err(()) => {
                    full = true;
                },
            }
        }
    }
    proof {
        if !full {
            assert(s@.take(kept) =~= s@);
        }
    }
    out
}

/// The persisted device configuration: Wi-Fi credentials and a friendly
/// name, in fixed-capacity strings so it fits a bounded record.
pub struct DeviceConfig {
    ssid: heapless::String<32>,
    password: heapless::String<64>,
    name: heapless::String<32>,
}

/// The text of a device configuration.
pub struct DeviceConfigView {
    pub ssid: Seq<char>,
    pub password: Seq<char>,
    pub name: Seq<char>,
}

impl View for DeviceConfig {
    type V = DeviceConfigView;

    closed spec fn view(&self) -> DeviceConfigView {
        DeviceConfigView {
            ssid: text_32(self.ssid),
            password: text_64(self.password),
            name: text_32(self.name),
        }
    }
}

impl DeviceConfig {
    /// A configuration holding each text cut, at a character boundary, to
    /// its capacity (32 bytes for the SSID and the name, 64 for the
    /// password).
    pub fn new(ssid: &str, password: &str, name: &str) -> (c: Self)
        ensures
            is_truncation(c@.ssid, ssid@, 32),
            is_truncation(c@.password, password@, 64),
            is_truncation(c@.name, name@, 32),
    {
        DeviceConfig {
            ssid: truncated_32(ssid),
            password: truncated_64(password),
            name: truncated_32(name),
        }
    }

    /// The SSID.
    pub fn ssid(&self) -> (s: &str)
        ensures
            s@ == self@.ssid,
    {
        as_str_32(&self.ssid)
    }

    /// The password.
    pub fn password(&self) -> (s: &str)
        ensures
            s@ == self@.password,
    {
        as_str_64(&self.password)
    }

    /// The friendly name.
    pub fn name(&self) -> (s: &str)
        ensures
            s@ == self@.name,
    {
        as_str_32(&self.name)
    }
}

} // verus!
