//! The fixed-size flash record that persists the Wi-Fi credentials.
//!
//! Layout: `[ssid_len][ssid: 32 bytes][password_len][password: 64 bytes]`,
//! with the text fields zero-padded and two trailing zero bytes.

use vstd::prelude::*;
use crate::wifi::{CredentialsView, WifiCredentials, PASSWORD_CAPACITY, SSID_CAPACITY};

verus! {

/// Offset of the credential record inside the NVS partition.
pub const WIFI_CREDENTIALS_OFFSET: u32 = 0;

/// Size of the credential record, in bytes.
pub const CREDENTIALS_SIZE: usize = 100;

/// Failures of the credential store that the record format itself reports.
#[derive(Debug, Clone, Copy, PartialEq, Eq, Structural)]
pub enum NvsError {
    InvalidData,
    NotFound,
}

/// `s` followed by zero bytes up to `n` bytes.
pub open spec fn zero_pad(s: Seq<u8>, n: int) -> Seq<u8> {
    s + Seq::new((n - s.len()) as nat, |i: int| 0u8)
}

/// The record that stores credentials `v`.
pub open spec fn credential_record(v: CredentialsView) -> Seq<u8> {
    seq![v.ssid.len() as u8] + zero_pad(v.ssid, 32) + seq![v.password.len() as u8]
        + zero_pad(v.password, 64) + seq![0u8, 0u8]
}

/// The credentials a record holds, if its length bytes are in range.
pub open spec fn parse_record(b: Seq<u8>) -> Option<CredentialsView> {
    let sl = b[0] as int;
    let pl = b[33] as int;
    if sl > 32 || pl > 64 {
        None
    } else {
        Some(CredentialsView { ssid: b.subrange(1, 1 + sl), password: b.subrange(34, 34 + pl) })
    }
}

impl WifiCredentials {
    /// The flash record for these credentials.
    pub fn to_bytes(&self) -> (bytes: [u8; 100])
        ensures
            bytes@ == credential_record(self@),
    {
        let ssid = self.ssid_bytes();
        let password = self.password_bytes();
        let mut bytes = [0u8; 100];
        bytes[0] = ssid.len() as u8;
        let mut i: usize = 0;
        while i < ssid.len()
            invariant
                i <= ssid@.len() <= 32,
                bytes@.len() == 100,
                bytes@[0] == ssid@.len() as u8,
                forall|j: int| 0 <= j < i ==> #[trigger] bytes@[1 + j] == ssid@[j],
                forall|j: int| 1 + i <= j < 100 ==> #[trigger] bytes@[j] == 0,
            decreases ssid@.len() - i,
        {
            bytes[1 + i] = ssid[i];
            i = i + 1;
        }
        bytes[33] = password.len() as u8;
        let mut k: usize = 0;
        while k < password.len()
            invariant
                k <= password@.len() <= 64,
                ssid@.len() <= 32,
                bytes@.len() == 100,
                bytes@[0] == ssid@.len() as u8,
                bytes@[33] == password@.len() as u8,
                forall|j: int| 0 <= j < ssid@.len() ==> #[trigger] bytes@[1 + j] == ssid@[j],
                forall|j: int| 1 + ssid@.len() <= j < 33 ==> #[trigger] bytes@[j] == 0,
                forall|j: int| 0 <= j < k ==> #[trigger] bytes@[34 + j] == password@[j],
                forall|j: int| 34 + k <= j < 100 ==> #[trigger] bytes@[j] == 0,
            decreases password@.len() - k,
        {
            bytes[34 + k] = password[k];
            k = k + 1;
        }
        proof {
            let r = credential_record(self@);
            assert forall|j: int| 0 <= j < 100 implies #[trigger] bytes@[j] == r[j] by {
                if 1 <= j < 33 {
                    if j - 1 < ssid@.len() {
                        assert(bytes@[1 + (j - 1)] == ssid@[j - 1]);
                    }
                } else if 34 <= j < 98 {
                    if j - 34 < password@.len() {
                        assert(bytes@[34 + (j - 34)] == password@[j - 34]);
                    }
                }
            }
            assert(bytes@ =~= r);
        }
        bytes
    }

    /// Credentials read back from a flash record; `InvalidData` when a
    /// length byte exceeds its field.
    pub fn from_bytes(bytes: &[u8; 100]) -> (r: Result<WifiCredentials, NvsError>)
        ensures
            match r {
                Ok(c) => parse_record(bytes@) == Some(c@),
                Err(e) => parse_record(bytes@) is None && e == NvsError::InvalidData,
            },
    {
        let ssid_len = bytes[0] as usize;
        let password_len = bytes[33] as usize;
        if ssid_len > SSID_CAPACITY || password_len > PASSWORD_CAPACITY {
            return Err(NvsError::InvalidData);
        }
        let all = bytes.as_slice();
        let ssid = vstd::slice::slice_subrange(all, 1, 1 + ssid_len);
        let password = vstd::slice::slice_subrange(all, 34, 34 + password_len);
        let c = WifiCredentials::from_parts(ssid, password);
        assert(ssid@.take(ssid@.len() as int) =~= ssid@);
        assert(password@.take(password@.len() as int) =~= password@);
        Ok(c)
    }
}

/// Credentials written to flash are read back unchanged.
pub proof fn lemma_record_round_trip(v: CredentialsView)
    requires
        v.ssid.len() <= SSID_CAPACITY,
        v.password.len() <= PASSWORD_CAPACITY,
    ensures
        parse_record(credential_record(v)) == Some(v),
{
    let r = credential_record(v);
    assert(r.subrange(1, 1 + v.ssid.len() as int) =~= v.ssid);
    assert(r.subrange(34, 34 + v.password.len() as int) =~= v.password);
}

/// A cleared (all-zero) record reads back as empty credentials.
pub proof fn lemma_cleared_record(b: Seq<u8>)
    requires
        b.len() == CREDENTIALS_SIZE,
        forall|i: int| 0 <= i < b.len() ==> b[i] == 0,
    ensures
        parse_record(b) == Some(CredentialsView { ssid: Seq::empty(), password: Seq::empty() }),
{
    assert(b.subrange(1, 1) =~= Seq::<u8>::empty());
    assert(b.subrange(34, 34) =~= Seq::<u8>::empty());
}

/// A record is refused exactly when a length byte exceeds its field (the
/// SSID length byte above 32 or the password length byte above 64, as in
/// an erased record of `0xFF` bytes); otherwise it holds the SSID of that
/// length at byte 1 and the password of that length at byte 34.
pub proof fn lemma_record_lengths(b: Seq<u8>)
    requires
        b.len() == CREDENTIALS_SIZE,
    ensures
        parse_record(b) is None <==> (b[0] > 32 || b[33] > 64),
        parse_record(b) matches Some(v) ==> v.ssid == b.subrange(1, 1 + b[0] as int)
            && v.password == b.subrange(34, 34 + b[33] as int),
{
}

} // verus!
