//! The fixed-capacity collections of the `heapless` crate, as the library
//! uses them, with the contracts their source shows.

use vstd::prelude::*;
use vstd::string::StringSliceAdditionalSpecFns;
use crate::text::utf8_len;

verus! {

/// Capacity of a decoded announcement payload, in bytes.
pub const ANNOUNCEMENT_PAYLOAD_CAPACITY: usize = 2048;

/// `heapless::Vec`: a vector with its capacity fixed by the type.
#[verifier::external_type_specification]
#[verifier::external_body]
#[verifier::reject_recursive_types(T)]
pub struct ExHeaplessVec<T, const N: usize>(heapless::Vec<T, N>);

/// `heapless::String`: UTF-8 text whose byte length is bounded by the type.
#[verifier::external_type_specification]
#[verifier::external_body]
pub struct ExHeaplessString<const N: usize>(heapless::String<N>);

/// The bytes held by a payload buffer, in order.
pub uninterp spec fn payload_bytes(v: heapless::Vec<u8, ANNOUNCEMENT_PAYLOAD_CAPACITY>) -> Seq<u8>;

/// `heapless::Vec::new`: the source builds a vector of length zero.
#[verifier::external_body]
pub(crate) fn payload_new() -> (v: heapless::Vec<u8, ANNOUNCEMENT_PAYLOAD_CAPACITY>)
    ensures
        payload_bytes(v) == Seq::<u8>::empty(),
{
    heapless::Vec::new()
}

/// `heapless::Vec::push`: below capacity the byte is appended and `Ok` is
/// returned; at capacity nothing changes and the byte comes back in `Err`.
#[verifier::external_body]
pub(crate) fn payload_push(v: &mut heapless::Vec<u8, ANNOUNCEMENT_PAYLOAD_CAPACITY>, byte: u8) -> (r: Result<(), u8>)
    ensures
        payload_bytes(*old(v)).len() < ANNOUNCEMENT_PAYLOAD_CAPACITY ==> r is Ok,
        payload_bytes(*old(v)).len() < ANNOUNCEMENT_PAYLOAD_CAPACITY ==> payload_bytes(*final(v))
            == payload_bytes(*old(v)).push(byte),
        payload_bytes(*old(v)).len() >= ANNOUNCEMENT_PAYLOAD_CAPACITY ==> (r matches Err(e) && e == byte),
        payload_bytes(*old(v)).len() >= ANNOUNCEMENT_PAYLOAD_CAPACITY ==> payload_bytes(*final(v))
            == payload_bytes(*old(v)),
{
    v.push(byte)
}

/// `heapless::Vec::as_slice`: the held bytes, in order.
#[verifier::external_body]
pub(crate) fn payload_slice(v: &heapless::Vec<u8, ANNOUNCEMENT_PAYLOAD_CAPACITY>) -> (s: &[u8])
    ensures
        s@ == payload_bytes(*v),
{
    v.as_slice()
}

/// `core::fmt::Error`, the error of a formatting write.
#[verifier::external_type_specification]
#[verifier::external_body]
pub struct ExFmtError(core::fmt::Error);

/// The text held by a string of capacity 32.
pub uninterp spec fn text_32(s: heapless::String<32>) -> Seq<char>;

/// The text held by a string of capacity 64.
pub uninterp spec fn text_64(s: heapless::String<64>) -> Seq<char>;

/// The text held by a string of capacity 128.
pub uninterp spec fn text_128(s: heapless::String<128>) -> Seq<char>;

/// `heapless::String::new`: an empty string.
#[verifier::external_body]
pub(crate) fn new_32() -> (s: heapless::String<32>)
    ensures
        text_32(s) == Seq::<char>::empty(),
{
    heapless::String::new()
}

/// `heapless::String::new`: an empty string.
#[verifier::external_body]
pub(crate) fn new_64() -> (s: heapless::String<64>)
    ensures
        text_64(s) == Seq::<char>::empty(),
{
    heapless::String::new()
}

/// `heapless::String::new`: an empty string.
#[verifier::external_body]
pub(crate) fn new_128() -> (s: heapless::String<128>)
    ensures
        text_128(s) == Seq::<char>::empty(),
{
    heapless::String::new()
}

/// `heapless::String::push`: the character is appended when its UTF-8
/// bytes still fit the capacity; otherwise nothing changes and `Err` is
/// returned.
#[verifier::external_body]
pub(crate) fn push_32(s: &mut heapless::String<32>, c: char) -> (r: Result<(), ()>)
    ensures
        utf8_len(text_32(*old(s))) + utf8_len(seq![c]) <= 32 ==> r is Ok,
        utf8_len(text_32(*old(s))) + utf8_len(seq![c]) <= 32 ==> text_32(*final(s)) == text_32(*old(s)).push(c),
        utf8_len(text_32(*old(s))) + utf8_len(seq![c]) > 32 ==> r is Err,
        utf8_len(text_32(*old(s))) + utf8_len(seq![c]) > 32 ==> text_32(*final(s)) == text_32(*old(s)),
{
    s.push(c)
}

/// `heapless::String::push`: the character is appended when its UTF-8
/// bytes still fit the capacity; otherwise nothing changes and `Err` is
/// returned.
#[verifier::external_body]
pub(crate) fn push_64(s: &mut heapless::String<64>, c: char) -> (r: Result<(), ()>)
    ensures
        utf8_len(text_64(*old(s))) + utf8_len(seq![c]) <= 64 ==> r is Ok,
        utf8_len(text_64(*old(s))) + utf8_len(seq![c]) <= 64 ==> text_64(*final(s)) == text_64(*old(s)).push(c),
        utf8_len(text_64(*old(s))) + utf8_len(seq![c]) > 64 ==> r is Err,
        utf8_len(text_64(*old(s))) + utf8_len(seq![c]) > 64 ==> text_64(*final(s)) == text_64(*old(s)),
{
    s.push(c)
}

/// `fmt::Write::write_str` of `heapless::String`: the text is appended
/// when all its bytes still fit the capacity; otherwise nothing changes
/// and a formatting error is returned.
#[verifier::external_body]
pub(crate) fn write_str_64(s: &mut heapless::String<64>, x: &str) -> (r: Result<(), core::fmt::Error>)
    ensures
        utf8_len(text_64(*old(s))) + x.spec_bytes().len() <= 64 ==> r is Ok,
        utf8_len(text_64(*old(s))) + x.spec_bytes().len() <= 64 ==> text_64(*final(s)) == text_64(*old(s)) + x@,
        utf8_len(text_64(*old(s))) + x.spec_bytes().len() > 64 ==> r is Err,
        utf8_len(text_64(*old(s))) + x.spec_bytes().len() > 64 ==> text_64(*final(s)) == text_64(*old(s)),
{
    core::fmt::Write::write_str(s, x)
}

/// `fmt::Write::write_char` of `heapless::String`: as `push`, with a
/// formatting error when the character does not fit.
#[verifier::external_body]
pub(crate) fn write_char_64(s: &mut heapless::String<64>, c: char) -> (r: Result<(), core::fmt::Error>)
    ensures
        utf8_len(text_64(*old(s))) + utf8_len(seq![c]) <= 64 ==> r is Ok,
        utf8_len(text_64(*old(s))) + utf8_len(seq![c]) <= 64 ==> text_64(*final(s)) == text_64(*old(s)).push(c),
        utf8_len(text_64(*old(s))) + utf8_len(seq![c]) > 64 ==> r is Err,
        utf8_len(text_64(*old(s))) + utf8_len(seq![c]) > 64 ==> text_64(*final(s)) == text_64(*old(s)),
{
    core::fmt::Write::write_char(s, c)
}

/// `fmt::Write::write_str` of `heapless::String`: the text is appended
/// when all its bytes still fit the capacity; otherwise nothing changes
/// and a formatting error is returned.
#[verifier::external_body]
pub(crate) fn write_str_128(s: &mut heapless::String<128>, x: &str) -> (r: Result<(), core::fmt::Error>)
    ensures
        utf8_len(text_128(*old(s))) + x.spec_bytes().len() <= 128 ==> r is Ok,
        utf8_len(text_128(*old(s))) + x.spec_bytes().len() <= 128 ==> text_128(*final(s)) == text_128(*old(s)) + x@,
        utf8_len(text_128(*old(s))) + x.spec_bytes().len() > 128 ==> r is Err,
        utf8_len(text_128(*old(s))) + x.spec_bytes().len() > 128 ==> text_128(*final(s)) == text_128(*old(s)),
{
    core::fmt::Write::write_str(s, x)
}

/// `fmt::Write::write_char` of `heapless::String`: as `push`, with a
/// formatting error when the character does not fit.
#[verifier::external_body]
pub(crate) fn write_char_128(s: &mut heapless::String<128>, c: char) -> (r: Result<(), core::fmt::Error>)
    ensures
        utf8_len(text_128(*old(s))) + utf8_len(seq![c]) <= 128 ==> r is Ok,
        utf8_len(text_128(*old(s))) + utf8_len(seq![c]) <= 128 ==> text_128(*final(s)) == text_128(*old(s)).push(c),
        utf8_len(text_128(*old(s))) + utf8_len(seq![c]) > 128 ==> r is Err,
        utf8_len(text_128(*old(s))) + utf8_len(seq![c]) > 128 ==> text_128(*final(s)) == text_128(*old(s)),
{
    core::fmt::Write::write_char(s, c)
}

/// `heapless::String::as_str`: the held text.
#[verifier::external_body]
pub(crate) fn as_str_32(s: &heapless::String<32>) -> (r: &str)
    ensures
        r@ == text_32(*s),
{
    s.as_str()
}

/// `heapless::String::as_str`: the held text.
#[verifier::external_body]
pub(crate) fn as_str_64(s: &heapless::String<64>) -> (r: &str)
    ensures
        r@ == text_64(*s),
{
    s.as_str()
}

} // verus!
