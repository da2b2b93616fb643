//! Trusted boundary: the CRC-32 digest from the `crc` crate and the
//! UTF-8 / UTF-16 conversions of std, each behind a small wrapper whose
//! contract is stated over byte and character sequences.
use vstd::prelude::*;

verus! {

/// The IEEE CRC-32 digest of a byte sequence. The digest is a function
/// of the bytes alone; its value is stated nowhere, so nothing is
/// assumed of it beyond determinism.
pub uninterp spec fn crc32_of(s: Seq<u8>) -> u32;

/// The UTF-16 code units that encode a sequence of characters.
pub uninterp spec fn utf16_of(s: Seq<char>) -> Seq<u16>;

/// Relies on `crc::Crc::<u32>::checksum` with the `CRC_32_ISO_HDLC`
/// algorithm (the IEEE polynomial, reflected, init and xorout
/// `0xFFFFFFFF`): the digest of the first `n` bytes of `b`.
#[verifier::external_body]
pub fn crc32_ieee(b: &Vec<u8>, n: usize) -> (r: u32)
    requires
        n <= b@.len(),
    ensures
        r == crc32_of(b@.take(n as int)),
{
    crc::Crc::<u32>::new(&crc::CRC_32_ISO_HDLC).checksum(&b[..n])
}

/// Relies on `core::str::from_utf8`: succeeds exactly on valid UTF-8,
/// and the characters it returns re-encode to the input bytes.
#[verifier::external_body]
pub fn utf8_decode(b: &Vec<u8>) -> (r: Option<String>)
    ensures
        r is Some <==> vstd::utf8::valid_utf8(b@),
        r matches Some(s) ==> vstd::utf8::encode_utf8(s@) == b@,
{
    match core::str::from_utf8(b) {
        Ok(s) => Some(s.to_owned()),
        Err(_) => None,
    }
}

/// Relies on `str::encode_utf16`: the UTF-16 code units of the text,
/// a function of its characters alone. Each character is encoded
/// independently, so the encoding of this text followed by any other
/// is this result followed by the other's encoding.
#[verifier::external_body]
pub fn utf16_encode(s: &str) -> (r: Vec<u16>)
    ensures
        r@ == utf16_of(s@),
        forall|rest: Seq<char>| #![trigger utf16_of(s@ + rest)] utf16_of(s@ + rest) == r@
            + utf16_of(rest),
{
    s.encode_utf16().collect()
}

/// Relies on `String::from_utf16`: succeeds exactly on the unit
/// sequences some text encodes to, and the text it returns re-encodes
/// to the input units.
#[verifier::external_body]
pub fn utf16_decode(u: &Vec<u16>) -> (r: Option<String>)
    ensures
        r is Some <==> exists|s: Seq<char>| utf16_of(s) == u@,
        r matches Some(s) ==> utf16_of(s@) == u@,
{
    match String::from_utf16(u) {
        Ok(s) => Some(s),
        Err(_) => None,
    }
}

} // verus!
