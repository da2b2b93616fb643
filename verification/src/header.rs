//! The fixed 448-byte log header: three zero-padded UTF-8 text fields,
//! the format version and record count, and a CRC-32 integrity check
//! over everything that precedes the stored checksum.
use crate::bytes::{le_i32_of, le_u32_of, read_le_u32, copy_range};
use crate::ext::{crc32_ieee, crc32_of, utf8_decode};
use crate::LogError;
use vstd::prelude::*;
use vstd::utf8::{decode_utf8, encode_utf8, encode_utf8_decode_utf8, valid_utf8};

verus! {

/// Size of the header block in bytes.
pub const HEADER_SIZE: usize = 448;

/// Bytes over which the header checksum is computed: everything before
/// the stored CRC field.
pub const CRC_REGION: usize = 444;

/// Newest format version this decoder understands.
pub const HIGHEST_SUPPORTED_VERSION: i64 = 1048;

/// The magic identifier written by 32-bit installers.
pub open spec fn magic_32() -> Seq<char> {
    "Inno Setup Uninstall Log (b)"@
}

/// The magic identifier written by 64-bit installers.
pub open spec fn magic_64() -> Seq<char> {
    "Inno Setup Uninstall Log (b) 64-bit"@
}

/// Index of the first zero byte of `s` at or after `i`, or the end of
/// `s` if none follows.
pub open spec fn first_zero(s: Seq<u8>, i: int) -> int
    decreases s.len() - i,
{
    if i < 0 || i >= s.len() {
        i
    } else if s[i] == 0 {
        i
    } else {
        first_zero(s, i + 1)
    }
}

/// The text bytes of a fixed-width zero-padded field: the bytes of the
/// window before its first zero byte.
pub open spec fn padded_field(b: Seq<u8>, off: int, len: int) -> Seq<u8> {
    let w = b.subrange(off, off + len);
    w.take(first_zero(w, 0))
}

/// The first reason a header block is rejected, or `None` when the
/// block is accepted: the block must hold 448 bytes; the three text
/// fields must be valid UTF-8; the stored CRC must match the digest of
/// the first 444 bytes; the identifier must be one of the two magic
/// strings; the version must not exceed the newest supported one.
pub open spec fn header_check(b: Seq<u8>) -> Option<LogError> {
    if b.len() < 448 {
        Some(LogError::IoError)
    } else if !valid_utf8(padded_field(b, 0, 64)) || !valid_utf8(padded_field(b, 64, 128))
        || !valid_utf8(padded_field(b, 192, 128)) {
        Some(LogError::InvalidUtf8)
    } else if crc32_of(b.take(444)) != le_u32_of(b.subrange(444, 448)) {
        Some(LogError::ChecksumMismatch)
    } else if decode_utf8(padded_field(b, 0, 64)) != magic_32() && decode_utf8(
        padded_field(b, 0, 64),
    ) != magic_64() {
        Some(LogError::UnrecognizedMagic)
    } else if le_i32_of(b.subrange(320, 324)) > 1048 {
        Some(LogError::UnsupportedVersion)
    } else {
        None
    }
}

/// The record count as the format stores it: the signed 32-bit field
/// reinterpreted as an unsigned machine word, so a negative count
/// sign-extends.
pub open spec fn rec_count_of(b: Seq<u8>) -> int {
    let v = le_i32_of(b.subrange(324, 328));
    if v < 0 {
        v + usize::MAX + 1
    } else {
        v
    }
}

/// The fixed preamble of an uninstall log, decoded and validated.
pub struct Header {
    /// Magic identifier, one of the two recognized strings.
    pub id: String,
    /// Application identifier recorded by the installer.
    pub app_id: String,
    /// Application display name recorded by the installer.
    pub app_name: String,
    /// Format version of the log.
    pub version: i32,
    /// Declared count of records that follow the header.
    pub num_recs: usize,
    /// Byte offset at which the record stream ends.
    pub end_offset: u32,
    /// Opaque bitfield.
    pub flags: u32,
    /// Stored CRC-32 over the first 444 bytes of the block.
    pub crc: u32,
}

/// Decodes one zero-padded UTF-8 text field of the header.
fn text_field(b: &Vec<u8>, off: usize, len: usize) -> (r: Option<String>)
    requires
        off + len <= b@.len(),
    ensures
        r is Some <==> valid_utf8(padded_field(b@, off as int, len as int)),
        r matches Some(s) ==> s@ == decode_utf8(padded_field(b@, off as int, len as int)),
{
    let ghost w = b@.subrange(off as int, off + len);
    let n = b.len();
    let mut i: usize = 0;
    while i < len && b[off + i] != 0
        invariant
            0 <= i <= len,
            n == b@.len(),
            off + len <= b@.len(),
            w == b@.subrange(off as int, off + len),
            first_zero(w, 0) == first_zero(w, i as int),
        decreases len - i,
    {
        proof {
            assert(w[i as int] == b@[off + i]);
            assert(first_zero(w, i as int) == first_zero(w, i + 1));
        }
        i = i + 1;
    }
    proof {
        if i < len {
            assert(w[i as int] == b@[off + i]);
        }
        assert(first_zero(w, i as int) == i);
    }
    let field = copy_range(b, off, off + i);
    proof {
        assert(field@ =~= w.take(first_zero(w, 0)));
    }
    match utf8_decode(&field) {
        Some(s) => {
            proof {
                encode_utf8_decode_utf8(s@);
            }
            Some(s)
        },
        None => None,
    }
}

impl Header {
    /// Decodes and validates the header held in the first 448 bytes of
    /// `b`. Accepts the block exactly when `header_check` does, returns
    /// the reason `header_check` gives otherwise, and on success every
    /// field equals the value the block's layout assigns it; in
    /// particular the stored `crc` equals the CRC-32 digest of the
    /// block's first 444 bytes.
    pub fn decode(b: &Vec<u8>) -> (r: Result<Header, LogError>)
        ensures
            r is Err <==> header_check(b@) is Some,
            r matches Err(e) ==> header_check(b@) == Some(e),
            r matches Ok(h) ==> {
                &&& h.id@ == decode_utf8(padded_field(b@, 0, 64))
                &&& h.app_id@ == decode_utf8(padded_field(b@, 64, 128))
                &&& h.app_name@ == decode_utf8(padded_field(b@, 192, 128))
                &&& h.id@ == magic_32() || h.id@ == magic_64()
                &&& h.version == le_i32_of(b@.subrange(320, 324))
                &&& h.version <= 1048
                &&& h.num_recs == rec_count_of(b@)
                &&& h.end_offset == le_u32_of(b@.subrange(328, 332))
                &&& h.flags == le_u32_of(b@.subrange(332, 336))
                &&& h.crc == le_u32_of(b@.subrange(444, 448))
                &&& h.crc == crc32_of(b@.take(444))
            },
    {
        if b.len() < HEADER_SIZE {
            return Err(LogError::IoError);
        }
        let id = match text_field(b, 0, 64) {
            Some(s) => s,
            None => {
                return Err(LogError::InvalidUtf8);
            },
        };
        let app_id = match text_field(b, 64, 128) {
            Some(s) => s,
            None => {
                return Err(LogError::InvalidUtf8);
            },
        };
        let app_name = match text_field(b, 192, 128) {
            Some(s) => s,
            None => {
                return Err(LogError::InvalidUtf8);
            },
        };
        let crc = read_le_u32(b, 444);
        let actual = crc32_ieee(b, CRC_REGION);
        if actual != crc {
            return Err(LogError::ChecksumMismatch);
        }
        let m32: String = "Inno Setup Uninstall Log (b)".to_owned();
        let m64: String = "Inno Setup Uninstall Log (b) 64-bit".to_owned();
        if !(id == m32 || id == m64) {
            return Err(LogError::UnrecognizedMagic);
        }
        let vu = read_le_u32(b, 320);
        let vi: i64 = if vu >= 0x80000000 {
            vu as i64 - 0x100000000i64
        } else {
            vu as i64
        };
        if vi > HIGHEST_SUPPORTED_VERSION {
            return Err(LogError::UnsupportedVersion);
        }
        let version: i32 = vi as i32;
        let nr = read_le_u32(b, 324);
        let num_recs: usize = if nr < 0x80000000 {
            nr as usize
        } else {
            usize::MAX - (0xFFFFFFFFu32 - nr) as usize
        };
        let end_offset = read_le_u32(b, 328);
        let flags = read_le_u32(b, 332);
        Ok(Header { id, app_id, app_name, version, num_recs, end_offset, flags, crc })
    }
}

} // verus!
