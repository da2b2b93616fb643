//! Decoder and editor for the binary uninstall log written by a legacy
//! installer toolchain: a fixed 448-byte header with a CRC-32 integrity
//! check, a sequential stream of tagged records, and a sentinel-framed
//! UTF-16 string segment embedded in a record's payload that can be
//! rewritten ("rebased") to a new path prefix while every byte outside
//! the segment is preserved.
use vstd::prelude::*;

pub mod bytes;
pub mod ext;
pub mod header;
pub mod record;

verus! {

/// Why a decode step rejected its input. Every failure is fatal: the
/// format is either well-formed or the input is refused outright.
#[derive(Clone, Copy, Debug, PartialEq, Eq, Structural)]
pub enum LogError {
    /// The input ended before the bytes a field needs (a short read).
    IoError,
    /// The header's stored CRC-32 does not match the one computed over
    /// the first 444 bytes of the block.
    ChecksumMismatch,
    /// The header's magic identifier is neither recognized string.
    UnrecognizedMagic,
    /// The header's format version is newer than this decoder understands.
    UnsupportedVersion,
    /// A record declares a payload larger than the safety ceiling.
    OversizedPayload,
    /// A record's type tag is not one of the known kinds.
    UnrecognizedRecordType,
    /// The embedded string segment breaks its framing: a missing sentinel,
    /// a non-negative size field, an odd byte count, a segment that
    /// overruns the payload, or invalid UTF-16.
    MalformedStringFraming,
    /// A header text field holds bytes that are not valid UTF-8.
    InvalidUtf8,
}

} // verus!
