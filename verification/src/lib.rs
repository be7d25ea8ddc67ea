//! A verified library for hiding messages inside PNG files.
//!
//! A PNG file is a fixed 8-byte signature followed by a sequence of
//! chunks, each of which is a length-prefixed, type-tagged and
//! CRC-checksummed record.  The library parses such a byte stream into a
//! validated [`png::Png`] datastream, serializes it back byte-exactly,
//! and appends, finds or removes chunks whose 4-letter type tag marks
//! them as ancillary and private, so that ordinary PNG decoders ignore
//! the payload.
//!
//! The modules are laid out leaves first:
//!
//! - [`bytes`]: big-endian 32-bit fields.
//! - [`crc`]: the CRC-32 checksum over a chunk's type and data.
//! - [`chunk_type`]: 4-byte tags and their property bits.
//! - [`chunk`]: a single length/type/data/CRC record.
//! - [`png`]: the signature plus the ordered chunk sequence.
//! - [`commands`]: encode, decode and remove, from file bytes to file
//!   bytes.

use vstd::prelude::*;

pub mod bytes;
pub mod chunk;
pub mod chunk_type;
pub mod commands;
pub mod crc;
pub mod png;
pub mod text;

verus! {

/// Everything that can go wrong while constructing, parsing or
/// appending chunks.  Each variant names the check that failed and
/// carries its diagnostic payload.
#[derive(Debug, Clone, Copy, PartialEq, Eq, Structural)]
pub enum PngError {
    /// A chunk type byte lies outside the ASCII letter ranges.
    InvalidTypeByte(u8),
    /// A chunk type string is not exactly 4 bytes long.
    InvalidTypeLength,
    /// A chunk's data would exceed 2^31 - 1 bytes.
    DataTooLarge,
    /// Fewer than the 12 bytes that even an empty chunk occupies.
    ChunkTooShort,
    /// The declared length and the actual data length disagree.
    ChunkLengthMismatch,
    /// The declared and the recomputed CRC disagree.
    ChunkCrcMismatch { declared: u32, computed: u32 },
    /// The first 8 bytes are not the PNG signature.
    BadSignature,
    /// The chosen type tag is not ancillary, private, reserved-bit-valid
    /// and safe-to-copy, as required of an injected chunk.
    PolicyViolation,
}

} // verus!
