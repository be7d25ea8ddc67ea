//! Chunk types: 4-byte tags with PNG property-bit semantics.
//!
//! Each tag byte must be an ASCII letter; bit 5 of a letter is its case
//! bit, and the PNG specification reads that bit of each of the four
//! bytes as a property: critical/ancillary, public/private, reserved,
//! and safe-to-copy/unsafe-to-copy.

use vstd::prelude::*;
use vstd::string::StringSliceAdditionalSpecFns;

use crate::text::ascii_chars;
use crate::text::utf8_lossy;
use crate::PngError;

verus! {

/// A tag byte must be an ASCII letter: `A`-`Z` or `a`-`z`.
pub open spec fn is_type_byte(b: u8) -> bool {
    (0x41 <= b && b <= 0x5A) || (0x61 <= b && b <= 0x7A)
}

/// Bit 5 of a tag byte, the property bit, is clear.
pub open spec fn bit5_clear(b: u8) -> bool {
    (b >> 5) & 0x01 == 0
}

/// All four tag bytes are ASCII letters.
pub open spec fn type_bytes_ok(s: Seq<u8>) -> bool {
    s.len() == 4 && (forall|i: int| 0 <= i < 4 ==> is_type_byte(s[i]))
}

/// The construction error for four candidate tag bytes: the first byte
/// outside the letter ranges, if any.
pub open spec fn spec_type_err(s: Seq<u8>) -> Option<PngError>
    recommends
        s.len() == 4,
{
    if !is_type_byte(s[0]) {
        Some(PngError::InvalidTypeByte(s[0]))
    } else if !is_type_byte(s[1]) {
        Some(PngError::InvalidTypeByte(s[1]))
    } else if !is_type_byte(s[2]) {
        Some(PngError::InvalidTypeByte(s[2]))
    } else if !is_type_byte(s[3]) {
        Some(PngError::InvalidTypeByte(s[3]))
    } else {
        None
    }
}

/// Chunk type of a chunk within a PNG datastream.
#[derive(Debug, Clone, Copy, PartialEq, Eq)]
pub struct ChunkType {
    inner: [u8; 4],
}

impl View for ChunkType {
    type V = Seq<u8>;

    closed spec fn view(&self) -> Seq<u8> {
        self.inner@
    }
}

/// Tests one candidate tag byte, as construction does: clearing bit 5
/// must leave an uppercase ASCII letter.
fn check_type_byte(b: u8) -> (r: bool)
    ensures
        r == is_type_byte(b),
{
    let upper = b & 0xDF;
    let r = 0x41 <= upper && upper <= 0x5A;
    proof {
        assert((0x41 <= (b & 0xDF) && (b & 0xDF) <= 0x5A) == ((0x41 <= b && b <= 0x5A) || (0x61
            <= b && b <= 0x7A))) by (bit_vector);
    }
    r
}

impl ChunkType {
    /// Every constructed chunk type holds four ASCII letters.
    pub open spec fn wf(self) -> bool {
        type_bytes_ok(self@)
    }

    /// Builds a chunk type from four raw bytes; each must be an ASCII
    /// letter, and the first byte that is not is the error.
    pub fn from_bytes(b: [u8; 4]) -> (r: Result<ChunkType, PngError>)
        ensures
            r is Ok <==> spec_type_err(b@) is None,
            r matches Ok(t) ==> t@ == b@ && t.wf(),
            r matches Err(e) ==> spec_type_err(b@) == Some(e),
    {
        if !check_type_byte(b[0]) {
            return Err(PngError::InvalidTypeByte(b[0]));
        }
        if !check_type_byte(b[1]) {
            return Err(PngError::InvalidTypeByte(b[1]));
        }
        if !check_type_byte(b[2]) {
            return Err(PngError::InvalidTypeByte(b[2]));
        }
        if !check_type_byte(b[3]) {
            return Err(PngError::InvalidTypeByte(b[3]));
        }
        Ok(ChunkType { inner: b })
    }

    /// Builds a chunk type from a string of exactly 4 bytes; a string
    /// of any other length is rejected before its bytes are looked at.
    pub fn from_str(s: &str) -> (r: Result<ChunkType, PngError>)
        ensures
            s.spec_bytes().len() != 4 ==> r == Err::<ChunkType, PngError>(
                PngError::InvalidTypeLength,
            ),
            s.spec_bytes().len() == 4 ==> {
                &&& (r is Ok <==> spec_type_err(s.spec_bytes()) is None)
                &&& (r matches Ok(t) ==> t@ == s.spec_bytes() && t.wf())
                &&& (r matches Err(e) ==> spec_type_err(s.spec_bytes()) == Some(e))
            },
    {
        let bs: &[u8] = s.as_bytes();
        if bs.len() != 4 {
            return Err(PngError::InvalidTypeLength);
        }
        let b: [u8; 4] = [bs[0], bs[1], bs[2], bs[3]];
        proof {
            assert(b@ =~= s.spec_bytes());
        }
        Self::from_bytes(b)
    }

    /// Returns the raw bytes of the chunk type.
    pub fn bytes(&self) -> (r: [u8; 4])
        ensures
            r@ == self@,
    {
        self.inner
    }

    /// A chunk type is valid when its reserved bit is; the letter check
    /// already happened at construction.
    pub open spec fn spec_is_valid(self) -> bool {
        self.spec_is_reserved_bit_valid()
    }

    /// Returns `true` if the chunk type is valid.
    pub fn is_valid(&self) -> (r: bool)
        ensures
            r == self.spec_is_valid(),
    {
        self.is_reserved_bit_valid()
    }

    /// A critical chunk has bit 5 of its first tag byte clear.
    pub open spec fn spec_is_critical(self) -> bool {
        bit5_clear(self@[0])
    }

    /// Returns `true` if the chunk type has the `critical` property bit
    /// set.
    pub fn is_critical(&self) -> (r: bool)
        ensures
            r == self.spec_is_critical(),
    {
        (self.inner[0] >> 5) & 0x01 == 0
    }

    /// A public chunk has bit 5 of its second tag byte clear.
    pub open spec fn spec_is_public(self) -> bool {
        bit5_clear(self@[1])
    }

    /// Returns `true` if the chunk type has the `public` property bit
    /// set.
    pub fn is_public(&self) -> (r: bool)
        ensures
            r == self.spec_is_public(),
    {
        (self.inner[1] >> 5) & 0x01 == 0
    }

    /// The reserved bit, bit 5 of the third tag byte, must be clear.
    pub open spec fn spec_is_reserved_bit_valid(self) -> bool {
        bit5_clear(self@[2])
    }

    /// Returns `true` if the chunk type has a valid reserved bit.
    pub fn is_reserved_bit_valid(&self) -> (r: bool)
        ensures
            r == self.spec_is_reserved_bit_valid(),
    {
        (self.inner[2] >> 5) & 0x01 == 0
    }

    /// A safe-to-copy chunk has bit 5 of its fourth tag byte set.
    pub open spec fn spec_is_safe_to_copy(self) -> bool {
        !bit5_clear(self@[3])
    }

    /// Returns `true` if the chunk type has the `safe-to-copy` property
    /// bit set.
    pub fn is_safe_to_copy(&self) -> (r: bool)
        ensures
            r == self.spec_is_safe_to_copy(),
    {
        let b = self.inner[3];
        proof {
            assert(((b >> 5) & 0x01 == 1) == !((b >> 5) & 0x01 == 0)) by (bit_vector);
        }
        (b >> 5) & 0x01 == 1
    }

    /// Renders the tag as text: the 4 input characters byte-exactly,
    /// representable because every accepted byte is an ASCII letter.
    pub fn to_text(&self) -> (r: String)
        requires
            self.wf(),
        ensures
            r@ == ascii_chars(self@),
            r@.len() == 4,
    {
        let b = self.bytes();
        utf8_lossy(b.as_slice())
    }
}

} // verus!
