//! Big-endian 32-bit fields.
//!
//! A chunk's length and CRC fields are 4-byte unsigned integers in
//! big-endian (network) byte order.

use vstd::prelude::*;

verus! {

/// The value of a 4-byte big-endian field.
pub open spec fn spec_u32_from_be(b0: u8, b1: u8, b2: u8, b3: u8) -> u32 {
    ((b0 as u32) << 24) | ((b1 as u32) << 16) | ((b2 as u32) << 8) | (b3 as u32)
}

/// The 4-byte big-endian encoding of a 32-bit value.
pub open spec fn spec_be_bytes(x: u32) -> Seq<u8> {
    seq![
        (x >> 24) as u8,
        ((x >> 16) & 0xFF) as u8,
        ((x >> 8) & 0xFF) as u8,
        (x & 0xFF) as u8,
    ]
}

/// Decoding inverts encoding: the 4 bytes of `spec_be_bytes(x)` read
/// back as `x`.
pub proof fn lemma_be_decode_encode(x: u32)
    ensures
        spec_u32_from_be(
            spec_be_bytes(x)[0],
            spec_be_bytes(x)[1],
            spec_be_bytes(x)[2],
            spec_be_bytes(x)[3],
        ) == x,
{
    assert(((((x >> 24) as u8) as u32) << 24) | (((((x >> 16) & 0xFF) as u8) as u32) << 16) | ((((
    (x >> 8) & 0xFF) as u8) as u32) << 8) | (((x & 0xFF) as u8) as u32) == x) by (bit_vector);
}

/// Encoding inverts decoding: the encoding of the value read from 4
/// bytes gives those bytes back.
pub proof fn lemma_be_encode_decode(b0: u8, b1: u8, b2: u8, b3: u8)
    ensures
        spec_be_bytes(spec_u32_from_be(b0, b1, b2, b3)) == seq![b0, b1, b2, b3],
{
    let x = spec_u32_from_be(b0, b1, b2, b3);
    assert((((b0 as u32) << 24) | ((b1 as u32) << 16) | ((b2 as u32) << 8) | (b3 as u32)) >> 24
        == b0 as u32) by (bit_vector);
    assert(((((b0 as u32) << 24) | ((b1 as u32) << 16) | ((b2 as u32) << 8) | (b3 as u32)) >> 16)
        & 0xFF == b1 as u32) by (bit_vector);
    assert(((((b0 as u32) << 24) | ((b1 as u32) << 16) | ((b2 as u32) << 8) | (b3 as u32)) >> 8)
        & 0xFF == b2 as u32) by (bit_vector);
    assert((((b0 as u32) << 24) | ((b1 as u32) << 16) | ((b2 as u32) << 8) | (b3 as u32)) & 0xFF
        == b3 as u32) by (bit_vector);
    assert(spec_be_bytes(x) =~= seq![b0, b1, b2, b3]);
}

/// Reads a 4-byte big-endian field.
pub fn u32_from_be(b0: u8, b1: u8, b2: u8, b3: u8) -> (r: u32)
    ensures
        r == spec_u32_from_be(b0, b1, b2, b3),
{
    ((b0 as u32) << 24) | ((b1 as u32) << 16) | ((b2 as u32) << 8) | (b3 as u32)
}

/// Appends the 4-byte big-endian encoding of `x` to `out`.
pub fn push_u32_be(out: &mut Vec<u8>, x: u32)
    ensures
        final(out)@ == old(out)@ + spec_be_bytes(x),
{
    out.push((x >> 24) as u8);
    out.push(((x >> 16) & 0xFF) as u8);
    out.push(((x >> 8) & 0xFF) as u8);
    out.push((x & 0xFF) as u8);
    proof {
        assert(out@ =~= old(out)@ + spec_be_bytes(x));
    }
}

} // verus!
