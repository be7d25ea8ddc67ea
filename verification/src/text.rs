//! Rendering raw bytes as text.
//!
//! Chunk payloads are shown to the caller as lossily decoded UTF-8;
//! chunk type tags, always ASCII letters, render byte-exactly.

use vstd::prelude::*;

verus! {

/// The characters that a sequence of ASCII bytes spells.
pub open spec fn ascii_chars(s: Seq<u8>) -> Seq<char> {
    s.map(|i: int, b: u8| b as char)
}

/// What lossy UTF-8 decoding returns for a byte sequence: invalid
/// sequences are replaced, never an error.
pub uninterp spec fn utf8_lossy_of(s: Seq<u8>) -> Seq<char>;

/// Relies on String::from_utf8_lossy: the result depends on the bytes
/// alone, and ASCII bytes, being valid UTF-8, decode to themselves.
#[verifier::external_body]
pub(crate) fn utf8_lossy(bytes: &[u8]) -> (r: String)
    ensures
        r@ == utf8_lossy_of(bytes@),
        (forall|i: int| 0 <= i < bytes@.len() ==> bytes@[i] < 0x80) ==> r@ == ascii_chars(bytes@),
{
    String::from_utf8_lossy(bytes).into_owned()
}

} // verus!
