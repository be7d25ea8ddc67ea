//! Encoding, decoding and removing messages, from file bytes to file
//! bytes.
//!
//! These are the operations the command-line layer calls after reading
//! a file and before writing one: each parses the datastream, works on
//! the chunk list, and (where it mutates) serializes the result.  A
//! caller-chosen type tag must mark the injected chunk as ancillary,
//! private, reserved-bit-valid and safe-to-copy, so that it cannot
//! collide with standard or critical chunks.

use vstd::prelude::*;
use vstd::slice::slice_to_vec;
use vstd::string::StringSliceAdditionalSpecFns;

use crate::chunk::model_serial;
use crate::chunk::Chunk;
use crate::chunk::ChunkModel;
use crate::chunk_type::bit5_clear;
use crate::chunk_type::spec_type_err;
use crate::chunk_type::ChunkType;
use crate::png::lemma_models_serial_push;
use crate::png::spec_find;
use crate::png::spec_parse_png;
use crate::png::spec_signature;
use crate::png::models_serial;
use crate::png::Png;
use crate::text::utf8_lossy_of;
use crate::PngError;

verus! {

/// The restriction on an injected chunk's type tag: ancillary (not
/// critical), private (not public), reserved bit valid, and safe to
/// copy.
pub open spec fn spec_policy_ok(t: Seq<u8>) -> bool {
    &&& !bit5_clear(t[0])
    &&& !bit5_clear(t[1])
    &&& bit5_clear(t[2])
    &&& !bit5_clear(t[3])
}

/// What encoding returns: the first failure among parsing the file,
/// constructing the type tag, the tag policy, and the data bound; or
/// the file bytes with the new chunk's encoding appended.
pub open spec fn spec_encode(file: Seq<u8>, t: Seq<u8>, msg: Seq<u8>) -> Result<
    Seq<u8>,
    PngError,
> {
    match spec_parse_png(file) {
        Err(e) => Err(e),
        Ok(_) => if t.len() != 4 {
            Err(PngError::InvalidTypeLength)
        } else {
            match spec_type_err(t) {
                Some(e) => Err(e),
                None => if !spec_policy_ok(t) {
                    Err(PngError::PolicyViolation)
                } else if msg.len() > 0x7FFFFFFF {
                    Err(PngError::DataTooLarge)
                } else {
                    Ok(file + model_serial(ChunkModel { ty: t, data: msg }))
                },
            }
        },
    }
}

/// Encodes a message into the PNG file bytes under the given chunk
/// type, returning the new file bytes: the original bytes with one
/// chunk holding the message appended.
pub fn invoke_encode(file_bytes: &[u8], chunk_type: &str, message: &str) -> (r: Result<
    Vec<u8>,
    PngError,
>)
    ensures
        r is Ok <==> spec_encode(file_bytes@, chunk_type.spec_bytes(), message.spec_bytes())
            is Ok,
        r matches Ok(out) ==> spec_encode(
            file_bytes@,
            chunk_type.spec_bytes(),
            message.spec_bytes(),
        ) == Ok::<Seq<u8>, PngError>(out@),
        r matches Err(e) ==> spec_encode(
            file_bytes@,
            chunk_type.spec_bytes(),
            message.spec_bytes(),
        ) == Err::<Seq<u8>, PngError>(e),
{
    let ghost t = chunk_type.spec_bytes();
    let ghost msg = message.spec_bytes();
    let mut png = match Png::parse(file_bytes) {
        Ok(p) => p,
        Err(e) => {
            return Err(e);
        },
    };
    let ct = match ChunkType::from_str(chunk_type) {
        Ok(ct) => ct,
        Err(e) => {
            return Err(e);
        },
    };
    if ct.is_critical() || ct.is_public() || !ct.is_valid() || !ct.is_safe_to_copy() {
        return Err(PngError::PolicyViolation);
    }
    let data: Vec<u8> = slice_to_vec(message.as_bytes());
    let chunk = match Chunk::new(ct, data) {
        Ok(c) => c,
        Err(e) => {
            return Err(e);
        },
    };
    let ghost m = chunk.model();
    let ghost models = png.models();
    png.append_chunk(chunk);
    let out = png.as_bytes();
    proof {
        assert(m =~= (ChunkModel { ty: t, data: msg }));
        lemma_models_serial_push(models, m);
        assert(spec_signature() + (models_serial(models) + model_serial(m)) =~= (spec_signature()
            + models_serial(models)) + model_serial(m));
    }
    Ok(out)
}

/// Decodes the message stored under the given chunk type, returning
/// the rendered text of the first matching chunk, or nothing when no
/// chunk matches.
pub fn invoke_decode(file_bytes: &[u8], chunk_type: &str) -> (r: Result<Option<String>, PngError>)
    ensures
        match spec_parse_png(file_bytes@) {
            Err(e) => r == Err::<Option<String>, PngError>(e),
            Ok(ms) => match spec_find(ms, chunk_type.spec_bytes()) {
                None => r == Ok::<Option<String>, PngError>(None),
                Some(i) => {
                    &&& r matches Ok(o)
                    &&& o matches Some(s) && s@ == utf8_lossy_of(ms[i].data)
                },
            },
        },
{
    let png = match Png::parse(file_bytes) {
        Ok(p) => p,
        Err(e) => {
            return Err(e);
        },
    };
    match png.chunk_by_type(chunk_type) {
        None => Ok(None),
        Some(c) => Ok(Some(c.data_as_text())),
    }
}

/// Removes the first chunk stored under the given chunk type,
/// returning its rendered text (or nothing when no chunk matches) and
/// the re-serialized file bytes, unchanged when nothing was removed.
pub fn invoke_remove(file_bytes: &[u8], chunk_type: &str) -> (r: Result<
    (Option<String>, Vec<u8>),
    PngError,
>)
    ensures
        match spec_parse_png(file_bytes@) {
            Err(e) => r == Err::<(Option<String>, Vec<u8>), PngError>(e),
            Ok(ms) => {
                &&& r is Ok
                &&& match spec_find(ms, chunk_type.spec_bytes()) {
                    None => r matches Ok(p) && p.0 is None && p.1@ == file_bytes@,
                    Some(i) => r matches Ok(p) && {
                        &&& p.0 matches Some(s) && s@ == utf8_lossy_of(ms[i].data)
                        &&& p.1@ == spec_signature() + models_serial(ms.remove(i))
                    },
                }
            },
        },
{
    let mut png = match Png::parse(file_bytes) {
        Ok(p) => p,
        Err(e) => {
            return Err(e);
        },
    };
    let removed = png.remove_chunk(chunk_type);
    let message = match &removed {
        Some(c) => Some(c.data_as_text()),
        None => None,
    };
    let out = png.as_bytes();
    Ok((message, out))
}

} // verus!
