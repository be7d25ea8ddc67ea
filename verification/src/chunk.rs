//! Chunks: length-prefixed, type-tagged, CRC-checksummed records.
//!
//! A chunk serializes to four fields in order: a 4-byte big-endian
//! length counting only the data field, the 4 raw type bytes, the data
//! bytes, and a 4-byte big-endian CRC-32 computed over the type and
//! data bytes.  Parsing recomputes the CRC and rejects a mismatch, so a
//! constructed chunk always carries a checksum that matches its
//! contents.

use vstd::prelude::*;
use vstd::slice::slice_subrange;
use vstd::slice::slice_to_vec;

use crate::bytes::lemma_be_decode_encode;
use crate::bytes::lemma_be_encode_decode;
use crate::bytes::push_u32_be;
use crate::bytes::spec_be_bytes;
use crate::bytes::spec_u32_from_be;
use crate::bytes::u32_from_be;
use crate::chunk_type::spec_type_err;
use crate::chunk_type::type_bytes_ok;
use crate::chunk_type::ChunkType;
use crate::crc::compute_crc;
use crate::crc::spec_crc32;
use crate::text::utf8_lossy;
use crate::text::utf8_lossy_of;
use crate::PngError;

verus! {

/// What a chunk is, mathematically: its 4 type bytes and its data
/// bytes.  The length and CRC fields are functions of these two.
#[verifier::ext_equal]
pub struct ChunkModel {
    pub ty: Seq<u8>,
    pub data: Seq<u8>,
}

/// A model is well formed when its type bytes are 4 ASCII letters and
/// its data count fits the 4-byte length field.  Construction through
/// [`Chunk::new`] is stricter and allows at most 2^31 - 1 bytes, but
/// parsing accepts whatever the length field can express.
pub open spec fn model_wf(m: ChunkModel) -> bool {
    &&& type_bytes_ok(m.ty)
    &&& m.data.len() <= 0xFFFFFFFF
}

/// The byte-exact encoding of a chunk model.  Opaque: callers treat an
/// encoding as a whole; the round-trip lemmas look inside.
#[verifier::opaque]
pub open spec fn model_serial(m: ChunkModel) -> Seq<u8> {
    spec_be_bytes(m.data.len() as u32) + m.ty + m.data + spec_be_bytes(
        spec_crc32(m.ty + m.data),
    )
}

/// Parses one chunk from a byte sequence that must hold exactly that
/// chunk: the first failing check, in order, is the error.  Opaque:
/// callers work with [`Chunk::parse`] and the round-trip lemma; only
/// they look inside.
#[verifier::opaque]
pub open spec fn spec_parse_chunk(s: Seq<u8>) -> Result<ChunkModel, PngError> {
    if s.len() < 12 {
        Err(PngError::ChunkTooShort)
    } else {
        let declared_len = spec_u32_from_be(s[0], s[1], s[2], s[3]);
        let ty = s.subrange(4, 8);
        let data = s.subrange(8, s.len() - 4);
        let declared_crc = spec_u32_from_be(
            s[s.len() - 4],
            s[s.len() - 3],
            s[s.len() - 2],
            s[s.len() - 1],
        );
        match spec_type_err(ty) {
            Some(e) => Err(e),
            None => if declared_len as int != data.len() {
                Err(PngError::ChunkLengthMismatch)
            } else if declared_crc != spec_crc32(ty + data) {
                Err(
                    PngError::ChunkCrcMismatch {
                        declared: declared_crc,
                        computed: spec_crc32(ty + data),
                    },
                )
            } else {
                Ok(ChunkModel { ty, data })
            },
        }
    }
}

/// A single chunk within a PNG datastream.
#[derive(Debug, Clone, PartialEq, Eq)]
pub struct Chunk {
    length: u32,
    chunk_type: ChunkType,
    data: Vec<u8>,
    crc: u32,
}

impl Chunk {
    /// The 4 raw type bytes.
    pub closed spec fn ty(self) -> Seq<u8> {
        self.chunk_type@
    }

    /// The data bytes.
    pub closed spec fn payload(self) -> Seq<u8> {
        self.data@
    }

    /// The stored length field.
    pub closed spec fn spec_length(self) -> u32 {
        self.length
    }

    /// The stored CRC field.
    pub closed spec fn spec_crc(self) -> u32 {
        self.crc
    }

    /// The chunk's model: its type and data bytes.
    pub open spec fn model(self) -> ChunkModel {
        ChunkModel { ty: self.ty(), data: self.payload() }
    }

    /// The invariant every constructed chunk satisfies: valid type
    /// bytes, a length field that counts the data, and a CRC field that
    /// equals the checksum of type and data.
    pub open spec fn wf(self) -> bool {
        &&& model_wf(self.model())
        &&& self.spec_length() == self.payload().len()
        &&& self.spec_crc() == spec_crc32(self.ty() + self.payload())
    }

    /// The byte-exact encoding of the chunk.
    pub open spec fn spec_serial(self) -> Seq<u8> {
        spec_be_bytes(self.spec_length()) + self.ty() + self.payload() + spec_be_bytes(
            self.spec_crc(),
        )
    }

    /// A well-formed chunk serializes as its model does.
    pub proof fn lemma_serial_is_model_serial(self)
        requires
            self.wf(),
        ensures
            self.spec_serial() == model_serial(self.model()),
    {
        reveal(model_serial);
        assert(self.spec_length() == self.payload().len() as u32);
    }

    /// Creates a new PNG chunk with the specified chunk type and data,
    /// computing its CRC; data of more than 2^31 - 1 bytes is rejected.
    pub fn new(chunk_type: ChunkType, data: Vec<u8>) -> (r: Result<Chunk, PngError>)
        requires
            chunk_type.wf(),
        ensures
            r is Ok <==> data@.len() <= 0x7FFFFFFF,
            r matches Err(e) ==> e == PngError::DataTooLarge,
            r matches Ok(c) ==> c.wf() && c.ty() == chunk_type@ && c.payload() == data@,
    {
        if data.len() > 0x7FFFFFFF {
            return Err(PngError::DataTooLarge);
        }
        let tb = chunk_type.bytes();
        let crc = compute_crc(&tb, data.as_slice());
        let length = data.len() as u32;
        Ok(Chunk { length, chunk_type, data, crc })
    }

    /// Returns the length of the chunk.
    pub fn length(&self) -> (r: u32)
        ensures
            r == self.spec_length(),
    {
        self.length
    }

    /// Returns the `ChunkType` of the chunk.
    pub fn chunk_type(&self) -> (r: ChunkType)
        ensures
            r@ == self.ty(),
    {
        self.chunk_type
    }

    /// Returns a shared reference to the chunk data.
    pub fn data(&self) -> (r: &[u8])
        ensures
            r@ == self.payload(),
    {
        self.data.as_slice()
    }

    /// Returns the CRC of the chunk.
    pub fn crc(&self) -> (r: u32)
        ensures
            r == self.spec_crc(),
    {
        self.crc
    }

    /// Returns the size in bytes of the chunk as serialized: the three
    /// 4-byte fields plus the data.
    pub fn size(&self) -> (r: usize)
        requires
            self.wf(),
            self.payload().len() + 12 <= usize::MAX,
        ensures
            r == self.spec_serial().len(),
    {
        12 + self.data.len()
    }

    /// Returns the chunk as a byte vector in big-endian (network) byte
    /// order: length, type, data, CRC.
    pub fn as_bytes(&self) -> (r: Vec<u8>)
        ensures
            r@ == self.spec_serial(),
    {
        let mut out: Vec<u8> = Vec::new();
        push_u32_be(&mut out, self.length);
        let tb = self.chunk_type.bytes();
        out.push(tb[0]);
        out.push(tb[1]);
        out.push(tb[2]);
        out.push(tb[3]);
        let ghost head: Seq<u8> = spec_be_bytes(self.length) + self.ty();
        proof {
            assert(out@ =~= head);
        }
        let mut i: usize = 0;
        while i < self.data.len()
            invariant
                i <= self.data@.len(),
                out@ == head + self.data@.take(i as int),
            decreases self.data@.len() - i,
        {
            out.push(self.data[i]);
            proof {
                assert(out@ =~= head + self.data@.take(i + 1));
            }
            i += 1;
        }
        proof {
            assert(self.data@.take(self.data@.len() as int) =~= self.data@);
        }
        push_u32_be(&mut out, self.crc);
        proof {
            assert(out@ =~= self.spec_serial());
        }
        out
    }

    /// Renders the chunk data as text: lossy UTF-8 decoding, invalid
    /// sequences replaced, never an error.
    pub fn data_as_text(&self) -> (r: String)
        ensures
            r@ == utf8_lossy_of(self.payload()),
    {
        utf8_lossy(self.data.as_slice())
    }

    /// Parses a byte slice holding exactly one chunk, verifying its
    /// CRC.  The checks run in order: enough bytes for the three fixed
    /// fields, valid type bytes, declared length against actual data
    /// length, declared CRC against the recomputed one.
    pub fn parse(bytes: &[u8]) -> (r: Result<Chunk, PngError>)
        ensures
            r is Ok <==> spec_parse_chunk(bytes@) is Ok,
            r matches Err(e) ==> spec_parse_chunk(bytes@) == Err::<ChunkModel, PngError>(e),
            r matches Ok(c) ==> {
                &&& c.wf()
                &&& spec_parse_chunk(bytes@) == Ok::<ChunkModel, PngError>(c.model())
                &&& c.spec_serial() == bytes@
            },
    {
        proof {
            reveal(spec_parse_chunk);
        }
        let n = bytes.len();
        if n < 12 {
            return Err(PngError::ChunkTooShort);
        }
        let length = u32_from_be(bytes[0], bytes[1], bytes[2], bytes[3]);
        let tb: [u8; 4] = [bytes[4], bytes[5], bytes[6], bytes[7]];
        proof {
            assert(tb@ =~= bytes@.subrange(4, 8));
        }
        let chunk_type = match ChunkType::from_bytes(tb) {
            Ok(t) => t,
            Err(e) => {
                return Err(e);
            },
        };
        let data_slice = slice_subrange(bytes, 8, n - 4);
        if length as usize != data_slice.len() {
            return Err(PngError::ChunkLengthMismatch);
        }
        let declared = u32_from_be(bytes[n - 4], bytes[n - 3], bytes[n - 2], bytes[n - 1]);
        let computed = compute_crc(&tb, data_slice);
        if declared != computed {
            return Err(PngError::ChunkCrcMismatch { declared, computed });
        }
        let data = slice_to_vec(data_slice);
        let c = Chunk { length, chunk_type, data, crc: declared };
        proof {
            lemma_be_encode_decode(bytes@[0], bytes@[1], bytes@[2], bytes@[3]);
            lemma_be_encode_decode(
                bytes@[n - 4],
                bytes@[n - 3],
                bytes@[n - 2],
                bytes@[n - 1],
            );
            assert(c.spec_serial() =~= bytes@);
        }
        Ok(c)
    }
}

/// Parsing inverts serialization: a well-formed chunk model's encoding
/// parses back to that very model.
pub proof fn lemma_chunk_round_trip(m: ChunkModel)
    requires
        model_wf(m),
    ensures
        spec_parse_chunk(model_serial(m)) == Ok::<ChunkModel, PngError>(m),
{
    reveal(model_serial);
    reveal(spec_parse_chunk);
    let s = model_serial(m);
    let len32 = m.data.len() as u32;
    let crc32 = spec_crc32(m.ty + m.data);
    assert(s.len() == 12 + m.data.len());
    assert(s.subrange(4, 8) =~= m.ty);
    assert(s.subrange(8, s.len() - 4) =~= m.data);
    lemma_be_decode_encode(len32);
    assert(s[0] == spec_be_bytes(len32)[0]);
    assert(s[1] == spec_be_bytes(len32)[1]);
    assert(s[2] == spec_be_bytes(len32)[2]);
    assert(s[3] == spec_be_bytes(len32)[3]);
    lemma_be_decode_encode(crc32);
    assert(s[s.len() - 4] == spec_be_bytes(crc32)[0]);
    assert(s[s.len() - 3] == spec_be_bytes(crc32)[1]);
    assert(s[s.len() - 2] == spec_be_bytes(crc32)[2]);
    assert(s[s.len() - 1] == spec_be_bytes(crc32)[3]);
    assert(spec_parse_chunk(s) matches Ok(p) && p =~= m);
}

} // verus!
