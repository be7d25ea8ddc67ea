//! PNG datastreams: the fixed 8-byte signature followed by an ordered
//! sequence of chunks.
//!
//! Parsing validates the signature, then splits the rest into chunks:
//! each chunk's extent is 12 bytes plus its just-read length field, and
//! every chunk verifies its own CRC.  Serializing writes the signature
//! and every chunk back byte-exactly, so parsing and serializing are
//! inverses.

use vstd::prelude::*;
use vstd::slice::slice_subrange;
use vstd::string::StringSliceAdditionalSpecFns;

use crate::bytes::lemma_be_decode_encode;
use crate::bytes::spec_be_bytes;
use crate::bytes::spec_u32_from_be;
use crate::bytes::u32_from_be;
use crate::chunk::lemma_chunk_round_trip;
use crate::chunk::model_serial;
use crate::chunk::model_wf;
use crate::chunk::spec_parse_chunk;
use crate::chunk::Chunk;
use crate::chunk::ChunkModel;
use crate::chunk_type::spec_type_err;
use crate::chunk_type::ChunkType;
use crate::PngError;

verus! {

/// The fixed 8-byte PNG signature.
pub open spec fn spec_signature() -> Seq<u8> {
    seq![0x89u8, 0x50u8, 0x4Eu8, 0x47u8, 0x0Du8, 0x0Au8, 0x1Au8, 0x0Au8]
}

/// The byte sequence begins with the PNG signature.
pub open spec fn has_signature(s: Seq<u8>) -> bool {
    s.len() >= 8 && s.subrange(0, 8) == spec_signature()
}

/// Serializations of a sequence of chunk models, concatenated in
/// order.  Opaque: callers work with the lemmas below; only they look
/// inside.
#[verifier::opaque]
pub open spec fn models_serial(ms: Seq<ChunkModel>) -> Seq<u8>
    decreases ms.len(),
{
    if ms.len() == 0 {
        Seq::empty()
    } else {
        model_serial(ms[0]) + models_serial(ms.drop_first())
    }
}

/// Serializing distributes over appending one model at the back.
pub proof fn lemma_models_serial_push(ms: Seq<ChunkModel>, m: ChunkModel)
    ensures
        models_serial(ms.push(m)) == models_serial(ms) + model_serial(m),
    decreases ms.len(),
{
    reveal_with_fuel(models_serial, 2);
    if ms.len() == 0 {
        assert(ms.push(m)[0] == m);
        assert(ms.push(m).drop_first() =~= Seq::<ChunkModel>::empty());
        assert(models_serial(ms.push(m)) =~= models_serial(ms) + model_serial(m));
    } else {
        assert(ms.push(m)[0] == ms[0]);
        assert(ms.push(m).drop_first() =~= ms.drop_first().push(m));
        lemma_models_serial_push(ms.drop_first(), m);
        assert(models_serial(ms.push(m)) =~= models_serial(ms) + model_serial(m));
    }
}

/// How many bytes the next chunk occupies: 12 plus its length field,
/// clipped to what remains.  A remainder too short even for the fixed
/// fields is consumed whole, and fails the chunk's own length checks.
pub open spec fn spec_take_len(rem: Seq<u8>) -> int {
    if rem.len() < 12 {
        rem.len() as int
    } else {
        let l = spec_u32_from_be(rem[0], rem[1], rem[2], rem[3]) as int;
        if 12 + l <= rem.len() {
            12 + l
        } else {
            rem.len() as int
        }
    }
}

/// Parses the byte sequence that follows the signature into chunk
/// models: the next chunk's extent is split off and parsed until no
/// bytes remain, and any chunk parse error aborts the whole operation.
/// Opaque: callers work with the lemmas below; only they look inside.
#[verifier::opaque]
pub open spec fn spec_parse_chunks(rem: Seq<u8>) -> Result<Seq<ChunkModel>, PngError>
    decreases rem.len(),
{
    if rem.len() == 0 {
        Ok(Seq::empty())
    } else {
        let t = spec_take_len(rem);
        match spec_parse_chunk(rem.take(t)) {
            Err(e) => Err(e),
            Ok(m) => match spec_parse_chunks(rem.skip(t)) {
                Err(e) => Err(e),
                Ok(ms) => Ok(seq![m] + ms),
            },
        }
    }
}

/// Parses a whole datastream: the signature, then the chunks.
pub open spec fn spec_parse_png(s: Seq<u8>) -> Result<Seq<ChunkModel>, PngError> {
    if !has_signature(s) {
        Err(PngError::BadSignature)
    } else {
        spec_parse_chunks(s.skip(8))
    }
}

/// The chunk models already consumed, followed by whatever parsing the
/// remainder yields.
pub open spec fn spec_chunks_then(pre: Seq<ChunkModel>, rem: Seq<u8>) -> Result<
    Seq<ChunkModel>,
    PngError,
> {
    match spec_parse_chunks(rem) {
        Ok(ms) => Ok(pre + ms),
        Err(e) => Err(e),
    }
}

/// Nothing consumed yet: the accumulator starts empty.
proof fn lemma_chunks_then_empty(rem: Seq<u8>)
    ensures
        spec_chunks_then(Seq::<ChunkModel>::empty(), rem) == spec_parse_chunks(rem),
{
    match spec_parse_chunks(rem) {
        Ok(ms) => {
            assert(Seq::<ChunkModel>::empty() + ms =~= ms);
        },
        Err(_) => {},
    }
}

/// Unfolds one step of the chunk-sequence parser.
proof fn lemma_chunks_unfold(rem: Seq<u8>)
    requires
        rem.len() > 0,
    ensures
        spec_parse_chunks(rem) == (match spec_parse_chunk(rem.take(spec_take_len(rem))) {
            Err(e) => Err(e),
            Ok(m) => match spec_parse_chunks(rem.skip(spec_take_len(rem))) {
                Err(e) => Err(e),
                Ok(ms) => Ok(seq![m] + ms),
            },
        }),
{
    reveal(spec_parse_chunks);
}

/// Nothing left to parse: the accumulator is the result.
proof fn lemma_chunks_then_done(pre: Seq<ChunkModel>)
    ensures
        spec_chunks_then(pre, Seq::<u8>::empty()) == Ok::<Seq<ChunkModel>, PngError>(pre),
{
    reveal(spec_parse_chunks);
    assert(pre + Seq::<ChunkModel>::empty() =~= pre);
}

/// A failing chunk fails the whole remainder.
proof fn lemma_chunks_step_err(pre: Seq<ChunkModel>, rem: Seq<u8>, e: PngError)
    requires
        rem.len() > 0,
        spec_parse_chunk(rem.take(spec_take_len(rem))) == Err::<ChunkModel, PngError>(e),
    ensures
        spec_chunks_then(pre, rem) == Err::<Seq<ChunkModel>, PngError>(e),
{
    lemma_chunks_unfold(rem);
}

/// A parsed chunk moves from the remainder to the accumulator.
proof fn lemma_chunks_step_ok(pre: Seq<ChunkModel>, rem: Seq<u8>, m: ChunkModel)
    requires
        rem.len() > 0,
        spec_parse_chunk(rem.take(spec_take_len(rem))) == Ok::<ChunkModel, PngError>(m),
    ensures
        spec_chunks_then(pre, rem) == spec_chunks_then(pre.push(m), rem.skip(spec_take_len(rem))),
{
    lemma_chunks_unfold(rem);
    match spec_parse_chunks(rem.skip(spec_take_len(rem))) {
        Ok(ms) => {
            assert(pre + (seq![m] + ms) =~= pre.push(m) + ms);
        },
        Err(_) => {},
    }
}

/// The index of the first model whose type bytes equal `t`, if any.
pub open spec fn spec_find(ms: Seq<ChunkModel>, t: Seq<u8>) -> Option<int>
    decreases ms.len(),
{
    if ms.len() == 0 {
        None
    } else if ms[0].ty == t {
        Some(0int)
    } else {
        match spec_find(ms.drop_first(), t) {
            None => None,
            Some(i) => Some(i + 1),
        }
    }
}

/// The first match being at `k` determines `spec_find`.
pub proof fn lemma_spec_find_at(ms: Seq<ChunkModel>, t: Seq<u8>, k: int)
    requires
        0 <= k < ms.len(),
        ms[k].ty == t,
        forall|j: int| 0 <= j < k ==> ms[j].ty != t,
    ensures
        spec_find(ms, t) == Some(k),
    decreases ms.len(),
{
    if k != 0 {
        let rest = ms.drop_first();
        assert(rest[k - 1] == ms[k]);
        assert forall|j: int| 0 <= j < k - 1 implies rest[j].ty != t by {
            assert(rest[j] == ms[j + 1]);
        }
        lemma_spec_find_at(rest, t, k - 1);
    }
}

/// No match anywhere determines `spec_find`.
pub proof fn lemma_spec_find_none(ms: Seq<ChunkModel>, t: Seq<u8>)
    requires
        forall|j: int| 0 <= j < ms.len() ==> ms[j].ty != t,
    ensures
        spec_find(ms, t) is None,
    decreases ms.len(),
{
    if ms.len() != 0 {
        let rest = ms.drop_first();
        assert forall|j: int| 0 <= j < rest.len() implies rest[j].ty != t by {
            assert(rest[j] == ms[j + 1]);
        }
        lemma_spec_find_none(rest, t);
    }
}

/// Text that is not 4 ASCII letters matches no well-formed chunk: the
/// lookup operations treat it as "not found" rather than an error.
pub proof fn lemma_find_malformed_text(ms: Seq<ChunkModel>, t: Seq<u8>)
    requires
        forall|i: int| 0 <= i < ms.len() ==> model_wf(#[trigger] ms[i]),
        t.len() != 4 || spec_type_err(t) is Some,
    ensures
        spec_find(ms, t) is None,
{
    assert forall|j: int| 0 <= j < ms.len() implies ms[j].ty != t by {
        assert(model_wf(ms[j]));
    }
    lemma_spec_find_none(ms, t);
}

/// An ordered sequence of chunks preceded by the fixed 8-byte
/// signature.
#[derive(Debug, Clone, PartialEq, Eq)]
pub struct Png {
    chunks: Vec<Chunk>,
}

impl Png {
    /// The chunks, in on-disk order.
    pub closed spec fn chunks_seq(self) -> Seq<Chunk> {
        self.chunks@
    }

    /// The chunk models, in on-disk order.
    pub open spec fn models(self) -> Seq<ChunkModel> {
        self.chunks_seq().map(|i: int, c: Chunk| c.model())
    }

    /// Every chunk satisfies its invariant.
    pub open spec fn wf(self) -> bool {
        forall|i: int| 0 <= i < self.chunks_seq().len() ==> (#[trigger] self.chunks_seq()[i]).wf()
    }

    /// The byte-exact encoding: signature, then every chunk in order.
    pub open spec fn spec_serial(self) -> Seq<u8> {
        spec_signature() + models_serial(self.models())
    }

    /// Creates a datastream with the signature and no chunks.
    pub fn new() -> (r: Png)
        ensures
            r.wf(),
            r.models() == Seq::<ChunkModel>::empty(),
            r.spec_serial() == spec_signature(),
    {
        let r = Png { chunks: Vec::new() };
        proof {
            reveal(models_serial);
            assert(r.models() =~= Seq::<ChunkModel>::empty());
            assert(r.spec_serial() =~= spec_signature());
        }
        r
    }

    /// Parses a datastream: the 8-byte signature, then chunks until no
    /// bytes remain.  Any chunk parse error aborts the whole operation
    /// and is surfaced unchanged; no partial datastream is returned.
    #[verifier::rlimit(50)]
    pub fn parse(bytes: &[u8]) -> (r: Result<Png, PngError>)
        ensures
            r is Ok <==> spec_parse_png(bytes@) is Ok,
            r matches Err(e) ==> spec_parse_png(bytes@) == Err::<Seq<ChunkModel>, PngError>(e),
            r matches Ok(p) ==> {
                &&& p.wf()
                &&& spec_parse_png(bytes@) == Ok::<Seq<ChunkModel>, PngError>(p.models())
                &&& p.spec_serial() == bytes@
            },
    {
        let n = bytes.len();
        if n < 8 {
            return Err(PngError::BadSignature);
        }
        if !(bytes[0] == 0x89 && bytes[1] == 0x50 && bytes[2] == 0x4E && bytes[3] == 0x47
            && bytes[4] == 0x0D && bytes[5] == 0x0A && bytes[6] == 0x1A && bytes[7] == 0x0A) {
            proof {
                assert(bytes@.subrange(0, 8)[0] == bytes@[0]);
                assert(bytes@.subrange(0, 8)[1] == bytes@[1]);
                assert(bytes@.subrange(0, 8)[2] == bytes@[2]);
                assert(bytes@.subrange(0, 8)[3] == bytes@[3]);
                assert(bytes@.subrange(0, 8)[4] == bytes@[4]);
                assert(bytes@.subrange(0, 8)[5] == bytes@[5]);
                assert(bytes@.subrange(0, 8)[6] == bytes@[6]);
                assert(bytes@.subrange(0, 8)[7] == bytes@[7]);
            }
            return Err(PngError::BadSignature);
        }
        proof {
            assert(bytes@.subrange(0, 8) =~= spec_signature());
            lemma_chunks_then_empty(bytes@.skip(8));
        }
        let mut chunks: Vec<Chunk> = Vec::new();
        let mut pos: usize = 8;
        proof {
            reveal(models_serial);
            assert(chunks@.map(|i: int, c: Chunk| c.model()) =~= Seq::<ChunkModel>::empty());
            assert(models_serial(Seq::<ChunkModel>::empty()) =~= bytes@.subrange(8, 8));
        }
        while pos < n
            invariant
                8 <= pos <= n,
                n == bytes@.len(),
                has_signature(bytes@),
                forall|i: int| 0 <= i < chunks@.len() ==> (#[trigger] chunks@[i]).wf(),
                models_serial(chunks@.map(|i: int, c: Chunk| c.model())) == bytes@.subrange(
                    8,
                    pos as int,
                ),
                spec_parse_chunks(bytes@.skip(8)) == spec_chunks_then(
                    chunks@.map(|i: int, c: Chunk| c.model()),
                    bytes@.skip(pos as int),
                ),
            decreases n - pos,
        {
            let ghost pre = chunks@.map(|i: int, c: Chunk| c.model());
            let ghost rem = bytes@.skip(pos as int);
            let rem_len = n - pos;
            let take: usize;
            if rem_len < 12 {
                take = rem_len;
            } else {
                let l = u32_from_be(bytes[pos], bytes[pos + 1], bytes[pos + 2], bytes[pos + 3]);
                if (l as usize) <= rem_len - 12 {
                    take = 12 + (l as usize);
                } else {
                    take = rem_len;
                }
            }
            proof {
                if rem_len >= 12 {
                    assert(rem[0] == bytes@[pos as int]);
                    assert(rem[1] == bytes@[pos + 1]);
                    assert(rem[2] == bytes@[pos + 2]);
                    assert(rem[3] == bytes@[pos + 3]);
                }
                assert(take as int == spec_take_len(rem));
            }
            let cslice = slice_subrange(bytes, pos, pos + take);
            proof {
                assert(cslice@ =~= rem.take(take as int));
            }
            match Chunk::parse(cslice) {
                Err(e) => {
                    proof {
                        lemma_chunks_step_err(pre, rem, e);
                    }
                    return Err(e);
                },
                Ok(c) => {
                    proof {
                        let m = c.model();
                        lemma_chunks_step_ok(pre, rem, m);
                        assert(rem.skip(take as int) =~= bytes@.skip(pos + take));
                        c.lemma_serial_is_model_serial();
                        lemma_models_serial_push(pre, m);
                        assert(chunks@.push(c).map(|i: int, c: Chunk| c.model()) =~= pre.push(m));
                        assert(bytes@.subrange(8, pos as int) + cslice@ =~= bytes@.subrange(
                            8,
                            pos + take,
                        ));
                    }
                    chunks.push(c);
                    pos = pos + take;
                },
            }
        }
        let ghost fin = chunks@.map(|i: int, c: Chunk| c.model());
        let p = Png { chunks };
        proof {
            assert(p.models() =~= fin);
            assert(bytes@.skip(pos as int) =~= Seq::<u8>::empty());
            lemma_chunks_then_done(fin);
            assert(p.spec_serial() =~= bytes@);
        }
        Ok(p)
    }

    /// Returns the datastream as a byte vector: the signature followed
    /// by each chunk's encoding, in current order.
    pub fn as_bytes(&self) -> (r: Vec<u8>)
        requires
            self.wf(),
        ensures
            r@ == self.spec_serial(),
    {
        let mut out: Vec<u8> = Vec::new();
        out.push(0x89);
        out.push(0x50);
        out.push(0x4E);
        out.push(0x47);
        out.push(0x0D);
        out.push(0x0A);
        out.push(0x1A);
        out.push(0x0A);
        proof {
            reveal(models_serial);
            assert(out@ =~= spec_signature());
            assert(self.models().take(0) =~= Seq::<ChunkModel>::empty());
            assert(out@ =~= spec_signature() + models_serial(self.models().take(0)));
        }
        let mut i: usize = 0;
        while i < self.chunks.len()
            invariant
                i <= self.chunks@.len(),
                self.wf(),
                out@ == spec_signature() + models_serial(self.models().take(i as int)),
            decreases self.chunks@.len() - i,
        {
            let c: &Chunk = &self.chunks[i];
            let mut cb = c.as_bytes();
            proof {
                assert(c.wf());
                c.lemma_serial_is_model_serial();
                lemma_models_serial_push(self.models().take(i as int), c.model());
                assert(self.models().take(i + 1) =~= self.models().take(i as int).push(c.model()));
            }
            out.append(&mut cb);
            proof {
                assert(out@ =~= spec_signature() + models_serial(self.models().take(i + 1)));
            }
            i += 1;
        }
        proof {
            assert(self.models().take(self.chunks@.len() as int) =~= self.models());
        }
        out
    }

    /// Pushes a chunk to the end of the ordered sequence.
    pub fn append_chunk(&mut self, chunk: Chunk)
        requires
            old(self).wf(),
            chunk.wf(),
        ensures
            final(self).wf(),
            final(self).models() == old(self).models().push(chunk.model()),
    {
        self.chunks.push(chunk);
        proof {
            assert(self.models() =~= old(self).models().push(chunk.model()));
        }
    }

    /// Returns the first chunk whose type renders as `type_text`, if
    /// any; malformed text is treated as "not found", not as an error.
    pub fn chunk_by_type(&self, type_text: &str) -> (r: Option<&Chunk>)
        requires
            self.wf(),
        ensures
            match spec_find(self.models(), type_text.spec_bytes()) {
                None => r is None,
                Some(i) => {
                    &&& 0 <= i < self.chunks_seq().len()
                    &&& r matches Some(c) && *c == self.chunks_seq()[i] && c.wf() && c.model()
                        == self.models()[i]
                },
            },
    {
        let ghost t = type_text.spec_bytes();
        let ct = match ChunkType::from_str(type_text) {
            Ok(ct) => ct,
            Err(_) => {
                proof {
                    assert(forall|i: int|
                        0 <= i < self.models().len() ==> model_wf(#[trigger] self.models()[i]));
                    lemma_find_malformed_text(self.models(), t);
                }
                return None;
            },
        };
        let tb = ct.bytes();
        let mut k: usize = 0;
        while k < self.chunks.len()
            invariant
                k <= self.chunks@.len(),
                self.wf(),
                tb@ == type_text.spec_bytes(),
                forall|j: int| 0 <= j < k ==> (#[trigger] self.models()[j]).ty
                    != type_text.spec_bytes(),
            decreases self.chunks@.len() - k,
        {
            let c: &Chunk = &self.chunks[k];
            let cb = c.chunk_type().bytes();
            if cb[0] == tb[0] && cb[1] == tb[1] && cb[2] == tb[2] && cb[3] == tb[3] {
                proof {
                    assert(cb@ =~= tb@);
                    assert(self.models()[k as int].ty == type_text.spec_bytes());
                    lemma_spec_find_at(self.models(), type_text.spec_bytes(), k as int);
                }
                return Some(c);
            }
            proof {
                if self.models()[k as int].ty == type_text.spec_bytes() {
                    assert(cb@ =~= tb@);
                }
            }
            k += 1;
        }
        proof {
            lemma_spec_find_none(self.models(), type_text.spec_bytes());
        }
        None
    }

    /// Removes and returns the first chunk whose type renders as
    /// `type_text`, preserving the order of the remaining chunks; when
    /// no chunk matches, the datastream is left unchanged.
    pub fn remove_chunk(&mut self, type_text: &str) -> (r: Option<Chunk>)
        requires
            old(self).wf(),
        ensures
            final(self).wf(),
            match spec_find(old(self).models(), type_text.spec_bytes()) {
                None => {
                    &&& r is None
                    &&& final(self).chunks_seq() == old(self).chunks_seq()
                    &&& final(self).models() == old(self).models()
                },
                Some(i) => {
                    &&& 0 <= i < old(self).chunks_seq().len()
                    &&& r matches Some(c) && c == old(self).chunks_seq()[i] && c.wf() && c.model()
                        == old(self).models()[i]
                    &&& final(self).chunks_seq() == old(self).chunks_seq().remove(i)
                    &&& final(self).models() == old(self).models().remove(i)
                },
            },
    {
        let ghost t = type_text.spec_bytes();
        let ct = match ChunkType::from_str(type_text) {
            Ok(ct) => ct,
            Err(_) => {
                proof {
                    assert(forall|i: int|
                        0 <= i < self.models().len() ==> model_wf(#[trigger] self.models()[i]));
                    lemma_find_malformed_text(self.models(), t);
                }
                return None;
            },
        };
        let tb = ct.bytes();
        let mut k: usize = 0;
        while k < self.chunks.len()
            invariant
                k <= self.chunks@.len(),
                self.wf(),
                self == old(self),
                tb@ == type_text.spec_bytes(),
                forall|j: int| 0 <= j < k ==> (#[trigger] self.models()[j]).ty
                    != type_text.spec_bytes(),
            decreases self.chunks@.len() - k,
        {
            let hit: bool;
            {
                let c: &Chunk = &self.chunks[k];
                let cb = c.chunk_type().bytes();
                hit = cb[0] == tb[0] && cb[1] == tb[1] && cb[2] == tb[2] && cb[3] == tb[3];
                proof {
                    if hit {
                        assert(cb@ =~= tb@);
                    } else if self.models()[k as int].ty == type_text.spec_bytes() {
                        assert(cb@ =~= tb@);
                    }
                }
            }
            if hit {
                proof {
                    lemma_spec_find_at(self.models(), type_text.spec_bytes(), k as int);
                }
                let c = self.chunks.remove(k);
                proof {
                    assert(self.models() =~= old(self).models().remove(k as int));
                }
                return Some(c);
            }
            k += 1;
        }
        proof {
            lemma_spec_find_none(self.models(), type_text.spec_bytes());
        }
        None
    }
}

/// Parsing inverts serialization for the chunk sequence: the
/// concatenated encodings of well-formed chunk models parse back to
/// those very models.
#[verifier::rlimit(50)]
pub proof fn lemma_chunks_round_trip(ms: Seq<ChunkModel>)
    requires
        forall|i: int| 0 <= i < ms.len() ==> model_wf(#[trigger] ms[i]),
    ensures
        spec_parse_chunks(models_serial(ms)) == Ok::<Seq<ChunkModel>, PngError>(ms),
    decreases ms.len(),
{
    reveal(models_serial);
    reveal(spec_parse_chunks);
    if ms.len() == 0 {
        assert(ms =~= Seq::<ChunkModel>::empty());
    } else {
        reveal(model_serial);
        let m = ms[0];
        let rest = ms.drop_first();
        let s = models_serial(ms);
        let piece = model_serial(m);
        let len32 = m.data.len() as u32;
        assert(piece.len() == 12 + m.data.len());
        lemma_be_decode_encode(len32);
        assert(piece[0] == spec_be_bytes(len32)[0]);
        assert(piece[1] == spec_be_bytes(len32)[1]);
        assert(piece[2] == spec_be_bytes(len32)[2]);
        assert(piece[3] == spec_be_bytes(len32)[3]);
        assert(s[0] == piece[0]);
        assert(s[1] == piece[1]);
        assert(s[2] == piece[2]);
        assert(s[3] == piece[3]);
        assert(spec_u32_from_be(s[0], s[1], s[2], s[3]) == len32);
        let t = spec_take_len(s);
        assert(t == 12 + m.data.len());
        assert(s.take(t) =~= piece);
        lemma_chunk_round_trip(m);
        assert(spec_parse_chunk(s.take(t)) == Ok::<ChunkModel, PngError>(m));
        assert(s.skip(t) =~= models_serial(rest));
        assert forall|i: int| 0 <= i < rest.len() implies model_wf(#[trigger] rest[i]) by {
            assert(rest[i] == ms[i + 1]);
        }
        lemma_chunks_round_trip(rest);
        lemma_chunks_unfold(s);
        assert(seq![m] + rest =~= ms);
        assert(spec_parse_chunks(s) == Ok::<Seq<ChunkModel>, PngError>(seq![m] + rest));
    }
}

/// Parsing inverts serialization for a whole datastream.
pub proof fn lemma_png_round_trip(ms: Seq<ChunkModel>)
    requires
        forall|i: int| 0 <= i < ms.len() ==> model_wf(#[trigger] ms[i]),
    ensures
        spec_parse_png(spec_signature() + models_serial(ms)) == Ok::<Seq<ChunkModel>, PngError>(
            ms,
        ),
{
    let s = spec_signature() + models_serial(ms);
    assert(s.subrange(0, 8) =~= spec_signature());
    assert(s.skip(8) =~= models_serial(ms));
    lemma_chunks_round_trip(ms);
}

/// Parsing inverts serialization, stated on the datastream value: what
/// a well-formed `Png` serializes to parses back to its own chunks,
/// chunk for chunk and in order.
pub proof fn lemma_png_serial_round_trip(p: Png)
    requires
        p.wf(),
    ensures
        spec_parse_png(p.spec_serial()) == Ok::<Seq<ChunkModel>, PngError>(p.models()),
{
    assert(forall|i: int| 0 <= i < p.models().len() ==> model_wf(#[trigger] p.models()[i]));
    lemma_png_round_trip(p.models());
}

} // verus!
