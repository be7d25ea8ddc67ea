//! CRC-32 over a chunk's type and data bytes.
//!
//! The checksum is the standard reflected table-driven CRC-32:
//! polynomial 0xEDB88320, running value initialized to 0xFFFFFFFF and
//! xored with 0xFFFFFFFF at the end.  The 256-entry table holds the
//! CRCs of all one-byte messages; folding a byte in is one table lookup
//! and one shift.

use vstd::prelude::*;

verus! {

/// One division step of the reflected polynomial 0xEDB88320.
pub open spec fn crc_round(c: u32) -> u32 {
    if c & 1 == 1 {
        0xEDB88320u32 ^ (c >> 1)
    } else {
        c >> 1
    }
}

/// `n` division steps applied to `c`.
pub open spec fn crc_rounds(c: u32, n: nat) -> u32
    decreases n,
{
    if n == 0 {
        c
    } else {
        crc_round(crc_rounds(c, (n - 1) as nat))
    }
}

/// The table entry for byte value `b`: 8 division steps.
pub open spec fn crc_table_entry(b: u8) -> u32 {
    crc_rounds(b as u32, 8)
}

/// Folds one byte into the running checksum.
pub open spec fn crc_update(c: u32, b: u8) -> u32 {
    crc_table_entry(((c ^ (b as u32)) & 0xFF) as u8) ^ (c >> 8)
}

/// Folds a byte sequence into the running checksum, front to back.
pub open spec fn crc_fold(c: u32, s: Seq<u8>) -> u32
    decreases s.len(),
{
    if s.len() == 0 {
        c
    } else {
        crc_fold(crc_update(c, s[0]), s.drop_first())
    }
}

/// The CRC-32 of a byte sequence.  Opaque: callers treat the checksum
/// as a function of the bytes; only [`compute_crc`] looks inside.
#[verifier::opaque]
pub open spec fn spec_crc32(s: Seq<u8>) -> u32 {
    crc_fold(0xFFFFFFFFu32, s) ^ 0xFFFFFFFFu32
}

/// Folding distributes over appending one byte at the back.
pub proof fn lemma_crc_fold_push(c: u32, s: Seq<u8>, b: u8)
    ensures
        crc_fold(c, s.push(b)) == crc_update(crc_fold(c, s), b),
    decreases s.len(),
{
    reveal_with_fuel(crc_fold, 2);
    if s.len() == 0 {
        assert(s.push(b)[0] == b);
        assert(s.push(b).drop_first() =~= Seq::<u8>::empty());
    } else {
        assert(s.push(b)[0] == s[0]);
        assert(s.push(b).drop_first() =~= s.drop_first().push(b));
        lemma_crc_fold_push(crc_update(c, s[0]), s.drop_first(), b);
    }
}

/// Folding distributes over concatenation.
pub proof fn lemma_crc_fold_concat(c: u32, s: Seq<u8>, t: Seq<u8>)
    ensures
        crc_fold(c, s + t) == crc_fold(crc_fold(c, s), t),
    decreases s.len(),
{
    if s.len() == 0 {
        assert(s + t =~= t);
    } else {
        assert((s + t)[0] == s[0]);
        assert((s + t).drop_first() =~= s.drop_first() + t);
        lemma_crc_fold_concat(crc_update(c, s[0]), s.drop_first(), t);
    }
}

/// Builds the table of CRCs of all 8-bit messages.
fn precompute_crc_table() -> (t: Vec<u32>)
    ensures
        t@.len() == 256,
        forall|k: int| 0 <= k < 256 ==> t@[k] == crc_table_entry(k as u8),
{
    let mut t: Vec<u32> = Vec::new();
    let mut i: usize = 0;
    while i < 256
        invariant
            i <= 256,
            t@.len() == i,
            forall|k: int| 0 <= k < i ==> t@[k] == crc_table_entry(k as u8),
        decreases 256 - i,
    {
        let mut c: u32 = i as u32;
        let mut j: usize = 0;
        while j < 8
            invariant
                i < 256,
                j <= 8,
                c == crc_rounds(i as u32, j as nat),
            decreases 8 - j,
        {
            if c & 1 == 1 {
                c = 0xEDB88320 ^ (c >> 1);
            } else {
                c = c >> 1;
            }
            j += 1;
        }
        proof {
            assert(i < 256 ==> (i as u8) as u32 == i as u32) by (bit_vector);
        }
        t.push(c);
        i += 1;
    }
    t
}

/// Folds one byte into the running checksum through the table.
fn table_update(table: &Vec<u32>, c: u32, b: u8) -> (r: u32)
    requires
        table@.len() == 256,
        forall|k: int| 0 <= k < 256 ==> table@[k] == crc_table_entry(k as u8),
    ensures
        r == crc_update(c, b),
{
    let idx: usize = ((c ^ (b as u32)) & 0xFF) as usize;
    proof {
        assert((c ^ (b as u32)) & 0xFF < 256) by (bit_vector);
        assert((((c ^ (b as u32)) & 0xFF) as usize) as u8 == ((c ^ (b as u32)) & 0xFF) as u8)
            by (bit_vector);
    }
    table[idx] ^ (c >> 8)
}

/// Computes the CRC-32 of the chunk type bytes followed by the data
/// bytes.
pub fn compute_crc(chunk_ty: &[u8; 4], data: &[u8]) -> (r: u32)
    ensures
        r == spec_crc32(chunk_ty@ + data@),
{
    let table = precompute_crc_table();
    let mut crc: u32 = 0xFFFFFFFF;
    let mut i: usize = 0;
    while i < 4
        invariant
            i <= 4,
            table@.len() == 256,
            forall|k: int| 0 <= k < 256 ==> table@[k] == crc_table_entry(k as u8),
            crc == crc_fold(0xFFFFFFFFu32, chunk_ty@.take(i as int)),
        decreases 4 - i,
    {
        proof {
            assert(chunk_ty@.take(i + 1) =~= chunk_ty@.take(i as int).push(chunk_ty@[i as int]));
            lemma_crc_fold_push(0xFFFFFFFFu32, chunk_ty@.take(i as int), chunk_ty@[i as int]);
        }
        crc = table_update(&table, crc, chunk_ty[i]);
        i += 1;
    }
    proof {
        assert(chunk_ty@.take(4) =~= chunk_ty@);
    }
    let mut j: usize = 0;
    while j < data.len()
        invariant
            j <= data@.len(),
            table@.len() == 256,
            forall|k: int| 0 <= k < 256 ==> table@[k] == crc_table_entry(k as u8),
            crc == crc_fold(crc_fold(0xFFFFFFFFu32, chunk_ty@), data@.take(j as int)),
        decreases data@.len() - j,
    {
        proof {
            assert(data@.take(j + 1) =~= data@.take(j as int).push(data@[j as int]));
            lemma_crc_fold_push(
                crc_fold(0xFFFFFFFFu32, chunk_ty@),
                data@.take(j as int),
                data@[j as int],
            );
        }
        crc = table_update(&table, crc, data[j]);
        j += 1;
    }
    proof {
        reveal(spec_crc32);
        assert(data@.take(data@.len() as int) =~= data@);
        lemma_crc_fold_concat(0xFFFFFFFFu32, chunk_ty@, data@);
    }
    crc ^ 0xFFFFFFFF
}

} // verus!
