//! Parity reassembly stage: keep only bytes whose parity flag is correct,
//! then repack the survivors' 7-bit payloads into dense output bytes.
//!
//! Each input byte carries seven payload bits on top and an odd-parity flag
//! in its low bit. A byte whose flag disagrees with the parity of its payload
//! is noise and is dropped, not repaired. The surviving payloads are packed
//! eight at a time into a 56-bit big-endian accumulator and emitted as seven
//! output bytes, most significant first; a survivor count that is not a
//! multiple of eight is a fatal format error.

use vstd::prelude::*;
use vstd::slice::slice_subrange;

use crate::ascii85::{
    all_ascii, all_symbol_or_ws, decode, decode_symbols, envelope_interior, strip_ws,
};
use crate::errors::LayerError;

verus! {

/// Odd parity over a byte's top seven bits: one bit set iff an odd number of
/// payload bits are set.
pub open spec fn payload_parity(b: u8) -> u8 {
    ((b >> 7) & 1) ^ ((b >> 6) & 1) ^ ((b >> 5) & 1) ^ ((b >> 4) & 1) ^ ((b >> 3) & 1) ^ ((b >> 2)
        & 1) ^ ((b >> 1) & 1)
}

/// A byte is parity-correct iff its low bit equals the odd parity of its top
/// seven bits.
pub open spec fn parity_ok(b: u8) -> bool {
    (b & 1) == payload_parity(b)
}

/// The parity-correct bytes of a stream, in order.
pub open spec fn filter_parity(s: Seq<u8>) -> Seq<u8>
    decreases s.len(),
{
    if s.len() == 0 {
        Seq::empty()
    } else if parity_ok(s[0]) {
        seq![s[0]] + filter_parity(s.skip(1))
    } else {
        filter_parity(s.skip(1))
    }
}

/// The 56-bit value packed from eight bytes' 7-bit payloads, first byte most
/// significant.
pub open spec fn group_val56(g: Seq<u8>) -> int
    recommends
        g.len() == 8,
{
    (g[0] >> 1) * 0x2000000000000 + (g[1] >> 1) * 0x40000000000 + (g[2] >> 1) * 0x800000000 + (g[3]
        >> 1) * 0x10000000 + (g[4] >> 1) * 0x200000 + (g[5] >> 1) * 0x4000 + (g[6] >> 1) * 0x80 + (
    g[7] >> 1)
}

/// A 56-bit value split big-endian into seven bytes.
pub open spec fn be56_bytes(v: int) -> Seq<u8> {
    seq![
        ((v / 0x1000000000000) % 256) as u8,
        ((v / 0x10000000000) % 256) as u8,
        ((v / 0x100000000) % 256) as u8,
        ((v / 0x1000000) % 256) as u8,
        ((v / 0x10000) % 256) as u8,
        ((v / 0x100) % 256) as u8,
        (v % 256) as u8,
    ]
}

/// The seven output bytes of one group of eight parity-stripped bytes.
pub open spec fn pack_group(g: Seq<u8>) -> Seq<u8>
    recommends
        g.len() == 8,
{
    be56_bytes(group_val56(g))
}

/// The packed output of a parity-filtered stream, group by group.
pub open spec fn pack_bytes(s: Seq<u8>) -> Seq<u8>
    decreases s.len(),
{
    if s.len() < 8 {
        Seq::empty()
    } else {
        pack_group(s.take(8)) + pack_bytes(s.skip(8))
    }
}

/// Packing a prefix that grows by one full group appends that group's bytes.
proof fn lemma_pack_step(s: Seq<u8>, idx: int)
    requires
        0 <= idx,
        idx % 8 == 0,
        idx + 8 <= s.len(),
    ensures
        pack_bytes(s.take(idx + 8)) == pack_bytes(s.take(idx)) + pack_group(
            s.subrange(idx, idx + 8),
        ),
    decreases idx,
{
    if idx == 0 {
        let t = s.take(8);
        assert(t.take(8) =~= s.subrange(0, 8));
        assert(t.skip(8) =~= Seq::<u8>::empty());
        assert(pack_bytes(Seq::<u8>::empty()) =~= Seq::<u8>::empty());
        assert(pack_bytes(s.take(0)) =~= Seq::<u8>::empty());
    } else {
        let t = s.take(idx + 8);
        let u = s.take(idx);
        assert(t.take(8) =~= u.take(8));
        assert(t.skip(8) =~= s.skip(8).take(idx));
        assert(u.skip(8) =~= s.skip(8).take(idx - 8));
        assert(s.skip(8).subrange(idx - 8, idx) =~= s.subrange(idx, idx + 8));
        lemma_pack_step(s.skip(8), idx - 8);
        assert(pack_bytes(t) =~= pack_bytes(u) + pack_group(s.subrange(idx, idx + 8)));
    }
}

/// Filtering distributes over concatenation.
proof fn lemma_filter_parity_append(a: Seq<u8>, b: Seq<u8>)
    ensures
        filter_parity(a + b) == filter_parity(a) + filter_parity(b),
    decreases a.len(),
{
    if a.len() == 0 {
        assert(a + b =~= b);
        assert(filter_parity(a) + filter_parity(b) =~= filter_parity(b));
    } else {
        let ab = a + b;
        assert(ab[0] == a[0]);
        assert(ab.skip(1) =~= a.skip(1) + b);
        lemma_filter_parity_append(a.skip(1), b);
        assert(filter_parity(a + b) =~= filter_parity(a) + filter_parity(b));
    }
}

/// Classifies one byte: true iff its parity flag matches the odd parity of
/// its seven payload bits.
pub fn has_valid_parity(b: u8) -> (r: bool)
    ensures
        r == parity_ok(b),
{
    let p = ((b >> 7) & 1) ^ ((b >> 6) & 1) ^ ((b >> 5) & 1) ^ ((b >> 4) & 1) ^ ((b >> 3) & 1) ^ ((
    b >> 2) & 1) ^ ((b >> 1) & 1);
    (b & 1) == p
}

/// Packs one group of eight parity-stripped bytes into seven output bytes.
fn pack_chunk(chunk: &[u8]) -> (r: [u8; 7])
    requires
        chunk@.len() == 8,
    ensures
        r@ == pack_group(chunk@),
{
    let acc: u64 = ((chunk[0] >> 1) as u64) * 0x2000000000000 + ((chunk[1] >> 1) as u64)
        * 0x40000000000 + ((chunk[2] >> 1) as u64) * 0x800000000 + ((chunk[3] >> 1) as u64)
        * 0x10000000 + ((chunk[4] >> 1) as u64) * 0x200000 + ((chunk[5] >> 1) as u64) * 0x4000 + ((
    chunk[6] >> 1) as u64) * 0x80 + ((chunk[7] >> 1) as u64);

    proof {
        assert(acc == group_val56(chunk@));
    }

    let b0 = ((acc >> 48) & 0xff) as u8;
    let b1 = ((acc >> 40) & 0xff) as u8;
    let b2 = ((acc >> 32) & 0xff) as u8;
    let b3 = ((acc >> 24) & 0xff) as u8;
    let b4 = ((acc >> 16) & 0xff) as u8;
    let b5 = ((acc >> 8) & 0xff) as u8;
    let b6 = (acc & 0xff) as u8;

    proof {
        assert((((acc >> 48) & 0xff) as u8) == ((acc / 0x1000000000000) % 256) as u8)
            by (bit_vector);
        assert((((acc >> 40) & 0xff) as u8) == ((acc / 0x10000000000) % 256) as u8) by (bit_vector);
        assert((((acc >> 32) & 0xff) as u8) == ((acc / 0x100000000) % 256) as u8) by (bit_vector);
        assert((((acc >> 24) & 0xff) as u8) == ((acc / 0x1000000) % 256) as u8) by (bit_vector);
        assert((((acc >> 16) & 0xff) as u8) == ((acc / 0x10000) % 256) as u8) by (bit_vector);
        assert((((acc >> 8) & 0xff) as u8) == ((acc / 0x100) % 256) as u8) by (bit_vector);
        assert(((acc & 0xff) as u8) == (acc % 256) as u8) by (bit_vector);
        assert([b0, b1, b2, b3, b4, b5, b6]@ =~= pack_group(chunk@));
    }

    [b0, b1, b2, b3, b4, b5, b6]
}

/// Filters out parity-failing bytes, then repacks the survivors.
///
/// The survivors' count must be a multiple of eight; the output then holds
/// exactly seven bytes for every eight survivors.
#[verifier::rlimit(50)]
pub fn combine(bytes: &[u8]) -> (r: Result<Vec<u8>, LayerError>)
    ensures
        ({
            let filtered = filter_parity(bytes@);
            if filtered.len() % 8 != 0 {
                r matches Err(e) && e == LayerError::MisalignedInput
            } else {
                r matches Ok(v) && v@ == pack_bytes(filtered) && v@.len() * 8 == filtered.len() * 7
            }
        }),
{
    let mut filtered: Vec<u8> = Vec::new();
    let mut i: usize = 0;
    while i < bytes.len()
        invariant
            i <= bytes@.len(),
            filtered@ == filter_parity(bytes@.take(i as int)),
        decreases bytes.len() - i,
    {
        let byte = bytes[i];
        proof {
            assert(bytes@.take(i as int + 1) =~= bytes@.take(i as int) + seq![bytes@[i as int]]);
            lemma_filter_parity_append(bytes@.take(i as int), seq![bytes@[i as int]]);
            let sb = seq![byte];
            assert(sb.skip(1) =~= Seq::<u8>::empty());
            assert(filter_parity(Seq::<u8>::empty()) =~= Seq::<u8>::empty());
            if parity_ok(byte) {
                assert(filter_parity(sb) =~= seq![byte]);
            } else {
                assert(filter_parity(sb) =~= Seq::<u8>::empty());
            }
        }
        if has_valid_parity(byte) {
            filtered.push(byte);
            proof {
                assert(filtered@ =~= filter_parity(bytes@.take(i as int + 1)));
            }
        }
        i = i + 1;
    }
    proof {
        assert(bytes@.take(bytes@.len() as int) =~= bytes@);
    }

    if filtered.len() % 8 != 0 {
        return Err(LayerError::MisalignedInput);
    }

    let kept = Ghost(filtered@);
    let mut out: Vec<u8> = Vec::new();
    let mut idx: usize = 0;
    while filtered.len() - idx >= 8
        invariant
            kept@ == filtered@,
            idx <= filtered@.len(),
            idx % 8 == 0,
            out@ == pack_bytes(filtered@.take(idx as int)),
            out@.len() * 8 == idx * 7,
        decreases filtered.len() - idx,
    {
        let chunk = slice_subrange(filtered.as_slice(), idx, idx + 8);
        let seven = pack_chunk(chunk);
        out.push(seven[0]);
        out.push(seven[1]);
        out.push(seven[2]);
        out.push(seven[3]);
        out.push(seven[4]);
        out.push(seven[5]);
        out.push(seven[6]);
        proof {
            lemma_pack_step(filtered@, idx as int);
            assert(out@ =~= pack_bytes(filtered@.take(idx as int + 8)));
        }
        idx = idx + 8;
    }
    proof {
        assert(idx == filtered@.len());
        assert(filtered@.take(idx as int) =~= filtered@);
    }

    Ok(out)
}

/// Decodes the stage's envelope, then filters and repacks the decoded bytes.
pub fn run(bytes: &[u8]) -> (r: Result<Vec<u8>, LayerError>)
    ensures
        match envelope_interior(bytes@) {
            None => r matches Err(e) && e == LayerError::MissingDelimiter,
            Some(inner) => if !all_ascii(inner) {
                r matches Err(e) && e == LayerError::NonAsciiInput
            } else if !all_symbol_or_ws(inner) {
                r matches Err(e) && e == LayerError::InvalidSymbol
            } else {
                let filtered = filter_parity(decode_symbols(strip_ws(inner)));
                if filtered.len() % 8 != 0 {
                    r matches Err(e) && e == LayerError::MisalignedInput
                } else {
                    r matches Ok(v) && v@ == pack_bytes(filtered)
                }
            },
        },
{
    let decoded = match decode(bytes) {
        Ok(d) => d,
        Err(e) => {
            return Err(e);
        },
    };
    combine(decoded.as_slice())
}

} // verus!
