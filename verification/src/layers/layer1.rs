//! Bit-level transform stage: flip alternating bits, then rotate right.

use vstd::prelude::*;

use crate::ascii85::{
    all_ascii, all_symbol_or_ws, decode, decode_symbols, envelope_interior, strip_ws,
};
use crate::errors::LayerError;

verus! {

/// What `flip_every_other_bit` computes: XOR with the alternating mask.
pub open spec fn flip_spec(n: u8) -> u8 {
    n ^ 0x55
}

/// What `rotate_right` computes: the low bit wraps to the top.
pub open spec fn rotate_spec(n: u8) -> u8 {
    ((n >> 1) | ((n & 1) << 7)) as u8
}

pub fn flip_every_other_bit(n: u8) -> (r: u8)
    ensures
        r == flip_spec(n),
{
    let mask = 0b0101_0101;
    n ^ mask
}

pub fn rotate_right(n: u8) -> (r: u8)
    ensures
        r == rotate_spec(n),
{
    let last_bit = n & 1;
    (n >> 1) | (last_bit << 7)
}

/// Flipping every other bit is an involution: doing it twice restores the
/// original byte.
pub proof fn lemma_flip_involution(x: u8)
    ensures
        flip_spec(flip_spec(x)) == x,
{
    assert(((x ^ 0x55) ^ 0x55) == x) by (bit_vector);
}

/// Rotating right by one bit, eight times over, is the identity on bytes.
pub proof fn lemma_rotate_eight_identity(x: u8)
    ensures
        rotate_spec(rotate_spec(rotate_spec(rotate_spec(rotate_spec(rotate_spec(rotate_spec(
            rotate_spec(x),
        )))))))
            == x,
{
    assert(rotate_spec(rotate_spec(rotate_spec(rotate_spec(rotate_spec(rotate_spec(rotate_spec(
        rotate_spec(x),
    )))))))
        == x) by (bit_vector);
}

/// Decodes the stage's envelope and applies the stage transform to every
/// byte: flip every other bit, then rotate right by one.
pub fn run(input: &[u8]) -> (r: Result<Vec<u8>, LayerError>)
    ensures
        match envelope_interior(input@) {
            None => r matches Err(e) && e == LayerError::MissingDelimiter,
            Some(inner) => if !all_ascii(inner) {
                r matches Err(e) && e == LayerError::NonAsciiInput
            } else if !all_symbol_or_ws(inner) {
                r matches Err(e) && e == LayerError::InvalidSymbol
            } else {
                r matches Ok(v) && v@ == decode_symbols(strip_ws(inner)).map_values(
                    |b: u8| rotate_spec(flip_spec(b)),
                )
            },
        },
{
    let decoded = match decode(input) {
        Ok(d) => d,
        Err(e) => {
            return Err(e);
        },
    };
    let mut out: Vec<u8> = Vec::new();
    let mut i: usize = 0;
    while i < decoded.len()
        invariant
            i <= decoded@.len(),
            out@ == decoded@.take(i as int).map_values(|b: u8| rotate_spec(flip_spec(b))),
        decreases decoded.len() - i,
    {
        out.push(rotate_right(flip_every_other_bit(decoded[i])));
        proof {
            assert(out@ =~= decoded@.take(i as int + 1).map_values(
                |b: u8| rotate_spec(flip_spec(b)),
            ));
        }
        i = i + 1;
    }
    proof {
        assert(decoded@.take(decoded@.len() as int) =~= decoded@);
    }
    Ok(out)
}

} // verus!
