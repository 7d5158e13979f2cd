//! Known-plaintext XOR stage: every payload of this stage opens with the same
//! 32 bytes of banner text, so XORing that banner with the first 32 cipher
//! bytes recovers the 32-byte key; the whole buffer is then XORed with the
//! key repeated cyclically.

use vstd::prelude::*;

use crate::ascii85::{
    all_ascii, all_symbol_or_ws, decode, decode_symbols, envelope_interior, strip_ws,
};
use crate::errors::LayerError;

verus! {

/// The banner text known to open every payload of this stage.
pub open spec fn banner() -> Seq<u8> {
    seq![
        61u8, 61, 91, 32, 76, 97, 121, 101, 114, 32, 52, 47, 53, 58, 32, 78, 101, 116, 119, 111,
        114, 107, 32, 84, 114, 97, 102, 102, 105, 99, 32, 93,
    ]
}

/// The key hidden under the banner: cipher byte XOR known banner byte,
/// position by position.
pub open spec fn derived_key(s: Seq<u8>) -> Seq<u8>
    recommends
        s.len() >= 32,
{
    Seq::new(32, |i: int| s[i] ^ banner()[i])
}

/// The stage's output: every cipher byte XORed with the derived key, the key
/// repeated cyclically.
pub open spec fn stage_output(d: Seq<u8>) -> Seq<u8>
    recommends
        d.len() >= 32,
{
    Seq::new(d.len(), |i: int| d[i] ^ derived_key(d)[i % 32])
}

/// Recovers the 32-byte key from the first 32 cipher bytes and the known
/// banner.
fn key(bytes: &[u8]) -> (r: Vec<u8>)
    requires
        bytes@.len() >= 32,
    ensures
        r@ == derived_key(bytes@),
{
    let known: [u8; 32] = [
        61, 61, 91, 32, 76, 97, 121, 101, 114, 32, 52, 47, 53, 58, 32, 78, 101, 116, 119, 111, 114,
        107, 32, 84, 114, 97, 102, 102, 105, 99, 32, 93,
    ];
    proof {
        assert(known@ =~= banner());
    }
    let mut r: Vec<u8> = Vec::new();
    let mut i: usize = 0;
    while i < 32
        invariant
            bytes@.len() >= 32,
            known@ == banner(),
            i <= 32,
            r@.len() == i,
            forall|k: int| 0 <= k < i ==> r@[k] == bytes@[k] ^ banner()[k],
        decreases 32 - i,
    {
        r.push(bytes[i] ^ known[i]);
        i = i + 1;
    }
    proof {
        assert(r@ =~= derived_key(bytes@));
    }
    r
}

/// XORs each byte with the key repeated cyclically.
fn decrypt(bytes: &[u8], key: &[u8]) -> (r: Vec<u8>)
    requires
        key@.len() == 32,
    ensures
        r@.len() == bytes@.len(),
        forall|i: int| 0 <= i < r@.len() ==> r@[i] == bytes@[i] ^ key@[i % 32],
{
    let mut r: Vec<u8> = Vec::new();
    let mut i: usize = 0;
    while i < bytes.len()
        invariant
            key@.len() == 32,
            i <= bytes@.len(),
            r@.len() == i,
            forall|k: int| 0 <= k < i ==> r@[k] == bytes@[k] ^ key@[k % 32],
        decreases bytes.len() - i,
    {
        r.push(bytes[i] ^ key[i % 32]);
        i = i + 1;
    }
    r
}

/// Decodes the stage's envelope, derives the key from the banner, and
/// decrypts the whole buffer with it.
pub fn run(bytes: &[u8]) -> (r: Result<Vec<u8>, LayerError>)
    ensures
        match envelope_interior(bytes@) {
            None => r matches Err(e) && e == LayerError::MissingDelimiter,
            Some(inner) => if !all_ascii(inner) {
                r matches Err(e) && e == LayerError::NonAsciiInput
            } else if !all_symbol_or_ws(inner) {
                r matches Err(e) && e == LayerError::InvalidSymbol
            } else {
                let d = decode_symbols(strip_ws(inner));
                if d.len() < 32 {
                    r matches Err(e) && e == LayerError::TruncatedHeader
                } else {
                    r matches Ok(v) && v@ == stage_output(d)
                }
            },
        },
{
    let decoded = match decode(bytes) {
        Ok(d) => d,
        Err(e) => {
            return Err(e);
        },
    };
    if decoded.len() < 32 {
        return Err(LayerError::TruncatedHeader);
    }
    let key = key(decoded.as_slice());
    let out = decrypt(decoded.as_slice(), key.as_slice());
    proof {
        assert(out@ =~= stage_output(decoded@));
    }
    Ok(out)
}

} // verus!
