//! Final stage: an authenticated AES key unwrap followed by AES-256-CBC
//! decryption.
//!
//! The decoded bytes lay out as: a 32-byte key-encrypting key, an 8-byte
//! unwrap IV, a 40-byte wrapped data key, a 16-byte cipher IV, and the
//! ciphertext. The data key is unwrapped with the key-encrypting key, then
//! the ciphertext is decrypted with the data key. Both primitives come from
//! an outside cryptography library and are deterministic in their inputs.

use vstd::prelude::*;
use vstd::slice::slice_subrange;

use crate::ascii85::{
    all_ascii, all_symbol_or_ws, decode, decode_symbols, envelope_interior, strip_ws,
};
use crate::errors::LayerError;

verus! {

/// What the authenticated AES key unwrap returns: a function of the
/// key-encrypting key, the unwrap IV, and the wrapped key alone; `None` when
/// the integrity check rejects the input.
pub uninterp spec fn aes_unwrapped_key(kek: Seq<u8>, iv: Seq<u8>, wrapped: Seq<u8>) -> Option<
    Seq<u8>,
>;

/// What AES-256-CBC decryption returns: a function of key, cipher IV, and
/// ciphertext alone; `None` when decryption or its padding check rejects the
/// input.
pub uninterp spec fn aes_cbc_decrypted(key: Seq<u8>, iv: Seq<u8>, ciphertext: Seq<u8>) -> Option<
    Seq<u8>,
>;

/// Relies on openssl::aes::unwrap_key, the RFC 3394 authenticated key
/// unwrap: deterministic in its three inputs, 32 bytes of key out of 40
/// wrapped bytes, an error exactly when the integrity check fails.
/// openssl::aes::AesKey::new_decrypt only turns the raw key-encrypting-key
/// bytes into the library's key schedule and cannot fail on a 32-byte key.
#[verifier::external_body]
fn aes_unwrap(kek: &[u8], iv: &[u8], wrapped: &[u8]) -> (r: Result<Vec<u8>, LayerError>)
    requires
        kek@.len() == 32,
        iv@.len() == 8,
        wrapped@.len() == 40,
    ensures
        match r {
            Ok(k) => aes_unwrapped_key(kek@, iv@, wrapped@) == Some(k@) && k@.len() == 32,
            Err(e) => aes_unwrapped_key(kek@, iv@, wrapped@) is None && e
                == LayerError::KeyUnwrapFailed,
        },
{
    let key = match openssl::aes::AesKey::new_decrypt(kek) {
        Ok(k) => k,
        Err(_) => {
            return Err(LayerError::KeyUnwrapFailed);
        },
    };
    let mut iv_arr = [0u8; 8];
    iv_arr.copy_from_slice(iv);
    let mut out = [0u8; 32];
    match openssl::aes::unwrap_key(&key, Some(iv_arr), &mut out, wrapped) {
        Ok(_) => Ok(out.to_vec()),
        Err(_) => Err(LayerError::KeyUnwrapFailed),
    }
}

/// Relies on openssl::symm::decrypt with Cipher::aes_256_cbc: deterministic
/// in key, IV, and ciphertext; an error exactly when decryption or its
/// PKCS#7 padding check rejects the input. The library feeds the data length
/// through a signed 32-bit counter and panics beyond it, so inputs that long
/// are kept out by precondition.
#[verifier::external_body]
fn aes_cbc_decrypt(key: &[u8], iv: &[u8], data: &[u8]) -> (r: Result<Vec<u8>, LayerError>)
    requires
        key@.len() == 32,
        iv@.len() == 16,
        data@.len() < 0x8000_0000,
    ensures
        match r {
            Ok(p) => aes_cbc_decrypted(key@, iv@, data@) == Some(p@),
            Err(e) => aes_cbc_decrypted(key@, iv@, data@) is None && e == LayerError::DecryptFailed,
        },
{
    match openssl::symm::decrypt(openssl::symm::Cipher::aes_256_cbc(), key, Some(iv), data) {
        Ok(p) => Ok(p),
        Err(_) => Err(LayerError::DecryptFailed),
    }
}

/// The length a key-unwrap input must have: more than the 96 fixed header
/// bytes, a multiple of eight overall, and a ciphertext that fits the block
/// cipher's signed 32-bit length counter.
pub open spec fn unwrap_input_len_ok(n: nat) -> bool {
    n > 96 && n % 8 == 0 && n - 96 < 0x8000_0000
}

/// Splits the stage's decoded bytes into key-encrypting key, unwrap IV,
/// wrapped key, cipher IV, and ciphertext; unwraps the data key; and
/// decrypts the ciphertext with it.
///
/// The input must be longer than the 96 fixed header bytes, a multiple of
/// eight bytes overall, and short enough for the cipher's length counter.
pub fn unwrap_and_decrypt(bytes: &[u8]) -> (r: Result<Vec<u8>, LayerError>)
    ensures
        ({
            let s = bytes@;
            if !unwrap_input_len_ok(s.len()) {
                r matches Err(e) && e == LayerError::InvalidLength
            } else {
                match aes_unwrapped_key(s.subrange(0, 32), s.subrange(32, 40), s.subrange(40, 80)) {
                    None => r matches Err(e) && e == LayerError::KeyUnwrapFailed,
                    Some(k) => match aes_cbc_decrypted(
                        k,
                        s.subrange(80, 96),
                        s.subrange(96, s.len() as int),
                    ) {
                        None => r matches Err(e) && e == LayerError::DecryptFailed,
                        Some(p) => r matches Ok(v) && v@ == p,
                    },
                }
            }
        }),
{
    if !(bytes.len() > 96 && bytes.len() % 8 == 0 && bytes.len() - 96 < 0x8000_0000) {
        return Err(LayerError::InvalidLength);
    }

    let key_encrypting_key = slice_subrange(bytes, 0, 32);
    let kek_iv = slice_subrange(bytes, 32, 40);
    let encrypted_aes_key = slice_subrange(bytes, 40, 80);
    let aes_iv = slice_subrange(bytes, 80, 96);
    let encrypted_data = slice_subrange(bytes, 96, bytes.len());

    let decrypted_aes_key = match aes_unwrap(key_encrypting_key, kek_iv, encrypted_aes_key) {
        Ok(k) => k,
        Err(e) => {
            return Err(e);
        },
    };

    match aes_cbc_decrypt(decrypted_aes_key.as_slice(), aes_iv, encrypted_data) {
        Ok(p) => Ok(p),
        Err(e) => Err(e),
    }
}

/// Decodes the stage's envelope, then unwraps the data key and decrypts the
/// ciphertext.
pub fn run(bytes: &[u8]) -> (r: Result<Vec<u8>, LayerError>)
    ensures
        match envelope_interior(bytes@) {
            None => r matches Err(e) && e == LayerError::MissingDelimiter,
            Some(inner) => if !all_ascii(inner) {
                r matches Err(e) && e == LayerError::NonAsciiInput
            } else if !all_symbol_or_ws(inner) {
                r matches Err(e) && e == LayerError::InvalidSymbol
            } else {
                let s = decode_symbols(strip_ws(inner));
                if !unwrap_input_len_ok(s.len()) {
                    r matches Err(e) && e == LayerError::InvalidLength
                } else {
                    match aes_unwrapped_key(
                        s.subrange(0, 32),
                        s.subrange(32, 40),
                        s.subrange(40, 80),
                    ) {
                        None => r matches Err(e) && e == LayerError::KeyUnwrapFailed,
                        Some(k) => match aes_cbc_decrypted(
                            k,
                            s.subrange(80, 96),
                            s.subrange(96, s.len() as int),
                        ) {
                            None => r matches Err(e) && e == LayerError::DecryptFailed,
                            Some(p) => r matches Ok(v) && v@ == p,
                        },
                    }
                }
            },
        },
{
    let decoded = match decode(bytes) {
        Ok(d) => d,
        Err(e) => {
            return Err(e);
        },
    };
    unwrap_and_decrypt(decoded.as_slice())
}

} // verus!
