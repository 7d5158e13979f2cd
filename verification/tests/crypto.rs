use layers::errors::LayerError;
use layers::layers::layer5::unwrap_and_decrypt;
use openssl::aes::{wrap_key, AesKey};
use openssl::symm::{encrypt, Cipher};

const PLAINTEXT: &[u8] = b"the core of the onion";

fn build_blob() -> Vec<u8> {
    let kek: [u8; 32] = [0x42; 32];
    let data_key: [u8; 32] = {
        let mut k = [0u8; 32];
        let mut i = 0;
        while i < 32 {
            k[i] = (7 * i + 3) as u8;
            i += 1;
        }
        k
    };
    let kek_iv: [u8; 8] = [0xa6; 8];
    let aes_iv: [u8; 16] = [0x24; 16];

    let wrapping_key = AesKey::new_encrypt(&kek).unwrap();
    let mut wrapped = [0u8; 40];
    let written = wrap_key(&wrapping_key, Some(kek_iv), &mut wrapped, &data_key).unwrap();
    assert_eq!(written, 40);

    let ciphertext = encrypt(Cipher::aes_256_cbc(), &data_key, Some(&aes_iv), PLAINTEXT).unwrap();
    assert_eq!(ciphertext.len() % 16, 0);

    let mut blob = Vec::new();
    blob.extend_from_slice(&kek);
    blob.extend_from_slice(&kek_iv);
    blob.extend_from_slice(&wrapped);
    blob.extend_from_slice(&aes_iv);
    blob.extend_from_slice(&ciphertext);
    assert!(blob.len() > 96 && blob.len() % 8 == 0);
    blob
}

#[test]
fn test_unwrap_and_decrypt_round_trip() {
    let blob = build_blob();
    let out = unwrap_and_decrypt(&blob).unwrap();
    assert_eq!(out, PLAINTEXT.to_vec());
}

#[test]
fn test_unwrap_rejects_corrupted_wrapped_key() {
    let mut blob = build_blob();
    blob[40] ^= 0x01; // first byte of the wrapped key
    assert_eq!(unwrap_and_decrypt(&blob), Err(LayerError::KeyUnwrapFailed));
}

#[test]
fn test_decrypt_rejects_misaligned_ciphertext() {
    let mut blob = build_blob();
    // drop one whole unwrap block: still a multiple of 8, no longer of 16
    blob.truncate(blob.len() - 8);
    assert!(blob.len() > 96 && blob.len() % 8 == 0);
    assert_eq!(unwrap_and_decrypt(&blob), Err(LayerError::DecryptFailed));
}

#[test]
fn test_invalid_length() {
    assert_eq!(unwrap_and_decrypt(&[0u8; 96]), Err(LayerError::InvalidLength));
    assert_eq!(unwrap_and_decrypt(&[0u8; 101]), Err(LayerError::InvalidLength));
}
