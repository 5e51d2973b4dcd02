//! Tests for the field cipher and the token codec.

use nitro_enc_svc::cipher::{
    decrypt_field, encrypt_field, EncryptedField, KEY_LEN, NONCE_LEN,
};

fn random_dek() -> Vec<u8> {
    // A fixed-pattern key is enough here; cipher behaviour does not depend
    // on the key's provenance.
    (0..KEY_LEN as u32).map(|i| (i * 7 + 3) as u8).collect()
}

fn other_dek() -> Vec<u8> {
    (0..KEY_LEN as u32).map(|i| (i * 13 + 11) as u8).collect()
}

#[test]
fn encrypt_decrypt_round_trip() {
    let dek = random_dek();
    let plaintext = b"123-45-6789";
    let encrypted = encrypt_field(plaintext, &dek).unwrap();
    let decrypted = decrypt_field(&encrypted, &dek).unwrap();
    assert_eq!(decrypted, plaintext);
}

#[test]
fn wrong_key_fails_decryption() {
    let dek1 = random_dek();
    let dek2 = other_dek();
    let encrypted = encrypt_field(b"secret", &dek1).unwrap();
    assert!(decrypt_field(&encrypted, &dek2).is_err());
}

#[test]
fn invalid_key_length_rejected() {
    let short_key = vec![0u8; 16];
    assert!(encrypt_field(b"x", &short_key).is_err());
}

#[test]
fn string_repr_round_trip() {
    let dek = random_dek();
    let field = encrypt_field(b"hello", &dek).unwrap();
    let s = field.to_string_repr();
    assert!(s.starts_with("v1."));
    let parsed = EncryptedField::from_str(&s).unwrap();
    assert_eq!(parsed.nonce, field.nonce);
    assert_eq!(parsed.ciphertext, field.ciphertext);
}

#[test]
fn from_str_rejects_bad_prefix() {
    assert!(EncryptedField::from_str("v2.abc.def").is_err());
}

#[test]
fn from_str_rejects_too_few_parts() {
    assert!(EncryptedField::from_str("v1.abc").is_err());
}

#[test]
fn from_str_rejects_bad_base64() {
    assert!(EncryptedField::from_str("v1.!!!.abc").is_err());
}

#[test]
fn tampered_ciphertext_fails_auth() {
    let dek = random_dek();
    let mut field = encrypt_field(b"tamper me", &dek).unwrap();
    // Flip a byte in the ciphertext to simulate tampering.
    field.ciphertext[0] ^= 0xFF;
    assert!(decrypt_field(&field, &dek).is_err());
}

#[test]
fn every_ciphertext_bit_flip_fails_auth() {
    let dek = random_dek();
    let field = encrypt_field(b"bit", &dek).unwrap();
    for byte in 0..field.ciphertext.len() {
        for bit in 0..8u8 {
            let mut tampered = EncryptedField {
                nonce: field.nonce.clone(),
                ciphertext: field.ciphertext.clone(),
            };
            tampered.ciphertext[byte] ^= 1u8 << bit;
            assert!(
                decrypt_field(&tampered, &dek).is_err(),
                "flip of bit {bit} in byte {byte} was accepted"
            );
        }
    }
}

#[test]
fn from_str_rejects_wrong_nonce_length() {
    let dek = random_dek();
    let field = encrypt_field(b"nonce check", &dek).unwrap();
    // Re-render with a truncated nonce segment: decodes, but not 12 bytes.
    let short = EncryptedField {
        nonce: field.nonce[..NONCE_LEN - 1].to_vec(),
        ciphertext: field.ciphertext.clone(),
    };
    let s = short.to_string_repr();
    assert!(EncryptedField::from_str(&s).is_err());
}

#[test]
fn encrypted_output_differs_from_plaintext() {
    let dek = random_dek();
    let field = encrypt_field(b"plain", &dek).unwrap();
    let s = field.to_string_repr();
    assert_ne!(s.as_bytes(), b"plain");
    assert_eq!(s.split('.').count(), 3);
}
