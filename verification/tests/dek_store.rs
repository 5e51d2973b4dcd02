//! Tests for the DEK store.

use nitro_enc_svc::cipher::KEY_LEN;
use nitro_enc_svc::dek::{DekBytes, DekStore};

#[test]
fn initially_not_ready() {
    let store = DekStore::new();
    assert!(!store.is_ready());
    assert!(store.current().is_err());
}

#[test]
fn store_and_retrieve() {
    let mut store = DekStore::new();
    let key = vec![0x42u8; KEY_LEN];
    store.store(&key).unwrap();
    assert!(store.is_ready());
    let retrieved = store.current().unwrap();
    assert_eq!(&retrieved.0[..], key.as_slice());
}

#[test]
fn rejects_wrong_length() {
    let mut store = DekStore::new();
    let result = store.store(&[0u8; 16]);
    assert!(result.is_err());
}

#[test]
fn wrong_length_retains_previous_key() {
    let mut store = DekStore::new();
    let key = vec![0x17u8; KEY_LEN];
    store.store(&key).unwrap();
    assert!(store.store(&[0u8; 16]).is_err());
    let current = store.current().unwrap();
    assert_eq!(&current.0[..], key.as_slice());
}

#[test]
fn rotation_replaces_key() {
    let mut store = DekStore::new();
    let key1 = vec![0x01u8; KEY_LEN];
    let key2 = vec![0x02u8; KEY_LEN];
    store.store(&key1).unwrap();
    store.store(&key2).unwrap();
    let current = store.current().unwrap();
    assert_eq!(&current.0[..], key2.as_slice());
}

#[test]
fn dek_bytes_redacted_in_debug() {
    let mut buf = vec![0u8; KEY_LEN];
    buf[0] = 0xFF;
    let dek = DekBytes(buf);
    assert!(dek.debug_string().contains("REDACTED"));
}

#[test]
fn zeroize_clears_the_buffer() {
    let mut dek = DekBytes(vec![0xABu8; KEY_LEN]);
    dek.zeroize();
    assert!(dek.0.iter().all(|b| *b == 0));
    assert_eq!(dek.0.len(), KEY_LEN);
}
