use yabs::config::StorageMode;
use yabs::store::{decode_content, encode_content, StoreError};

const SHA256_ABC: &str = "ba7816bf8f01cfea414140de5dae2223b00361a396177a9cb410ff61f20015ad";

#[test]
fn sha256_known_vector() {
    let (hash, blob) = encode_content(b"abc".to_vec(), StorageMode::COPY).unwrap();
    assert_eq!(hash, SHA256_ABC);
    assert_eq!(blob, b"abc".to_vec());
}

#[test]
fn sha256_empty_input() {
    let (hash, _) = encode_content(Vec::new(), StorageMode::COPY).unwrap();
    assert_eq!(
        hash,
        "e3b0c44298fc1c149afbf4c8996fb92427ae41e4649b934ca495991b7852b855"
    );
}

#[test]
fn store_same_content_twice_same_name_and_bytes() {
    let content = b"some file content".to_vec();
    let (h1, b1) = encode_content(content.clone(), StorageMode::GZIP).unwrap();
    let (h2, b2) = encode_content(content, StorageMode::GZIP).unwrap();
    assert_eq!(h1, h2);
    assert_eq!(b1, b2);
}

#[test]
fn store_name_independent_of_mode() {
    let content = b"the very same bytes".to_vec();
    let (h_copy, _) = encode_content(content.clone(), StorageMode::COPY).unwrap();
    let (h_gzip, _) = encode_content(content, StorageMode::GZIP).unwrap();
    assert_eq!(h_copy, h_gzip);
}

#[test]
fn roundtrip_copy() {
    let content = b"plain copy contents".to_vec();
    let (_, blob) = encode_content(content.clone(), StorageMode::COPY).unwrap();
    let decoded = decode_content(blob, StorageMode::COPY).unwrap();
    assert_eq!(decoded, content);
}

#[test]
fn roundtrip_gzip() {
    let content = b"gzip gzip gzip gzip gzip gzip gzip".to_vec();
    let (_, blob) = encode_content(content.clone(), StorageMode::GZIP).unwrap();
    assert_ne!(blob, content);
    let decoded = decode_content(blob, StorageMode::GZIP).unwrap();
    assert_eq!(decoded, content);
}

#[test]
fn roundtrip_gzip_empty() {
    let content: Vec<u8> = Vec::new();
    let (_, blob) = encode_content(content.clone(), StorageMode::GZIP).unwrap();
    let decoded = decode_content(blob, StorageMode::GZIP).unwrap();
    assert_eq!(decoded, content);
}

#[test]
fn gzip_decode_rejects_garbage() {
    let garbage = b"this is not a gzip stream at all".to_vec();
    let r = decode_content(garbage, StorageMode::GZIP);
    assert_eq!(r, Err(StoreError::CorruptBlob));
}

#[test]
fn gzipaes_is_rejected() {
    let content = b"whatever".to_vec();
    let enc = encode_content(content.clone(), StorageMode::GZIPAES);
    assert_eq!(enc, Err(StoreError::UnsupportedMode));
    let dec = decode_content(content, StorageMode::GZIPAES);
    assert_eq!(dec, Err(StoreError::UnsupportedMode));
}

#[test]
fn hash_is_sixtyfour_hex_chars() {
    let (hash, _) = encode_content(b"abc".to_vec(), StorageMode::GZIP).unwrap();
    assert_eq!(hash.len(), 64);
    assert!(hash.chars().all(|c| c.is_ascii_hexdigit()));
}
