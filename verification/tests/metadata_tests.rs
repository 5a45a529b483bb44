//! Tests of the metadata map and its wire codec.

use fastdfs::metadata::{decode_metadata, encode_metadata, Metadata};

#[test]
fn protocol_test_encode_decode_metadata() {
    let mut metadata = Metadata::new();
    metadata.insert("author".to_string(), "John Doe".to_string());
    metadata.insert("date".to_string(), "2025-01-15".to_string());

    let encoded = encode_metadata(&metadata);
    assert!(!encoded.is_empty());

    let decoded = decode_metadata(&encoded).unwrap();
    assert_eq!(decoded.len(), metadata.len());
    assert_eq!(decoded.get("author"), Some(&"John Doe".to_string()));
}

#[test]
fn protocol_tests_test_encode_decode_metadata() {
    let mut metadata = Metadata::new();
    metadata.insert("author".to_string(), "John Doe".to_string());
    metadata.insert("date".to_string(), "2025-01-15".to_string());
    metadata.insert("version".to_string(), "1.0".to_string());

    let encoded = encode_metadata(&metadata);
    assert!(!encoded.is_empty(), "Encoded metadata should not be empty");

    let decoded = decode_metadata(&encoded).unwrap();
    assert_eq!(
        decoded.len(),
        metadata.len(),
        "Decoded metadata should have same number of entries"
    );
    for (key, value) in metadata.entries() {
        assert_eq!(
            decoded.get(key),
            Some(value),
            "Decoded metadata should contain key '{}' with correct value",
            key
        );
    }
}

#[test]
fn test_encode_metadata_empty() {
    let metadata = Metadata::new();

    let encoded = encode_metadata(&metadata);

    assert!(encoded.is_empty(), "Encoded empty metadata should be empty");
}

#[test]
fn test_decode_metadata_empty() {
    let empty_data = &[];

    let decoded = decode_metadata(empty_data).unwrap();

    assert!(decoded.is_empty(), "Decoded empty data should produce empty metadata");
}

#[test]
fn test_metadata_with_special_chars() {
    let mut metadata = Metadata::new();
    metadata.insert("path".to_string(), "/home/user/file.txt".to_string());
    metadata.insert("description".to_string(), "Test: with, special; chars!".to_string());

    let encoded = encode_metadata(&metadata);
    let decoded = decode_metadata(&encoded).unwrap();

    assert_eq!(decoded.len(), metadata.len());
    for (key, value) in metadata.entries() {
        assert_eq!(decoded.get(key), Some(value));
    }
}

#[test]
fn test_metadata_truncation() {
    let mut metadata = Metadata::new();
    let long_key = "a".repeat(100);
    let long_value = "b".repeat(300);
    metadata.insert(long_key.clone(), long_value.clone());

    let encoded = encode_metadata(&metadata);
    assert!(!encoded.is_empty());

    let decoded = decode_metadata(&encoded).unwrap();
    assert_eq!(decoded.len(), 1, "Should have one metadata entry");
    // The key kept its first 64 bytes and the value its first 256.
    assert_eq!(decoded.get(&"a".repeat(64)), Some(&"b".repeat(256)));
}

#[test]
fn test_metadata_exact_wire_bytes() {
    let mut metadata = Metadata::new();
    metadata.insert("a".to_string(), "b".to_string());
    metadata.insert("cd".to_string(), "ef".to_string());

    let encoded = encode_metadata(&metadata);
    assert_eq!(encoded, vec![b'a', 0x02, b'b', 0x01, b'c', b'd', 0x02, b'e', b'f', 0x01]);
}

#[test]
fn test_metadata_insert_replaces() {
    let mut metadata = Metadata::new();
    metadata.insert("k".to_string(), "v1".to_string());
    metadata.insert("k".to_string(), "v2".to_string());

    assert_eq!(metadata.len(), 1);
    assert_eq!(metadata.get("k"), Some(&"v2".to_string()));
    assert_eq!(metadata.get("absent"), None);
    assert!(metadata.contains_key("k"));
    assert!(!metadata.contains_key("absent"));
}

#[test]
fn test_decode_metadata_drops_malformed_records() {
    // Three records: well-formed, one field only, three fields; then a
    // trailing empty segment. Only the well-formed record survives.
    let data: Vec<u8> = vec![
        b'k', 0x02, b'v', 0x01, b'x', 0x01, b'p', 0x02, b'q', 0x02, b'r', 0x01,
    ];

    let decoded = decode_metadata(&data).unwrap();

    assert_eq!(decoded.len(), 1);
    assert_eq!(decoded.get("k"), Some(&"v".to_string()));
}

#[test]
fn test_decode_metadata_last_key_wins() {
    let data: Vec<u8> = vec![b'k', 0x02, b'1', 0x01, b'k', 0x02, b'2', 0x01];

    let decoded = decode_metadata(&data).unwrap();

    assert_eq!(decoded.len(), 1);
    assert_eq!(decoded.get("k"), Some(&"2".to_string()));
}
