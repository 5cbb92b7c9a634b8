use propbin::hash_binary::{BinaryHashReader, BinaryHashWriter, DictError};

#[test]
fn test_7bit_encoding_roundtrip() {
    let test_values = vec![0, 1, 127, 128, 255, 256, 16383, 16384, 2097151];

    for value in test_values {
        let mut writer = BinaryHashWriter::new();
        writer.write_7bit_encoded_int(value);
        let buf = writer.into_inner();

        let mut reader = BinaryHashReader::new(&buf[..]);
        let decoded = reader.read_7bit_encoded_int().unwrap();

        assert_eq!(value, decoded, "Failed for value {}", value);
    }
}

#[test]
fn test_string_roundtrip() {
    let long_string = "a".repeat(1000);
    let test_strings = vec![
        "",
        "hello",
        "Hello, World!",
        "Unicode: \u{4f60}\u{597d}\u{4e16}\u{754c} \u{1f980}",
        &long_string,
    ];

    for s in test_strings {
        let mut writer = BinaryHashWriter::new();
        writer.write_string(s);
        let buf = writer.into_inner();

        let mut reader = BinaryHashReader::new(&buf[..]);
        let decoded = reader.read_string().unwrap();

        assert_eq!(s, decoded);
    }
}

#[test]
fn test_hash_file_roundtrip() {
    let fnv1a = vec![
        (0x12345678u32, "test_hash_1".to_string()),
        (0xabcdef00u32, "test_hash_2".to_string()),
    ];
    let xxh64 = vec![
        (0x123456789abcdef0u64, "test_file_1".to_string()),
        (0xfedcba9876543210u64, "test_file_2".to_string()),
    ];

    let mut writer = BinaryHashWriter::new();
    writer.write_hashes(&fnv1a, &xxh64);
    let buf = writer.into_inner();

    let mut reader = BinaryHashReader::new(&buf[..]);
    let (decoded_fnv1a, decoded_xxh64) = reader.read_hashes().unwrap();

    assert_eq!(fnv1a, decoded_fnv1a);
    assert_eq!(xxh64, decoded_xxh64);
}

#[test]
fn test_empty_hashes() {
    let fnv1a: Vec<(u32, String)> = Vec::new();
    let xxh64: Vec<(u64, String)> = Vec::new();

    let mut writer = BinaryHashWriter::new();
    writer.write_hashes(&fnv1a, &xxh64);
    let buf = writer.into_inner();

    let mut reader = BinaryHashReader::new(&buf[..]);
    let (decoded_fnv1a, decoded_xxh64) = reader.read_hashes().unwrap();

    assert_eq!(fnv1a, decoded_fnv1a);
    assert_eq!(xxh64, decoded_xxh64);
}

#[test]
fn test_invalid_magic() {
    let buf = b"XXXX\x01\x00\x00\x00\x00\x00\x00\x00\x00\x00\x00\x00";
    let mut reader = BinaryHashReader::new(&buf[..]);
    assert!(reader.read_hashes().is_err());
}

#[test]
fn test_invalid_version() {
    let buf = b"HHSH\x02\x00\x00\x00\x00\x00\x00\x00\x00\x00\x00\x00";
    let mut reader = BinaryHashReader::new(&buf[..]);
    assert_eq!(reader.read_hashes().unwrap_err(), DictError::BadVersion(2));
}

#[test]
fn test_dict_header_bytes() {
    let fnv1a = vec![(0x12345678u32, "a".to_string())];
    let xxh64 = vec![(0x0123456789abcdefu64, "b".to_string())];
    let mut writer = BinaryHashWriter::new();
    writer.write_hashes(&fnv1a, &xxh64);
    let buf = writer.into_inner();
    assert_eq!(
        &buf[..16],
        &[
            b'H', b'H', b'S', b'H', 1, 0, 0, 0, 1, 0, 0, 0, 1, 0, 0, 0
        ]
    );
    let mut reader = BinaryHashReader::new(&buf[..]);
    let (f2, x2) = reader.read_hashes().unwrap();
    assert_eq!(f2, fnv1a);
    assert_eq!(x2, xxh64);
}
