use propbin::model::BinValue;
use propbin::sections::Bin;
use propbin::unhash::BinUnhasher;

#[test]
fn test_unhash_basic() {
    let mut unhasher = BinUnhasher::new();
    unhasher.merge_fnv_text("12345678 test_hash\n");

    let mut bin = Bin::new();
    bin.sections.insert(
        "test".to_string(),
        BinValue::Hash {
            value: 0x12345678,
            name: None,
        },
    );

    unhasher.unhash_bin(&mut bin);

    if let Some(BinValue::Hash { name, .. }) = bin.sections.get("test") {
        assert_eq!(name.as_deref(), Some("test_hash"));
    } else {
        panic!("Expected Hash");
    }
}

#[test]
fn test_unhash_idempotent_and_preserving() {
    let mut unhasher = BinUnhasher::new();
    unhasher.merge_fnv_text("12345678 known\n");

    let mut bin = Bin::new();
    bin.sections.insert(
        "k".to_string(),
        BinValue::Hash {
            value: 0x12345678,
            name: None,
        },
    );
    bin.sections.insert(
        "other".to_string(),
        BinValue::Hash {
            value: 0x99999999,
            name: None,
        },
    );
    bin.sections.insert(
        "named".to_string(),
        BinValue::Hash {
            value: 0x12345678,
            name: Some("already".to_string()),
        },
    );

    unhasher.unhash_bin(&mut bin);
    // Matched slot is filled; unmatched stays empty; present names and
    // digest values are untouched.
    assert_eq!(
        bin.sections.get("k").unwrap(),
        &BinValue::Hash {
            value: 0x12345678,
            name: Some("known".to_string())
        }
    );
    assert_eq!(
        bin.sections.get("other").unwrap(),
        &BinValue::Hash {
            value: 0x99999999,
            name: None
        }
    );
    assert_eq!(
        bin.sections.get("named").unwrap(),
        &BinValue::Hash {
            value: 0x12345678,
            name: Some("already".to_string())
        }
    );

    // A second pass changes nothing.
    unhasher.unhash_bin(&mut bin);
    assert_eq!(
        bin.sections.get("k").unwrap(),
        &BinValue::Hash {
            value: 0x12345678,
            name: Some("known".to_string())
        }
    );
}

#[test]
fn test_unhash_file_uses_64_bit_table() {
    let mut unhasher = BinUnhasher::new();
    unhasher.merge_xxh_text("0123456789abcdef big_file\n");

    let mut bin = Bin::new();
    bin.sections.insert(
        "f".to_string(),
        BinValue::File {
            value: 0x0123456789abcdef,
            name: None,
        },
    );
    unhasher.unhash_bin(&mut bin);
    assert_eq!(
        bin.sections.get("f").unwrap(),
        &BinValue::File {
            value: 0x0123456789abcdef,
            name: Some("big_file".to_string())
        }
    );
}

#[test]
fn test_dictionary_save_load_round_trip() {
    let mut a = BinUnhasher::new();
    a.merge_fnv_text("12345678 a\nabcdef00 b\n");
    a.merge_xxh_text("0123456789abcdef c\n");
    let bytes = a.save_binary().unwrap();

    let mut b = BinUnhasher::new();
    b.load_binary(&bytes).unwrap();
    let bytes2 = b.save_binary().unwrap();
    assert_eq!(bytes, bytes2);
}

#[test]
fn test_text_lines_skipped_and_overwritten() {
    let mut u = BinUnhasher::new();
    // Blank line, line without a space, non-hex digest: all skipped.
    // The second entry for the same digest overwrites the first.
    u.merge_fnv_text("\nnospace\nzz99 bad\n12345678 first\n12345678 second\n");
    let mut bin = Bin::new();
    bin.sections.insert(
        "k".to_string(),
        BinValue::Hash {
            value: 0x12345678,
            name: None,
        },
    );
    u.unhash_bin(&mut bin);
    assert_eq!(
        bin.sections.get("k").unwrap(),
        &BinValue::Hash {
            value: 0x12345678,
            name: Some("second".to_string())
        }
    );
}

#[test]
fn test_convert_text_to_binary() {
    let (bytes, count) = BinUnhasher::convert_text_to_binary("12345678 a\n", false).unwrap();
    assert_eq!(count, 1);
    assert_eq!(&bytes[..4], b"HHSH");
    let mut u = BinUnhasher::new();
    u.load_binary(&bytes).unwrap();
    let mut bin = Bin::new();
    bin.sections.insert(
        "k".to_string(),
        BinValue::Hash {
            value: 0x12345678,
            name: None,
        },
    );
    u.unhash_bin(&mut bin);
    assert_eq!(
        bin.sections.get("k").unwrap(),
        &BinValue::Hash {
            value: 0x12345678,
            name: Some("a".to_string())
        }
    );
}
