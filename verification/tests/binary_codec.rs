use propbin::binary::{read_bin, write_bin, BinError};
use propbin::model::{BinType, BinValue};
use propbin::sections::Bin;

#[test]
fn test_read_empty_bin() {
    let mut data = Vec::new();
    data.extend_from_slice(b"PROP");
    data.extend_from_slice(&1u32.to_le_bytes()); // Version
    data.extend_from_slice(&0u32.to_le_bytes()); // Entry count

    let bin = read_bin(&data).unwrap();
    assert_eq!(
        bin.sections.get("type").unwrap(),
        &BinValue::String("PROP".to_string())
    );
    assert_eq!(bin.sections.get("version").unwrap(), &BinValue::U32(1));

    if let BinValue::Dict { items, .. } = bin.sections.get("entries").unwrap() {
        assert_eq!(items.len(), 0);
    } else {
        panic!("entries is not a map");
    }
}

#[test]
fn test_round_trip() {
    let mut bin = Bin::new();
    bin.sections
        .insert("type".to_string(), BinValue::String("PROP".to_string()));
    bin.sections.insert("version".to_string(), BinValue::U32(1));
    bin.sections.insert(
        "entries".to_string(),
        BinValue::Dict {
            key_type: BinType::Hash,
            value_type: BinType::Embed,
            items: vec![],
        },
    );

    let data = write_bin(&bin).unwrap();
    let bin2 = read_bin(&data).unwrap();

    assert_eq!(bin.sections.get("type"), bin2.sections.get("type"));
    assert_eq!(bin.sections.get("version"), bin2.sections.get("version"));
}

#[test]
fn test_empty_prop_scenario() {
    let data: [u8; 12] = [
        0x50, 0x52, 0x4F, 0x50, 0x01, 0x00, 0x00, 0x00, 0x00, 0x00, 0x00, 0x00,
    ];
    let bin = read_bin(&data).unwrap();
    assert_eq!(
        bin.sections.get("type").unwrap(),
        &BinValue::String("PROP".to_string())
    );
    assert_eq!(bin.sections.get("version").unwrap(), &BinValue::U32(1));
    match bin.sections.get("entries").unwrap() {
        BinValue::Dict {
            key_type: BinType::Hash,
            value_type: BinType::Embed,
            items,
        } => assert!(items.is_empty()),
        other => panic!("unexpected entries section: {:?}", other),
    }
}

#[test]
fn test_invalid_magic_bin() {
    let data = b"XXXX\x01\x00\x00\x00\x00\x00\x00\x00";
    assert!(matches!(read_bin(data), Err(BinError::InvalidMagic)));
}

#[test]
fn test_string_boundaries_through_bpf() {
    for len in [0usize, 65535] {
        let s = "x".repeat(len);
        let mut bin = Bin::new();
        bin.sections
            .insert("type".to_string(), BinValue::String("PROP".to_string()));
        bin.sections.insert("version".to_string(), BinValue::U32(2));
        bin.sections.insert(
            "linked".to_string(),
            BinValue::List {
                value_type: BinType::String,
                items: vec![BinValue::String(s.clone())],
            },
        );
        bin.sections.insert(
            "entries".to_string(),
            BinValue::Dict {
                key_type: BinType::Hash,
                value_type: BinType::Embed,
                items: vec![],
            },
        );
        let data = write_bin(&bin).unwrap();
        let bin2 = read_bin(&data).unwrap();
        match bin2.sections.get("linked").unwrap() {
            BinValue::List { items, .. } => {
                assert_eq!(items[0], BinValue::String(s));
            }
            other => panic!("unexpected linked section: {:?}", other),
        }
    }
}

#[test]
fn test_oversized_string_rejected() {
    let s = "x".repeat(65536);
    let mut bin = Bin::new();
    bin.sections
        .insert("type".to_string(), BinValue::String("PROP".to_string()));
    bin.sections.insert("version".to_string(), BinValue::U32(2));
    bin.sections.insert(
        "linked".to_string(),
        BinValue::List {
            value_type: BinType::String,
            items: vec![BinValue::String(s)],
        },
    );
    assert_eq!(
        write_bin(&bin).unwrap_err(),
        BinError::InvalidValue(BinType::String)
    );
}

#[test]
fn test_size_skip_and_eof() {
    // One entry whose declared length skips two bytes of padding.
    let mut data = Vec::new();
    data.extend_from_slice(b"PROP");
    data.extend_from_slice(&1u32.to_le_bytes());
    data.extend_from_slice(&1u32.to_le_bytes()); // entry count
    data.extend_from_slice(&0xAABBCCDDu32.to_le_bytes()); // entry name digest
    data.extend_from_slice(&8u32.to_le_bytes()); // entry length: key+count+2 padding
    data.extend_from_slice(&0x11223344u32.to_le_bytes()); // entry key
    data.extend_from_slice(&0u16.to_le_bytes()); // field count
    data.extend_from_slice(&[0xFF, 0xFF]); // padding skipped by the length
    let bin = read_bin(&data).unwrap();
    match bin.sections.get("entries").unwrap() {
        BinValue::Dict { items, .. } => assert_eq!(items.len(), 1),
        other => panic!("unexpected entries section: {:?}", other),
    }

    // The same entry with a length running past the end of the input.
    let truncated = &data[..data.len() - 2];
    let mut bad = truncated.to_vec();
    // entry length still 8, but the two padding bytes are missing.
    assert!(matches!(read_bin(&bad), Err(BinError::UnexpectedEof)));
    bad.clear();
}

#[test]
fn test_unknown_type_rejected() {
    let mut data = Vec::new();
    data.extend_from_slice(b"PROP");
    data.extend_from_slice(&1u32.to_le_bytes());
    data.extend_from_slice(&1u32.to_le_bytes()); // entry count
    data.extend_from_slice(&0xAABBCCDDu32.to_le_bytes());
    data.extend_from_slice(&100u32.to_le_bytes()); // entry length
    data.extend_from_slice(&0x11223344u32.to_le_bytes()); // entry key
    data.extend_from_slice(&1u16.to_le_bytes()); // one field
    data.extend_from_slice(&0x55667788u32.to_le_bytes()); // field key
    data.push(0x42); // tag byte outside the closed set
    assert!(matches!(read_bin(&data), Err(BinError::UnknownType(0x42))));
}

#[test]
fn test_nested_value_round_trip() {
    let mut bin = Bin::new();
    bin.sections
        .insert("type".to_string(), BinValue::String("PROP".to_string()));
    bin.sections.insert("version".to_string(), BinValue::U32(1));
    let fields = vec![
        propbin::model::Field {
            key: 7,
            key_str: None,
            value: BinValue::List {
                value_type: BinType::U32,
                items: vec![BinValue::U32(1), BinValue::U32(2)],
            },
        },
        propbin::model::Field {
            key: 9,
            key_str: None,
            value: BinValue::String("hi".to_string()),
        },
    ];
    bin.sections.insert(
        "entries".to_string(),
        BinValue::Dict {
            key_type: BinType::Hash,
            value_type: BinType::Embed,
            items: vec![propbin::model::MapEntry {
                key: BinValue::Hash {
                    value: 0xCAFE,
                    name: None,
                },
                value: BinValue::Embed {
                    name: 0xBEEF,
                    name_str: None,
                    items: fields,
                },
            }],
        },
    );
    let data = write_bin(&bin).unwrap();
    let bin2 = read_bin(&data).unwrap();
    assert_eq!(bin.sections.get("entries"), bin2.sections.get("entries"));
}
