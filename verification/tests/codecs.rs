use object_group_decoder::binary_item::BinaryItem;
use object_group_decoder::cell_id::CellId;
use object_group_decoder::compact_u64::CompactU64;
use object_group_decoder::cursor::Cursor;
use object_group_decoder::errors::DecodeError;
use object_group_decoder::exguid::ExGuid;
use object_group_decoder::object_group::ObjectChangeFrequency;
use object_group_decoder::object_types::ObjectType;
use object_group_decoder::stream_object::ObjectHeader;

fn exguid_bytes(guid_low: u8, value: u8) -> Vec<u8> {
    let mut bytes = vec![guid_low];
    bytes.extend_from_slice(&[0; 15]);
    bytes.extend_from_slice(&[value, 0, 0, 0]);
    bytes
}

#[test]
fn compact_u64_inline() {
    let mut c = Cursor::new(vec![0x20]);
    assert_eq!(CompactU64::parse(&mut c).unwrap().value(), 4);
    let mut c = Cursor::new(vec![0xf8]);
    assert_eq!(CompactU64::parse(&mut c).unwrap().value(), 31);
}

#[test]
fn compact_u64_trailing_widths() {
    let mut c = Cursor::new(vec![0x01, 0xff]);
    assert_eq!(CompactU64::parse(&mut c).unwrap().value(), 255);
    let mut c = Cursor::new(vec![0x02, 0x34, 0x12]);
    assert_eq!(CompactU64::parse(&mut c).unwrap().value(), 0x1234);
    let mut c = Cursor::new(vec![0x03, 0x78, 0x56, 0x34, 0x12]);
    assert_eq!(CompactU64::parse(&mut c).unwrap().value(), 0x12345678);
    let mut c = Cursor::new(vec![0x04, 1, 2, 3, 4, 5, 6, 7, 8]);
    assert_eq!(CompactU64::parse(&mut c).unwrap().value(), 0x0807060504030201);
}

#[test]
fn compact_u64_unrecognized_tag() {
    for kind in [5u8, 6, 7] {
        let mut c = Cursor::new(vec![kind]);
        assert_eq!(CompactU64::parse(&mut c).unwrap_err(), DecodeError::MalformedHeader);
    }
}

#[test]
fn compact_u64_truncated_trailing_bytes() {
    let mut c = Cursor::new(vec![0x02, 0x34]);
    assert_eq!(
        CompactU64::parse(&mut c).unwrap_err(),
        DecodeError::UnexpectedEndOfStream
    );
    let mut c = Cursor::new(Vec::new());
    assert_eq!(
        CompactU64::parse(&mut c).unwrap_err(),
        DecodeError::UnexpectedEndOfStream
    );
}

#[test]
fn exguid_reads_both_parts() {
    let mut bytes = vec![0u8; 16];
    bytes[0] = 0x2a;
    bytes[15] = 0x01;
    bytes.extend_from_slice(&[0xd2, 0x04, 0x00, 0x00]);
    let mut c = Cursor::new(bytes);
    let e = ExGuid::parse(&mut c).unwrap();
    assert_eq!(e.guid, (1u128 << 120) | 0x2a);
    assert_eq!(e.value, 1234);
}

#[test]
fn exguid_array_second_entry_reuses_guid() {
    let mut bytes = vec![0x10]; // count 2
    bytes.push(0x00); // first entry: full
    bytes.extend_from_slice(&exguid_bytes(0x11, 1));
    bytes.push(0x01); // second entry: reuse previous 128-bit part
    bytes.extend_from_slice(&[0x09, 0x00, 0x00, 0x00]);
    let mut c = Cursor::new(bytes);
    let es = ExGuid::parse_array(&mut c).unwrap();
    assert_eq!(es.len(), 2);
    assert_eq!(es[0], ExGuid { guid: 0x11, value: 1 });
    assert_eq!(es[1].guid, es[0].guid);
    assert_eq!(es[1].value, 9);
}

#[test]
fn exguid_array_first_entry_may_not_reuse() {
    let bytes = vec![0x08, 0x01, 0x09, 0x00, 0x00, 0x00]; // count 1, reuse flag
    let mut c = Cursor::new(bytes);
    assert_eq!(
        ExGuid::parse_array(&mut c).unwrap_err(),
        DecodeError::MalformedHeader
    );
}

#[test]
fn exguid_array_unrecognized_flag() {
    let mut bytes = vec![0x08, 0x02]; // count 1, flag 2
    bytes.extend_from_slice(&exguid_bytes(1, 1));
    let mut c = Cursor::new(bytes);
    assert_eq!(
        ExGuid::parse_array(&mut c).unwrap_err(),
        DecodeError::MalformedHeader
    );
}

#[test]
fn exguid_array_count_exceeding_bytes_is_truncated() {
    let mut bytes = vec![0x18]; // count 3, but only one entry follows
    bytes.push(0x00);
    bytes.extend_from_slice(&exguid_bytes(1, 1));
    let mut c = Cursor::new(bytes);
    assert_eq!(
        ExGuid::parse_array(&mut c).unwrap_err(),
        DecodeError::TruncatedArray
    );
}

#[test]
fn cell_id_array_round() {
    let mut bytes = vec![0x08]; // count 1
    bytes.extend_from_slice(&exguid_bytes(3, 4));
    bytes.extend_from_slice(&exguid_bytes(5, 6));
    let mut c = Cursor::new(bytes);
    let cells = CellId::parse_array(&mut c).unwrap();
    assert_eq!(cells.len(), 1);
    assert_eq!(
        cells[0],
        CellId {
            id: ExGuid { guid: 3, value: 4 },
            extra: ExGuid { guid: 5, value: 6 },
        }
    );
}

#[test]
fn cell_id_array_truncated() {
    let mut bytes = vec![0x10]; // count 2, one entry present
    bytes.extend_from_slice(&exguid_bytes(3, 4));
    bytes.extend_from_slice(&exguid_bytes(5, 6));
    let mut c = Cursor::new(bytes);
    assert_eq!(
        CellId::parse_array(&mut c).unwrap_err(),
        DecodeError::TruncatedArray
    );
}

#[test]
fn binary_item_reads_exact_count() {
    let mut c = Cursor::new(vec![0x18, 9, 8, 7]);
    let item = BinaryItem::parse(&mut c).unwrap();
    assert_eq!(item.value(), vec![9, 8, 7]);
}

#[test]
fn binary_item_count_past_end() {
    let mut c = Cursor::new(vec![0x20, 9, 8, 7]);
    assert_eq!(
        BinaryItem::parse(&mut c).unwrap_err(),
        DecodeError::UnexpectedEndOfStream
    );
}

#[test]
fn compact_header_carries_type_and_compound_flag() {
    let mut c = Cursor::new(vec![0x18]);
    let h = ObjectHeader::parse(&mut c).unwrap();
    assert_eq!(h.object_type, ObjectType::ObjectGroupObject);
    assert!(!h.compound);
    let mut c = Cursor::new(vec![0x1c]);
    let h = ObjectHeader::parse(&mut c).unwrap();
    assert_eq!(h.object_type, ObjectType::ObjectGroupObject);
    assert!(h.compound);
}

#[test]
fn compact_header_unknown_tag_is_malformed() {
    let mut c = Cursor::new(vec![0xf8]); // tag 31, not assigned
    assert_eq!(
        ObjectHeader::parse(&mut c).unwrap_err(),
        DecodeError::MalformedHeader
    );
}

#[test]
fn wide_header_names_metadata_entry() {
    let mut c = Cursor::new(vec![0x02, 0x02, 0x00, 0x00]);
    let h = ObjectHeader::parse_wide(&mut c).unwrap();
    assert_eq!(h.object_type, ObjectType::ObjectGroupMetadata);
    assert!(!h.compound);
}

#[test]
fn wide_header_dispatches_from_parse() {
    let mut c = Cursor::new(vec![0x02, 0x02, 0x00, 0x00]);
    let h = ObjectHeader::parse(&mut c).unwrap();
    assert_eq!(h.object_type, ObjectType::ObjectGroupMetadata);
}

#[test]
fn end_marker_read_and_conditional_consume() {
    let mut c = Cursor::new(vec![0x07]);
    assert_eq!(
        ObjectHeader::parse_end(&mut c).unwrap(),
        ObjectType::DataElement
    );
    // the conditional consume takes a matching marker and stays put on a
    // mismatched one
    let mut c = Cursor::new(vec![0x0b, 0x0b]);
    assert!(ObjectHeader::try_parse_end(&mut c, ObjectType::ObjectGroupDeclaration).unwrap());
    assert!(!ObjectHeader::try_parse_end(&mut c, ObjectType::ObjectGroupData).unwrap());
    assert!(ObjectHeader::try_parse_end(&mut c, ObjectType::ObjectGroupDeclaration).unwrap());
    assert_eq!(c.remaining(), 0);
}

#[test]
fn change_frequency_values() {
    assert_eq!(
        ObjectChangeFrequency::parse(0).unwrap(),
        ObjectChangeFrequency::Unknown
    );
    assert_eq!(
        ObjectChangeFrequency::parse(1).unwrap(),
        ObjectChangeFrequency::Frequent
    );
    assert_eq!(
        ObjectChangeFrequency::parse(2).unwrap(),
        ObjectChangeFrequency::Infrequent
    );
    assert_eq!(
        ObjectChangeFrequency::parse(3).unwrap(),
        ObjectChangeFrequency::Independent
    );
    assert_eq!(
        ObjectChangeFrequency::parse(4).unwrap(),
        ObjectChangeFrequency::Custom
    );
    assert_eq!(
        ObjectChangeFrequency::parse(7).unwrap_err(),
        DecodeError::InvalidEnumValue
    );
}
