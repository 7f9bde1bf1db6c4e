use object_group_decoder::cursor::Cursor;
use object_group_decoder::errors::DecodeError;
use object_group_decoder::exguid::ExGuid;
use object_group_decoder::object_group::DataElementValue;
use object_group_decoder::object_group::ObjectGroupData;
use object_group_decoder::object_group::ObjectChangeFrequency;
use object_group_decoder::object_group::ObjectGroupDeclaration;

fn one_object_group_bytes() -> Vec<u8> {
    let mut bytes: Vec<u8> = Vec::new();
    // declarations block header
    bytes.push(0x10);
    // declaration: object
    bytes.push(0x18);
    // identifier: guid 0x01, value 1
    bytes.push(0x01);
    for _ in 0..15 {
        bytes.push(0x00);
    }
    bytes.extend_from_slice(&[0x01, 0x00, 0x00, 0x00]);
    // partition 0, size 4, object refs 0, cell refs 0 (all inline)
    bytes.push(0x00);
    bytes.push(0x20);
    bytes.push(0x00);
    bytes.push(0x00);
    // declarations end marker
    bytes.push(0x0b);
    // data block header
    bytes.push(0x30);
    // data: object
    bytes.push(0x40);
    // empty identifier array, empty cell array
    bytes.push(0x00);
    bytes.push(0x00);
    // payload: 4 bytes
    bytes.push(0x20);
    bytes.extend_from_slice(&[0xaa, 0xbb, 0xcc, 0xdd]);
    // data block end marker
    bytes.push(0x1b);
    // outer data element end marker
    bytes.push(0x07);
    bytes
}

#[test]
fn one_object_declaration_and_payload() {
    let mut cursor = Cursor::new(one_object_group_bytes());
    let value = DataElementValue::parse_object_group(&mut cursor).unwrap();
    let DataElementValue::ObjectGroup(group) = value;
    assert_eq!(group.declarations.len(), 1);
    assert_eq!(
        group.declarations[0],
        ObjectGroupDeclaration::Object {
            object_id: ExGuid { guid: 1, value: 1 },
            partition_id: 0,
            data_size: 4,
            object_reference_count: 0,
            cell_reference_count: 0,
        }
    );
    assert_eq!(group.metadata.len(), 0);
    assert_eq!(group.objects.len(), 1);
    match &group.objects[0] {
        ObjectGroupData::Object { group, cells, data } => {
            assert_eq!(group.len(), 0);
            assert_eq!(cells.len(), 0);
            assert_eq!(data, &vec![0xaa, 0xbb, 0xcc, 0xdd]);
        }
        _ => panic!("wrong data record shape"),
    }
}

#[test]
fn change_frequency_seven_is_invalid_enum_value() {
    // empty declarations block, then a metadata block whose one entry
    // carries the integer 7, outside the recognized values
    let bytes = vec![
        0x10, 0x0b, // declarations: header, end marker
        0x28, // metadata block header
        0x02, 0x02, 0x00, 0x00, // wide header: metadata entry
        0x38, // compact integer 7
    ];
    let mut cursor = Cursor::new(bytes);
    let r = DataElementValue::parse_object_group(&mut cursor);
    assert_eq!(r.unwrap_err(), DecodeError::InvalidEnumValue);
}

#[test]
fn data_record_without_data_block_header_is_unexpected() {
    // after the declarations block a "data: excluded" record header appears
    // directly, where only a metadata block or the data block may start
    let bytes = vec![
        0x10, 0x0b, // declarations: header, end marker
        0x38, // data: excluded record header
        0x0b, // declarations end marker again, never reached
    ];
    let mut cursor = Cursor::new(bytes);
    let r = DataElementValue::parse_object_group(&mut cursor);
    assert_eq!(r.unwrap_err(), DecodeError::UnexpectedObjectType);
}

#[test]
fn metadata_block_entries_match_declarations() {
    let mut bytes: Vec<u8> = Vec::new();
    bytes.push(0x10); // declarations header
    bytes.push(0x0b); // declarations end
    bytes.push(0x28); // metadata block header
    for value in [0x00u8, 0x08, 0x10, 0x18, 0x20] {
        bytes.extend_from_slice(&[0x02, 0x02, 0x00, 0x00]); // wide header
        bytes.push(value); // inline compact 0..=4
    }
    bytes.push(0x17); // metadata end marker
    bytes.push(0x30); // data block header
    bytes.push(0x1b); // data end marker
    bytes.push(0x07); // outer end marker
    let mut cursor = Cursor::new(bytes);
    let value = DataElementValue::parse_object_group(&mut cursor).unwrap();
    let DataElementValue::ObjectGroup(group) = value;
    assert_eq!(group.declarations.len(), 0);
    assert_eq!(group.metadata.len(), 5);
    assert_eq!(group.objects.len(), 0);
    let expected = [
        ObjectChangeFrequency::Unknown,
        ObjectChangeFrequency::Frequent,
        ObjectChangeFrequency::Infrequent,
        ObjectChangeFrequency::Independent,
        ObjectChangeFrequency::Custom,
    ];
    for (entry, want) in group.metadata.iter().zip(expected.iter()) {
        assert_eq!(entry.change_frequency, *want);
    }
}

#[test]
fn truncation_at_every_boundary_fails() {
    let bytes = one_object_group_bytes();
    for cut in 0..bytes.len() {
        let mut cursor = Cursor::new(bytes[..cut].to_vec());
        let r = DataElementValue::parse_object_group(&mut cursor);
        assert!(r.is_err(), "a prefix of {} bytes decoded", cut);
    }
}

#[test]
fn decoding_is_deterministic() {
    let bytes = one_object_group_bytes();
    let mut c1 = Cursor::new(bytes.clone());
    let mut c2 = Cursor::new(bytes);
    let DataElementValue::ObjectGroup(g1) =
        DataElementValue::parse_object_group(&mut c1).unwrap();
    let DataElementValue::ObjectGroup(g2) =
        DataElementValue::parse_object_group(&mut c2).unwrap();
    assert_eq!(g1.declarations, g2.declarations);
    assert_eq!(g1.metadata, g2.metadata);
    assert_eq!(g1.objects, g2.objects);
}

#[test]
fn blob_declaration_and_blob_reference() {
    let mut bytes: Vec<u8> = Vec::new();
    bytes.push(0x10); // declarations header
    bytes.push(0x20); // declaration: blob (tag 4)
    bytes.push(0x07); // object id guid = 7
    for _ in 0..15 {
        bytes.push(0x00);
    }
    bytes.extend_from_slice(&[0x02, 0x00, 0x00, 0x00]); // object id value = 2
    bytes.push(0x09); // blob id guid = 9
    for _ in 0..15 {
        bytes.push(0x00);
    }
    bytes.extend_from_slice(&[0x03, 0x00, 0x00, 0x00]); // blob id value = 3
    bytes.push(0x08); // partition 1
    bytes.push(0x00); // object refs 0
    bytes.push(0x00); // cell refs 0
    bytes.push(0x0b); // declarations end
    bytes.push(0x30); // data block header
    bytes.push(0x48); // data: blob reference (tag 9)
    bytes.push(0x00); // empty identifier array
    bytes.push(0x00); // empty cell array
    bytes.push(0x05); // blob pointer guid = 5
    for _ in 0..15 {
        bytes.push(0x00);
    }
    bytes.extend_from_slice(&[0x06, 0x00, 0x00, 0x00]); // blob pointer value = 6
    bytes.push(0x1b); // data end
    bytes.push(0x07); // outer end
    let mut cursor = Cursor::new(bytes);
    let DataElementValue::ObjectGroup(group) =
        DataElementValue::parse_object_group(&mut cursor).unwrap();
    assert_eq!(group.declarations.len(), 1);
    assert_eq!(group.declarations[0].partition_id(), 1);
    assert_eq!(group.declarations[0].object_id(), ExGuid { guid: 7, value: 2 });
    match &group.objects[0] {
        ObjectGroupData::BlobReference { objects, cells, blob } => {
            assert_eq!(objects.len(), 0);
            assert_eq!(cells.len(), 0);
            assert_eq!(*blob, ExGuid { guid: 5, value: 6 });
        }
        _ => panic!("wrong data record shape"),
    }
}

#[test]
fn excluded_record_carries_declared_size() {
    let bytes = vec![
        0x10, 0x0b, // empty declarations
        0x30, // data block header
        0x38, // data: excluded
        0x00, 0x00, // empty arrays
        0x02, 0x2c, 0x01, // compact 300 in two trailing bytes
        0x1b, // data end
        0x07, // outer end
    ];
    let mut cursor = Cursor::new(bytes);
    let DataElementValue::ObjectGroup(group) =
        DataElementValue::parse_object_group(&mut cursor).unwrap();
    match &group.objects[0] {
        ObjectGroupData::ObjectExcluded { size, .. } => assert_eq!(*size, 300),
        _ => panic!("wrong data record shape"),
    }
}

#[test]
fn missing_outer_end_marker_fails() {
    let mut bytes = one_object_group_bytes();
    bytes.pop();
    let mut cursor = Cursor::new(bytes);
    let r = DataElementValue::parse_object_group(&mut cursor);
    assert_eq!(r.unwrap_err(), DecodeError::UnexpectedEndOfStream);
}

#[test]
fn wrong_outer_end_marker_fails() {
    let mut bytes = one_object_group_bytes();
    let last = bytes.len() - 1;
    bytes[last] = 0x0b; // a declarations end marker instead of the data element's
    let mut cursor = Cursor::new(bytes);
    let r = DataElementValue::parse_object_group(&mut cursor);
    assert_eq!(r.unwrap_err(), DecodeError::UnexpectedObjectType);
}

#[test]
fn stream_not_starting_with_declarations_fails() {
    let bytes = vec![0x30, 0x1b, 0x07];
    let mut cursor = Cursor::new(bytes);
    let r = DataElementValue::parse_object_group(&mut cursor);
    assert_eq!(r.unwrap_err(), DecodeError::UnexpectedObjectType);
}
