use packet_codec::packet::{
    PVAction, PVMessage, PacketDataType, PacketField, PacketView, SizingMethod,
};
use packet_codec::PacketError;

fn scalar_field(index: usize, dt: PacketDataType, value: &str) -> PacketField {
    PacketField {
        index,
        datatype: Some(dt),
        data_string: value.to_string(),
        sizing_method: None,
    }
}

fn packet(fields: Vec<PacketField>) -> PacketView {
    PacketView {
        index: 0,
        label: String::new(),
        receive: false,
        fields,
    }
}

#[test]
fn partial_entry_validation_for_i32() {
    let f = scalar_field(0, PacketDataType::I32, "");
    assert!(f.is_valid_entry(""));
    assert!(f.is_valid_entry("-"));
    assert!(f.is_valid_entry("-42"));
    assert!(f.is_valid_entry("42"));
    assert!(!f.is_valid_entry("4a"));
    assert!(!f.is_valid_entry("99999999999"));
}

#[test]
fn partial_entry_validation_other_types() {
    let u8f = scalar_field(0, PacketDataType::U8, "");
    assert!(u8f.is_valid_entry("255"));
    assert!(!u8f.is_valid_entry("256"));
    assert!(!u8f.is_valid_entry("-"));
    let cf = scalar_field(0, PacketDataType::CStr, "");
    assert!(cf.is_valid_entry("anything at all"));
    let nf = PacketField {
        index: 0,
        datatype: None,
        data_string: String::new(),
        sizing_method: None,
    };
    assert!(nf.is_valid_entry("anything"));
}

#[test]
fn encode_concatenates_fields_in_order() {
    // A U16 of zero followed by a nul-terminated "abc".
    let p = packet(vec![
        scalar_field(0, PacketDataType::U16, "0"),
        scalar_field(1, PacketDataType::CStr, "abc"),
    ]);
    let blobs = vec![Vec::new(), Vec::new()];
    let out = p.to_bytes(&blobs).unwrap();
    assert_eq!(out, vec![0x00, 0x00, b'a', b'b', b'c', 0x00]);
}

#[test]
fn encode_fails_fast_on_first_bad_field() {
    let p = packet(vec![
        scalar_field(0, PacketDataType::U16, "bad"),
        scalar_field(1, PacketDataType::CStr, "a\0b"),
    ]);
    let blobs = vec![Vec::new(), Vec::new()];
    assert_eq!(p.to_bytes(&blobs), Err(PacketError::InvalidNumericLiteral));
}

#[test]
fn decode_single_u32_stream() {
    let mut p = packet(vec![scalar_field(0, PacketDataType::U32, "")]);
    let blobs = p.decode(&vec![0x01, 0x02, 0x03, 0x04]).unwrap();
    assert!(blobs.is_empty());
    assert_eq!(p.fields[0].data_string, "67305985");
}

#[test]
fn decode_cstr_and_scalar() {
    let mut p = packet(vec![
        scalar_field(0, PacketDataType::CStr, ""),
        scalar_field(1, PacketDataType::U8, ""),
    ]);
    let data = vec![b'h', b'i', 0, 42];
    p.decode(&data).unwrap();
    assert_eq!(p.fields[0].data_string, "hi");
    assert_eq!(p.fields[1].data_string, "42");
}

#[test]
fn decode_cstr_ends_at_stream_end_without_terminator() {
    let mut p = packet(vec![scalar_field(0, PacketDataType::CStr, "")]);
    p.decode(&vec![b'o', b'k']).unwrap();
    assert_eq!(p.fields[0].data_string, "ok");
}

#[test]
fn decode_blob_sized_by_header() {
    let mut p = packet(vec![
        scalar_field(0, PacketDataType::U32, ""),
        PacketField {
            index: 1,
            datatype: Some(PacketDataType::Bytes(SizingMethod::SizeHeader(0))),
            data_string: String::new(),
            sizing_method: Some(SizingMethod::SizeHeader(0)),
        },
    ]);
    let data = vec![2, 0, 0, 0, 0xaa, 0xbb];
    let blobs = p.decode(&data).unwrap();
    assert_eq!(p.fields[0].data_string, "2");
    assert_eq!(blobs, vec![vec![0xaa, 0xbb]]);
}

#[test]
fn decode_errors() {
    // A scalar field with too few bytes left.
    let mut p = packet(vec![scalar_field(0, PacketDataType::U32, "")]);
    assert_eq!(p.decode(&vec![1, 2]), Err(PacketError::TruncatedStream));
    // The failed decode leaves the packet unchanged.
    assert_eq!(p.fields[0].data_string, "");

    // A field with no chosen type.
    let mut p2 = packet(vec![PacketField {
        index: 0,
        datatype: None,
        data_string: String::new(),
        sizing_method: None,
    }]);
    assert_eq!(p2.decode(&Vec::new()), Err(PacketError::MissingDataType));

    // A header reference that does not lie before its blob field.
    let mut p3 = packet(vec![PacketField {
        index: 0,
        datatype: Some(PacketDataType::Bytes(SizingMethod::SizeHeader(0))),
        data_string: String::new(),
        sizing_method: Some(SizingMethod::SizeHeader(0)),
    }]);
    assert_eq!(p3.decode(&vec![1, 2, 3]), Err(PacketError::IndexOutOfRange));

    // String bytes that are not UTF-8.
    let mut p4 = packet(vec![scalar_field(0, PacketDataType::CStr, "")]);
    assert_eq!(p4.decode(&vec![0xff, 0]), Err(PacketError::InvalidUtf8));
}

#[test]
fn index_contiguity_after_add_and_remove() {
    let mut p = PacketView::new(0);
    p.add_field();
    p.add_field();
    p.add_field();
    p.add_field();
    assert_eq!(p.remove_field(1), Ok(()));
    p.add_field();
    assert_eq!(p.remove_field(0), Ok(()));
    for (i, f) in p.fields.iter().enumerate() {
        assert_eq!(f.index, i);
    }
    assert_eq!(p.fields.len(), 3);
    assert_eq!(p.remove_field(3), Err(PacketError::IndexOutOfRange));
}

#[test]
fn sizing_method_policy() {
    let mut p = PacketView::new(0);
    p.add_field();
    p.add_field();
    // A literal count is always accepted.
    assert!(p.set_sizing_method(0, SizingMethod::FixedSize(4)));
    assert_eq!(p.fields[0].sizing_method, Some(SizingMethod::FixedSize(4)));
    // A header reference must point strictly before its field.
    assert!(!p.set_sizing_method(0, SizingMethod::SizeHeader(0)));
    assert!(!p.set_sizing_method(1, SizingMethod::SizeHeader(1)));
    assert!(p.set_sizing_method(1, SizingMethod::SizeHeader(0)));
    assert_eq!(p.fields[1].sizing_method, Some(SizingMethod::SizeHeader(0)));
}

#[test]
fn sizing_method_rewrites_bytes_datatype() {
    let mut p = PacketView::new(0);
    p.add_field();
    p.add_field();
    p.update(PVMessage::DataType(
        PacketDataType::Bytes(SizingMethod::FixedSize(0)),
        1,
    ));
    assert!(p.set_sizing_method(1, SizingMethod::SizeHeader(0)));
    assert_eq!(
        p.fields[1].datatype,
        Some(PacketDataType::Bytes(SizingMethod::SizeHeader(0)))
    );
}

#[test]
fn blob_path_change_recomputes_header_value() {
    // A U32 header at position 0 and a blob sized by it at position 1,
    // in send mode.
    let mut p = packet(vec![
        scalar_field(0, PacketDataType::U32, "1000"),
        PacketField {
            index: 1,
            datatype: Some(PacketDataType::Bytes(SizingMethod::FixedSize(0))),
            data_string: String::new(),
            sizing_method: None,
        },
    ]);
    let a = p.update(PVMessage::ChangeSizingMethod(SizingMethod::SizeHeader(0), 1));
    assert_eq!(a, PVAction::SyncFileSize(1));
    // The caller measures the 10-byte source and hands the count back.
    SizingMethod::SizeHeader(0).update(&mut p, Some(10));
    assert_eq!(p.fields[0].data_string, "10");
    // Changing the path asks for a fresh measurement.
    let a2 = p.update(PVMessage::DataEntry("/other/file".to_string(), 1));
    assert_eq!(a2, PVAction::SyncFileSize(1));
    SizingMethod::SizeHeader(0).update(&mut p, Some(7));
    assert_eq!(p.fields[0].data_string, "7");
    // A failed measurement leaves the header value alone.
    SizingMethod::SizeHeader(0).update(&mut p, None);
    assert_eq!(p.fields[0].data_string, "7");
}

#[test]
fn sync_is_a_no_op_in_receive_mode() {
    let mut p = packet(vec![
        scalar_field(0, PacketDataType::U32, "5"),
        PacketField {
            index: 1,
            datatype: Some(PacketDataType::Bytes(SizingMethod::SizeHeader(0))),
            data_string: String::new(),
            sizing_method: Some(SizingMethod::SizeHeader(0)),
        },
    ]);
    p.update(PVMessage::ToggleRecieve(true));
    SizingMethod::SizeHeader(0).update(&mut p, Some(10));
    assert_eq!(p.fields[0].data_string, "5");
}

#[test]
fn update_rejects_invalid_entry_silently() {
    let mut p = packet(vec![scalar_field(0, PacketDataType::U8, "3")]);
    let a = p.update(PVMessage::DataEntry("256".to_string(), 0));
    assert_eq!(a, PVAction::Idle);
    assert_eq!(p.fields[0].data_string, "3");
    let b = p.update(PVMessage::DataEntry("255".to_string(), 0));
    assert_eq!(b, PVAction::Idle);
    assert_eq!(p.fields[0].data_string, "255");
}

#[test]
fn update_io_messages_become_actions() {
    let mut p = packet(vec![scalar_field(0, PacketDataType::U8, "")]);
    assert_eq!(p.update(PVMessage::OpenFile(0)), PVAction::PickFile(0));
    assert_eq!(p.update(PVMessage::SavePacket), PVAction::SaveRequested);
}

#[test]
fn method_entry_updates_the_parameter() {
    let mut p = PacketView::new(0);
    p.add_field();
    p.add_field();
    assert!(p.set_sizing_method(1, SizingMethod::FixedSize(0)));
    p.update(PVMessage::MethodEntry("12".to_string(), 1));
    assert_eq!(p.fields[1].sizing_method, Some(SizingMethod::FixedSize(12)));
    // Unparseable text leaves the method alone.
    p.update(PVMessage::MethodEntry("x".to_string(), 1));
    assert_eq!(p.fields[1].sizing_method, Some(SizingMethod::FixedSize(12)));
}

#[test]
fn resolve_length_is_lenient() {
    let p = packet(vec![
        scalar_field(0, PacketDataType::U32, "not a number"),
        scalar_field(1, PacketDataType::U32, "17"),
    ]);
    assert_eq!(p.resolve_length(SizingMethod::FixedSize(5)), 5);
    assert_eq!(p.resolve_length(SizingMethod::SizeHeader(0)), 0);
    assert_eq!(p.resolve_length(SizingMethod::SizeHeader(1)), 17);
    assert_eq!(p.resolve_length(SizingMethod::SizeHeader(9)), 0);
}

#[test]
fn get_field_copies_the_entry() {
    let p = packet(vec![scalar_field(0, PacketDataType::U8, "9")]);
    let f = p.get_field(0);
    assert_eq!(f.data_string, "9");
    assert_eq!(f.datatype, Some(PacketDataType::U8));
}
