use packet_codec::codec::{decode_scalar, encode_cstr, encode_scalar};
use packet_codec::packet::{PacketDataType, PacketField, SizingMethod};
use packet_codec::PacketError;

fn field(index: usize, dt: Option<PacketDataType>, value: &str) -> PacketField {
    PacketField {
        index,
        datatype: dt,
        data_string: value.to_string(),
        sizing_method: None,
    }
}

#[test]
fn data_size_of_fixed_types() {
    assert_eq!(PacketDataType::U8.data_size(), 1);
    assert_eq!(PacketDataType::U16.data_size(), 2);
    assert_eq!(PacketDataType::U32.data_size(), 4);
    assert_eq!(PacketDataType::U64.data_size(), 8);
    assert_eq!(PacketDataType::I8.data_size(), 1);
    assert_eq!(PacketDataType::I16.data_size(), 2);
    assert_eq!(PacketDataType::I32.data_size(), 4);
    assert_eq!(PacketDataType::I64.data_size(), 8);
}

#[test]
fn scalar_roundtrip_boundaries() {
    let cases: Vec<(PacketDataType, &str)> = vec![
        (PacketDataType::U8, "0"),
        (PacketDataType::U8, "255"),
        (PacketDataType::U16, "65535"),
        (PacketDataType::U32, "4294967295"),
        (PacketDataType::U64, "18446744073709551615"),
        (PacketDataType::I8, "-128"),
        (PacketDataType::I8, "127"),
        (PacketDataType::I8, "-1"),
        (PacketDataType::I16, "-32768"),
        (PacketDataType::I16, "32767"),
        (PacketDataType::I32, "-2147483648"),
        (PacketDataType::I32, "2147483647"),
        (PacketDataType::I64, "-9223372036854775808"),
        (PacketDataType::I64, "9223372036854775807"),
        (PacketDataType::I64, "-1"),
        (PacketDataType::I64, "0"),
    ];
    for (dt, text) in cases {
        let bytes = encode_scalar(dt, text).unwrap();
        assert_eq!(bytes.len(), dt.data_size());
        let back = dt.bytes_to_val(bytes);
        assert_eq!(back, text, "round trip for {:?}", dt);
    }
}

#[test]
fn scalar_encoding_is_little_endian() {
    assert_eq!(encode_scalar(PacketDataType::U32, "1").unwrap(), vec![1, 0, 0, 0]);
    assert_eq!(
        encode_scalar(PacketDataType::U16, "258").unwrap(),
        vec![0x02, 0x01]
    );
    assert_eq!(encode_scalar(PacketDataType::I8, "-1").unwrap(), vec![0xff]);
    assert_eq!(
        encode_scalar(PacketDataType::I16, "-2").unwrap(),
        vec![0xfe, 0xff]
    );
}

#[test]
fn decode_scalar_exact_values() {
    assert_eq!(decode_scalar(PacketDataType::U32, &[1, 2, 3, 4]), "67305985");
    assert_eq!(decode_scalar(PacketDataType::U8, &[0]), "0");
    assert_eq!(decode_scalar(PacketDataType::I8, &[0x80]), "-128");
    assert_eq!(decode_scalar(PacketDataType::I64, &[0xff; 8]), "-1");
    assert_eq!(decode_scalar(PacketDataType::U64, &[0xff; 8]), "18446744073709551615");
}

#[test]
fn invalid_numeric_literal_is_rejected() {
    assert_eq!(
        encode_scalar(PacketDataType::U8, "256"),
        Err(PacketError::InvalidNumericLiteral)
    );
    assert_eq!(
        encode_scalar(PacketDataType::U8, "4a"),
        Err(PacketError::InvalidNumericLiteral)
    );
    assert_eq!(
        encode_scalar(PacketDataType::U8, "-1"),
        Err(PacketError::InvalidNumericLiteral)
    );
    assert_eq!(
        encode_scalar(PacketDataType::U8, "+5"),
        Err(PacketError::InvalidNumericLiteral)
    );
    assert_eq!(
        encode_scalar(PacketDataType::I8, ""),
        Err(PacketError::InvalidNumericLiteral)
    );
    assert_eq!(
        encode_scalar(PacketDataType::I8, "-"),
        Err(PacketError::InvalidNumericLiteral)
    );
    assert_eq!(
        encode_scalar(PacketDataType::I32, "-2147483649"),
        Err(PacketError::InvalidNumericLiteral)
    );
}

#[test]
fn leading_zeros_parse_but_reencode_canonically() {
    let bytes = encode_scalar(PacketDataType::U16, "007").unwrap();
    assert_eq!(bytes, vec![7, 0]);
    assert_eq!(PacketDataType::U16.bytes_to_val(bytes), "7");
}

#[test]
fn cstr_roundtrip() {
    let encoded = encode_cstr("abc").unwrap();
    assert_eq!(encoded, vec![b'a', b'b', b'c', 0]);
    let empty = encode_cstr("").unwrap();
    assert_eq!(empty, vec![0]);
    let accented = encode_cstr("héllo").unwrap();
    assert_eq!(*accented.last().unwrap(), 0);
}

#[test]
fn cstr_embedded_nul_is_rejected() {
    assert_eq!(encode_cstr("a\0b"), Err(PacketError::EmbeddedNul));
    assert_eq!(encode_cstr("\0"), Err(PacketError::EmbeddedNul));
}

#[test]
fn field_with_no_type_encodes_as_nothing() {
    let f = field(0, None, "whatever");
    let out = f.to_bytes(&Vec::new()).unwrap();
    assert!(out.is_empty());
}

#[test]
fn blob_field_encodes_its_source_bytes() {
    let f = PacketField {
        index: 0,
        datatype: Some(PacketDataType::Bytes(SizingMethod::FixedSize(3))),
        data_string: "/tmp/some/path".to_string(),
        sizing_method: Some(SizingMethod::FixedSize(3)),
    };
    let out = f.to_bytes(&vec![9, 8, 7]).unwrap();
    assert_eq!(out, vec![9, 8, 7]);
}

#[test]
fn tags_name_the_types() {
    assert_eq!(PacketDataType::CStr.tag(), "CStr");
    assert_eq!(
        PacketDataType::Bytes(SizingMethod::FixedSize(0)).tag(),
        "Bytes"
    );
    assert_eq!(PacketDataType::U64.tag(), "U64");
    assert_eq!(SizingMethod::FixedSize(1).tag(), "FixedSize");
    assert_eq!(SizingMethod::SizeHeader(0).tag(), "SizeHeader");
}
