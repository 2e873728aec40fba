use packet_codec::document::JsonNode;
use packet_codec::packet::{PacketDataType, PacketField, PacketView, SizingMethod};
use packet_codec::PacketError;

fn sample_packet() -> PacketView {
    PacketView {
        index: 2,
        label: "telemetry".to_string(),
        receive: false,
        fields: vec![
            PacketField {
                index: 0,
                datatype: Some(PacketDataType::U16),
                data_string: "513".to_string(),
                sizing_method: None,
            },
            PacketField {
                index: 1,
                datatype: Some(PacketDataType::CStr),
                data_string: "name".to_string(),
                sizing_method: None,
            },
            PacketField {
                index: 2,
                datatype: Some(PacketDataType::I64),
                data_string: "-7".to_string(),
                sizing_method: None,
            },
        ],
    }
}

fn assert_packets_equal(a: &PacketView, b: &PacketView) {
    assert_eq!(a.index, b.index);
    assert_eq!(a.label, b.label);
    assert_eq!(a.receive, b.receive);
    assert_eq!(a.fields.len(), b.fields.len());
    for (x, y) in a.fields.iter().zip(b.fields.iter()) {
        assert_eq!(x.index, y.index);
        assert_eq!(x.datatype, y.datatype);
        assert_eq!(x.data_string, y.data_string);
        assert_eq!(x.sizing_method, y.sizing_method);
    }
}

#[test]
fn document_roundtrip_scalars_and_cstr() {
    let p = sample_packet();
    let doc = p.to_document();
    let q = PacketView::from_document(&doc).unwrap();
    assert_packets_equal(&p, &q);
}

#[test]
fn document_roundtrip_with_blob_and_unset_fields() {
    let p = PacketView {
        index: 0,
        label: String::new(),
        receive: true,
        fields: vec![
            PacketField {
                index: 0,
                datatype: None,
                data_string: String::new(),
                sizing_method: None,
            },
            PacketField {
                index: 1,
                datatype: Some(PacketDataType::Bytes(SizingMethod::SizeHeader(0))),
                data_string: "/tmp/blob".to_string(),
                sizing_method: Some(SizingMethod::SizeHeader(0)),
            },
        ],
    };
    let doc = p.to_document();
    let q = PacketView::from_document(&doc).unwrap();
    assert_packets_equal(&p, &q);
}

#[test]
fn reader_accepts_keys_in_any_order() {
    let doc = JsonNode::Obj(vec![
        ("fields".to_string(), JsonNode::Arr(Vec::new())),
        ("receive".to_string(), JsonNode::Bool(true)),
        ("index".to_string(), JsonNode::Num(4)),
        ("label".to_string(), JsonNode::Str("x".to_string())),
    ]);
    let p = PacketView::from_document(&doc).unwrap();
    assert_eq!(p.index, 4);
    assert_eq!(p.label, "x");
    assert!(p.receive);
    assert!(p.fields.is_empty());
}

#[test]
fn malformed_documents_are_rejected() {
    match PacketView::from_document(&JsonNode::Null) {
        Err(e) => assert_eq!(e, PacketError::MalformedDocument),
        Ok(_) => panic!("a bare null is no document"),
    }
    // A document missing its "fields" key.
    let doc = JsonNode::Obj(vec![
        ("index".to_string(), JsonNode::Num(0)),
        ("label".to_string(), JsonNode::Str(String::new())),
        ("receive".to_string(), JsonNode::Bool(false)),
    ]);
    assert!(PacketView::from_document(&doc).is_err());
    // A field whose index is not a number.
    let doc2 = JsonNode::Obj(vec![
        ("index".to_string(), JsonNode::Num(0)),
        ("label".to_string(), JsonNode::Str(String::new())),
        ("receive".to_string(), JsonNode::Bool(false)),
        (
            "fields".to_string(),
            JsonNode::Arr(vec![JsonNode::Obj(vec![
                ("index".to_string(), JsonNode::Str("zero".to_string())),
                ("data_string".to_string(), JsonNode::Str(String::new())),
            ])]),
        ),
    ]);
    assert!(PacketView::from_document(&doc2).is_err());
    // A field object lacking its datatype key.
    let doc3 = JsonNode::Obj(vec![
        ("index".to_string(), JsonNode::Num(0)),
        ("label".to_string(), JsonNode::Str(String::new())),
        ("receive".to_string(), JsonNode::Bool(false)),
        (
            "fields".to_string(),
            JsonNode::Arr(vec![JsonNode::Obj(vec![
                ("index".to_string(), JsonNode::Num(0)),
                ("sizing_method".to_string(), JsonNode::Null),
                ("data_string".to_string(), JsonNode::Str(String::new())),
            ])]),
        ),
    ]);
    match PacketView::from_document(&doc3) {
        Err(e) => assert_eq!(e, PacketError::MalformedDocument),
        Ok(_) => panic!("a field without a datatype key is no document"),
    }
    // A field object lacking its sizing_method key.
    let doc4 = JsonNode::Obj(vec![
        ("index".to_string(), JsonNode::Num(0)),
        ("label".to_string(), JsonNode::Str(String::new())),
        ("receive".to_string(), JsonNode::Bool(false)),
        (
            "fields".to_string(),
            JsonNode::Arr(vec![JsonNode::Obj(vec![
                ("index".to_string(), JsonNode::Num(0)),
                ("datatype".to_string(), JsonNode::Str("U8".to_string())),
                ("data_string".to_string(), JsonNode::Str(String::new())),
            ])]),
        ),
    ]);
    match PacketView::from_document(&doc4) {
        Err(e) => assert_eq!(e, PacketError::MalformedDocument),
        Ok(_) => panic!("a field without a sizing_method key is no document"),
    }
}

// The document tree rendered as text with jzon and parsed back: the same
// path a saved file takes.
fn to_jzon(n: &JsonNode) -> jzon::JsonValue {
    match n {
        JsonNode::Null => jzon::JsonValue::Null,
        JsonNode::Bool(b) => jzon::JsonValue::Boolean(*b),
        JsonNode::Num(x) => jzon::JsonValue::Number((*x).into()),
        JsonNode::Str(s) => jzon::JsonValue::String(s.clone()),
        JsonNode::Arr(items) => jzon::JsonValue::Array(items.iter().map(to_jzon).collect()),
        JsonNode::Obj(entries) => {
            let mut o = jzon::object::Object::new();
            for (k, v) in entries {
                o.insert(k, to_jzon(v));
            }
            jzon::JsonValue::Object(o)
        },
    }
}

fn from_jzon(v: &jzon::JsonValue) -> JsonNode {
    match v {
        jzon::JsonValue::Null => JsonNode::Null,
        jzon::JsonValue::Boolean(b) => JsonNode::Bool(*b),
        jzon::JsonValue::Number(_) => JsonNode::Num(v.as_u64().unwrap()),
        jzon::JsonValue::Short(s) => JsonNode::Str(s.to_string()),
        jzon::JsonValue::String(s) => JsonNode::Str(s.clone()),
        jzon::JsonValue::Array(items) => JsonNode::Arr(items.iter().map(from_jzon).collect()),
        jzon::JsonValue::Object(o) => JsonNode::Obj(
            o.iter().map(|(k, v)| (k.to_string(), from_jzon(v))).collect(),
        ),
    }
}

#[test]
fn document_roundtrip_through_json_text() {
    let p = sample_packet();
    let text = jzon::stringify(to_jzon(&p.to_document()));
    let parsed = jzon::parse(&text).unwrap();
    let q = PacketView::from_document(&from_jzon(&parsed)).unwrap();
    assert_packets_equal(&p, &q);
}

#[test]
fn duplicate_keys_take_the_first_occurrence() {
    let doc = JsonNode::Obj(vec![
        ("index".to_string(), JsonNode::Num(1)),
        ("index".to_string(), JsonNode::Num(9)),
        ("label".to_string(), JsonNode::Str("a".to_string())),
        ("receive".to_string(), JsonNode::Bool(false)),
        ("fields".to_string(), JsonNode::Arr(Vec::new())),
    ]);
    let p = PacketView::from_document(&doc).unwrap();
    assert_eq!(p.index, 1);
}
