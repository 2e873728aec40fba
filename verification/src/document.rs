//! The persisted form of a packet schema: a JSON document tree, and the
//! mapping between packets and documents.
//!
//! The library builds and reads the tree itself; rendering the tree as
//! text and reading text back is the caller's business. The conventions,
//! stated once: a packet is an object with keys `index`, `label`,
//! `receive` and `fields`; each field an object with keys `index`,
//! `datatype`, `sizing_method` and `data_string`; a sizing method an
//! object with keys `method` and `size`. A `Bytes` data type is written as
//! an object whose one key `sizing_method` holds the method it carries;
//! every other data type is written as its bare name. An unset data type
//! or sizing method is written as `null`, and only an explicit `null`
//! reads back as unset: a field object that lacks one of its keys is
//! rejected.

use vstd::prelude::*;

use crate::packet::{
    FieldModel, PacketDataType, PacketField, PacketModel, PacketView, SizingMethod,
};
use crate::PacketError;

verus! {

broadcast use {vstd::std_specs::vec::group_vec_axioms, vstd::seq::group_seq_axioms, vstd::string::group_string_axioms};

/// One JSON value: the persisted form of a schema is a tree of these.
pub enum JsonNode {
    Null,
    Bool(bool),
    Num(u64),
    Str(String),
    Arr(Vec<JsonNode>),
    Obj(Vec<(String, JsonNode)>),
}

/// The mathematical shape of a [`JsonNode`].
pub enum JsonModel {
    Null,
    Bool(bool),
    Num(u64),
    Str(Seq<char>),
    Arr(Seq<JsonModel>),
    Obj(Seq<(Seq<char>, JsonModel)>),
}

/// The mathematical shape of a JSON tree.
pub open spec fn json_model(n: JsonNode) -> JsonModel
    decreases n,
        via json_model_decreases
{
    match n {
        JsonNode::Null => JsonModel::Null,
        JsonNode::Bool(b) => JsonModel::Bool(b),
        JsonNode::Num(x) => JsonModel::Num(x),
        JsonNode::Str(s) => JsonModel::Str(s@),
        JsonNode::Arr(items) => JsonModel::Arr(json_models(items@)),
        JsonNode::Obj(entries) => JsonModel::Obj(json_entry_models(entries@)),
    }
}

/// The mathematical shapes of a run of JSON trees.
pub open spec fn json_models(s: Seq<JsonNode>) -> Seq<JsonModel>
    decreases s,
        via json_models_decreases
{
    if s.len() == 0 {
        Seq::empty()
    } else {
        seq![json_model(s[0])] + json_models(s.drop_first())
    }
}

/// The mathematical shapes of a run of JSON object entries.
pub open spec fn json_entry_models(s: Seq<(String, JsonNode)>) -> Seq<(Seq<char>, JsonModel)>
    decreases s,
        via json_entry_models_decreases
{
    if s.len() == 0 {
        Seq::empty()
    } else {
        seq![(s[0].0@, json_model(s[0].1))] + json_entry_models(s.drop_first())
    }
}

#[via_fn]
proof fn json_model_decreases(n: JsonNode) {
    match n {
        JsonNode::Arr(items) => {
            vstd::std_specs::vec::axiom_vec_decreases_to_view(items);
        },
        JsonNode::Obj(entries) => {
            vstd::std_specs::vec::axiom_vec_decreases_to_view(entries);
        },
        _ => {},
    }
}

#[via_fn]
proof fn json_models_decreases(s: Seq<JsonNode>) {
    if s.len() > 0 {
        vstd::seq::axiom_seq_index_decreases(s, 0);
        vstd::seq::axiom_seq_subrange_decreases(s, 1, s.len() as int);
        assert(s.drop_first() == s.subrange(1, s.len() as int));
    }
}

#[via_fn]
proof fn json_entry_models_decreases(s: Seq<(String, JsonNode)>) {
    if s.len() > 0 {
        vstd::seq::axiom_seq_index_decreases(s, 0);
        vstd::seq::axiom_seq_subrange_decreases(s, 1, s.len() as int);
        assert(s.drop_first() == s.subrange(1, s.len() as int));
        assert(decreases_to!(s[0] => s[0].1));
    }
}

/// The value under the first occurrence of `key`, as an object reader
/// sees it.
pub open spec fn json_lookup(
    entries: Seq<(Seq<char>, JsonModel)>,
    key: Seq<char>,
) -> Option<JsonModel>
    decreases entries.len(),
{
    if entries.len() == 0 {
        Option::None
    } else if entries[0].0 == key {
        Option::Some(entries[0].1)
    } else {
        json_lookup(entries.drop_first(), key)
    }
}

/// The document form of a sizing method.
pub open spec fn method_doc(m: SizingMethod) -> JsonModel {
    JsonModel::Obj(
        seq![
            ("method"@, JsonModel::Str(m.spec_tag())),
            (
                "size"@,
                JsonModel::Num(
                    match m {
                        SizingMethod::SizeHeader(x) => x as u64,
                        SizingMethod::FixedSize(x) => x as u64,
                    },
                ),
            ),
        ],
    )
}

/// The document form of a chosen (or unset) data type.
pub open spec fn datatype_doc(dt: Option<PacketDataType>) -> JsonModel {
    match dt {
        Option::None => JsonModel::Null,
        Option::Some(PacketDataType::Bytes(m)) => JsonModel::Obj(
            seq![("sizing_method"@, method_doc(m))],
        ),
        Option::Some(t) => JsonModel::Str(t.spec_tag()),
    }
}

/// The document form of one field.
pub open spec fn field_doc(f: FieldModel) -> JsonModel {
    JsonModel::Obj(
        seq![
            ("index"@, JsonModel::Num(f.index as u64)),
            ("datatype"@, datatype_doc(f.datatype)),
            (
                "sizing_method"@,
                match f.sizing_method {
                    Option::None => JsonModel::Null,
                    Option::Some(m) => method_doc(m),
                },
            ),
            ("data_string"@, JsonModel::Str(f.value)),
        ],
    )
}

/// The document form of a whole packet.
pub open spec fn packet_doc(m: PacketModel) -> JsonModel {
    JsonModel::Obj(
        seq![
            ("index"@, JsonModel::Num(m.index as u64)),
            ("label"@, JsonModel::Str(m.label)),
            ("receive"@, JsonModel::Bool(m.receive)),
            ("fields"@, JsonModel::Arr(Seq::new(m.fields.len(), |i: int| field_doc(m.fields[i])))),
        ],
    )
}

/// The sizing method a document value names, if it is well-formed.
pub open spec fn parse_method(j: JsonModel) -> Option<SizingMethod> {
    match j {
        JsonModel::Obj(es) => match (json_lookup(es, "method"@), json_lookup(es, "size"@)) {
            (Option::Some(JsonModel::Str(tag)), Option::Some(JsonModel::Num(n))) => {
                if n > usize::MAX as u64 {
                    Option::None
                } else if tag == "FixedSize"@ {
                    Option::Some(SizingMethod::FixedSize(n as usize))
                } else if tag == "SizeHeader"@ {
                    Option::Some(SizingMethod::SizeHeader(n as usize))
                } else {
                    Option::None
                }
            },
            _ => Option::None,
        },
        _ => Option::None,
    }
}

/// The data type a document value names, if it is well-formed: `None` of
/// the outer option marks a missing key or a malformed value, `None` of
/// the inner one an unset type (written as an explicit `null`).
pub open spec fn parse_datatype(j: Option<JsonModel>) -> Option<Option<PacketDataType>> {
    match j {
        Option::None => Option::None,
        Option::Some(JsonModel::Null) => Option::Some(Option::None),
        Option::Some(JsonModel::Str(tag)) => {
            if tag == "CStr"@ {
                Option::Some(Option::Some(PacketDataType::CStr))
            } else if tag == "U64"@ {
                Option::Some(Option::Some(PacketDataType::U64))
            } else if tag == "U32"@ {
                Option::Some(Option::Some(PacketDataType::U32))
            } else if tag == "U16"@ {
                Option::Some(Option::Some(PacketDataType::U16))
            } else if tag == "U8"@ {
                Option::Some(Option::Some(PacketDataType::U8))
            } else if tag == "I64"@ {
                Option::Some(Option::Some(PacketDataType::I64))
            } else if tag == "I32"@ {
                Option::Some(Option::Some(PacketDataType::I32))
            } else if tag == "I16"@ {
                Option::Some(Option::Some(PacketDataType::I16))
            } else if tag == "I8"@ {
                Option::Some(Option::Some(PacketDataType::I8))
            } else {
                Option::None
            }
        },
        Option::Some(JsonModel::Obj(es)) => match json_lookup(es, "sizing_method"@) {
            Option::Some(inner) => match parse_method(inner) {
                Option::Some(m) => Option::Some(Option::Some(PacketDataType::Bytes(m))),
                Option::None => Option::None,
            },
            Option::None => Option::None,
        },
        _ => Option::None,
    }
}

/// The sizing method slot a document value names: `None` of the outer
/// option marks a missing key or a malformed value, `None` of the inner
/// one an empty slot (written as an explicit `null`).
pub open spec fn parse_sizing_slot(j: Option<JsonModel>) -> Option<Option<SizingMethod>> {
    match j {
        Option::None => Option::None,
        Option::Some(JsonModel::Null) => Option::Some(Option::None),
        Option::Some(inner) => match parse_method(inner) {
            Option::Some(m) => Option::Some(Option::Some(m)),
            Option::None => Option::None,
        },
    }
}

/// The field a document value describes, if it is well-formed.
pub open spec fn parse_field(j: JsonModel) -> Option<FieldModel> {
    match j {
        JsonModel::Obj(es) => match (json_lookup(es, "index"@), json_lookup(es, "data_string"@)) {
            (Option::Some(JsonModel::Num(n)), Option::Some(JsonModel::Str(s))) => {
                if n > usize::MAX as u64 {
                    Option::None
                } else {
                    match (
                        parse_datatype(json_lookup(es, "datatype"@)),
                        parse_sizing_slot(json_lookup(es, "sizing_method"@)),
                    ) {
                        (Option::Some(dt), Option::Some(sm)) => Option::Some(
                            FieldModel {
                                index: n as usize as int,
                                datatype: dt,
                                value: s,
                                sizing_method: sm,
                            },
                        ),
                        _ => Option::None,
                    }
                }
            },
            _ => Option::None,
        },
        _ => Option::None,
    }
}

/// The fields a document array describes, if every one is well-formed.
pub open spec fn parse_fields(items: Seq<JsonModel>) -> Option<Seq<FieldModel>>
    decreases items.len(),
{
    if items.len() == 0 {
        Option::Some(Seq::empty())
    } else {
        match parse_field(items[0]) {
            Option::None => Option::None,
            Option::Some(f) => match parse_fields(items.drop_first()) {
                Option::None => Option::None,
                Option::Some(rest) => Option::Some(seq![f] + rest),
            },
        }
    }
}

/// The model of a run of JSON trees, element by element.
pub proof fn lemma_json_models(s: Seq<JsonNode>)
    ensures
        json_models(s) =~= Seq::new(s.len(), |i: int| json_model(s[i])),
    decreases s.len(),
{
    if s.len() > 0 {
        lemma_json_models(s.drop_first());
        assert(json_models(s) =~= seq![json_model(s[0])] + json_models(s.drop_first()));
    }
}

/// The model of a run of JSON object entries, element by element.
pub proof fn lemma_json_entry_models(s: Seq<(String, JsonNode)>)
    ensures
        json_entry_models(s) =~= Seq::new(s.len(), |i: int| (s[i].0@, json_model(s[i].1))),
    decreases s.len(),
{
    if s.len() > 0 {
        lemma_json_entry_models(s.drop_first());
        assert(json_entry_models(s) =~= seq![(s[0].0@, json_model(s[0].1))] + json_entry_models(
            s.drop_first(),
        ));
    }
}

/// The packet a document describes, if it is well-formed.
pub open spec fn parse_packet(j: JsonModel) -> Option<PacketModel> {
    match j {
        JsonModel::Obj(es) => match (
            json_lookup(es, "index"@),
            json_lookup(es, "label"@),
            json_lookup(es, "receive"@),
            json_lookup(es, "fields"@),
        ) {
            (
                Option::Some(JsonModel::Num(n)),
                Option::Some(JsonModel::Str(label)),
                Option::Some(JsonModel::Bool(receive)),
                Option::Some(JsonModel::Arr(items)),
            ) => {
                if n > usize::MAX as u64 {
                    Option::None
                } else {
                    match parse_fields(items) {
                        Option::Some(fs) => Option::Some(
                            PacketModel {
                                index: n as usize as int,
                                label: label,
                                receive: receive,
                                fields: fs,
                            },
                        ),
                        Option::None => Option::None,
                    }
                }
            },
            _ => Option::None,
        },
        _ => Option::None,
    }
}

/// The first value under `key` in an object's entry list, if any.
fn find<'a>(entries: &'a Vec<(String, JsonNode)>, key: &str) -> (r: Option<&'a JsonNode>)
    ensures
        match r {
            Option::Some(n) => json_lookup(json_entry_models(entries@), key@)
                == Option::Some(json_model(*n)),
            Option::None => json_lookup(json_entry_models(entries@), key@) is None,
        },
{
    proof {
        lemma_json_entry_models(entries@);
    }
    let ghost mdl = json_entry_models(entries@);
    let n = entries.len();
    let mut j: usize = 0;
    proof {
        assert(mdl.skip(0) =~= mdl);
    }
    while j < n
        invariant
            n == entries@.len(),
            mdl == json_entry_models(entries@),
            mdl =~= Seq::new(
                entries@.len(),
                |i: int| (entries@[i].0@, json_model(entries@[i].1)),
            ),
            j <= n,
            json_lookup(mdl, key@) == json_lookup(mdl.skip(j as int), key@),
        decreases n - j,
    {
        proof {
            assert(mdl.skip(j as int)[0] == mdl[j as int]);
            assert(mdl.skip(j as int).drop_first() =~= mdl.skip(j as int + 1));
        }
        if crate::numeric::str_eq(entries[j].0.as_str(), key) {
            return Some(&entries[j].1);
        }
        j = j + 1;
    }
    proof {
        assert(mdl.skip(n as int) =~= Seq::<(Seq<char>, JsonModel)>::empty());
    }
    None
}

/// The model of the value behind an optional reference.
pub open spec fn opt_model(j: Option<&JsonNode>) -> Option<JsonModel> {
    match j {
        Option::None => Option::None,
        Option::Some(n) => Option::Some(json_model(*n)),
    }
}

/// Reads a sizing method out of its document form.
fn read_method(j: &JsonNode) -> (r: Option<SizingMethod>)
    ensures
        r == parse_method(json_model(*j)),
{
    match j {
        JsonNode::Obj(es) => {
            match (find(es, "method"), find(es, "size")) {
                (Some(tn), Some(sn)) => match (tn, sn) {
                    (JsonNode::Str(tag), JsonNode::Num(n)) => {
                        if *n > usize::MAX as u64 {
                            None
                        } else if crate::numeric::str_eq(tag.as_str(), "FixedSize") {
                            Some(SizingMethod::FixedSize(*n as usize))
                        } else if crate::numeric::str_eq(tag.as_str(), "SizeHeader") {
                            Some(SizingMethod::SizeHeader(*n as usize))
                        } else {
                            None
                        }
                    },
                    _ => None,
                },
                _ => None,
            }
        },
        _ => None,
    }
}

/// Reads a data type slot out of its document form.
fn read_datatype(j: Option<&JsonNode>) -> (r: Result<Option<PacketDataType>, PacketError>)
    ensures
        match r {
            Ok(dt) => parse_datatype(opt_model(j)) == Option::Some(dt),
            Err(e) => e == PacketError::MalformedDocument && parse_datatype(opt_model(j)) is None,
        },
{
    match j {
        None => Err(PacketError::MalformedDocument),
        Some(node) => match node {
            JsonNode::Null => Ok(None),
            JsonNode::Str(tag) => {
                if crate::numeric::str_eq(tag.as_str(), "CStr") {
                    Ok(Some(PacketDataType::CStr))
                } else if crate::numeric::str_eq(tag.as_str(), "U64") {
                    Ok(Some(PacketDataType::U64))
                } else if crate::numeric::str_eq(tag.as_str(), "U32") {
                    Ok(Some(PacketDataType::U32))
                } else if crate::numeric::str_eq(tag.as_str(), "U16") {
                    Ok(Some(PacketDataType::U16))
                } else if crate::numeric::str_eq(tag.as_str(), "U8") {
                    Ok(Some(PacketDataType::U8))
                } else if crate::numeric::str_eq(tag.as_str(), "I64") {
                    Ok(Some(PacketDataType::I64))
                } else if crate::numeric::str_eq(tag.as_str(), "I32") {
                    Ok(Some(PacketDataType::I32))
                } else if crate::numeric::str_eq(tag.as_str(), "I16") {
                    Ok(Some(PacketDataType::I16))
                } else if crate::numeric::str_eq(tag.as_str(), "I8") {
                    Ok(Some(PacketDataType::I8))
                } else {
                    Err(PacketError::MalformedDocument)
                }
            },
            JsonNode::Obj(es) => match find(es, "sizing_method") {
                Some(inner) => match read_method(inner) {
                    Some(m) => Ok(Some(PacketDataType::Bytes(m))),
                    None => Err(PacketError::MalformedDocument),
                },
                None => Err(PacketError::MalformedDocument),
            },
            _ => Err(PacketError::MalformedDocument),
        },
    }
}

/// Reads a sizing method slot out of its document form.
fn read_sizing_slot(j: Option<&JsonNode>) -> (r: Result<Option<SizingMethod>, PacketError>)
    ensures
        match r {
            Ok(sm) => parse_sizing_slot(opt_model(j)) == Option::Some(sm),
            Err(e) => e == PacketError::MalformedDocument && parse_sizing_slot(opt_model(j))
                is None,
        },
{
    match j {
        None => Err(PacketError::MalformedDocument),
        Some(node) => match node {
            JsonNode::Null => Ok(None),
            _ => match read_method(node) {
                Some(m) => Ok(Some(m)),
                None => Err(PacketError::MalformedDocument),
            },
        },
    }
}

/// Reads one field out of its document form.
fn read_field(j: &JsonNode) -> (r: Result<PacketField, PacketError>)
    ensures
        match r {
            Ok(f) => parse_field(json_model(*j)) == Option::Some(f@),
            Err(e) => e == PacketError::MalformedDocument && parse_field(json_model(*j)) is None,
        },
{
    match j {
        JsonNode::Obj(es) => {
            match (find(es, "index"), find(es, "data_string")) {
                (Some(ixn), Some(dsn)) => match (ixn, dsn) {
                    (JsonNode::Num(n), JsonNode::Str(s)) => {
                        if *n > usize::MAX as u64 {
                            return Err(PacketError::MalformedDocument);
                        }
                        let dt = match read_datatype(find(es, "datatype")) {
                            Ok(d) => d,
                            Err(e) => {
                                return Err(e);
                            },
                        };
                        let sm = match read_sizing_slot(find(es, "sizing_method")) {
                            Ok(x) => x,
                            Err(e) => {
                                return Err(e);
                            },
                        };
                        Ok(
                            PacketField {
                                index: *n as usize,
                                datatype: dt,
                                data_string: s.clone(),
                                sizing_method: sm,
                            },
                        )
                    },
                    _ => Err(PacketError::MalformedDocument),
                },
                _ => Err(PacketError::MalformedDocument),
            }
        },
        _ => Err(PacketError::MalformedDocument),
    }
}

/// Builds the document form of a sizing method.
fn method_to_doc(m: SizingMethod) -> (j: JsonNode)
    ensures
        json_model(j) == method_doc(m),
{
    let mut es: Vec<(String, JsonNode)> = Vec::new();
    let tagtext = <String as vstd::string::StringExecFns>::from_str(m.tag());
    es.push((<String as vstd::string::StringExecFns>::from_str("method"), JsonNode::Str(tagtext)));
    let size: u64 = match m {
        SizingMethod::SizeHeader(x) => x as u64,
        SizingMethod::FixedSize(x) => x as u64,
    };
    es.push((<String as vstd::string::StringExecFns>::from_str("size"), JsonNode::Num(size)));
    let j = JsonNode::Obj(es);
    proof {
        match &j {
            JsonNode::Obj(v) => {
                lemma_json_entry_models(v@);
                assert(json_entry_models(v@) =~= (match method_doc(m) {
                    JsonModel::Obj(w) => w,
                    _ => Seq::empty(),
                }));
            },
            _ => {},
        }
    }
    j
}

/// Builds the document form of a data type slot.
fn datatype_to_doc(dt: &Option<PacketDataType>) -> (j: JsonNode)
    ensures
        json_model(j) == datatype_doc(*dt),
{
    match dt {
        None => JsonNode::Null,
        Some(PacketDataType::Bytes(m)) => {
            let mut es: Vec<(String, JsonNode)> = Vec::new();
            es.push((<String as vstd::string::StringExecFns>::from_str("sizing_method"), method_to_doc(*m)));
            let j = JsonNode::Obj(es);
            proof {
                match &j {
                    JsonNode::Obj(v) => {
                        lemma_json_entry_models(v@);
                        assert(json_entry_models(v@) =~= (match datatype_doc(*dt) {
                            JsonModel::Obj(w) => w,
                            _ => Seq::empty(),
                        }));
                    },
                    _ => {},
                }
            }
            j
        },
        Some(t) => JsonNode::Str(<String as vstd::string::StringExecFns>::from_str(t.tag())),
    }
}

/// Builds the document form of one field.
fn field_to_doc(f: &PacketField) -> (j: JsonNode)
    ensures
        json_model(j) == field_doc(f@),
{
    let mut es: Vec<(String, JsonNode)> = Vec::new();
    es.push((<String as vstd::string::StringExecFns>::from_str("index"), JsonNode::Num(f.index as u64)));
    es.push((<String as vstd::string::StringExecFns>::from_str("datatype"), datatype_to_doc(&f.datatype)));
    let slot = match f.sizing_method {
        None => JsonNode::Null,
        Some(m) => method_to_doc(m),
    };
    es.push((<String as vstd::string::StringExecFns>::from_str("sizing_method"), slot));
    es.push(
        (<String as vstd::string::StringExecFns>::from_str("data_string"), JsonNode::Str(
            f.data_string.clone(),
        )),
    );
    let j = JsonNode::Obj(es);
    proof {
        match &j {
            JsonNode::Obj(v) => {
                lemma_json_entry_models(v@);
                assert(json_entry_models(v@) =~= (match field_doc(f@) {
                    JsonModel::Obj(w) => w,
                    _ => Seq::empty(),
                }));
            },
            _ => {},
        }
    }
    j
}

impl PacketView {
    /// The document form of this packet, ready to be rendered as text.
    pub fn to_document(&self) -> (j: JsonNode)
        ensures
            json_model(j) == packet_doc(self@),
    {
        let n = self.fields.len();
        let mut items: Vec<JsonNode> = Vec::new();
        let mut i: usize = 0;
        while i < n
            invariant
                n == self.fields@.len(),
                i <= n,
                items@.len() == i,
                forall|k: int|
                    0 <= k < i ==> json_model(#[trigger] items@[k]) == field_doc(
                        self@.fields[k],
                    ),
            decreases n - i,
        {
            let d = field_to_doc(&self.fields[i]);
            items.push(d);
            i = i + 1;
        }
        let mut es: Vec<(String, JsonNode)> = Vec::new();
        es.push((<String as vstd::string::StringExecFns>::from_str("index"), JsonNode::Num(
            self.index as u64,
        )));
        es.push((<String as vstd::string::StringExecFns>::from_str("label"), JsonNode::Str(
            self.label.clone(),
        )));
        es.push((<String as vstd::string::StringExecFns>::from_str("receive"), JsonNode::Bool(self.receive)));
        es.push((<String as vstd::string::StringExecFns>::from_str("fields"), JsonNode::Arr(items)));
        let j = JsonNode::Obj(es);
        proof {
            match &j {
                JsonNode::Obj(v) => {
                    lemma_json_entry_models(v@);
                    match v@[3].1 {
                        JsonNode::Arr(arr) => {
                            lemma_json_models(arr@);
                            assert(json_models(arr@) =~= Seq::new(
                                self@.fields.len(),
                                |k: int| field_doc(self@.fields[k]),
                            ));
                        },
                        _ => {},
                    }
                    assert(json_entry_models(v@) =~= (match packet_doc(self@) {
                        JsonModel::Obj(w) => w,
                        _ => Seq::empty(),
                    }));
                },
                _ => {},
            }
        }
        j
    }

    /// Reads a packet out of its document form. Fails with
    /// `MalformedDocument` exactly when a required key is absent or a value
    /// has the wrong shape.
    pub fn from_document(j: &JsonNode) -> (r: Result<PacketView, PacketError>)
        ensures
            match r {
                Ok(p) => parse_packet(json_model(*j)) == Option::Some(p@),
                Err(e) => e == PacketError::MalformedDocument && parse_packet(json_model(*j))
                    is None,
            },
    {
        match j {
            JsonNode::Obj(es) => {
                match (find(es, "index"), find(es, "label"), find(es, "receive"), find(
                    es,
                    "fields",
                )) {
                    (Some(ixn), Some(ln), Some(rn), Some(fn_)) => match (ixn, ln, rn, fn_) {
                        (
                            JsonNode::Num(n),
                            JsonNode::Str(label),
                            JsonNode::Bool(receive),
                            JsonNode::Arr(items),
                        ) => {
                            if *n > usize::MAX as u64 {
                                return Err(PacketError::MalformedDocument);
                            }
                            proof {
                                lemma_json_models(items@);
                            }
                            let ghost im = json_models(items@);
                            let count = items.len();
                            let mut fields: Vec<PacketField> = Vec::new();
                            let mut k: usize = 0;
                            proof {
                                assert(im.skip(0) =~= im);
                            }
                            while k < count
                                invariant
                                    count == items@.len(),
                                    im == json_models(items@),
                                    im =~= Seq::new(
                                        items@.len(),
                                        |x: int| json_model(items@[x]),
                                    ),
                                    k <= count,
                                    fields@.len() == k,
                                    parse_packet(json_model(*j)) == (match parse_fields(im) {
                                        Option::Some(fs) => Option::Some(
                                            (PacketModel {
                                                index: (*n) as usize as int,
                                                label: label@,
                                                receive: *receive,
                                                fields: fs,
                                            }),
                                        ),
                                        Option::None => Option::None::<PacketModel>,
                                    }),
                                    parse_fields(im) == (match parse_fields(im.skip(k as int)) {
                                        Option::Some(rest) => Option::Some(
                                            crate::packet::fields_model(fields@) + rest,
                                        ),
                                        Option::None => Option::None::<Seq<FieldModel>>,
                                    }),
                                decreases count - k,
                            {
                                proof {
                                    assert(im.skip(k as int)[0] == im[k as int]);
                                    assert(im.skip(k as int).drop_first() =~= im.skip(
                                        k as int + 1,
                                    ));
                                }
                                match read_field(&items[k]) {
                                    Err(e) => {
                                        return Err(e);
                                    },
                                    Ok(f) => {
                                        let ghost oldm = crate::packet::fields_model(fields@);
                                        fields.push(f);
                                        proof {
                                            assert(crate::packet::fields_model(fields@)
                                                =~= oldm.push(f@));
                                            if parse_fields(im.skip(k as int + 1)) is Some {
                                                let rest = parse_fields(
                                                    im.skip(k as int + 1),
                                                )->Some_0;
                                                assert(oldm + (seq![f@] + rest) =~= oldm.push(f@)
                                                    + rest);
                                            }
                                        }
                                    },
                                }
                                k = k + 1;
                            }
                            proof {
                                assert(im.skip(count as int) =~= Seq::<JsonModel>::empty());
                                assert(crate::packet::fields_model(fields@) + Seq::<
                                    FieldModel,
                                >::empty() =~= crate::packet::fields_model(fields@));
                            }
                            Ok(
                                PacketView {
                                    index: *n as usize,
                                    label: label.clone(),
                                    receive: *receive,
                                    fields,
                                },
                            )
                        },
                        _ => Err(PacketError::MalformedDocument),
                    },
                    _ => Err(PacketError::MalformedDocument),
                }
            },
            _ => Err(PacketError::MalformedDocument),
        }
    }
}

proof fn lemma_lookup1(a: (Seq<char>, JsonModel), key: Seq<char>)
    ensures
        json_lookup(seq![a], key) == if a.0 == key {
            Option::Some(a.1)
        } else {
            Option::None::<JsonModel>
        },
{
    assert(seq![a].drop_first() =~= Seq::<(Seq<char>, JsonModel)>::empty());
    assert(json_lookup(Seq::<(Seq<char>, JsonModel)>::empty(), key) is None);
}

proof fn lemma_lookup2(a: (Seq<char>, JsonModel), b: (Seq<char>, JsonModel), key: Seq<char>)
    ensures
        json_lookup(seq![a, b], key) == if a.0 == key {
            Option::Some(a.1)
        } else if b.0 == key {
            Option::Some(b.1)
        } else {
            Option::None::<JsonModel>
        },
{
    assert(seq![a, b].drop_first() =~= seq![b]);
    lemma_lookup1(b, key);
}

proof fn lemma_lookup4(
    a: (Seq<char>, JsonModel),
    b: (Seq<char>, JsonModel),
    c: (Seq<char>, JsonModel),
    d: (Seq<char>, JsonModel),
    key: Seq<char>,
)
    ensures
        json_lookup(seq![a, b, c, d], key) == if a.0 == key {
            Option::Some(a.1)
        } else if b.0 == key {
            Option::Some(b.1)
        } else if c.0 == key {
            Option::Some(c.1)
        } else if d.0 == key {
            Option::Some(d.1)
        } else {
            Option::None::<JsonModel>
        },
{
    assert(seq![a, b, c, d].drop_first() =~= seq![b, c, d]);
    assert(seq![b, c, d].drop_first() =~= seq![c, d]);
    assert(seq![c, d].drop_first() =~= seq![d]);
    lemma_lookup2(c, d, key);
    assert(json_lookup(seq![b, c, d], key) == if b.0 == key {
        Option::Some(b.1)
    } else {
        json_lookup(seq![c, d], key)
    });
}

/// Round trip for sizing methods: writing one and reading it back gives
/// it back.
pub proof fn lemma_method_roundtrip(m: SizingMethod)
    ensures
        parse_method(method_doc(m)) == Option::Some(m),
{
    lemma_doc_lits();
    reveal_strlit("method");
    reveal_strlit("size");
    reveal_strlit("FixedSize");
    reveal_strlit("SizeHeader");
    let x: u64 = match m {
        SizingMethod::SizeHeader(y) => y as u64,
        SizingMethod::FixedSize(y) => y as u64,
    };
    let e0 = ("method"@, JsonModel::Str(m.spec_tag()));
    let e1 = ("size"@, JsonModel::Num(x));
    let esm = (match method_doc(m) {
        JsonModel::Obj(w) => w,
        _ => Seq::<(Seq<char>, JsonModel)>::empty(),
    });
    assert(esm =~= seq![e0, e1]);
    lemma_lookup2(e0, e1, "method"@);
    lemma_lookup2(e0, e1, "size"@);
    match m {
        SizingMethod::FixedSize(y) => {
            assert(m.spec_tag() == "FixedSize"@);
            assert(x <= usize::MAX as u64);
            assert((x as usize) == y);
        },
        SizingMethod::SizeHeader(y) => {
            assert(m.spec_tag() == "SizeHeader"@);
            assert(m.spec_tag() != "FixedSize"@);
            assert(x <= usize::MAX as u64);
            assert((x as usize) == y);
        },
    }
}

/// Round trip for data type slots: writing one and reading it back gives
/// it back.
pub proof fn lemma_datatype_roundtrip(dt: Option<PacketDataType>)
    ensures
        parse_datatype(Option::Some(datatype_doc(dt))) == Option::Some(dt),
{
    lemma_doc_lits();
    reveal_strlit("sizing_method");
    reveal_strlit("Bytes");
    reveal_strlit("CStr");
    reveal_strlit("U64");
    reveal_strlit("U32");
    reveal_strlit("U16");
    reveal_strlit("U8");
    reveal_strlit("I64");
    reveal_strlit("I32");
    reveal_strlit("I16");
    reveal_strlit("I8");
    match dt {
        Option::Some(PacketDataType::Bytes(m)) => {
            let esd = (match datatype_doc(dt) {
                JsonModel::Obj(w) => w,
                _ => Seq::<(Seq<char>, JsonModel)>::empty(),
            });
            assert(esd =~= seq![("sizing_method"@, method_doc(m))]);
            lemma_lookup1(("sizing_method"@, method_doc(m)), "sizing_method"@);
            lemma_method_roundtrip(m);
        },
        _ => {},
    }
}

/// Round trip for single fields: writing one and reading it back gives it
/// back, for any field whose position a machine index can hold.
pub proof fn lemma_field_roundtrip(f: FieldModel)
    requires
        0 <= f.index <= usize::MAX as int,
    ensures
        parse_field(field_doc(f)) == Option::Some(f),
{
    lemma_doc_lits();
    reveal_strlit("index");
    reveal_strlit("datatype");
    reveal_strlit("sizing_method");
    reveal_strlit("data_string");
    let e0 = ("index"@, JsonModel::Num(f.index as u64));
    let e1 = ("datatype"@, datatype_doc(f.datatype));
    let e2 = (
        "sizing_method"@,
        match f.sizing_method {
            Option::None => JsonModel::Null,
            Option::Some(m) => method_doc(m),
        },
    );
    let e3 = ("data_string"@, JsonModel::Str(f.value));
    let esf = (match field_doc(f) {
        JsonModel::Obj(w) => w,
        _ => Seq::<(Seq<char>, JsonModel)>::empty(),
    });
    assert(esf =~= seq![e0, e1, e2, e3]);
    lemma_lookup4(e0, e1, e2, e3, "index"@);
    lemma_lookup4(e0, e1, e2, e3, "datatype"@);
    lemma_lookup4(e0, e1, e2, e3, "sizing_method"@);
    lemma_lookup4(e0, e1, e2, e3, "data_string"@);
    lemma_datatype_roundtrip(f.datatype);
    match f.sizing_method {
        Option::Some(m) => {
            lemma_method_roundtrip(m);
        },
        Option::None => {},
    }
}

/// Round trip for field runs, in order.
pub proof fn lemma_fields_roundtrip(fs: Seq<FieldModel>)
    requires
        forall|i: int|
            0 <= i < fs.len() ==> 0 <= (#[trigger] fs[i]).index <= usize::MAX as int,
    ensures
        parse_fields(Seq::new(fs.len(), |i: int| field_doc(fs[i]))) == Option::Some(fs),
    decreases fs.len(),
{
    let docs = Seq::new(fs.len(), |i: int| field_doc(fs[i]));
    if fs.len() == 0 {
        assert(docs =~= Seq::<JsonModel>::empty());
    } else {
        lemma_field_roundtrip(fs[0]);
        lemma_fields_roundtrip(fs.drop_first());
        let rest = Seq::new(fs.drop_first().len(), |i: int| field_doc(fs.drop_first()[i]));
        assert(docs.drop_first() =~= rest);
        assert(docs[0] == field_doc(fs[0]));
        assert(seq![fs[0]] + fs.drop_first() =~= fs);
    }
}

/// Round trip for persistence: saving a packet as a document and loading
/// that document reproduces the packet exactly — its name, its mode, its
/// field order, and every field's type, value and sizing method — for any
/// packet whose positions a machine index can hold.
pub proof fn lemma_document_roundtrip(m: PacketModel)
    requires
        0 <= m.index <= usize::MAX as int,
        forall|i: int|
            0 <= i < m.fields.len() ==> 0 <= (#[trigger] m.fields[i]).index <= usize::MAX as int,
    ensures
        parse_packet(packet_doc(m)) == Option::Some(m),
{
    lemma_doc_lits();
    reveal_strlit("index");
    reveal_strlit("label");
    reveal_strlit("receive");
    reveal_strlit("fields");
    let e0 = ("index"@, JsonModel::Num(m.index as u64));
    let e1 = ("label"@, JsonModel::Str(m.label));
    let e2 = ("receive"@, JsonModel::Bool(m.receive));
    let e3 = (
        "fields"@,
        JsonModel::Arr(Seq::new(m.fields.len(), |i: int| field_doc(m.fields[i]))),
    );
    let esp = (match packet_doc(m) {
        JsonModel::Obj(w) => w,
        _ => Seq::<(Seq<char>, JsonModel)>::empty(),
    });
    assert(esp =~= seq![e0, e1, e2, e3]);
    lemma_lookup4(e0, e1, e2, e3, "index"@);
    lemma_lookup4(e0, e1, e2, e3, "label"@);
    lemma_lookup4(e0, e1, e2, e3, "receive"@);
    lemma_lookup4(e0, e1, e2, e3, "fields"@);
    lemma_fields_roundtrip(m.fields);
}

/// The characters of every key and name the document format uses.
proof fn lemma_doc_lits()
    ensures
        "method"@ == seq!['m', 'e', 't', 'h', 'o', 'd'],
        "size"@ == seq!['s', 'i', 'z', 'e'],
        "FixedSize"@ == seq!['F', 'i', 'x', 'e', 'd', 'S', 'i', 'z', 'e'],
        "SizeHeader"@ == seq!['S', 'i', 'z', 'e', 'H', 'e', 'a', 'd', 'e', 'r'],
        "index"@ == seq!['i', 'n', 'd', 'e', 'x'],
        "label"@ == seq!['l', 'a', 'b', 'e', 'l'],
        "receive"@ == seq!['r', 'e', 'c', 'e', 'i', 'v', 'e'],
        "fields"@ == seq!['f', 'i', 'e', 'l', 'd', 's'],
        "datatype"@ == seq!['d', 'a', 't', 'a', 't', 'y', 'p', 'e'],
        "sizing_method"@ == seq!['s', 'i', 'z', 'i', 'n', 'g', '_', 'm', 'e', 't', 'h', 'o', 'd'],
        "data_string"@ == seq!['d', 'a', 't', 'a', '_', 's', 't', 'r', 'i', 'n', 'g'],
        "Bytes"@ == seq!['B', 'y', 't', 'e', 's'],
        "CStr"@ == seq!['C', 'S', 't', 'r'],
        "U64"@ == seq!['U', '6', '4'],
        "U32"@ == seq!['U', '3', '2'],
        "U16"@ == seq!['U', '1', '6'],
        "U8"@ == seq!['U', '8'],
        "I64"@ == seq!['I', '6', '4'],
        "I32"@ == seq!['I', '3', '2'],
        "I16"@ == seq!['I', '1', '6'],
        "I8"@ == seq!['I', '8'],
{
    reveal_strlit("method");
    reveal_strlit("size");
    reveal_strlit("FixedSize");
    reveal_strlit("SizeHeader");
    reveal_strlit("index");
    reveal_strlit("label");
    reveal_strlit("receive");
    reveal_strlit("fields");
    reveal_strlit("datatype");
    reveal_strlit("sizing_method");
    reveal_strlit("data_string");
    reveal_strlit("Bytes");
    reveal_strlit("CStr");
    reveal_strlit("U64");
    reveal_strlit("U32");
    reveal_strlit("U16");
    reveal_strlit("U8");
    reveal_strlit("I64");
    reveal_strlit("I32");
    reveal_strlit("I16");
    reveal_strlit("I8");
    assert("method"@ =~= seq!['m', 'e', 't', 'h', 'o', 'd']);
    assert("size"@ =~= seq!['s', 'i', 'z', 'e']);
    assert("FixedSize"@ =~= seq!['F', 'i', 'x', 'e', 'd', 'S', 'i', 'z', 'e']);
    assert("SizeHeader"@ =~= seq!['S', 'i', 'z', 'e', 'H', 'e', 'a', 'd', 'e', 'r']);
    assert("index"@ =~= seq!['i', 'n', 'd', 'e', 'x']);
    assert("label"@ =~= seq!['l', 'a', 'b', 'e', 'l']);
    assert("receive"@ =~= seq!['r', 'e', 'c', 'e', 'i', 'v', 'e']);
    assert("fields"@ =~= seq!['f', 'i', 'e', 'l', 'd', 's']);
    assert("datatype"@ =~= seq!['d', 'a', 't', 'a', 't', 'y', 'p', 'e']);
    assert("sizing_method"@ =~= seq!['s', 'i', 'z', 'i', 'n', 'g', '_', 'm', 'e', 't', 'h', 'o', 'd']);
    assert("data_string"@ =~= seq!['d', 'a', 't', 'a', '_', 's', 't', 'r', 'i', 'n', 'g']);
    assert("Bytes"@ =~= seq!['B', 'y', 't', 'e', 's']);
    assert("CStr"@ =~= seq!['C', 'S', 't', 'r']);
    assert("U64"@ =~= seq!['U', '6', '4']);
    assert("U32"@ =~= seq!['U', '3', '2']);
    assert("U16"@ =~= seq!['U', '1', '6']);
    assert("U8"@ =~= seq!['U', '8']);
    assert("I64"@ =~= seq!['I', '6', '4']);
    assert("I32"@ =~= seq!['I', '3', '2']);
    assert("I16"@ =~= seq!['I', '1', '6']);
    assert("I8"@ =~= seq!['I', '8']);
}

} // verus!


