//! Packet schemas: typed fields, their ordering invariant, and the editor
//! operations that mutate them.

use vstd::prelude::*;

use crate::codec::{
    encode_cstr, encode_scalar, spec_field_encode, spec_packet_encode, valid_literal,
};
use crate::numeric::{
    dec_str, dec_val, is_dash, is_dec_digits, parse_dec_i64, parse_dec_u64, pow256, u64_to_dec,
};
use crate::PacketError;

verus! {

/// The wire representation of one field.
///
/// The fixed-width variants occupy 1, 2, 4 or 8 bytes, little-endian (the
/// native order on the targets this codec runs on). `CStr` is text followed
/// by one zero byte. `Bytes` is an opaque blob whose length comes from its
/// [`SizingMethod`] at encode or decode time, not from the type.
#[derive(Debug, Clone, Copy, PartialEq, Eq, Structural)]
pub enum PacketDataType {
    Bytes(SizingMethod),
    CStr,
    U64,
    U32,
    U16,
    U8,
    I64,
    I32,
    I16,
    I8,
}

/// How the byte count of a blob field is resolved: a literal count, or the
/// numeric value of the field at the given index within the same packet.
#[derive(Debug, Clone, Copy, PartialEq, Eq, Structural)]
pub enum SizingMethod {
    SizeHeader(usize),
    FixedSize(usize),
}

impl PacketDataType {
    /// Fixed-width scalar types: everything but blobs and strings.
    pub open spec fn is_fixed_width(self) -> bool {
        !(self is Bytes || self is CStr)
    }

    /// The byte width of a fixed-width type.
    pub open spec fn spec_width(self) -> nat {
        match self {
            PacketDataType::U64 | PacketDataType::I64 => 8,
            PacketDataType::U32 | PacketDataType::I32 => 4,
            PacketDataType::U16 | PacketDataType::I16 => 2,
            _ => 1,
        }
    }

    /// Signed scalar types.
    pub open spec fn is_signed(self) -> bool {
        self is I8 || self is I16 || self is I32 || self is I64
    }

    /// The smallest value the type can represent.
    pub open spec fn min_val(self) -> int {
        if self.is_signed() {
            -((pow256(self.spec_width()) / 2) as int)
        } else {
            0
        }
    }

    /// The largest value the type can represent.
    pub open spec fn max_val(self) -> int {
        if self.is_signed() {
            pow256(self.spec_width()) / 2 - 1
        } else {
            pow256(self.spec_width()) - 1
        }
    }

    /// Whether `v` is representable in this type.
    pub open spec fn in_range(self, v: int) -> bool {
        self.min_val() <= v <= self.max_val()
    }

    /// The byte width of a fixed-width type. Variable-length types have no
    /// width; callers must not ask for one.
    pub fn data_size(&self) -> (n: usize)
        requires
            self.is_fixed_width(),
        ensures
            n == self.spec_width(),
    {
        match self {
            PacketDataType::Bytes(_) | PacketDataType::CStr => {
                proof {
                    assert(false);
                }
                0
            },
            PacketDataType::U64 | PacketDataType::I64 => 8,
            PacketDataType::U32 | PacketDataType::I32 => 4,
            PacketDataType::U16 | PacketDataType::I16 => 2,
            PacketDataType::U8 | PacketDataType::I8 => 1,
        }
    }

    /// Reads `dat`, a wire run of exactly this type's width, as a value of
    /// this type and writes it in decimal form.
    pub fn bytes_to_val(&self, dat: Vec<u8>) -> (r: String)
        requires
            self.is_fixed_width(),
            dat@.len() == self.spec_width(),
        ensures
            r@ == crate::numeric::int_dec_str(crate::codec::scalar_val(*self, dat@)),
    {
        crate::codec::decode_scalar(*self, dat.as_slice())
    }

    /// The name this type carries in a persisted document.
    pub open spec fn spec_tag(self) -> Seq<char> {
        match self {
            PacketDataType::Bytes(_) => "Bytes"@,
            PacketDataType::CStr => "CStr"@,
            PacketDataType::U64 => "U64"@,
            PacketDataType::U32 => "U32"@,
            PacketDataType::U16 => "U16"@,
            PacketDataType::U8 => "U8"@,
            PacketDataType::I64 => "I64"@,
            PacketDataType::I32 => "I32"@,
            PacketDataType::I16 => "I16"@,
            PacketDataType::I8 => "I8"@,
        }
    }

    /// The display and document name of this type.
    pub fn tag(&self) -> (r: &'static str)
        ensures
            r@ == self.spec_tag(),
    {
        match self {
            PacketDataType::Bytes(_) => "Bytes",
            PacketDataType::CStr => "CStr",
            PacketDataType::U64 => "U64",
            PacketDataType::U32 => "U32",
            PacketDataType::U16 => "U16",
            PacketDataType::U8 => "U8",
            PacketDataType::I64 => "I64",
            PacketDataType::I32 => "I32",
            PacketDataType::I16 => "I16",
            PacketDataType::I8 => "I8",
        }
    }
}

/// One schema entry: a position, a chosen wire representation, a textual
/// value buffer, and — for blob fields — a sizing method.
///
/// The value buffer holds the decimal form of scalar values, the literal
/// text of `CStr` values, and a file path for blob fields in send mode.
pub struct PacketField {
    pub index: usize,
    pub datatype: Option<PacketDataType>,
    pub data_string: String,
    pub sizing_method: Option<SizingMethod>,
}

/// The mathematical shape of a [`PacketField`].
pub struct FieldModel {
    pub index: int,
    pub datatype: Option<PacketDataType>,
    pub value: Seq<char>,
    pub sizing_method: Option<SizingMethod>,
}

impl View for PacketField {
    type V = FieldModel;

    open spec fn view(&self) -> FieldModel {
        FieldModel {
            index: self.index as int,
            datatype: self.datatype,
            value: self.data_string@,
            sizing_method: self.sizing_method,
        }
    }
}

/// Whether `s` may stand in the value buffer of a field of type `dt`:
/// the empty string always; any text for unset, blob and string fields;
/// for integer fields a literal the type accepts, or a lone minus sign
/// while a signed value is being typed.
pub open spec fn spec_valid_entry(dt: Option<PacketDataType>, s: Seq<char>) -> bool {
    if s.len() == 0 {
        true
    } else {
        match dt {
            Option::None => true,
            Option::Some(d) => {
                if !d.is_fixed_width() {
                    true
                } else if d.is_signed() {
                    valid_literal(d, s) || s == seq!['-']
                } else {
                    valid_literal(d, s)
                }
            },
        }
    }
}

impl PacketField {
    /// A fresh field at `index`: no data type chosen, empty value buffer,
    /// no sizing method.
    pub fn new(index: usize) -> (r: PacketField)
        ensures
            r@ == (FieldModel {
                index: index as int,
                datatype: Option::None,
                value: Seq::<char>::empty(),
                sizing_method: Option::None,
            }),
    {
        PacketField { index, datatype: None, data_string: String::new(), sizing_method: None }
    }

    /// A field with the same content, safe to hand out of the packet.
    pub fn duplicate(&self) -> (r: PacketField)
        ensures
            r@ == self@,
    {
        PacketField {
            index: self.index,
            datatype: self.datatype,
            data_string: self.data_string.clone(),
            sizing_method: self.sizing_method,
        }
    }

    /// Whether `dat_str` may replace this field's value buffer.
    pub fn is_valid_entry(&self, dat_str: &str) -> (r: bool)
        ensures
            r == spec_valid_entry(self@.datatype, dat_str@),
    {
        proof {
            crate::numeric::lemma_pow256_values();
        }
        if dat_str.is_empty() {
            return true;
        }
        match self.datatype {
            None => true,
            Some(dt) => match dt {
                PacketDataType::Bytes(_) | PacketDataType::CStr => true,
                PacketDataType::U64 => parse_dec_u64(dat_str, 0xffff_ffff_ffff_ffff).is_some(),
                PacketDataType::U32 => parse_dec_u64(dat_str, 4294967295).is_some(),
                PacketDataType::U16 => parse_dec_u64(dat_str, 65535).is_some(),
                PacketDataType::U8 => parse_dec_u64(dat_str, 255).is_some(),
                PacketDataType::I64 => parse_dec_i64(
                    dat_str,
                    0x8000_0000_0000_0000,
                    0x7fff_ffff_ffff_ffff,
                ).is_some() || is_dash(dat_str),
                PacketDataType::I32 => parse_dec_i64(dat_str, 2147483648, 2147483647).is_some()
                    || is_dash(dat_str),
                PacketDataType::I16 => parse_dec_i64(dat_str, 32768, 32767).is_some() || is_dash(
                    dat_str,
                ),
                PacketDataType::I8 => parse_dec_i64(dat_str, 128, 127).is_some() || is_dash(
                    dat_str,
                ),
            },
        }
    }

    /// Replaces the value buffer when `dat` is a valid entry for the
    /// field's type; an invalid entry is rejected without mutation.
    pub fn set_value(&mut self, dat: String) -> (applied: bool)
        ensures
            applied == spec_valid_entry(old(self)@.datatype, dat@),
            applied ==> final(self)@ == (FieldModel { value: dat@, ..old(self)@ }),
            !applied ==> final(self)@ == old(self)@,
    {
        if self.is_valid_entry(dat.as_str()) {
            self.data_string = dat;
            true
        } else {
            false
        }
    }

    /// Chooses the wire representation of this field.
    pub fn set_data_type(&mut self, t: PacketDataType)
        ensures
            final(self)@ == (FieldModel { datatype: Option::Some(t), ..old(self)@ }),
    {
        self.datatype = Some(t);
    }

    /// Encodes this field. Scalar and string fields encode their value
    /// buffer; a blob field contributes `blob`, the bytes its caller read
    /// from the field's source; a field with no chosen type encodes as no
    /// bytes at all.
    pub fn to_bytes(&self, blob: &Vec<u8>) -> (r: Result<Vec<u8>, PacketError>)
        ensures
            match r {
                Ok(b) => spec_field_encode(self@, blob@) == Ok::<Seq<u8>, PacketError>(b@),
                Err(e) => spec_field_encode(self@, blob@) == Err::<Seq<u8>, PacketError>(e),
            },
    {
        match self.datatype {
            None => Ok(Vec::new()),
            Some(dt) => match dt {
                PacketDataType::Bytes(_) => Ok(vstd::slice::slice_to_vec(blob.as_slice())),
                PacketDataType::CStr => encode_cstr(self.data_string.as_str()),
                _ => encode_scalar(dt, self.data_string.as_str()),
            },
        }
    }
}

impl SizingMethod {
    /// The name this method carries in a persisted document.
    pub open spec fn spec_tag(self) -> Seq<char> {
        match self {
            SizingMethod::SizeHeader(_) => "SizeHeader"@,
            SizingMethod::FixedSize(_) => "FixedSize"@,
        }
    }

    /// The display and document name of this method.
    pub fn tag(&self) -> (r: &'static str)
        ensures
            r@ == self.spec_tag(),
    {
        match self {
            SizingMethod::SizeHeader(_) => "SizeHeader",
            SizingMethod::FixedSize(_) => "FixedSize",
        }
    }

    /// The send-mode side effect of a blob field's sizing method, run when
    /// the blob's source changes: a header reference overwrites the
    /// referenced field's value with the source's byte count in decimal
    /// text. `file_len` carries that count; `None` — the source could not
    /// be measured — leaves the packet unchanged, as do a literal-count
    /// method, receive mode, and a reference that names no field.
    pub fn update(&self, view: &mut PacketView, file_len: Option<u64>)
        ensures
            ({
                let m = old(view)@;
                match (*self, file_len) {
                    (SizingMethod::SizeHeader(h), Option::Some(l)) => {
                        if !m.receive && h < m.fields.len() {
                            final(view)@ == with_value(m, h as int, dec_str(l as nat))
                        } else {
                            final(view)@ == m
                        }
                    },
                    _ => final(view)@ == m,
                }
            }),
    {
        match self {
            SizingMethod::FixedSize(_) => (),
            SizingMethod::SizeHeader(h) => {
                if !view.receive && *h < view.fields.len() {
                    if let Some(l) = file_len {
                        let txt = u64_to_dec(l);
                        let old_f = view.fields[*h].duplicate();
                        let nf = PacketField {
                            index: old_f.index,
                            datatype: old_f.datatype,
                            data_string: txt,
                            sizing_method: old_f.sizing_method,
                        };
                        view.set_field(*h, nf);
                    }
                }
            },
        }
    }
}

/// One packet schema: an ordered, index-addressed list of fields, a display
/// name, a position within the session's packet list, and a mode flag
/// (receive, or send when clear).
pub struct PacketView {
    pub index: usize,
    pub label: String,
    pub receive: bool,
    pub fields: Vec<PacketField>,
}

/// The mathematical shape of a [`PacketView`].
pub struct PacketModel {
    pub index: int,
    pub label: Seq<char>,
    pub receive: bool,
    pub fields: Seq<FieldModel>,
}

/// The views of a run of fields.
pub open spec fn fields_model(s: Seq<PacketField>) -> Seq<FieldModel> {
    Seq::new(s.len(), |i: int| s[i]@)
}

impl View for PacketView {
    type V = PacketModel;

    open spec fn view(&self) -> PacketModel {
        PacketModel {
            index: self.index as int,
            label: self.label@,
            receive: self.receive,
            fields: fields_model(self.fields@),
        }
    }
}

/// `f` with its position rewritten to `k`.
pub open spec fn reindexed(f: FieldModel, k: int) -> FieldModel {
    FieldModel { index: k, ..f }
}

/// `m` with the value buffer of field `i` replaced by `v`.
pub open spec fn with_value(m: PacketModel, i: int, v: Seq<char>) -> PacketModel {
    PacketModel { fields: m.fields.update(i, (FieldModel { value: v, ..m.fields[i] })), ..m }
}

/// `m` with the data type of field `i` replaced by `t`.
pub open spec fn with_datatype(m: PacketModel, i: int, t: PacketDataType) -> PacketModel {
    PacketModel {
        fields: m.fields.update(i, (FieldModel { datatype: Option::Some(t), ..m.fields[i] })),
        ..m
    }
}

/// `m` with `method` applied to field `i`: the field's sizing method, and
/// — when its chosen type is `Bytes` — the method carried by the type.
pub open spec fn with_sizing(m: PacketModel, i: int, method: SizingMethod) -> PacketModel {
    PacketModel {
        fields: m.fields.update(
            i,
            (FieldModel {
                sizing_method: Option::Some(method),
                datatype: match m.fields[i].datatype {
                    Option::Some(PacketDataType::Bytes(_)) => Option::Some(
                        PacketDataType::Bytes(method),
                    ),
                    other => other,
                },
                ..m.fields[i]
            }),
        ),
        ..m
    }
}

/// `m` with a fresh field appended at the end.
pub open spec fn with_new_field(m: PacketModel) -> PacketModel {
    PacketModel {
        fields: m.fields.push(
            FieldModel {
                index: m.fields.len() as int,
                datatype: Option::None,
                value: Seq::<char>::empty(),
                sizing_method: Option::None,
            },
        ),
        ..m
    }
}

/// `m` with field `i` removed and the remaining fields renumbered.
pub open spec fn with_field_removed(m: PacketModel, i: int) -> PacketModel {
    PacketModel {
        fields: Seq::new(
            (m.fields.len() - 1) as nat,
            |j: int|
                reindexed(
                    m.fields[
                        if j < i {
                            j
                        } else {
                            j + 1
                        }
                    ],
                    j,
                ),
        ),
        ..m
    }
}

/// The views of a run of blob buffers.
pub open spec fn blobs_model(b: Seq<Vec<u8>>) -> Seq<Seq<u8>> {
    Seq::new(b.len(), |i: int| b[i]@)
}

/// The index invariant: every field records its own position, so a
/// `SizeHeader` reference by index names the field at that position.
pub open spec fn model_wf(m: PacketModel) -> bool {
    forall|i: int| 0 <= i < m.fields.len() ==> (#[trigger] m.fields[i]).index == i
}

impl PacketView {
    /// The index invariant: every field records its own position, so a
    /// `SizeHeader` reference by index names the field at that position.
    pub open spec fn wf(self) -> bool {
        model_wf(self@)
    }

    /// A fresh, empty packet at `index`, in send mode.
    pub fn new(index: usize) -> (r: PacketView)
        ensures
            r@ == (PacketModel {
                index: index as int,
                label: Seq::<char>::empty(),
                receive: false,
                fields: Seq::<FieldModel>::empty(),
            }),
            r.wf(),
    {
        let r = PacketView { index, label: String::new(), receive: false, fields: Vec::new() };
        proof {
            assert(r@.fields =~= Seq::<FieldModel>::empty());
        }
        r
    }

    /// A copy of the field at `index`.
    pub fn get_field(&self, index: usize) -> (r: PacketField)
        requires
            index < self@.fields.len(),
        ensures
            r@ == self@.fields[index as int],
    {
        self.fields[index].duplicate()
    }

    /// Appends a fresh field whose position is the current field count.
    pub fn add_field(&mut self)
        ensures
            final(self)@ == (PacketModel {
                fields: old(self)@.fields.push(
                    FieldModel {
                        index: old(self)@.fields.len() as int,
                        datatype: Option::None,
                        value: Seq::<char>::empty(),
                        sizing_method: Option::None,
                    },
                ),
                ..old(self)@
            }),
            old(self).wf() ==> final(self).wf(),
    {
        let f = PacketField::new(self.fields.len());
        self.fields.push(f);
        proof {
            assert(final(self)@.fields =~= old(self)@.fields.push(
                FieldModel {
                    index: old(self)@.fields.len() as int,
                    datatype: Option::None,
                    value: Seq::<char>::empty(),
                    sizing_method: Option::None,
                },
            ));
        }
    }

    /// Removes the field at `index` and renumbers the remaining fields to
    /// restore contiguous positions; fails with `IndexOutOfRange` when no
    /// such field exists. The index invariant holds afterwards whatever it
    /// was before.
    pub fn remove_field(&mut self, index: usize) -> (r: Result<(), PacketError>)
        ensures
            match r {
                Ok(()) => index < old(self)@.fields.len() && final(self)@ == (PacketModel {
                    fields: Seq::new(
                        (old(self)@.fields.len() - 1) as nat,
                        |j: int|
                            reindexed(
                                old(self)@.fields[
                                    if j < index {
                                        j
                                    } else {
                                        j + 1
                                    }
                                ],
                                j,
                            ),
                    ),
                    ..old(self)@
                }) && final(self).wf(),
                Err(e) => e == PacketError::IndexOutOfRange && index >= old(self)@.fields.len()
                    && final(self)@ == old(self)@,
            },
    {
        let n = self.fields.len();
        if index >= n {
            return Err(PacketError::IndexOutOfRange);
        }
        let mut out: Vec<PacketField> = Vec::new();
        let mut j: usize = 0;
        while j < n
            invariant
                n == self.fields@.len(),
                index < n,
                j <= n,
                self == old(self),
                out@.len() == if j <= index {
                    j as int
                } else {
                    j - 1
                },
                forall|m: int|
                    0 <= m < out@.len() ==> #[trigger] out@[m]@ == reindexed(
                        self@.fields[
                            if m < index {
                                m
                            } else {
                                m + 1
                            }
                        ],
                        m,
                    ),
            decreases n - j,
        {
            if j != index {
                let mut f = self.fields[j].duplicate();
                f.index = out.len();
                out.push(f);
            }
            j = j + 1;
        }
        self.fields = out;
        proof {
            assert(final(self)@.fields =~= Seq::new(
                (old(self)@.fields.len() - 1) as nat,
                |j: int|
                    reindexed(
                        old(self)@.fields[
                            if j < index {
                                j
                            } else {
                                j + 1
                            }
                        ],
                        j,
                    ),
            ));
        }
        Ok(())
    }

    /// Applies a sizing method to the field at `index`, under the ordering
    /// policy: a literal count is always accepted, while a `SizeHeader`
    /// reference is accepted only when its target lies strictly before the
    /// field it sizes, so the target's value is already decoded when the
    /// blob's length is resolved. A rejected method leaves the packet
    /// unchanged. When the field's chosen type is `Bytes`, the method
    /// carried by the type is rewritten as well, so the two stay in step.
    pub fn set_sizing_method(&mut self, index: usize, method: SizingMethod) -> (applied: bool)
        requires
            index < old(self)@.fields.len(),
        ensures
            applied == match method {
                SizingMethod::FixedSize(_) => true,
                SizingMethod::SizeHeader(h) => h < index,
            },
            applied ==> final(self)@ == (PacketModel {
                fields: old(self)@.fields.update(
                    index as int,
                    (FieldModel {
                        sizing_method: Option::Some(method),
                        datatype: match old(self)@.fields[index as int].datatype {
                            Option::Some(PacketDataType::Bytes(_)) => Option::Some(
                                PacketDataType::Bytes(method),
                            ),
                            other => other,
                        },
                        ..old(self)@.fields[index as int]
                    }),
                ),
                ..old(self)@
            }),
            !applied ==> final(self)@ == old(self)@,
    {
        let accept = match method {
            SizingMethod::FixedSize(_) => true,
            SizingMethod::SizeHeader(h) => h < index,
        };
        if !accept {
            return false;
        }
        let old_f = self.fields[index].duplicate();
        let new_dt = match old_f.datatype {
            Some(PacketDataType::Bytes(_)) => Some(PacketDataType::Bytes(method)),
            other => other,
        };
        let new_f = PacketField {
            index: old_f.index,
            datatype: new_dt,
            data_string: old_f.data_string,
            sizing_method: Some(method),
        };
        self.set_field(index, new_f);
        proof {
            assert(final(self)@.fields =~= old(self)@.fields.update(
                index as int,
                (FieldModel {
                    sizing_method: Option::Some(method),
                    datatype: match old(self)@.fields[index as int].datatype {
                        Option::Some(PacketDataType::Bytes(_)) => Option::Some(
                            PacketDataType::Bytes(method),
                        ),
                        other => other,
                    },
                    ..old(self)@.fields[index as int]
                }),
            ));
        }
        true
    }

    /// Replaces the field at `index`.
    fn set_field(&mut self, index: usize, f: PacketField)
        requires
            index < old(self)@.fields.len(),
        ensures
            final(self)@ == (PacketModel {
                fields: old(self)@.fields.update(index as int, f@),
                ..old(self)@
            }),
    {
        let n = self.fields.len();
        let mut out: Vec<PacketField> = Vec::new();
        let mut j: usize = 0;
        let mut replacement = Some(f);
        while j < n
            invariant
                n == self.fields@.len(),
                index < n,
                j <= n,
                self == old(self),
                out@.len() == j,
                j <= index ==> replacement == Some(f),
                j > index ==> replacement is None,
                forall|m: int|
                    0 <= m < j ==> #[trigger] out@[m]@ == if m == index {
                        f@
                    } else {
                        self@.fields[m]
                    },
            decreases n - j,
        {
            if j == index {
                let mut r = None;
                core::mem::swap(&mut r, &mut replacement);
                match r {
                    Some(x) => out.push(x),
                    None => {
                        proof {
                            assert(false);
                        }
                    },
                }
            } else {
                out.push(self.fields[j].duplicate());
            }
            j = j + 1;
        }
        self.fields = out;
        proof {
            assert(final(self)@.fields =~= old(self)@.fields.update(index as int, f@));
        }
    }

    /// Encodes the whole packet: every field's bytes, concatenated in
    /// field order. `blobs` supplies, per field, the bytes read from a blob
    /// field's source; entries for other fields are ignored. Fails on the
    /// first field whose value cannot be encoded.
    pub fn to_bytes(&self, blobs: &Vec<Vec<u8>>) -> (r: Result<Vec<u8>, PacketError>)
        requires
            blobs@.len() == self@.fields.len(),
        ensures
            match r {
                Ok(b) => spec_packet_encode(self@.fields, blobs_model(blobs@)) == Ok::<
                    Seq<u8>,
                    PacketError,
                >(b@),
                Err(e) => spec_packet_encode(self@.fields, blobs_model(blobs@)) == Err::<
                    Seq<u8>,
                    PacketError,
                >(e),
            },
    {
        let n = self.fields.len();
        let ghost fm = self@.fields;
        let ghost bm = blobs_model(blobs@);
        let mut acc: Vec<u8> = Vec::new();
        let mut i: usize = 0;
        proof {
            assert(fm.skip(0) =~= fm);
            assert(bm.skip(0) =~= bm);
        }
        while i < n
            invariant
                n == self.fields@.len(),
                fm == self@.fields,
                bm == blobs_model(blobs@),
                bm.len() == n,
                i <= n,
                spec_packet_encode(fm, bm) == match spec_packet_encode(
                    fm.skip(i as int),
                    bm.skip(i as int),
                ) {
                    Ok(rest) => Ok::<Seq<u8>, PacketError>(acc@ + rest),
                    Err(e) => Err::<Seq<u8>, PacketError>(e),
                },
            decreases n - i,
        {
            proof {
                assert(fm.skip(i as int)[0] == fm[i as int]);
                assert(bm.skip(i as int)[0] == bm[i as int]);
                assert(fm.skip(i as int).drop_first() =~= fm.skip(i as int + 1));
                assert(bm.skip(i as int).drop_first() =~= bm.skip(i as int + 1));
            }
            match self.fields[i].to_bytes(&blobs[i]) {
                Err(e) => {
                    return Err(e);
                },
                Ok(mut part) => {
                    proof {
                        assert(self.fields@[i as int]@ == fm[i as int]);
                    }
                    let ghost old_acc = acc@;
                    let ghost part_v = part@;
                    acc.append(&mut part);
                    proof {
                        assert(acc@ =~= old_acc + part_v);
                        if spec_packet_encode(fm.skip(i as int + 1), bm.skip(i as int + 1)) is Ok {
                            let rest = spec_packet_encode(
                                fm.skip(i as int + 1),
                                bm.skip(i as int + 1),
                            )->Ok_0;
                            assert((old_acc + part_v) + rest =~= old_acc + (part_v + rest));
                        }
                    }
                },
            }
            i = i + 1;
        }
        proof {
            assert(fm.skip(n as int) =~= Seq::<FieldModel>::empty());
            assert(bm.skip(n as int) =~= Seq::<Seq<u8>>::empty());
            assert(acc@ + Seq::<u8>::empty() =~= acc@);
        }
        Ok(acc)
    }

    /// The byte count a sizing method resolves to against this packet's
    /// current field values: a literal count as itself; a header reference
    /// as the numeric reading of the referenced field's value, leniently
    /// falling back to zero when that value is not a number it can hold or
    /// the reference names no field.
    pub fn resolve_length(&self, method: SizingMethod) -> (r: usize)
        ensures
            r == spec_resolve_len(self@.fields, method),
    {
        match method {
            SizingMethod::FixedSize(x) => x,
            SizingMethod::SizeHeader(h) => {
                if h < self.fields.len() {
                    match parse_dec_u64(self.fields[h].data_string.as_str(), usize::MAX as u64) {
                        Some(v) => v as usize,
                        None => 0,
                    }
                } else {
                    0
                }
            },
        }
    }

    /// Decodes `data` into this packet's fields, in field order, starting
    /// at the front of `data`.
    ///
    /// Scalar fields consume their width and store the value in decimal
    /// form; string fields consume up to and including a zero byte (or the
    /// rest of the data) and store the text; blob fields consume the byte
    /// count their sizing method resolves to against the values decoded so
    /// far, and their bytes are returned — in field order — rather than
    /// stored. A failure leaves the packet unchanged.
    #[verifier::rlimit(100)]
    pub fn decode(&mut self, data: &Vec<u8>) -> (r: Result<Vec<Vec<u8>>, PacketError>)
        ensures
            match r {
                Ok(blobs) => {
                    &&& spec_packet_decode(old(self)@.fields, 0, data@, 0) is Ok
                    &&& final(self)@ == (PacketModel {
                        fields: spec_packet_decode(old(self)@.fields, 0, data@, 0)->Ok_0.0,
                        ..old(self)@
                    })
                    &&& blobs_model(blobs@) == spec_packet_decode(
                        old(self)@.fields,
                        0,
                        data@,
                        0,
                    )->Ok_0.1
                },
                Err(e) => spec_packet_decode(old(self)@.fields, 0, data@, 0) == Err::<
                    (Seq<FieldModel>, Seq<Seq<u8>>, int),
                    PacketError,
                >(e) && final(self)@ == old(self)@,
            },
    {
        let n = self.fields.len();
        let ghost orig = self@.fields;
        let mut new_fields: Vec<PacketField> = Vec::new();
        let mut blobs: Vec<Vec<u8>> = Vec::new();
        let mut pos: usize = 0;
        let mut i: usize = 0;
        proof {
            assert(fields_model(new_fields@) + orig.skip(0) =~= orig);
            assert(blobs_model(blobs@) =~= Seq::<Seq<u8>>::empty());
        }
        while i < n
            invariant
                self == old(self),
                n == self.fields@.len(),
                orig == self@.fields,
                i <= n,
                pos <= data@.len(),
                new_fields@.len() == i,
                spec_packet_decode(orig, 0, data@, 0) == (match spec_packet_decode(
                    fields_model(new_fields@) + orig.skip(i as int),
                    i as int,
                    data@,
                    pos as int,
                ) {
                    Ok(step) => Ok::<(Seq<FieldModel>, Seq<Seq<u8>>, int), PacketError>(
                        (step.0, blobs_model(blobs@) + step.1, step.2),
                    ),
                    Err(e) => Err::<(Seq<FieldModel>, Seq<Seq<u8>>, int), PacketError>(e),
                }),
            decreases n - i,
        {
            let ghost cur = fields_model(new_fields@) + orig.skip(i as int);
            proof {
                assert(cur.len() == n);
                assert(cur[i as int] == orig[i as int]);
                assert(self.fields@[i as int]@ == orig[i as int]);
            }
            let f = self.fields[i].duplicate();
            match f.datatype {
                None => {
                    return Err(PacketError::MissingDataType);
                },
                Some(PacketDataType::Bytes(m)) => {
                    let bad_header = match m {
                        SizingMethod::SizeHeader(h) => h >= i,
                        SizingMethod::FixedSize(_) => false,
                    };
                    if bad_header {
                        return Err(PacketError::IndexOutOfRange);
                    }
                    let rl: usize = match m {
                        SizingMethod::FixedSize(x) => x,
                        SizingMethod::SizeHeader(h) => {
                            match parse_dec_u64(
                                new_fields[h].data_string.as_str(),
                                usize::MAX as u64,
                            ) {
                                Some(v) => v as usize,
                                None => 0,
                            }
                        },
                    };
                    proof {
                        assert(rl == spec_resolve_len(cur, m));
                    }
                    if rl > data.len() - pos {
                        return Err(PacketError::TruncatedStream);
                    }
                    let piece = vstd::slice::slice_to_vec(
                        vstd::slice::slice_subrange(data.as_slice(), pos, pos + rl),
                    );
                    let ghost old_blobs = blobs_model(blobs@);
                    let ghost old_models = fields_model(new_fields@);
                    blobs.push(piece);
                    new_fields.push(f);
                    proof {
                        assert(fields_model(new_fields@) + orig.skip(i as int + 1) =~= cur);
                        assert(blobs_model(blobs@) =~= old_blobs.push(data@.subrange(
                            pos as int,
                            pos + rl,
                        )));
                        if spec_packet_decode(cur, i as int + 1, data@, pos + rl) is Ok {
                            let step = spec_packet_decode(cur, i as int + 1, data@, pos + rl)->Ok_0;
                            assert(old_blobs + (seq![data@.subrange(pos as int, pos + rl)] + step.1)
                                =~= old_blobs.push(data@.subrange(pos as int, pos + rl)) + step.1);
                        }
                    }
                    pos = pos + rl;
                },
                Some(PacketDataType::CStr) => {
                    let (txt, consumed) = crate::codec::scan_cstr(data, pos);
                    match crate::codec::string_from_utf8(txt) {
                        Err(e) => {
                            return Err(e);
                        },
                        Ok(s) => {
                            proof {
                                broadcast use vstd::utf8::encode_utf8_decode_utf8;

                                assert(vstd::utf8::decode_utf8(
                                    crate::codec::prefix_before_zero(data@.skip(pos as int)),
                                ) == s@);
                            }
                            let nf = PacketField {
                                index: f.index,
                                datatype: f.datatype,
                                data_string: s,
                                sizing_method: f.sizing_method,
                            };
                            let ghost old_models = fields_model(new_fields@);
                            new_fields.push(nf);
                            proof {
                                assert(fields_model(new_fields@) + orig.skip(i as int + 1)
                                    =~= cur.update(i as int, nf@));
                            }
                            let dl = data.len();
                            proof {
                                assert(pos + consumed <= dl);
                            }
                            pos = pos + consumed;
                        },
                    }
                },
                Some(dt) => {
                    let w = dt.data_size();
                    if w > data.len() - pos {
                        return Err(PacketError::TruncatedStream);
                    }
                    let piece = vstd::slice::slice_subrange(data.as_slice(), pos, pos + w);
                    let s = crate::codec::decode_scalar(dt, piece);
                    let nf = PacketField {
                        index: f.index,
                        datatype: f.datatype,
                        data_string: s,
                        sizing_method: f.sizing_method,
                    };
                    let ghost old_models = fields_model(new_fields@);
                    new_fields.push(nf);
                    proof {
                        assert(fields_model(new_fields@) + orig.skip(i as int + 1) =~= cur.update(
                            i as int,
                            nf@,
                        ));
                    }
                    pos = pos + w;
                },
            }
            i = i + 1;
        }
        proof {
            assert(fields_model(new_fields@) + orig.skip(n as int) =~= fields_model(new_fields@));
            let step = spec_packet_decode(fields_model(new_fields@), n as int, data@, pos as int);
            assert(step == Ok::<(Seq<FieldModel>, Seq<Seq<u8>>, int), PacketError>(
                (fields_model(new_fields@), Seq::<Seq<u8>>::empty(), pos as int),
            ));
            assert(blobs_model(blobs@) + Seq::<Seq<u8>>::empty() =~= blobs_model(blobs@));
        }
        self.fields = new_fields;
        Ok(blobs)
    }
}

/// One editing step on a packet schema.
#[derive(Debug, Clone)]
pub enum PVMessage {
    /// Replace the value buffer of the field at the index.
    DataEntry(String, usize),
    /// Choose the wire representation of the field at the index.
    DataType(PacketDataType, usize),
    /// Append a fresh field.
    AddField,
    /// Remove the field at the index and renumber the rest.
    RemoveField(usize),
    /// Choose a source file for the blob field at the index.
    OpenFile(usize),
    /// Persist this packet.
    SavePacket,
    /// Flip between send and receive mode.
    ToggleRecieve(bool),
    /// Apply a sizing method to the field at the index.
    ChangeSizingMethod(SizingMethod, usize),
    /// Replace the parameter of the sizing method of the field at the
    /// index with the number the text names.
    MethodEntry(String, usize),
}

/// What a packet asks its surroundings to do after an editing step:
/// everything here needs the file system or a dialog, which the schema
/// itself never touches.
#[derive(Debug, Clone, Copy, PartialEq, Eq, Structural)]
pub enum PVAction {
    /// Nothing left to do.
    Idle,
    /// Let the operator pick a source file for the blob field at the
    /// index, then hand the chosen path back through `DataEntry`.
    PickFile(usize),
    /// Persist the packet's document.
    SaveRequested,
    /// Measure the source of the blob field at the index and hand the
    /// byte count to its sizing method's `update`.
    SyncFileSize(usize),
}

/// Whether the indices a message carries name existing fields.
pub open spec fn pv_msg_in_range(m: PacketModel, msg: PVMessage) -> bool {
    match msg {
        PVMessage::DataEntry(_, i) => i < m.fields.len(),
        PVMessage::DataType(_, i) => i < m.fields.len(),
        PVMessage::AddField => true,
        PVMessage::RemoveField(i) => i < m.fields.len(),
        PVMessage::OpenFile(i) => i < m.fields.len(),
        PVMessage::SavePacket => true,
        PVMessage::ToggleRecieve(_) => true,
        PVMessage::ChangeSizingMethod(_, i) => i < m.fields.len(),
        PVMessage::MethodEntry(_, i) => i < m.fields.len(),
    }
}

/// Whether a change to the blob field at `i` must be followed by a source
/// measurement: the packet sends, and the field's length comes from a
/// header reference.
pub open spec fn wants_size_sync(m: PacketModel, i: int) -> bool {
    &&& !m.receive
    &&& m.fields[i].datatype matches Option::Some(PacketDataType::Bytes(_))
    &&& m.fields[i].sizing_method matches Option::Some(SizingMethod::SizeHeader(_))
}

/// What one editing step does: packet `m` edited by `msg` becomes `m2`,
/// asking its surroundings for `a`.
pub open spec fn pv_update_rel(m: PacketModel, msg: PVMessage, m2: PacketModel, a: PVAction) -> bool {
    match msg {
            PVMessage::DataEntry(dat, i) => {
                let applied = spec_valid_entry(m.fields[i as int].datatype, dat@);
                &&& m2 == if applied {
                    with_value(m, i as int, dat@)
                } else {
                    m
                }
                &&& a == if applied && wants_size_sync(m, i as int) {
                    PVAction::SyncFileSize(i)
                } else {
                    PVAction::Idle
                }
            },
            PVMessage::DataType(t, i) => m2 == with_datatype(m, i as int, t) && a
                == PVAction::Idle,
            PVMessage::AddField => m2 == with_new_field(m) && a == PVAction::Idle,
            PVMessage::RemoveField(i) => m2 == with_field_removed(m, i as int)
                && a == PVAction::Idle,
            PVMessage::OpenFile(i) => m2 == m && a == PVAction::PickFile(i),
            PVMessage::SavePacket => m2 == m && a == PVAction::SaveRequested,
            PVMessage::ToggleRecieve(b) => m2 == (PacketModel {
                receive: b,
                ..m
            }) && a == PVAction::Idle,
            PVMessage::ChangeSizingMethod(method, i) => {
                let applied = match method {
                    SizingMethod::FixedSize(_) => true,
                    SizingMethod::SizeHeader(h) => h < i,
                };
                &&& m2 == if applied {
                    with_sizing(m, i as int, method)
                } else {
                    m
                }
                &&& a == if applied && (method is SizeHeader) && !m.receive {
                    PVAction::SyncFileSize(i)
                } else {
                    PVAction::Idle
                }
            },
            PVMessage::MethodEntry(s, i) => {
                let parsed = is_dec_digits(s@) && dec_val(s@) <= usize::MAX as nat;
                let n = dec_val(s@);
                match m.fields[i as int].sizing_method {
                    Option::Some(SizingMethod::FixedSize(_)) => {
                        &&& m2 == if parsed {
                            with_sizing(m, i as int, SizingMethod::FixedSize(n as usize))
                        } else {
                            m
                        }
                        &&& a == PVAction::Idle
                    },
                    Option::Some(SizingMethod::SizeHeader(_)) => {
                        let applied = parsed && n < i;
                        &&& m2 == if applied {
                            with_sizing(m, i as int, SizingMethod::SizeHeader(n as usize))
                        } else {
                            m
                        }
                        &&& a == if applied && !m.receive {
                            PVAction::SyncFileSize(i)
                        } else {
                            PVAction::Idle
                        }
                    },
                    Option::None => m2 == m && a == PVAction::Idle,
                }
            },
    }
}

impl PacketView {
    /// Applies one editing step and reports what remains to be done
    /// outside the schema.
    ///
    /// Value edits that fail the field's entry validation are rejected
    /// without mutation and without an error. A `SizeHeader` method is
    /// accepted only with its target strictly before the field it sizes.
    /// A sizing-method parameter typed as text takes effect only when the
    /// text names a count the method can hold.
    pub fn update(&mut self, msg: PVMessage) -> (a: PVAction)
        requires
            pv_msg_in_range(old(self)@, msg),
        ensures
            pv_update_rel(old(self)@, msg, final(self)@, a),
    {
        match msg {
            PVMessage::DataEntry(dat, i) => {
                let f = self.fields[i].duplicate();
                if f.is_valid_entry(dat.as_str()) {
                    let sync = !self.receive && matches!(
                        f.datatype,
                        Some(PacketDataType::Bytes(_)),
                    ) && matches!(f.sizing_method, Some(SizingMethod::SizeHeader(_)));
                    let nf = PacketField {
                        index: f.index,
                        datatype: f.datatype,
                        data_string: dat,
                        sizing_method: f.sizing_method,
                    };
                    self.set_field(i, nf);
                    if sync {
                        PVAction::SyncFileSize(i)
                    } else {
                        PVAction::Idle
                    }
                } else {
                    PVAction::Idle
                }
            },
            PVMessage::DataType(t, i) => {
                let f = self.fields[i].duplicate();
                let nf = PacketField {
                    index: f.index,
                    datatype: Some(t),
                    data_string: f.data_string,
                    sizing_method: f.sizing_method,
                };
                self.set_field(i, nf);
                PVAction::Idle
            },
            PVMessage::AddField => {
                self.add_field();
                PVAction::Idle
            },
            PVMessage::RemoveField(i) => {
                match self.remove_field(i) {
                    Ok(()) => (),
                    Err(_) => {
                        proof {
                            assert(false);
                        }
                    },
                }
                PVAction::Idle
            },
            PVMessage::OpenFile(i) => PVAction::PickFile(i),
            PVMessage::SavePacket => PVAction::SaveRequested,
            PVMessage::ToggleRecieve(b) => {
                self.receive = b;
                PVAction::Idle
            },
            PVMessage::ChangeSizingMethod(method, i) => {
                let applied = self.set_sizing_method(i, method);
                if applied && matches!(method, SizingMethod::SizeHeader(_)) && !self.receive {
                    PVAction::SyncFileSize(i)
                } else {
                    PVAction::Idle
                }
            },
            PVMessage::MethodEntry(s, i) => {
                let parsed = parse_dec_u64(s.as_str(), usize::MAX as u64);
                let f = self.fields[i].duplicate();
                match (parsed, f.sizing_method) {
                    (Some(n), Some(SizingMethod::FixedSize(_))) => {
                        let applied = self.set_sizing_method(
                            i,
                            SizingMethod::FixedSize(n as usize),
                        );
                        proof {
                            assert(applied);
                        }
                        PVAction::Idle
                    },
                    (Some(n), Some(SizingMethod::SizeHeader(_))) => {
                        if (n as usize) < i {
                            let applied = self.set_sizing_method(
                                i,
                                SizingMethod::SizeHeader(n as usize),
                            );
                            proof {
                                assert(applied);
                            }
                            if !self.receive {
                                PVAction::SyncFileSize(i)
                            } else {
                                PVAction::Idle
                            }
                        } else {
                            PVAction::Idle
                        }
                    },
                    _ => PVAction::Idle,
                }
            },
        }
    }
}

/// Index contiguity: no editing step breaks the position invariant.
/// Whatever run of `update` calls a packet has been through, every field
/// still records its own position.
pub proof fn lemma_update_keeps_contiguity(
    m: PacketModel,
    msg: PVMessage,
    m2: PacketModel,
    a: PVAction,
)
    requires
        pv_msg_in_range(m, msg),
        pv_update_rel(m, msg, m2, a),
        model_wf(m),
    ensures
        model_wf(m2),
{
    match msg {
        PVMessage::AddField => {
            assert forall|i: int| 0 <= i < m2.fields.len() implies (#[trigger] m2.fields[i]).index
                == i by {
                if i < m.fields.len() {
                    assert(m2.fields[i] == m.fields[i]);
                }
            }
        },
        PVMessage::RemoveField(_) => {},
        _ => {
            assert forall|i: int| 0 <= i < m2.fields.len() implies (#[trigger] m2.fields[i]).index
                == i by {
                assert(m.fields[i].index == i);
            }
        },
    }
}

/// The byte count `method` resolves to against the given field values: a
/// literal count as itself; a header reference as the numeric reading of
/// the referenced field's value, zero when that value is not a number a
/// count can hold or the reference names no field.
pub open spec fn spec_resolve_len(fields: Seq<FieldModel>, method: SizingMethod) -> nat {
    match method {
        SizingMethod::FixedSize(x) => x as nat,
        SizingMethod::SizeHeader(h) => if h < fields.len() && is_dec_digits(fields[h as int].value)
            && dec_val(fields[h as int].value) <= usize::MAX as nat {
            dec_val(fields[h as int].value)
        } else {
            0
        },
    }
}

/// What decoding `data` does to a packet, field by field from field `i`
/// and byte position `pos`: the final field values, the blob bytes set
/// aside for blob fields in field order, and the position after the last
/// consumed byte.
///
/// A field with no chosen type stops the decode with `MissingDataType`. A
/// blob field whose header reference does not lie strictly before it stops
/// it with `IndexOutOfRange`: such a reference would name a value the wire
/// has not supplied yet. A scalar or blob field whose bytes run out stops
/// it with `TruncatedStream`, and string text that is not UTF-8 stops it
/// with `InvalidUtf8`.
pub open spec fn spec_packet_decode(
    fields: Seq<FieldModel>,
    i: int,
    data: Seq<u8>,
    pos: int,
) -> Result<(Seq<FieldModel>, Seq<Seq<u8>>, int), PacketError>
    recommends
        0 <= i <= fields.len(),
        0 <= pos <= data.len(),
    decreases fields.len() - i,
{
    if i < 0 || i >= fields.len() || pos < 0 || pos > data.len() {
        Ok((fields, Seq::empty(), pos))
    } else {
        match fields[i].datatype {
            Option::None => Err(PacketError::MissingDataType),
            Option::Some(PacketDataType::Bytes(m)) => {
                if (m is SizeHeader) && m->SizeHeader_0 >= i {
                    Err(PacketError::IndexOutOfRange)
                } else {
                    let len = spec_resolve_len(fields, m) as int;
                    if pos + len > data.len() {
                        Err(PacketError::TruncatedStream)
                    } else {
                        match spec_packet_decode(fields, i + 1, data, pos + len) {
                            Ok(step) => Ok(
                                (step.0, seq![data.subrange(pos, pos + len)] + step.1, step.2),
                            ),
                            Err(e) => Err(e),
                        }
                    }
                }
            },
            Option::Some(PacketDataType::CStr) => {
                let tail = data.skip(pos);
                let prefix = crate::codec::prefix_before_zero(tail);
                if !vstd::utf8::valid_utf8(prefix) {
                    Err(PacketError::InvalidUtf8)
                } else {
                    spec_packet_decode(
                        fields.update(
                            i,
                            (FieldModel { value: vstd::utf8::decode_utf8(prefix), ..fields[i] }),
                        ),
                        i + 1,
                        data,
                        pos + crate::codec::cstr_consumed(tail),
                    )
                }
            },
            Option::Some(dt) => {
                if pos + dt.spec_width() > data.len() {
                    Err(PacketError::TruncatedStream)
                } else {
                    spec_packet_decode(
                        fields.update(
                            i,
                            (FieldModel {
                                value: crate::numeric::int_dec_str(
                                    crate::codec::scalar_val(
                                        dt,
                                        data.subrange(pos, pos + dt.spec_width()),
                                    ),
                                ),
                                ..fields[i]
                            }),
                        ),
                        i + 1,
                        data,
                        pos + dt.spec_width(),
                    )
                }
            },
        }
    }
}

} // verus!
