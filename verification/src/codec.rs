//! The byte-level codec for single fields: scalar values to and from their
//! little-endian byte runs, and nul-terminated strings to and from their
//! byte runs.

use vstd::prelude::*;

use crate::numeric::{
    dec_str, dec_val, dec_int_val, int_dec_str, is_dec_digits, is_dec_int, le_bytes, le_bytes_u64,
    le_val, le_val_u64, lemma_le_bytes_len, lemma_le_roundtrip, lemma_pow256_values, pow256,
    parse_dec_i64, parse_dec_u64, u64_to_dec, i64_to_dec, digit_char, digit_val, is_digit_char,
};
use crate::packet::PacketDataType;
use crate::PacketError;
use vstd::utf8::{encode_utf8, decode_utf8, valid_utf8};

verus! {

/// The unsigned bit pattern of `v` in the width of `dt`: the two's
/// complement form for negative values.
pub open spec fn scalar_pattern(dt: PacketDataType, v: int) -> nat {
    if v >= 0 {
        v as nat
    } else {
        (v + pow256(dt.spec_width())) as nat
    }
}

/// The wire bytes of scalar value `v` in type `dt`.
pub open spec fn scalar_bytes(dt: PacketDataType, v: int) -> Seq<u8> {
    le_bytes(scalar_pattern(dt, v), dt.spec_width())
}

/// The scalar value held by the wire bytes `b` read as type `dt`.
pub open spec fn scalar_val(dt: PacketDataType, b: Seq<u8>) -> int {
    if dt.is_signed() && le_val(b) >= pow256(dt.spec_width()) / 2 {
        le_val(b) - pow256(dt.spec_width())
    } else {
        le_val(b) as int
    }
}

/// Whether `s` is a decimal literal that `dt` accepts: digits, with a
/// leading minus sign only for signed types, writing a representable value.
pub open spec fn valid_literal(dt: PacketDataType, s: Seq<char>) -> bool {
    if dt.is_signed() {
        is_dec_int(s) && dt.in_range(dec_int_val(s))
    } else {
        is_dec_digits(s) && dt.in_range(dec_int_val(s))
    }
}

/// Round trip for every scalar type: the bytes written for a representable
/// value read back as that value.
pub proof fn lemma_scalar_roundtrip(dt: PacketDataType, v: int)
    requires
        dt.is_fixed_width(),
        dt.in_range(v),
    ensures
        scalar_val(dt, scalar_bytes(dt, v)) == v,
        scalar_bytes(dt, v).len() == dt.spec_width(),
{
    let w = dt.spec_width();
    let p = scalar_pattern(dt, v);
    lemma_pow256_values();
    assert(pow256(w) == 256 * pow256((w - 1) as nat));
    lemma_le_bytes_len(p, w);
    assert(p < pow256(w));
    lemma_le_roundtrip(p, w);
    if dt.is_signed() {
        if v >= 0 {
            assert(le_val(scalar_bytes(dt, v)) < pow256(w) / 2);
        } else {
            assert(le_val(scalar_bytes(dt, v)) >= pow256(w) / 2);
        }
    }
}

/// Canonical decimal strings parse back to the number they were written
/// from, and consist of digits alone.
pub proof fn lemma_dec_str_roundtrip(n: nat)
    ensures
        is_dec_digits(dec_str(n)),
        dec_val(dec_str(n)) == n,
    decreases n,
{
    if n < 10 {
        assert(dec_str(n) =~= seq![digit_char(n)]);
        assert(dec_str(n).drop_last() =~= Seq::<char>::empty());
        assert(dec_val(Seq::<char>::empty()) == 0);
        assert(digit_val(digit_char(n)) == n);
    } else {
        lemma_dec_str_roundtrip(n / 10);
        let t = dec_str(n);
        assert(t =~= dec_str(n / 10).push(digit_char(n % 10)));
        assert(t.drop_last() =~= dec_str(n / 10));
        assert(t.last() == digit_char(n % 10));
        assert(digit_val(digit_char(n % 10)) == n % 10);
        assert(dec_val(t) == (n / 10) * 10 + n % 10);
        assert(n == (n / 10) * 10 + n % 10);
        assert(forall|i: int|
            0 <= i < t.len() ==> is_digit_char(#[trigger] t[i])) by {
            assert(forall|i: int|
                0 <= i < dec_str((n / 10) as nat).len() ==> is_digit_char(
                    #[trigger] dec_str((n / 10) as nat)[i],
                ));
            assert(is_digit_char(digit_char((n % 10) as nat)));
            assert(forall|i: int|
                0 <= i < t.len() ==> t[i] == if i < t.len() - 1 {
                    dec_str((n / 10) as nat)[i]
                } else {
                    digit_char((n % 10) as nat)
                });
        }
    }
}

/// The canonical decimal form of any representable value is a literal that
/// the type accepts, and it writes that value: decoding a scalar and
/// re-encoding the resulting text gives the same bytes back.
pub proof fn lemma_canonical_literal(dt: PacketDataType, v: int)
    requires
        dt.is_fixed_width(),
        dt.in_range(v),
    ensures
        valid_literal(dt, int_dec_str(v)),
        dec_int_val(int_dec_str(v)) == v,
{
    lemma_pow256_values();
    if v < 0 {
        let s = int_dec_str(v);
        lemma_dec_str_roundtrip((-v) as nat);
        assert(s =~= seq!['-'] + dec_str((-v) as nat));
        assert(s[0] == '-');
        assert(s.skip(1) =~= dec_str((-v) as nat));
        assert(is_dec_int(s));
        assert(dec_int_val(s) == -(dec_val(dec_str((-v) as nat)) as int));
    } else {
        let s = int_dec_str(v);
        lemma_dec_str_roundtrip(v as nat);
        assert(s =~= dec_str(v as nat));
        assert(is_digit_char(s[0]));
        assert(s[0] != '-');
        assert(dec_int_val(s) == dec_val(s));
        if dt.is_signed() {
            assert(is_dec_int(s));
        }
    }
}

/// Encodes the decimal literal `s` as the wire bytes of type `dt`.
///
/// Fails with `InvalidNumericLiteral` exactly when `s` is not a decimal
/// literal the type accepts.
pub fn encode_scalar(dt: PacketDataType, s: &str) -> (r: Result<Vec<u8>, PacketError>)
    requires
        dt.is_fixed_width(),
    ensures
        match r {
            Ok(b) => valid_literal(dt, s@) && b@ == scalar_bytes(dt, dec_int_val(s@)) && b@.len()
                == dt.spec_width(),
            Err(e) => e == PacketError::InvalidNumericLiteral && !valid_literal(dt, s@),
        },
{
    proof {
        lemma_pow256_values();
    }
    match dt {
        PacketDataType::Bytes(_) | PacketDataType::CStr => {
            proof {
                assert(false);
            }
            Err(PacketError::InvalidNumericLiteral)
        },
        PacketDataType::U8 => match parse_dec_u64(s, 255) {
            Some(v) => Ok(le_bytes_u64(v, 1)),
            None => Err(PacketError::InvalidNumericLiteral),
        },
        PacketDataType::U16 => match parse_dec_u64(s, 65535) {
            Some(v) => Ok(le_bytes_u64(v, 2)),
            None => Err(PacketError::InvalidNumericLiteral),
        },
        PacketDataType::U32 => match parse_dec_u64(s, 4294967295) {
            Some(v) => Ok(le_bytes_u64(v, 4)),
            None => Err(PacketError::InvalidNumericLiteral),
        },
        PacketDataType::U64 => match parse_dec_u64(s, 0xffff_ffff_ffff_ffff) {
            Some(v) => Ok(le_bytes_u64(v, 8)),
            None => Err(PacketError::InvalidNumericLiteral),
        },
        PacketDataType::I8 => match parse_dec_i64(s, 128, 127) {
            Some(v) => {
                let p: u64 = if v >= 0 {
                    v as u64
                } else {
                    (256 + v) as u64
                };
                proof {
                    assert(p == scalar_pattern(dt, v as int));
                }
                Ok(le_bytes_u64(p, 1))
            },
            None => Err(PacketError::InvalidNumericLiteral),
        },
        PacketDataType::I16 => match parse_dec_i64(s, 32768, 32767) {
            Some(v) => {
                let p: u64 = if v >= 0 {
                    v as u64
                } else {
                    (65536 + v) as u64
                };
                proof {
                    assert(p == scalar_pattern(dt, v as int));
                }
                Ok(le_bytes_u64(p, 2))
            },
            None => Err(PacketError::InvalidNumericLiteral),
        },
        PacketDataType::I32 => match parse_dec_i64(s, 2147483648, 2147483647) {
            Some(v) => {
                let p: u64 = if v >= 0 {
                    v as u64
                } else {
                    (4294967296 + v) as u64
                };
                proof {
                    assert(p == scalar_pattern(dt, v as int));
                }
                Ok(le_bytes_u64(p, 4))
            },
            None => Err(PacketError::InvalidNumericLiteral),
        },
        PacketDataType::I64 => match parse_dec_i64(
            s,
            0x8000_0000_0000_0000,
            0x7fff_ffff_ffff_ffff,
        ) {
            Some(v) => {
                let p: u64 = if v >= 0 {
                    v as u64
                } else {
                    u64::MAX - ((-(v + 1)) as u64)
                };
                proof {
                    assert(p == scalar_pattern(dt, v as int));
                }
                Ok(le_bytes_u64(p, 8))
            },
            None => Err(PacketError::InvalidNumericLiteral),
        },
    }
}

/// Reads the wire bytes `b` as a scalar of type `dt` and writes the value
/// in canonical decimal form.
pub fn decode_scalar(dt: PacketDataType, b: &[u8]) -> (r: String)
    requires
        dt.is_fixed_width(),
        b@.len() == dt.spec_width(),
    ensures
        r@ == int_dec_str(scalar_val(dt, b@)),
{
    proof {
        lemma_pow256_values();
        crate::numeric::lemma_le_val_bound(b@);
    }
    let u = le_val_u64(b);
    if matches!(dt, PacketDataType::U8 | PacketDataType::U16 | PacketDataType::U32
        | PacketDataType::U64) {
        u64_to_dec(u)
    } else {
        let w = dt.data_size();
        let v: i64 = if w == 8 {
            if u < 0x8000_0000_0000_0000 {
                u as i64
            } else {
                let m = u64::MAX - u;
                -(m as i64) - 1
            }
        } else {
            let half: u64 = if w == 1 {
                128
            } else if w == 2 {
                32768
            } else {
                2147483648
            };
            if u < half {
                u as i64
            } else {
                (u as i64) - ((2 * half) as i64)
            }
        };
        proof {
            assert(v as int == scalar_val(dt, b@));
        }
        i64_to_dec(v)
    }
}

/// The run of bytes before the first zero byte; the whole run when no zero
/// byte occurs.
pub open spec fn prefix_before_zero(b: Seq<u8>) -> Seq<u8>
    decreases b.len(),
{
    if b.len() == 0 || b[0] == 0 {
        Seq::empty()
    } else {
        seq![b[0]] + prefix_before_zero(b.drop_first())
    }
}

/// How many bytes reading a nul-terminated string consumes from `b`: the
/// text and, when one occurs, the terminating zero byte.
pub open spec fn cstr_consumed(b: Seq<u8>) -> int {
    if prefix_before_zero(b).len() < b.len() {
        prefix_before_zero(b).len() + 1int
    } else {
        b.len() as int
    }
}

pub proof fn lemma_prefix_before_zero(b: Seq<u8>)
    ensures
        prefix_before_zero(b).len() <= b.len(),
        prefix_before_zero(b) =~= b.take(prefix_before_zero(b).len() as int),
        !prefix_before_zero(b).contains(0),
        prefix_before_zero(b).len() < b.len() ==> b[prefix_before_zero(b).len() as int] == 0,
    decreases b.len(),
{
    if b.len() == 0 || b[0] == 0 {
        assert(b.take(0) =~= Seq::<u8>::empty());
        if prefix_before_zero(b).contains(0) {
            assert(false);
        }
    } else {
        lemma_prefix_before_zero(b.drop_first());
        let p = prefix_before_zero(b);
        let q = prefix_before_zero(b.drop_first());
        assert(p =~= seq![b[0]] + q);
        assert(p =~= b.take(p.len() as int));
        if p.contains(0) {
            let i = choose|i: int| 0 <= i < p.len() && p[i] == 0;
            if i == 0 {
                assert(b[0] == 0);
            } else {
                assert(q[i - 1] == 0);
                assert(q.contains(0));
            }
        }
    }
}

/// Round trip for nul-terminated strings: text with no embedded zero byte,
/// encoded and then read back up to the terminator, is reproduced exactly.
pub proof fn lemma_cstr_roundtrip(s: Seq<char>)
    requires
        !encode_utf8(s).contains(0),
    ensures
        prefix_before_zero(encode_utf8(s).push(0)) =~= encode_utf8(s),
        decode_utf8(prefix_before_zero(encode_utf8(s).push(0))) == s,
{
    broadcast use vstd::utf8::encode_utf8_decode_utf8;

    lemma_prefix_no_zero(encode_utf8(s));
}

proof fn lemma_prefix_no_zero(b: Seq<u8>)
    requires
        !b.contains(0),
    ensures
        prefix_before_zero(b.push(0)) =~= b,
    decreases b.len(),
{
    if b.len() == 0 {
        assert(b.push(0)[0] == 0);
    } else {
        assert(b[0] != 0) by {
            if b[0] == 0 {
                assert(b.contains(0));
            }
        }
        assert(!b.drop_first().contains(0)) by {
            if b.drop_first().contains(0) {
                let i = choose|i: int| 0 <= i < b.drop_first().len() && b.drop_first()[i] == 0;
                assert(b[i + 1] == 0);
                assert(b.contains(0));
            }
        }
        lemma_prefix_no_zero(b.drop_first());
        assert(b.push(0).drop_first() =~= b.drop_first().push(0));
        assert(prefix_before_zero(b.push(0)) =~= seq![b[0]] + prefix_before_zero(
            b.drop_first().push(0),
        ));
    }
}

/// Encodes text as its UTF-8 bytes followed by one zero byte.
///
/// Fails with `EmbeddedNul` exactly when the text itself holds a zero byte.
pub fn encode_cstr(s: &str) -> (r: Result<Vec<u8>, PacketError>)
    ensures
        match r {
            Ok(b) => !encode_utf8(s@).contains(0) && b@ == encode_utf8(s@).push(0),
            Err(e) => e == PacketError::EmbeddedNul && encode_utf8(s@).contains(0),
        },
{
    let bytes = s.as_bytes();
    let n = bytes.len();
    let mut out: Vec<u8> = Vec::new();
    let mut i: usize = 0;
    while i < n
        invariant
            n == bytes@.len(),
            bytes@ == encode_utf8(s@),
            i <= n,
            out@ =~= bytes@.take(i as int),
            forall|j: int| 0 <= j < i ==> bytes@[j] != 0,
        decreases n - i,
    {
        let c = bytes[i];
        if c == 0 {
            proof {
                assert(bytes@.contains(0));
            }
            return Err(PacketError::EmbeddedNul);
        }
        out.push(c);
        i = i + 1;
    }
    proof {
        assert(out@ =~= bytes@);
        if bytes@.contains(0) {
            let j = choose|j: int| 0 <= j < bytes@.len() && bytes@[j] == 0;
            assert(false);
        }
    }
    out.push(0);
    Ok(out)
}

/// Collects the text bytes of a nul-terminated string from `data`,
/// beginning at `start`: the bytes before the first zero byte, the whole
/// tail when no zero byte occurs. Also reports how many bytes were
/// consumed, terminator included.
pub fn scan_cstr(data: &Vec<u8>, start: usize) -> (r: (Vec<u8>, usize))
    requires
        start <= data@.len(),
    ensures
        r.0@ == prefix_before_zero(data@.skip(start as int)),
        r.1 == cstr_consumed(data@.skip(start as int)),
        start + r.1 <= data@.len(),
{
    let n = data.len();
    let ghost tail = data@.skip(start as int);
    let mut out: Vec<u8> = Vec::new();
    let mut j: usize = start;
    loop
        invariant
            start <= j <= n,
            n == data@.len(),
            tail == data@.skip(start as int),
            out@.len() == j - start,
            prefix_before_zero(tail) =~= out@ + prefix_before_zero(data@.skip(j as int)),
            forall|x: int| 0 <= x < out@.len() ==> out@[x] != 0,
            out@ =~= tail.take(j - start),
        ensures
            start <= j <= n,
            n == data@.len(),
            out@ =~= prefix_before_zero(tail),
            j < n ==> data@[j as int] == 0 && j - start == prefix_before_zero(tail).len(),
            j == n ==> prefix_before_zero(tail).len() == tail.len(),
        decreases n - j,
    {
        if j >= n {
            proof {
                assert(data@.skip(j as int) =~= Seq::<u8>::empty());
                assert(out@ + Seq::<u8>::empty() =~= out@);
                assert(out@.len() == tail.len());
            }
            break ;
        }
        let c = data[j];
        proof {
            assert(data@.skip(j as int)[0] == data@[j as int]);
        }
        if c == 0 {
            proof {
                assert(prefix_before_zero(data@.skip(j as int)) =~= Seq::<u8>::empty());
                assert(out@ + Seq::<u8>::empty() =~= out@);
            }
            break ;
        }
        proof {
            assert(data@.skip(j as int).drop_first() =~= data@.skip(j as int + 1));
            assert(prefix_before_zero(data@.skip(j as int)) =~= seq![data@[j as int]]
                + prefix_before_zero(data@.skip(j as int + 1)));
            assert(out@ + (seq![data@[j as int]] + prefix_before_zero(data@.skip(j as int + 1)))
                =~= out@.push(data@[j as int]) + prefix_before_zero(data@.skip(j as int + 1)));
            assert(out@.push(data@[j as int]) =~= tail.take(j - start + 1));
        }
        out.push(c);
        j = j + 1;
    }
    let consumed = if j < n {
        j - start + 1
    } else {
        j - start
    };
    proof {
        lemma_prefix_before_zero(tail);
        assert(consumed == cstr_consumed(tail));
    }
    (out, consumed)
}

/// What one field contributes to the encoded packet. Scalar fields write
/// their literal's wire bytes, string fields their text and a terminator,
/// blob fields the bytes read from their source, and a field with no chosen
/// type writes nothing.
pub open spec fn spec_field_encode(f: crate::packet::FieldModel, blob: Seq<u8>) -> Result<
    Seq<u8>,
    PacketError,
> {
    match f.datatype {
        Option::None => Ok(Seq::empty()),
        Option::Some(PacketDataType::Bytes(_)) => Ok(blob),
        Option::Some(PacketDataType::CStr) => if encode_utf8(f.value).contains(0) {
            Err(PacketError::EmbeddedNul)
        } else {
            Ok(encode_utf8(f.value).push(0))
        },
        Option::Some(dt) => if valid_literal(dt, f.value) {
            Ok(scalar_bytes(dt, dec_int_val(f.value)))
        } else {
            Err(PacketError::InvalidNumericLiteral)
        },
    }
}

/// The encoded packet: the concatenation of every field's encoding in
/// field order, or the first field error.
pub open spec fn spec_packet_encode(
    fields: Seq<crate::packet::FieldModel>,
    blobs: Seq<Seq<u8>>,
) -> Result<Seq<u8>, PacketError>
    recommends
        blobs.len() == fields.len(),
    decreases fields.len(),
{
    if fields.len() == 0 {
        Ok(Seq::empty())
    } else {
        match spec_field_encode(fields[0], blobs[0]) {
            Err(e) => Err(e),
            Ok(b) => match spec_packet_encode(fields.drop_first(), blobs.drop_first()) {
                Err(e) => Err(e),
                Ok(rest) => Ok(b + rest),
            },
        }
    }
}

/// Turns collected text bytes into a `String`.
///
/// Relies on `String::from_utf8` of std: it succeeds exactly on valid UTF-8
/// input, and the resulting string's UTF-8 bytes are the input bytes.
#[verifier::external_body]
pub fn string_from_utf8(v: Vec<u8>) -> (r: Result<String, PacketError>)
    ensures
        match r {
            Ok(s) => valid_utf8(v@) && encode_utf8(s@) == v@,
            Err(e) => e == PacketError::InvalidUtf8 && !valid_utf8(v@),
        },
{
    match String::from_utf8(v) {
        Ok(s) => Ok(s),
        Err(_) => Err(PacketError::InvalidUtf8),
    }
}

} // verus!

