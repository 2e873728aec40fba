//! Decimal text and little-endian byte representations of integers.
//!
//! Field values are kept as decimal strings, and scalar fields travel on the
//! wire as little-endian byte runs, so the whole codec rests on the
//! conversions in this module: digit strings to numbers and back, and
//! numbers to byte runs and back.

use vstd::prelude::*;
use vstd::std_specs::iter::IteratorSpec;

verus! {

broadcast use vstd::string::group_string_axioms;

/// 256 raised to `w`: one past the largest value that fits in `w` bytes.
pub open spec fn pow256(w: nat) -> nat
    decreases w,
{
    if w == 0 {
        1
    } else {
        256 * pow256((w - 1) as nat)
    }
}

pub proof fn lemma_pow256_positive(w: nat)
    ensures
        pow256(w) >= 1,
    decreases w,
{
    if w > 0 {
        lemma_pow256_positive((w - 1) as nat);
    }
}

pub proof fn lemma_pow256_monotonic(a: nat, b: nat)
    requires
        a <= b,
    ensures
        pow256(a) <= pow256(b),
    decreases b,
{
    if a < b {
        lemma_pow256_monotonic(a, (b - 1) as nat);
        lemma_pow256_positive((b - 1) as nat);
    }
}

/// `pow256(8)` written out, for bounds on 64-bit arithmetic.
pub proof fn lemma_pow256_values()
    ensures
        pow256(1) == 0x100,
        pow256(2) == 0x1_0000,
        pow256(4) == 0x1_0000_0000,
        pow256(8) == 0x1_0000_0000_0000_0000,
{
    assert(pow256(0) == 1);
    assert(pow256(1) == 256);
    assert(pow256(2) == 256 * 256);
    assert(pow256(3) == 256 * pow256(2));
    assert(pow256(4) == 256 * pow256(3));
    assert(pow256(5) == 256 * pow256(4));
    assert(pow256(6) == 256 * pow256(5));
    assert(pow256(7) == 256 * pow256(6));
    assert(pow256(8) == 256 * pow256(7));
}

/// The number held by a little-endian byte run: the first byte is the least
/// significant.
pub open spec fn le_val(s: Seq<u8>) -> nat
    decreases s.len(),
{
    if s.len() == 0 {
        0
    } else {
        (s[0] + 256 * le_val(s.drop_first())) as nat
    }
}

/// The `w`-byte little-endian run for `n`, least significant byte first.
/// Bits beyond the `w`th byte are dropped.
pub open spec fn le_bytes(n: nat, w: nat) -> Seq<u8>
    decreases w,
{
    if w == 0 {
        Seq::empty()
    } else {
        seq![(n % 256) as u8] + le_bytes(n / 256, (w - 1) as nat)
    }
}

pub proof fn lemma_le_bytes_len(n: nat, w: nat)
    ensures
        le_bytes(n, w).len() == w,
    decreases w,
{
    if w > 0 {
        lemma_le_bytes_len(n / 256, (w - 1) as nat);
    }
}

pub proof fn lemma_le_val_bound(s: Seq<u8>)
    ensures
        le_val(s) < pow256(s.len()),
    decreases s.len(),
{
    if s.len() > 0 {
        lemma_le_val_bound(s.drop_first());
        assert(le_val(s) == s[0] + 256 * le_val(s.drop_first()));
        assert(256 * le_val(s.drop_first()) <= 256 * (pow256(s.drop_first().len()) - 1))
            by (nonlinear_arith)
            requires
                le_val(s.drop_first()) <= pow256(s.drop_first().len()) - 1,
        ;
    }
}

/// Encoding then decoding a value that fits in `w` bytes gives it back.
pub proof fn lemma_le_roundtrip(n: nat, w: nat)
    requires
        n < pow256(w),
    ensures
        le_val(le_bytes(n, w)) == n,
    decreases w,
{
    if w > 0 {
        let rest = le_bytes(n / 256, (w - 1) as nat);
        assert(le_bytes(n, w).drop_first() =~= rest);
        assert(n / 256 < pow256((w - 1) as nat)) by (nonlinear_arith)
            requires
                n < 256 * pow256((w - 1) as nat),
        ;
        lemma_le_roundtrip(n / 256, (w - 1) as nat);
        assert(n == 256 * (n / 256) + n % 256) by (nonlinear_arith);
    }
}

/// Reads a little-endian byte run of at most eight bytes.
pub fn le_val_u64(b: &[u8]) -> (r: u64)
    requires
        b@.len() <= 8,
    ensures
        r == le_val(b@),
{
    let n = b.len();
    let mut i: usize = n;
    let mut acc: u64 = 0;
    proof {
        assert(b@.skip(n as int) =~= Seq::<u8>::empty());
    }
    while i > 0
        invariant
            i <= n <= 8,
            n == b@.len(),
            acc == le_val(b@.skip(i as int)),
            acc < pow256((n - i) as nat),
        decreases i,
    {
        i = i - 1;
        proof {
            assert(b@.skip(i as int).drop_first() =~= b@.skip(i as int + 1));
            assert(le_val(b@.skip(i as int)) == b@[i as int] + 256 * le_val(b@.skip(i as int + 1)));
            lemma_pow256_monotonic((n - i - 1) as nat, 7);
            lemma_pow256_values();
            assert(256 * acc <= 256 * (pow256((n - i - 1) as nat) - 1)) by (nonlinear_arith)
                requires
                    acc <= pow256((n - i - 1) as nat) - 1,
            ;
        }
        acc = acc * 256 + (b[i] as u64);
    }
    proof {
        assert(b@.skip(0) =~= b@);
    }
    acc
}

/// Writes the `w`-byte little-endian run of `n`.
pub fn le_bytes_u64(n: u64, w: usize) -> (r: Vec<u8>)
    ensures
        r@ == le_bytes(n as nat, w as nat),
        r@.len() == w,
{
    let mut out: Vec<u8> = Vec::new();
    let mut x = n;
    let mut j: usize = 0;
    while j < w
        invariant
            j <= w,
            out@.len() == j,
            le_bytes(n as nat, w as nat) =~= out@ + le_bytes(x as nat, (w - j) as nat),
        decreases w - j,
    {
        proof {
            assert(le_bytes(x as nat, (w - j) as nat) =~= seq![(x as nat % 256) as u8]
                + le_bytes(x as nat / 256, (w - j - 1) as nat));
            assert(out@ + (seq![(x as nat % 256) as u8] + le_bytes(
                x as nat / 256,
                (w - j - 1) as nat,
            )) =~= out@.push((x % 256) as u8) + le_bytes(x as nat / 256, (w - j - 1) as nat));
        }
        out.push((x % 256) as u8);
        x = x / 256;
        j = j + 1;
    }
    proof {
        assert(le_bytes(x as nat, 0) =~= Seq::<u8>::empty());
        assert(out@ + Seq::<u8>::empty() =~= out@);
        lemma_le_bytes_len(n as nat, w as nat);
    }
    out
}

/// Decimal digit characters.
pub open spec fn is_digit_char(c: char) -> bool {
    48 <= (c as u32) && (c as u32) <= 57
}

pub open spec fn digit_val(c: char) -> nat {
    ((c as u32) - 48) as nat
}

/// The digit character for `d`, defined for `d < 10`.
pub open spec fn digit_char(d: nat) -> char {
    if d == 0 {
        '0'
    } else if d == 1 {
        '1'
    } else if d == 2 {
        '2'
    } else if d == 3 {
        '3'
    } else if d == 4 {
        '4'
    } else if d == 5 {
        '5'
    } else if d == 6 {
        '6'
    } else if d == 7 {
        '7'
    } else if d == 8 {
        '8'
    } else {
        '9'
    }
}

/// A non-empty run of decimal digits.
pub open spec fn is_dec_digits(s: Seq<char>) -> bool {
    s.len() > 0 && forall|i: int| 0 <= i < s.len() ==> is_digit_char(#[trigger] s[i])
}

/// The number written by a digit run, most significant digit first.
pub open spec fn dec_val(s: Seq<char>) -> nat
    decreases s.len(),
{
    if s.len() == 0 {
        0
    } else {
        dec_val(s.drop_last()) * 10 + digit_val(s.last())
    }
}

/// The canonical decimal form of `n`: no sign and no leading zeros.
pub open spec fn dec_str(n: nat) -> Seq<char>
    decreases n,
{
    if n < 10 {
        seq![digit_char(n)]
    } else {
        dec_str(n / 10).push(digit_char(n % 10))
    }
}

/// A decimal integer: an optional leading minus sign, then digits.
pub open spec fn is_dec_int(s: Seq<char>) -> bool {
    if s.len() > 0 && s[0] == '-' {
        is_dec_digits(s.skip(1))
    } else {
        is_dec_digits(s)
    }
}

/// The value written by a decimal integer string.
pub open spec fn dec_int_val(s: Seq<char>) -> int {
    if s.len() > 0 && s[0] == '-' {
        -(dec_val(s.skip(1)) as int)
    } else {
        dec_val(s) as int
    }
}

/// The canonical decimal form of `v`, signed.
pub open spec fn int_dec_str(v: int) -> Seq<char> {
    if v < 0 {
        seq!['-'] + dec_str((-v) as nat)
    } else {
        dec_str(v as nat)
    }
}

/// In a digit run, every prefix writes a number no larger than the whole.
pub proof fn lemma_dec_val_prefix_le(s: Seq<char>, k: int)
    requires
        0 <= k <= s.len(),
    ensures
        dec_val(s.take(k)) <= dec_val(s),
    decreases s.len() - k,
{
    if k < s.len() {
        let t = s.take(k + 1);
        assert(t.drop_last() =~= s.take(k));
        assert(dec_val(t) == dec_val(s.take(k)) * 10 + digit_val(t.last()));
        assert(dec_val(s.take(k)) <= dec_val(s.take(k)) * 10) by (nonlinear_arith);
        assert(s.take(s.len() as int) =~= s);
        lemma_dec_val_prefix_le(s, k + 1);
    } else {
        assert(s.take(k) =~= s);
    }
}

/// Reads a run of decimal digits whose value is at most `max`, consuming the
/// whole string. Leading zeros are allowed; a sign is not.
pub fn parse_dec_u64(s: &str, max: u64) -> (r: Option<u64>)
    ensures
        match r {
            Some(v) => is_dec_digits(s@) && dec_val(s@) <= max && v == dec_val(s@),
            None => !(is_dec_digits(s@) && dec_val(s@) <= max),
        },
{
    broadcast use vstd::string::next_postcondition;

    let ghost all = s@;
    let mut it = s.chars();
    let mut acc: u64 = 0;
    let ghost mut k: int = 0;
    let mut seen: bool = false;
    loop
        invariant
            all == s@,
            0 <= k <= all.len(),
            it.obeys_prophetic_iter_laws(),
            it.remaining() =~= all.skip(k),
            seen == (k > 0),
            forall|i: int| 0 <= i < k ==> is_digit_char(#[trigger] all[i]),
            acc == dec_val(all.take(k)),
            acc <= max,
        ensures
            all == s@,
            k == all.len(),
            seen == (k > 0),
            forall|i: int| 0 <= i < k ==> is_digit_char(#[trigger] all[i]),
            acc == dec_val(all.take(k)),
            acc <= max,
        decreases all.len() - k,
    {
        match it.next() {
            None => {
                proof {
                    assert(all.skip(k).len() == 0);
                }
                break ;
            },
            Some(c) => {
                proof {
                    assert(all.skip(k).len() > 0);
                    assert(c == all.skip(k)[0]);
                    assert(all.skip(k).drop_first() =~= all.skip(k + 1));
                }
                let u = c as u32;
                proof {
                    assert(c == all[k]);
                }
                if u < 48 || u > 57 {
                    proof {
                        assert(!is_digit_char(all[k]));
                    }
                    return None;
                }
                let d = (u - 48) as u64;
                if acc > max / 10 || (acc == max / 10 && d > max % 10) {
                    proof {
                        let t = all.take(k + 1);
                        assert(t.drop_last() =~= all.take(k));
                        assert(t.last() == all[k]);
                        assert(dec_val(t) == acc * 10 + d);
                        assert(acc * 10 + d > max) by (nonlinear_arith)
                            requires
                                acc > max / 10 || (acc == max / 10 && d > max % 10),
                                max == (max / 10) * 10 + max % 10,
                                d < 10,
                        ;
                        lemma_dec_val_prefix_le(all, k + 1);
                    }
                    return None;
                }
                proof {
                    let t = all.take(k + 1);
                    assert(t.drop_last() =~= all.take(k));
                    assert(t.last() == all[k]);
                    assert(acc * 10 + d <= max) by (nonlinear_arith)
                        requires
                            acc <= max / 10,
                            acc < max / 10 || d <= max % 10,
                            max == (max / 10) * 10 + max % 10,
                            d < 10,
                    ;
                    k = k + 1;
                }
                acc = acc * 10 + d;
                seen = true;
            },
        }
    }
    proof {
        assert(k == all.len());
        assert(all.take(k) =~= all);
    }
    if seen {
        Some(acc)
    } else {
        None
    }
}

/// Reads a decimal integer in `-neg_mag ..= pos_max`, consuming the whole
/// string. `neg_mag` names the largest magnitude allowed after a minus sign.
pub fn parse_dec_i64(s: &str, neg_mag: u64, pos_max: u64) -> (r: Option<i64>)
    requires
        neg_mag <= 0x8000_0000_0000_0000,
        pos_max <= 0x7fff_ffff_ffff_ffff,
    ensures
        match r {
            Some(v) => is_dec_int(s@) && -(neg_mag as int) <= dec_int_val(s@) <= pos_max && v
                == dec_int_val(s@),
            None => !(is_dec_int(s@) && -(neg_mag as int) <= dec_int_val(s@) <= pos_max),
        },
{
    broadcast use vstd::string::next_postcondition;

    let ghost all = s@;
    let mut it = s.chars();
    let mut acc: u64 = 0;
    let ghost mut k: int = 0;
    let ghost mut digits: int = 0;
    let mut seen: bool = false;
    let mut neg: bool = false;
    let ghost mut body: Seq<char> = all;
    loop
        invariant
            all == s@,
            it.obeys_prophetic_iter_laws(),
            neg ==> all.len() > 0 && all[0] == '-' && body =~= all.skip(1) && 1 <= k <= all.len()
                && digits == k - 1,
            !neg ==> body =~= all && 0 <= k <= all.len() && digits == k,
            it.remaining() =~= all.skip(k),
            seen == (digits > 0),
            forall|i: int| 0 <= i < digits ==> is_digit_char(#[trigger] body[i]),
            acc == dec_val(body.take(digits)),
            neg ==> acc <= neg_mag,
            !neg ==> acc <= pos_max,
        ensures
            all == s@,
            k == all.len(),
            neg ==> all.len() > 0 && all[0] == '-' && body =~= all.skip(1) && digits == all.len()
                - 1,
            !neg ==> body =~= all && digits == all.len(),
            seen == (digits > 0),
            forall|i: int| 0 <= i < digits ==> is_digit_char(#[trigger] body[i]),
            acc == dec_val(body.take(digits)),
            neg ==> acc <= neg_mag,
            !neg ==> acc <= pos_max,
        decreases all.len() - k,
    {
        match it.next() {
            None => {
                proof {
                    assert(all.skip(k).len() == 0);
                }
                break ;
            },
            Some(c) => {
                proof {
                    assert(all.skip(k).len() > 0);
                    assert(c == all.skip(k)[0]);
                    assert(all.skip(k).drop_first() =~= all.skip(k + 1));
                    assert(c == all[k]);
                }
                if c == '-' && !seen && !neg {
                    neg = true;
                    proof {
                        body = all.skip(1);
                        k = k + 1;
                        assert(body.take(0) =~= Seq::<char>::empty());
                    }
                    continue ;
                }
                let u = c as u32;
                proof {
                    if neg {
                        assert(body[digits] == all[k]);
                    }
                }
                if u < 48 || u > 57 {
                    proof {
                        assert(!is_digit_char(body[digits]));
                    }
                    return None;
                }
                let d = (u - 48) as u64;
                let lim = if neg {
                    neg_mag
                } else {
                    pos_max
                };
                if acc > lim / 10 || (acc == lim / 10 && d > lim % 10) {
                    proof {
                        let t = body.take(digits + 1);
                        assert(t.drop_last() =~= body.take(digits));
                        assert(t.last() == body[digits]);
                        assert(dec_val(t) == acc * 10 + d);
                        assert(acc * 10 + d > lim) by (nonlinear_arith)
                            requires
                                acc > lim / 10 || (acc == lim / 10 && d > lim % 10),
                                lim == (lim / 10) * 10 + lim % 10,
                                d < 10,
                        ;
                        lemma_dec_val_prefix_le(body, digits + 1);
                    }
                    return None;
                }
                proof {
                    let t = body.take(digits + 1);
                    assert(t.drop_last() =~= body.take(digits));
                    assert(t.last() == body[digits]);
                    assert(acc * 10 + d <= lim) by (nonlinear_arith)
                        requires
                            acc <= lim / 10,
                            acc < lim / 10 || d <= lim % 10,
                            lim == (lim / 10) * 10 + lim % 10,
                            d < 10,
                    ;
                    k = k + 1;
                    digits = digits + 1;
                }
                acc = acc * 10 + d;
                seen = true;
            },
        }
    }
    proof {
        assert(body.take(digits) =~= body);
    }
    if !seen {
        return None;
    }
    if neg {
        if acc <= 0x7fff_ffff_ffff_ffff {
            Some(-(acc as i64))
        } else {
            Some(i64::MIN)
        }
    } else {
        Some(acc as i64)
    }
}

/// The digit characters of `s`, reversed.
pub open spec fn rev_digit_chars(s: Seq<u64>) -> Seq<char>
    decreases s.len(),
{
    if s.len() == 0 {
        Seq::empty()
    } else {
        rev_digit_chars(s.drop_first()) + seq![digit_char(s.first() as nat)]
    }
}

proof fn lemma_rev_digit_chars_push(s: Seq<u64>, d: u64)
    ensures
        rev_digit_chars(s.push(d)) =~= seq![digit_char(d as nat)] + rev_digit_chars(s),
    decreases s.len(),
{
    if s.len() == 0 {
        assert(s.push(d).first() == d);
        assert(s.push(d).drop_first() =~= Seq::<u64>::empty());
        assert(rev_digit_chars(s.push(d)) =~= rev_digit_chars(Seq::<u64>::empty()) + seq![
            digit_char(d as nat),
        ]);
    } else {
        assert(s.push(d).first() == s.first());
        assert(s.push(d).drop_first() =~= s.drop_first().push(d));
        lemma_rev_digit_chars_push(s.drop_first(), d);
        assert(rev_digit_chars(s.push(d)) =~= rev_digit_chars(s.drop_first().push(d)) + seq![
            digit_char(s.first() as nat),
        ]);
        assert((seq![digit_char(d as nat)] + rev_digit_chars(s.drop_first())) + seq![
            digit_char(s.first() as nat),
        ] =~= seq![digit_char(d as nat)] + (rev_digit_chars(s.drop_first()) + seq![
            digit_char(s.first() as nat),
        ]));
    }
}

/// The one-character string for digit `d`.
fn digit_str(d: u64) -> (r: &'static str)
    requires
        d < 10,
    ensures
        r@ =~= seq![digit_char(d as nat)],
{
    proof {
        reveal_strlit("0");
        reveal_strlit("1");
        reveal_strlit("2");
        reveal_strlit("3");
        reveal_strlit("4");
        reveal_strlit("5");
        reveal_strlit("6");
        reveal_strlit("7");
        reveal_strlit("8");
        reveal_strlit("9");
    }
    if d == 0 {
        "0"
    } else if d == 1 {
        "1"
    } else if d == 2 {
        "2"
    } else if d == 3 {
        "3"
    } else if d == 4 {
        "4"
    } else if d == 5 {
        "5"
    } else if d == 6 {
        "6"
    } else if d == 7 {
        "7"
    } else if d == 8 {
        "8"
    } else {
        "9"
    }
}

/// Writes `v` in canonical decimal form.
pub fn u64_to_dec(v: u64) -> (r: String)
    ensures
        r@ =~= dec_str(v as nat),
{
    let mut digits: Vec<u64> = Vec::new();
    let mut x = v;
    loop
        invariant
            digits@.len() == 0 ==> x == v,
            digits@.len() > 0 && x > 0 ==> dec_str(v as nat) =~= dec_str(x as nat)
                + rev_digit_chars(digits@),
            digits@.len() > 0 && x == 0 ==> dec_str(v as nat) =~= rev_digit_chars(digits@),
            forall|i: int| 0 <= i < digits@.len() ==> #[trigger] digits@[i] < 10,
        ensures
            digits@.len() > 0,
            dec_str(v as nat) =~= rev_digit_chars(digits@),
            forall|i: int| 0 <= i < digits@.len() ==> #[trigger] digits@[i] < 10,
        decreases x + if digits@.len() == 0 {
            1nat
        } else {
            0nat
        },
    {
        if x == 0 && digits.len() > 0 {
            break ;
        }
        let d = x % 10;
        proof {
            lemma_rev_digit_chars_push(digits@, d);
            if x >= 10 {
                assert(dec_str(x as nat) =~= dec_str((x / 10) as nat).push(
                    digit_char((x % 10) as nat),
                ));
                assert(dec_str((x / 10) as nat).push(digit_char(d as nat)) =~= dec_str(
                    (x / 10) as nat,
                ) + seq![digit_char(d as nat)]);
                if digits@.len() > 0 {
                    assert((dec_str(x as nat)) + rev_digit_chars(digits@) =~= dec_str(
                        (x / 10) as nat,
                    ) + (seq![digit_char(d as nat)] + rev_digit_chars(digits@)));
                } else {
                    assert(dec_str(v as nat) =~= dec_str((x / 10) as nat) + (seq![
                        digit_char(d as nat),
                    ] + rev_digit_chars(digits@)));
                }
            } else {
                assert(dec_str(x as nat) =~= seq![digit_char(x as nat)]);
                if digits@.len() > 0 {
                    assert(seq![digit_char(d as nat)] + rev_digit_chars(digits@)
                        =~= rev_digit_chars(digits@.push(d)));
                } else {
                    assert(dec_str(v as nat) =~= seq![digit_char(d as nat)] + rev_digit_chars(
                        digits@,
                    ));
                }
            }
        }
        digits.push(d);
        x = x / 10;
    }
    let mut out = String::new();
    let mut i = digits.len();
    proof {
        assert(digits@.skip(i as int) =~= Seq::<u64>::empty());
    }
    while i > 0
        invariant
            i <= digits@.len(),
            forall|j: int| 0 <= j < digits@.len() ==> #[trigger] digits@[j] < 10,
            out@ =~= rev_digit_chars(digits@.skip(i as int)),
        decreases i,
    {
        i = i - 1;
        proof {
            assert(digits@.skip(i as int).drop_first() =~= digits@.skip(i as int + 1));
            assert(digits@.skip(i as int).first() == digits@[i as int]);
        }
        vstd::string::StringExecFns::append(&mut out, digit_str(digits[i]));
    }
    proof {
        assert(digits@.skip(0) =~= digits@);
    }
    out
}

/// Writes `v` in canonical decimal form, with a minus sign when negative.
pub fn i64_to_dec(v: i64) -> (r: String)
    ensures
        r@ =~= int_dec_str(v as int),
{
    if v >= 0 {
        u64_to_dec(v as u64)
    } else {
        let mag: u64 = ((-(v + 1)) as u64) + 1;
        let mut out = String::new();
        proof {
            reveal_strlit("-");
        }
        vstd::string::StringExecFns::append(&mut out, "-");
        let tail = u64_to_dec(mag);
        vstd::string::StringExecFns::append(&mut out, tail.as_str());
        proof {
            assert(out@ =~= seq!['-'] + dec_str(mag as nat));
        }
        out
    }
}

/// Whether `s` is exactly one minus sign: the allowed intermediate state
/// while a signed value is being typed.
pub fn is_dash(s: &str) -> (r: bool)
    ensures
        r == (s@ == seq!['-']),
{
    broadcast use vstd::string::next_postcondition;

    let mut it = s.chars();
    match it.next() {
        None => {
            proof {
                assert(s@.len() == 0);
            }
            false
        },
        Some(c) => {
            if c != '-' {
                proof {
                    assert(s@[0] == c);
                }
                false
            } else {
                match it.next() {
                    None => {
                        proof {
                            assert(s@.skip(1).len() == 0);
                            assert(s@ =~= seq!['-']);
                        }
                        true
                    },
                    Some(_) => {
                        proof {
                            assert(s@.len() >= 2);
                        }
                        false
                    },
                }
            }
        },
    }
}

/// Whether two strings hold the same text.
pub fn str_eq(a: &str, b: &str) -> (r: bool)
    ensures
        r == (a@ == b@),
{
    broadcast use vstd::utf8::encode_utf8_decode_utf8;

    let ab = a.as_bytes();
    let bb = b.as_bytes();
    let n = ab.len();
    if n != bb.len() {
        proof {
            if a@ == b@ {
                assert(ab@ == bb@);
            }
        }
        return false;
    }
    let mut i: usize = 0;
    while i < n
        invariant
            n == ab@.len() == bb@.len(),
            ab@ == vstd::utf8::encode_utf8(a@),
            bb@ == vstd::utf8::encode_utf8(b@),
            i <= n,
            forall|j: int| 0 <= j < i ==> ab@[j] == bb@[j],
        decreases n - i,
    {
        if ab[i] != bb[i] {
            proof {
                if a@ == b@ {
                    assert(ab@ == bb@);
                    assert(ab@[i as int] == bb@[i as int]);
                }
            }
            return false;
        }
        i = i + 1;
    }
    proof {
        assert(ab@ =~= bb@);
        assert(vstd::utf8::decode_utf8(vstd::utf8::encode_utf8(a@)) == a@);
        assert(vstd::utf8::decode_utf8(vstd::utf8::encode_utf8(b@)) == b@);
    }
    true
}

} // verus!
