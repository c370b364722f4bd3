//! The type guesser: given one column's raw bytes, infer the logical type
//! and render a printable value. Recognizers are tried in a fixed order —
//! date, timestamp, text, number — and the first that accepts wins.

use vstd::prelude::*;
use crate::calendar::{date_string_spec, datetime_valid, days_in_month, ts_string_spec};
use crate::numfmt::{append_min2, append_pad9, dec_canonical, dec_string_spec, fmt_min2, is_digit_char, lemma_dec_digits_are_digits, lemma_dec_digits_len, lemma_pow10_mono, lemma_pow10_pos, lemma_seq_digits_val_bound, pow10, seq_digits_val};
use crate::wrappers::{ascii_chars, char_alphanumeric, chrono_parse_ok, dec_from_str, dec_mul10, dec_render, dec_mul10_parts, dec_parse_parts, dec_parts_valid, hex_bytes, hex_decode, hex_valid, is_alphanumeric_char, utf8_chars, utf8_decode, zero_point_digits};

verus! {

/// One decoded column value: the guessed logical type's name and the
/// rendered text.
#[derive(Debug)]
pub struct OracleType {
    pub data_type: String,
    pub value: String,
}

/// A byte read as a signed eight-bit value.
pub open spec fn as_i8(b: u8) -> int {
    if b < 128 {
        b as int
    } else {
        b as int - 256
    }
}

/// The component checks a seven-byte date must pass before validation:
/// a positive century, a non-negative year-in-century, and hour, minute
/// and second bytes of at least one (they are stored shifted up by one).
pub open spec fn date_components_ok(b: Seq<u8>) -> bool {
    &&& b[0] as int - 100 > 0
    &&& b[1] as int - 100 >= 0
    &&& as_i8(b[4]) - 1 >= 0
    &&& as_i8(b[5]) - 1 >= 0
    &&& as_i8(b[6]) - 1 >= 0
}

/// The text a seven-byte date renders to.
pub open spec fn date_value_spec(b: Seq<u8>) -> Seq<char> {
    date_string_spec(
        b[0] as int - 100,
        b[1] as int - 100,
        as_i8(b[2]),
        as_i8(b[3]),
        as_i8(b[4]) - 1,
        as_i8(b[5]) - 1,
        as_i8(b[6]) - 1,
    )
}

/// Whether seven bytes decode as a date: components in range and a valid
/// calendar datetime.
pub open spec fn date_ok(b: Seq<u8>) -> bool {
    &&& b.len() == 7
    &&& date_components_ok(b)
    &&& datetime_valid(
        b[0] as int - 100,
        b[1] as int - 100,
        as_i8(b[2]),
        as_i8(b[3]),
        as_i8(b[4]) - 1,
        as_i8(b[5]) - 1,
        as_i8(b[6]) - 1,
    )
}

/// The big-endian fractional-seconds word of an eleven-byte timestamp.
pub open spec fn ts_frac(b: Seq<u8>) -> int {
    b[7] as int * 0x1000000 + b[8] as int * 0x10000 + b[9] as int * 0x100 + b[10] as int
}

/// The text an eleven-byte timestamp renders to.
pub open spec fn ts_value_spec(b: Seq<u8>) -> Seq<char> {
    ts_string_spec(
        b[0] as int - 100,
        b[1] as int - 100,
        as_i8(b[2]),
        as_i8(b[3]),
        as_i8(b[4]) - 1,
        as_i8(b[5]) - 1,
        as_i8(b[6]) - 1,
        ts_frac(b),
    )
}

/// Whether eleven bytes decode as a timestamp: a date in the first seven
/// bytes (the fraction never affects validity).
pub open spec fn ts_ok(b: Seq<u8>) -> bool {
    &&& b.len() == 11
    &&& date_components_ok(b)
    &&& datetime_valid(
        b[0] as int - 100,
        b[1] as int - 100,
        as_i8(b[2]),
        as_i8(b[3]),
        as_i8(b[4]) - 1,
        as_i8(b[5]) - 1,
        as_i8(b[6]) - 1,
    )
}

/// A byte as a signed value, in executable form.
fn as_i8_exec(b: u8) -> (r: i32)
    ensures
        r as int == as_i8(b),
{
    if b < 128 {
        b as i32
    } else {
        b as i32 - 256
    }
}

/// Build the `CCYY-MM-DD HH:MM:SS` text for the given components.
fn build_date_string(cc: i32, yy: i32, mo: i32, dd: i32, hh: i32, mi: i32, ss: i32) -> (r: String)
    requires
        -1000 <= cc <= 1000,
        -1000 <= yy <= 1000,
        -1000 <= mo <= 1000,
        -1000 <= dd <= 1000,
        -1000 <= hh <= 1000,
        -1000 <= mi <= 1000,
        -1000 <= ss <= 1000,
    ensures
        r@ == date_string_spec(cc as int, yy as int, mo as int, dd as int, hh as int, mi as int, ss as int),
{
    let mut s = String::new();
    append_min2(&mut s, cc as i64);
    append_min2(&mut s, yy as i64);
    s.append("-");
    append_min2(&mut s, mo as i64);
    s.append("-");
    append_min2(&mut s, dd as i64);
    s.append(" ");
    append_min2(&mut s, hh as i64);
    s.append(":");
    append_min2(&mut s, mi as i64);
    s.append(":");
    append_min2(&mut s, ss as i64);
    proof {
        reveal_strlit("-");
        reveal_strlit(" ");
        reveal_strlit(":");
        assert(s@ =~= date_string_spec(
            cc as int,
            yy as int,
            mo as int,
            dd as int,
            hh as int,
            mi as int,
            ss as int,
        ));
    }
    s
}

/// Try to read the bytes as a seven-byte date; on success the value is the
/// rendered datetime text.
pub fn check_date(bytes_val: &Vec<u8>) -> (r: Result<OracleType, String>)
    ensures
        r matches Ok(t) ==> date_ok(bytes_val@) && t.data_type@ == "DATE"@ && t.value@
            == date_value_spec(bytes_val@),
        r matches Err(e) ==> !date_ok(bytes_val@) && e@ == "Not a date"@,
{
    if bytes_val.len() != 7 {
        return Err(String::from_str("Not a date"));
    }
    let century: i32 = bytes_val[0] as i32 - 100;
    if century <= 0 {
        return Err(String::from_str("Not a date"));
    }
    let year: i32 = bytes_val[1] as i32 - 100;
    if year < 0 {
        return Err(String::from_str("Not a date"));
    }
    let month: i32 = as_i8_exec(bytes_val[2]);
    let day: i32 = as_i8_exec(bytes_val[3]);
    let hour: i32 = as_i8_exec(bytes_val[4]) - 1;
    let minute: i32 = as_i8_exec(bytes_val[5]) - 1;
    let second: i32 = as_i8_exec(bytes_val[6]) - 1;
    if hour < 0 || minute < 0 || second < 0 {
        return Err(String::from_str("Not a date"));
    }
    let date_string = build_date_string(century, year, month, day, hour, minute, second);
    let accepted = chrono_parse_ok(date_string.as_str(), "%Y-%m-%d %H:%M:%S");
    if accepted {
        Ok(OracleType { data_type: String::from_str("DATE"), value: date_string })
    } else {
        Err(String::from_str("Not a date"))
    }
}

/// Try to read the bytes as an eleven-byte timestamp; on success the value
/// is the rendered datetime text with nine fractional digits.
pub fn check_timestamp(bytes_val: &Vec<u8>) -> (r: Result<OracleType, String>)
    ensures
        r matches Ok(t) ==> ts_ok(bytes_val@) && t.data_type@ == "TIMESTAMP"@ && t.value@
            == ts_value_spec(bytes_val@),
        r matches Err(e) ==> !ts_ok(bytes_val@) && e@ == "Not a date"@,
{
    if bytes_val.len() != 11 {
        return Err(String::from_str("Not a date"));
    }
    let century: i32 = bytes_val[0] as i32 - 100;
    if century <= 0 {
        return Err(String::from_str("Not a date"));
    }
    let year: i32 = bytes_val[1] as i32 - 100;
    if year < 0 {
        return Err(String::from_str("Not a date"));
    }
    let month: i32 = as_i8_exec(bytes_val[2]);
    let day: i32 = as_i8_exec(bytes_val[3]);
    let hour: i32 = as_i8_exec(bytes_val[4]) - 1;
    let minute: i32 = as_i8_exec(bytes_val[5]) - 1;
    let second: i32 = as_i8_exec(bytes_val[6]) - 1;
    if hour < 0 || minute < 0 || second < 0 {
        return Err(String::from_str("Not a date"));
    }
    let second_fraction: u32 = bytes_val[7] as u32 * 0x1000000 + bytes_val[8] as u32 * 0x10000
        + bytes_val[9] as u32 * 0x100 + bytes_val[10] as u32;
    let mut date_string = build_date_string(century, year, month, day, hour, minute, second);
    date_string.append(".");
    append_pad9(&mut date_string, second_fraction);
    proof {
        reveal_strlit(".");
        assert(date_string@ =~= ts_value_spec(bytes_val@));
    }
    let accepted = chrono_parse_ok(date_string.as_str(), "%Y-%m-%d %H:%M:%S%.f");
    if accepted {
        Ok(OracleType { data_type: String::from_str("TIMESTAMP"), value: date_string })
    } else {
        Err(String::from_str("Not a date"))
    }
}

/// A character the text recognizer lets through: alphanumeric in the
/// Unicode sense, or any ASCII character.
pub open spec fn printable_char(c: char) -> bool {
    char_alphanumeric(c) || (c as u32) < 128
}

/// Whether the bytes decode as printable text: valid UTF-8 whose every
/// character is printable.
pub open spec fn varchar_ok(b: Seq<u8>) -> bool {
    utf8_chars(b) is Some && forall|i: int|
        0 <= i < varchar_value(b).len() ==> printable_char(#[trigger] varchar_value(b)[i])
}

/// The text the bytes decode to, when they are valid UTF-8.
pub open spec fn varchar_value(b: Seq<u8>) -> Seq<char> {
    utf8_chars(b)->Some_0
}

/// Try to read the bytes as printable text; on success the value is the
/// decoded text itself.
#[verifier::loop_isolation(false)]
pub fn check_string(bytes_val: &Vec<u8>) -> (r: Result<OracleType, String>)
    ensures
        r matches Ok(t) ==> varchar_ok(bytes_val@) && t.data_type@ == "VARCHAR2"@ && t.value@
            == varchar_value(bytes_val@),
        r matches Err(e) ==> !varchar_ok(bytes_val@) && e@ == "Not a string"@,
        bytes_val@.len() == 1 && bytes_val@[0] >= 128 ==> r is Err,
        bytes_val@.len() == 1 && bytes_val@[0] < 128 ==> (r matches Ok(t) && t.value@
            == ascii_chars(bytes_val@)),
        r matches Ok(t) ==> (bytes_val@.len() > 0 ==> t.value@.len() > 0),
{
    match utf8_decode(bytes_val) {
        None => Err(String::from_str("Not a string")),
        Some((text, chars)) => {
            let n = chars.len();
            let mut i: usize = 0;
            while i < n
                invariant
                    n == chars.len(),
                    i <= n,
                    Some(chars@) == utf8_chars(bytes_val@),
                    text@ == chars@,
                    forall|j: int| 0 <= j < i ==> printable_char(#[trigger] chars@[j]),
                decreases n - i,
            {
                let c = chars[i];
                let ok_c = if (c as u32) < 128 {
                    true
                } else {
                    is_alphanumeric_char(c)
                };
                if !ok_c {
                    proof {
                        assert(varchar_value(bytes_val@) == chars@);
                        assert(!printable_char(varchar_value(bytes_val@)[i as int]));
                    }
                    return Err(String::from_str("Not a string"));
                }
                i = i + 1;
            }
            Ok(OracleType { data_type: String::from_str("VARCHAR2"), value: text })
        },
    }
}

/// A byte's stored digit pair in the positive number form: the byte minus
/// one, wrapping at zero as the byte subtraction does.
pub open spec fn wrap_dec(b: u8) -> int {
    if b == 0 {
        255
    } else {
        b as int - 1
    }
}

/// The digit-pair text of a positive-form number from byte `i` on.
pub open spec fn pos_pairs(b: Seq<u8>, i: int) -> Seq<char>
    decreases b.len() - i,
{
    if i < 1 || i >= b.len() {
        Seq::empty()
    } else {
        fmt_min2(wrap_dec(b[i])) + pos_pairs(b, i + 1)
    }
}

/// The digit-pair text of a negative-form number from byte `i` on: pairs
/// are stored complemented against 101.
pub open spec fn neg_pairs(b: Seq<u8>, i: int) -> Seq<char>
    decreases b.len() - i,
{
    if i < 1 || i >= b.len() {
        Seq::empty()
    } else {
        fmt_min2(101 - b[i] as int) + neg_pairs(b, i + 1)
    }
}

/// A negative-form number is rejected as soon as a complemented pair would
/// be negative.
pub open spec fn neg_pairs_ok(b: Seq<u8>) -> bool {
    forall|i: int| 1 <= i < b.len() ==> b[i] <= 101
}

/// The cheap front test of the number recognizer: neither form can start
/// below 193 without the negative terminator, nor above 208 at all.
pub open spec fn num_rejected_early(b: Seq<u8>) -> bool {
    (b[b.len() - 1] != 102 && b[0] < 193) || b[0] > 208
}

/// The power of ten a positive-form number is scaled by.
pub open spec fn pos_exp(b: Seq<u8>) -> nat {
    ((b[0] - 193) * 2 + 2) as nat
}

/// The power of ten a negative-form number is scaled by.
pub open spec fn neg_exp(b: Seq<u8>) -> nat {
    ((62 - b[0]) * 2 + 2) as nat
}

/// With every mantissa byte between one and one hundred, the digit-pair
/// text is exactly two digit characters per byte.
pub proof fn lemma_pos_pairs_digits(b: Seq<u8>, i: int)
    requires
        1 <= i <= b.len(),
        forall|j: int| i <= j < b.len() ==> 1 <= #[trigger] b[j] <= 100,
    ensures
        pos_pairs(b, i).len() == 2 * (b.len() - i),
        forall|j: int| 0 <= j < pos_pairs(b, i).len() ==> is_digit_char(#[trigger] pos_pairs(b, i)[j]),
    decreases b.len() - i,
{
    if i < b.len() {
        lemma_pos_pairs_digits(b, i + 1);
        let v = wrap_dec(b[i]);
        assert(0 <= v <= 99);
        lemma_dec_digits_len(v as nat);
        lemma_dec_digits_are_digits(v as nat);
        assert(fmt_min2(v).len() == 2);
        assert forall|j: int| 0 <= j < fmt_min2(v).len() implies is_digit_char(
            #[trigger] fmt_min2(v)[j],
        ) by {
            if j < fmt_min2(v).len() - crate::numfmt::dec_digits(v as nat).len() {
                assert(fmt_min2(v)[j] == '0');
            }
        }
        assert forall|j: int| 0 <= j < pos_pairs(b, i).len() implies is_digit_char(
            #[trigger] pos_pairs(b, i)[j],
        ) by {
            if j < 2 {
                assert(pos_pairs(b, i)[j] == fmt_min2(v)[j]);
            } else {
                assert(pos_pairs(b, i)[j] == pos_pairs(b, i + 1)[j - 2]);
            }
        }
    }
}

/// For any mantissa bytes at all, the digit-pair text consists of digit
/// characters alone, at least one per byte.
pub proof fn lemma_pos_pairs_all_digits(b: Seq<u8>, i: int)
    requires
        1 <= i <= b.len(),
    ensures
        pos_pairs(b, i).len() >= b.len() - i,
        forall|j: int| 0 <= j < pos_pairs(b, i).len() ==> is_digit_char(#[trigger] pos_pairs(b, i)[j]),
    decreases b.len() - i,
{
    if i < b.len() {
        lemma_pos_pairs_all_digits(b, i + 1);
        let v = wrap_dec(b[i]);
        lemma_dec_digits_len(v as nat);
        lemma_dec_digits_are_digits(v as nat);
        assert forall|j: int| 0 <= j < fmt_min2(v).len() implies is_digit_char(
            #[trigger] fmt_min2(v)[j],
        ) by {
            if j < fmt_min2(v).len() - crate::numfmt::dec_digits(v as nat).len() {
                assert(fmt_min2(v)[j] == '0');
            }
        }
        assert forall|j: int| 0 <= j < pos_pairs(b, i).len() implies is_digit_char(
            #[trigger] pos_pairs(b, i)[j],
        ) by {
            if j < fmt_min2(v).len() {
                assert(pos_pairs(b, i)[j] == fmt_min2(v)[j]);
            } else {
                assert(pos_pairs(b, i)[j] == pos_pairs(b, i + 1)[j - fmt_min2(v).len()]);
            }
        }
    }
}

/// `k` applications of the decimal multiply-by-ten step, stopping at the
/// first overflow.
pub open spec fn mul10_iter(m: i128, s: u32, k: nat) -> Option<(i128, u32)>
    decreases k,
{
    if k == 0 {
        Some((m, s))
    } else {
        match dec_mul10_parts(m, s) {
            None => None,
            Some(q) => mul10_iter(q.0, q.1, (k - 1) as nat),
        }
    }
}

/// The decimal machinery applied to an assembled digit string: parse it,
/// scale by ten `e` times, drop trailing fractional zeros, and render.
/// Nothing on a parse failure or an overflow.
pub open spec fn num_pipeline(s: Seq<char>, e: nat) -> Option<Seq<char>> {
    match dec_parse_parts(s) {
        None => None,
        Some(p) => match mul10_iter(p.0, p.1, e) {
            None => None,
            Some(q) => Some(dec_canonical(q.0 as int, q.1 as int)),
        },
    }
}

/// What the number recognizer yields for nonempty bytes: the literal zero
/// byte, or one of the two fixed-point forms run through the decimal
/// machinery; nothing when the shape or the machinery rejects.
pub open spec fn num_result(b: Seq<u8>) -> Option<Seq<char>> {
    if b.len() == 1 && b[0] == 128 {
        Some(seq!['0'])
    } else if num_rejected_early(b) {
        None
    } else if b[b.len() - 1] != 102 && b[0] >= 193 {
        num_pipeline(seq!['0', '.'] + pos_pairs(b, 1), pos_exp(b))
    } else if b[b.len() - 1] == 102 && b[0] <= 62 {
        if neg_pairs_ok(b) {
            num_pipeline(seq!['-', '0', '.'] + neg_pairs(b, 1), neg_exp(b))
        } else {
            None
        }
    } else {
        None
    }
}

/// Parse an assembled digit string as a decimal, scale it by ten `e`
/// times, drop trailing fractional zeros, and render the canonical text;
/// nothing on parse failure or overflow.
#[verifier::loop_isolation(false)]
fn run_number_pipeline(s: &str, e: u32) -> (r: Option<String>)
    ensures
        r matches Some(v) ==> num_pipeline(s@, e as nat) == Some(v@),
        r is None ==> num_pipeline(s@, e as nat) is None,
        s@ == seq!['0', '.'] ==> (r matches Some(v) && v@ == crate::numfmt::dec_string_spec(0, 0)),
        r matches Some(v) ==> v@.len() >= 1,
        forall|digits: Seq<char>| #[trigger]
            zero_point_digits(s@, digits) ==> dec_parse_parts(s@) is Some,
        forall|digits: Seq<char>|
            1 <= digits.len() <= 28 && (forall|i: int|
                0 <= i < digits.len() ==> is_digit_char(#[trigger] digits[i])) && s@ == seq!['0', '.']
                + digits ==> dec_parse_parts(s@) == Some(
                ((#[trigger] seq_digits_val(digits)) as i128, digits.len() as u32),
            ),
        dec_parse_parts(s@) matches Some(parts) ==> ((parts.0 > 0 && (parts.0 as int) * pow10(e as nat)
            < 0x1_0000_0000_0000_0000_0000_0000) ==> (r matches Some(v) && v@ == dec_canonical(
            (parts.0 as int) * pow10(e as nat),
            parts.1 as int,
        ))),
{
    match dec_from_str(s) {
        None => None,
        Some(p) => {
            let mut m: i128 = p.0;
            let mut sc: u32 = p.1;
            let mut k: u32 = 0;
            while k < e
                invariant
                    k <= e,
                    dec_parts_valid(m as int, sc as int),
                    mul10_iter(p.0, p.1, e as nat) == mul10_iter(m, sc, (e - k) as nat),
                    p.0 == 0 && p.1 == 0 ==> m == 0 && sc == 0,
                    p.0 > 0 && (p.0 as int) * pow10(e as nat) < 0x1_0000_0000_0000_0000_0000_0000
                        ==> m as int == (p.0 as int) * pow10(k as nat) && sc == p.1,
                decreases e - k,
            {
                proof {
                    if p.0 > 0 && (p.0 as int) * pow10(e as nat)
                        < 0x1_0000_0000_0000_0000_0000_0000 {
                        lemma_pow10_pos(k as nat);
                        lemma_pow10_mono((k + 1) as nat, e as nat);
                        assert(pow10((k + 1) as nat) == 10 * pow10(k as nat));
                        assert(m as int > 0) by (nonlinear_arith)
                            requires
                                m as int == (p.0 as int) * pow10(k as nat),
                                p.0 > 0,
                                pow10(k as nat) >= 1,
                        ;
                        assert(10 * (m as int) == (p.0 as int) * pow10((k + 1) as nat))
                            by (nonlinear_arith)
                            requires
                                m as int == (p.0 as int) * pow10(k as nat),
                                pow10((k + 1) as nat) == 10 * pow10(k as nat),
                        ;
                        assert((p.0 as int) * pow10((k + 1) as nat) <= (p.0 as int) * pow10(
                            e as nat,
                        )) by (nonlinear_arith)
                            requires
                                p.0 > 0,
                                pow10((k + 1) as nat) <= pow10(e as nat),
                        ;
                    }
                }
                match dec_mul10(m, sc) {
                    None => {
                        proof {
                            assert(mul10_iter(m, sc, (e - k) as nat) is None);
                            assert(num_pipeline(s@, e as nat) is None);
                        }
                        return None;
                    },
                    Some(q) => {
                        m = q.0;
                        sc = q.1;
                        k = k + 1;
                    },
                }
            }
            let ghost scaled_m = m as int;
            let ghost scaled_s = sc as int;
            let neg = m < 0;
            let mut mag: u128 = if neg {
                (-m) as u128
            } else {
                m as u128
            };
            while sc > 0 && mag % 10 == 0
                invariant
                    mag as int == (if neg {
                        -(m as int)
                    } else {
                        m as int
                    }),
                    dec_parts_valid(m as int, sc as int),
                    neg <==> m < 0,
                    crate::numfmt::norm_parts(scaled_m, scaled_s) == crate::numfmt::norm_parts(
                        m as int,
                        sc as int,
                    ),
                decreases sc,
            {
                proof {
                    assert(mag as int == 10 * ((mag as int) / 10));
                    assert((m as int) % 10 == 0);
                    assert((m as int) / 10 == (if neg {
                        -((mag as int) / 10)
                    } else {
                        (mag as int) / 10
                    }));
                }
                mag = mag / 10;
                m = if neg {
                    -(mag as i128)
                } else {
                    mag as i128
                };
                sc = sc - 1;
            }
            proof {
                assert(crate::numfmt::norm_parts(m as int, sc as int) == (m as int, sc as int));
                crate::numfmt::lemma_dec_string_spec_nonempty(m as int, sc as int);
            }
            Some(dec_render(m, sc))
        },
    }
}

/// Try to read the bytes as a fixed-point number; on success the value is
/// the decimal's canonical text (no trailing fractional zeros). For the
/// positive form, parsing never fails, so an error means exactly that the
/// staged scaling overflowed; within 96 bits the value is pinned as the
/// round trip of the encoded digits.
#[verifier::loop_isolation(false)]
pub fn check_number(bytes_val: &Vec<u8>) -> (r: Result<OracleType, String>)
    requires
        bytes_val@.len() >= 1,
    ensures
        r matches Ok(t) ==> num_result(bytes_val@) == Some(t.value@) && t.data_type@ == "NUMBER"@,
        r matches Err(e) ==> num_result(bytes_val@) is None && e@ == "Not a NUMBER"@,
        bytes_val@.len() == 1 && 193 <= bytes_val@[0] <= 208 ==> (r matches Ok(t) && t.value@
            == seq!['0']),
        r matches Ok(t) ==> t.value@.len() > 0,
        bytes_val@.len() >= 2 && 193 <= bytes_val@[0] <= 208 && bytes_val@[bytes_val@.len() - 1]
            != 102 ==> dec_parse_parts(seq!['0', '.'] + pos_pairs(bytes_val@, 1)) is Some,
        bytes_val@.len() >= 2 && bytes_val@.len() <= 15 && 193 <= bytes_val@[0] <= 208
            && bytes_val@[bytes_val@.len() - 1] != 102 && (forall|j: int|
            1 <= j < bytes_val@.len() ==> 1 <= #[trigger] bytes_val@[j] <= 100) && seq_digits_val(
            pos_pairs(bytes_val@, 1),
        ) > 0 && seq_digits_val(pos_pairs(bytes_val@, 1)) * pow10(pos_exp(bytes_val@))
            < 0x1_0000_0000_0000_0000_0000_0000 ==> (r matches Ok(t) && t.value@
            == dec_canonical(
            seq_digits_val(pos_pairs(bytes_val@, 1)) * pow10(pos_exp(bytes_val@)),
            2 * (bytes_val@.len() - 1),
        )),
{
    let n = bytes_val.len();
    if n == 1 && bytes_val[0] == 128 {
        let zero = String::from_str("0");
        proof {
            reveal_strlit("0");
            assert(zero@ =~= seq!['0']);
        }
        return Ok(OracleType { data_type: String::from_str("NUMBER"), value: zero });
    }
    let first = bytes_val[0];
    let last = bytes_val[n - 1];
    if (last != 102 && first < 193) || first > 208 {
        Err(String::from_str("Not a NUMBER"))
    } else if last != 102 && first >= 193 {
        let exp: u32 = (first as u32 - 193) * 2 + 2;
        let mut s = String::from_str("0.");
        proof {
            reveal_strlit("0.");
            assert(s@ =~= seq!['0', '.']);
        }
        let mut i: usize = 1;
        while i < n
            invariant
                1 <= i <= n,
                n == bytes_val@.len(),
                seq!['0', '.'] + pos_pairs(bytes_val@, 1) == s@ + pos_pairs(bytes_val@, i as int),
            decreases n - i,
        {
            let bv = bytes_val[i];
            let pv: i64 = if bv == 0 {
                255
            } else {
                bv as i64 - 1
            };
            append_min2(&mut s, pv);
            i = i + 1;
            proof {
                assert(seq!['0', '.'] + pos_pairs(bytes_val@, 1) =~= s@ + pos_pairs(
                    bytes_val@,
                    i as int,
                ));
            }
        }
        proof {
            lemma_pos_pairs_all_digits(bytes_val@, 1);
            if n >= 2 {
                assert(zero_point_digits(s@, pos_pairs(bytes_val@, 1)));
            }
            if bytes_val@.len() <= 15 && (forall|j: int|
                1 <= j < bytes_val@.len() ==> 1 <= #[trigger] bytes_val@[j] <= 100) {
                lemma_pos_pairs_digits(bytes_val@, 1);
                lemma_seq_digits_val_bound(pos_pairs(bytes_val@, 1));
                crate::numfmt::lemma_pow10_28_bound();
                lemma_pow10_mono(pos_pairs(bytes_val@, 1).len(), 28);
            }
        }
        match run_number_pipeline(s.as_str(), exp) {
            Some(v) => Ok(OracleType { data_type: String::from_str("NUMBER"), value: v }),
            None => Err(String::from_str("Not a NUMBER")),
        }
    } else if last == 102 && first <= 62 {
        let exp: u32 = (62 - first as u32) * 2 + 2;
        let mut s = String::from_str("-0.");
        proof {
            reveal_strlit("-0.");
            assert(s@ =~= seq!['-', '0', '.']);
        }
        let mut i: usize = 1;
        while i < n
            invariant
                1 <= i <= n,
                n == bytes_val@.len(),
                seq!['-', '0', '.'] + neg_pairs(bytes_val@, 1) == s@ + neg_pairs(bytes_val@, i as int),
                forall|j: int| 1 <= j < i ==> bytes_val@[j] <= 101,
            decreases n - i,
        {
            let bv = bytes_val[i];
            if bv > 101 {
                proof {
                    assert(1 <= i < bytes_val@.len() && bytes_val@[i as int] > 101);
                    assert(!neg_pairs_ok(bytes_val@));
                    assert(num_result(bytes_val@) is None);
                }
                return Err(String::from_str("Not a NUMBER"));
            }
            append_min2(&mut s, 101 - bv as i64);
            i = i + 1;
            proof {
                assert(seq!['-', '0', '.'] + neg_pairs(bytes_val@, 1) =~= s@ + neg_pairs(
                    bytes_val@,
                    i as int,
                ));
            }
        }
        match run_number_pipeline(s.as_str(), exp) {
            Some(v) => Ok(OracleType { data_type: String::from_str("NUMBER"), value: v }),
            None => Err(String::from_str("Not a NUMBER")),
        }
    } else {
        Err(String::from_str("Not a NUMBER"))
    }
}

/// What the guesser yields: the logical type's name and the rendered value,
/// decided by the first recognizer that accepts, in the fixed order.
#[verifier::opaque]
pub open spec fn guess_spec(b: Seq<u8>) -> (Seq<char>, Seq<char>) {
    if b.len() == 0 {
        ("Unrecognized"@, "NONE"@)
    } else if b[0] == 255 {
        ("NULL"@, "NULL"@)
    } else if date_ok(b) {
        ("DATE"@, date_value_spec(b))
    } else if ts_ok(b) {
        ("TIMESTAMP"@, ts_value_spec(b))
    } else if varchar_ok(b) {
        ("VARCHAR2"@, varchar_value(b))
    } else if num_result(b) is Some {
        ("NUMBER"@, num_result(b)->Some_0)
    } else {
        ("Unrecognized"@, "NONE"@)
    }
}

/// Guess the logical type of one column's raw bytes and render its value.
/// The single-byte clauses pin the outcome for every one-byte input: the
/// null marker, the two zero encodings, a printable ASCII character, and
/// nothing else.
pub fn guess_type(bytes_val: Vec<u8>) -> (r: OracleType)
    ensures
        r.data_type@ == guess_spec(bytes_val@).0,
        r.value@ == guess_spec(bytes_val@).1,
        bytes_val@.len() == 1 && bytes_val@[0] == 255 ==> r.data_type@ == "NULL"@ && r.value@
            == "NULL"@,
        bytes_val@.len() == 1 && (bytes_val@[0] == 128 || 193 <= bytes_val@[0] <= 208)
            ==> r.data_type@ == "NUMBER"@ && r.value@ == seq!['0'],
        bytes_val@.len() == 1 && bytes_val@[0] < 128 ==> r.data_type@ == "VARCHAR2"@ && r.value@
            == ascii_chars(bytes_val@),
        bytes_val@.len() == 1 && bytes_val@[0] > 128 && bytes_val@[0] != 255 && !(193
            <= bytes_val@[0] <= 208) ==> r.data_type@ == "Unrecognized"@ && r.value@ == "NONE"@,
        r.value@.len() > 0,
{
    proof {
        reveal(guess_spec);
        reveal_strlit("NONE");
        reveal_strlit("NULL");
    }
    if bytes_val.len() == 0 {
        return OracleType {
            data_type: String::from_str("Unrecognized"),
            value: String::from_str("NONE"),
        };
    }
    if bytes_val[0] == 255 {
        return OracleType { data_type: String::from_str("NULL"), value: String::from_str("NULL") };
    }
    match check_date(&bytes_val) {
        Ok(t) => {
            return t;
        },
        Err(_) => {},
    }
    match check_timestamp(&bytes_val) {
        Ok(t) => {
            return t;
        },
        Err(_) => {},
    }
    match check_string(&bytes_val) {
        Ok(t) => {
            return t;
        },
        Err(_) => {},
    }
    match check_number(&bytes_val) {
        Ok(t) => {
            return t;
        },
        Err(_) => {},
    }
    OracleType { data_type: String::from_str("Unrecognized"), value: String::from_str("NONE") }
}

/// Law: the guesser is pure — its outcome is a function of the input
/// bytes alone (the executable guesser's contract ties its result to
/// `guess_spec`), so equal byte sequences always decode alike.
pub proof fn lemma_guess_pure(b1: Seq<u8>, b2: Seq<u8>)
    requires
        b1 == b2,
    ensures
        guess_spec(b1) == guess_spec(b2),
{
}

/// The seven-byte encoding of a datetime: century and year-in-century
/// shifted up by 100, month and day verbatim, clock components shifted up
/// by one.
pub open spec fn date_bytes(y: int, mo: int, d: int, h: int, mi: int, s: int) -> Seq<u8> {
    seq![
        (y / 100 + 100) as u8,
        (y % 100 + 100) as u8,
        mo as u8,
        d as u8,
        (h + 1) as u8,
        (mi + 1) as u8,
        (s + 1) as u8,
    ]
}

/// Law: date round trip — every proleptic-Gregorian datetime with a year
/// of at least 100 (smaller years have no encodable century) encodes to
/// seven bytes that the guesser decodes back to the DATE type and exactly
/// the datetime's own text.
pub proof fn lemma_date_round_trip(y: int, mo: int, d: int, h: int, mi: int, s: int)
    requires
        100 <= y <= 9999,
        1 <= mo <= 12,
        1 <= d <= days_in_month(y, mo),
        0 <= h <= 23,
        0 <= mi <= 59,
        0 <= s <= 59,
    ensures
        guess_spec(date_bytes(y, mo, d, h, mi, s)) == ("DATE"@, date_string_spec(
            y / 100,
            y % 100,
            mo,
            d,
            h,
            mi,
            s,
        )),
{
    reveal(guess_spec);
    let b = date_bytes(y, mo, d, h, mi, s);
    assert(b.len() == 7);
    assert(b[0] == y / 100 + 100 && b[1] == y % 100 + 100 && b[2] == mo && b[3] == d && b[4] == h
        + 1 && b[5] == mi + 1 && b[6] == s + 1);
    assert((y / 100) * 100 + y % 100 == y);
    assert(date_ok(b));
    assert(date_value_spec(b) == date_string_spec(y / 100, y % 100, mo, d, h, mi, s));
}

/// Guess the logical type of a column given as hexadecimal text.
pub fn guess_type_str(string_val: String) -> (r: OracleType)
    requires
        hex_valid(string_val@),
    ensures
        r.data_type@ == guess_spec(hex_bytes(string_val@)).0,
        r.value@ == guess_spec(hex_bytes(string_val@)).1,
{
    let decoded = hex_decode(string_val.as_str()).unwrap();
    guess_type(decoded)
}

} // verus!
