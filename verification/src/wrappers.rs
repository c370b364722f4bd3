//! The only places the library touches outside crates: each function here
//! is a trusted wrapper around one outside call, with the contract the
//! outside crate's source supports. Everything else in the library is
//! verified against these contracts.

use vstd::prelude::*;
use crate::calendar::{date_string_spec, datetime_valid, ts_string_spec};
use crate::numfmt::{dec_string_spec, is_digit_char, seq_digits_val};

verus! {

/// What UTF-8 decoding yields for a byte sequence: the decoded characters,
/// or nothing when the bytes are not valid UTF-8.
pub uninterp spec fn utf8_chars(bytes: Seq<u8>) -> Option<Seq<char>>;

/// Bytes read as characters one for one, as ASCII bytes decode.
pub open spec fn ascii_chars(bytes: Seq<u8>) -> Seq<char> {
    bytes.map_values(|b: u8| b as char)
}

/// Whether a character counts as alphanumeric under the Unicode derived
/// properties the standard library implements.
pub uninterp spec fn char_alphanumeric(c: char) -> bool;

/// Relies on `str::from_utf8`: it succeeds exactly on valid UTF-8, and the
/// resulting text is the decoded character sequence, handed back both as an
/// owned string and as its characters. Every character encodes at least one
/// byte, so the text is empty exactly when the bytes are. A lone byte of
/// 128 or more is never valid UTF-8, a lone byte under 128 decodes to
/// itself, and a two-byte-lead byte (192 or more) followed by an ASCII
/// byte is invalid.
#[verifier::external_body]
pub(crate) fn utf8_decode(bytes: &Vec<u8>) -> (r: Option<(String, Vec<char>)>)
    ensures
        r is Some <==> utf8_chars(bytes@) is Some,
        r matches Some(p) ==> p.0@ == p.1@ && Some(p.1@) == utf8_chars(bytes@),
        r matches Some(p) ==> (p.1@.len() == 0 <==> bytes@.len() == 0),
        bytes@.len() == 1 && bytes@[0] >= 128 ==> r is None,
        bytes@.len() == 1 && bytes@[0] < 128 ==> r is Some,
        r matches Some(p) ==> bytes@.len() == 1 && bytes@[0] < 128 ==> p.1@ == ascii_chars(bytes@),
        bytes@.len() >= 2 && bytes@[0] >= 192 && bytes@[1] < 128 ==> r is None,
{
    match std::str::from_utf8(bytes) {
        Ok(s) => Some((s.to_string(), s.chars().collect())),
        Err(_) => None,
    }
}

/// Relies on `char::is_alphanumeric`: a pure predicate on the character.
#[verifier::external_body]
pub(crate) fn is_alphanumeric_char(c: char) -> (r: bool)
    ensures
        r == char_alphanumeric(c),
{
    c.is_alphanumeric()
}

/// Relies on chrono's `NaiveDateTime::parse_from_str`: for a datetime in
/// the exact shape the date recognizer builds (minimum-width-two numeric
/// components, dash/space/colon separators) under the matching format
/// string, the parse succeeds exactly when the components form a valid
/// proleptic-Gregorian datetime with two-digit century and year parts;
/// a seconds value of 60 is taken as a leap second. With the fractional
/// format, extra fraction digits are consumed and do not affect success.
#[verifier::external_body]
pub(crate) fn chrono_parse_ok(s: &str, fmt: &str) -> (r: bool)
    ensures
        forall|cc: int, yy: int, mo: int, dd: int, hh: int, mi: int, ss: int|
            fmt@ == "%Y-%m-%d %H:%M:%S"@ && 1 <= cc && 0 <= yy && 0 <= hh && 0 <= mi && 0 <= ss
                && s@ == #[trigger] date_string_spec(cc, yy, mo, dd, hh, mi, ss) ==> r
                == datetime_valid(cc, yy, mo, dd, hh, mi, ss),
        forall|cc: int, yy: int, mo: int, dd: int, hh: int, mi: int, ss: int, frac: int|
            fmt@ == "%Y-%m-%d %H:%M:%S%.f"@ && 1 <= cc && 0 <= yy && 0 <= hh && 0 <= mi && 0 <= ss
                && 0 <= frac <= u32::MAX && s@ == #[trigger] ts_string_spec(
                cc,
                yy,
                mo,
                dd,
                hh,
                mi,
                ss,
                frac,
            ) ==> r == datetime_valid(cc, yy, mo, dd, hh, mi, ss),
{
    chrono::NaiveDateTime::parse_from_str(s, fmt).is_ok()
}

/// A decimal digit character's value, or a letter digit's value for the
/// hexadecimal letters in either case; anything else is negative.
pub open spec fn hex_digit_val(c: char) -> int {
    if 48 <= c as int <= 57 {
        c as int - 48
    } else if 65 <= c as int <= 70 {
        c as int - 55
    } else if 97 <= c as int <= 102 {
        c as int - 87
    } else {
        -1
    }
}

/// Whether a string is decodable hexadecimal: even length, every character
/// a hexadecimal digit.
pub open spec fn hex_valid(s: Seq<char>) -> bool {
    s.len() % 2 == 0 && forall|i: int| 0 <= i < s.len() ==> hex_digit_val(#[trigger] s[i]) >= 0
}

/// The bytes a hexadecimal string denotes, two characters per byte.
pub open spec fn hex_bytes(s: Seq<char>) -> Seq<u8> {
    Seq::new((s.len() / 2) as nat, |i: int| (hex_digit_val(s[2 * i]) * 16 + hex_digit_val(s[2 * i + 1])) as u8)
}

/// Relies on `hex::decode`: it succeeds exactly on even-length strings of
/// hexadecimal digits (both letter cases), yielding one byte per digit pair.
#[verifier::external_body]
pub(crate) fn hex_decode(s: &str) -> (r: Option<Vec<u8>>)
    ensures
        r is Some <==> hex_valid(s@),
        r matches Some(v) ==> v@ == hex_bytes(s@),
{
    hex::decode(s).ok()
}

/// The mantissa and scale limits of the outside decimal type: a magnitude
/// below two to the 96th, a scale of at most 28.
pub open spec fn dec_parts_valid(m: int, s: int) -> bool {
    -0x1_0000_0000_0000_0000_0000_0000 < m < 0x1_0000_0000_0000_0000_0000_0000 && 0 <= s <= 28
}

/// What parsing a string as a decimal yields, as a signed mantissa and a
/// scale, or nothing when the parse fails.
pub uninterp spec fn dec_parse_parts(s: Seq<char>) -> Option<(i128, u32)>;

/// What multiplying a decimal of the given mantissa and scale by ten
/// yields, or nothing on overflow.
pub uninterp spec fn dec_mul10_parts(m: i128, s: u32) -> Option<(i128, u32)>;

/// A zero-point digit string: `"0."` followed by at least one decimal
/// digit character.
pub open spec fn zero_point_digits(s: Seq<char>, digits: Seq<char>) -> bool {
    s == seq!['0', '.'] + digits && digits.len() >= 1 && forall|i: int|
        0 <= i < digits.len() ==> is_digit_char(#[trigger] digits[i])
}

/// Relies on rust_decimal's `Decimal::from_str` (with `mantissa` and
/// `scale` reading the result): any result satisfies the decimal limits;
/// `"0."` parses to zero; a zero-point digit string of any length parses
/// (digits past the twenty-eighth are rounded away, never an error, since
/// the integer part is zero); and for `"0."` followed by one to
/// twenty-eight digits the mantissa is exactly the digits' value and the
/// scale their count.
#[verifier::external_body]
pub(crate) fn dec_from_str(s: &str) -> (r: Option<(i128, u32)>)
    ensures
        r == dec_parse_parts(s@),
        r matches Some(p) ==> dec_parts_valid(p.0 as int, p.1 as int),
        s@ == seq!['0', '.'] ==> r == Some((0i128, 0u32)),
        forall|digits: Seq<char>| #[trigger] zero_point_digits(s@, digits) ==> r is Some,
        forall|digits: Seq<char>|
            1 <= digits.len() <= 28 && (forall|i: int|
                0 <= i < digits.len() ==> is_digit_char(#[trigger] digits[i])) && s@ == seq!['0', '.']
                + digits ==> r == Some(((#[trigger] seq_digits_val(digits)) as i128, digits.len() as u32)),
{
    match <rust_decimal::Decimal as core::str::FromStr>::from_str(s) {
        Ok(d) => Some((d.mantissa(), d.scale())),
        Err(_) => None,
    }
}

/// Relies on rust_decimal's `Decimal::checked_mul` by ten (with
/// `from_i128_with_scale` building the operand, which the limits in the
/// precondition keep panic-free): any result satisfies the decimal limits;
/// zero collapses to mantissa zero at scale zero; and when ten times the
/// mantissa still fits in 96 bits the product is exact and the scale kept.
#[verifier::external_body]
pub(crate) fn dec_mul10(m: i128, s: u32) -> (r: Option<(i128, u32)>)
    requires
        dec_parts_valid(m as int, s as int),
    ensures
        r == dec_mul10_parts(m, s),
        r matches Some(p) ==> dec_parts_valid(p.0 as int, p.1 as int),
        m == 0 ==> r == Some((0i128, 0u32)),
        m != 0 && dec_parts_valid(10 * m as int, s as int) ==> r == Some(((10 * m as int) as i128, s)),
{
    let d = rust_decimal::Decimal::from_i128_with_scale(m, s);
    match d.checked_mul(rust_decimal::Decimal::TEN) {
        Some(p) => Some((p.mantissa(), p.scale())),
        None => None,
    }
}

/// Relies on rust_decimal's `Decimal::to_string` (through `Display`, with
/// `from_i128_with_scale` building the value): the text is the mantissa's
/// digits with the point placed `scale` digits from the right, the fraction
/// zero-padded to exactly `scale` digits, no point for scale zero, a leading
/// zero before a bare point, and a sign for negative mantissas.
#[verifier::external_body]
pub(crate) fn dec_render(m: i128, s: u32) -> (r: String)
    requires
        dec_parts_valid(m as int, s as int),
    ensures
        r@ == dec_string_spec(m as int, s as int),
{
    rust_decimal::Decimal::from_i128_with_scale(m, s).to_string()
}

} // verus!
