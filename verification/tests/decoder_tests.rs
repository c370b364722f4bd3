use rico3::decoder::{check_date, check_number, check_string, check_timestamp, guess_type, guess_type_str};

#[test]
fn single_zero_byte_is_zero_number() {
    let r = guess_type(vec![0x80]);
    assert_eq!(r.data_type, "NUMBER");
    assert_eq!(r.value, "0");
}

#[test]
fn positive_number_two_pairs() {
    let r = guess_type(vec![0xC2, 0x02, 0x03]);
    assert_eq!(r.data_type, "NUMBER");
    assert_eq!(r.value, "102");
}

#[test]
fn positive_number_one_pair() {
    let r = guess_type(vec![0xC1, 0x02]);
    assert_eq!(r.data_type, "NUMBER");
    assert_eq!(r.value, "1");
}

#[test]
fn negative_form_bytes_read_as_text_first() {
    // These negative-form bytes are all printable ASCII, so the text
    // recognizer accepts them before the number recognizer runs.
    let r = guess_type(vec![0x3E, 0x64, 0x63, 0x66]);
    assert_eq!(r.data_type, "VARCHAR2");
    assert_eq!(r.value, ">dcf");
}

#[test]
fn negative_form_is_rejected_by_terminator_pair() {
    // With a non-text byte inside, the number recognizer is reached; the
    // terminator byte 102 complements below zero, so the negative form
    // never decodes.
    let r = guess_type(vec![0x3E, 0x64, 0x9C, 0x66]);
    assert_eq!(r.data_type, "Unrecognized");
    assert_eq!(r.value, "NONE");
}

#[test]
fn date_seven_bytes() {
    let r = guess_type(vec![0x78, 0x7B, 0x01, 0x01, 0x01, 0x01, 0x01]);
    assert_eq!(r.data_type, "DATE");
    assert_eq!(r.value, "2023-01-01 00:00:00");
}

#[test]
fn timestamp_eleven_bytes() {
    let r = guess_type(vec![0x78, 0x7B, 1, 1, 1, 1, 1, 0, 0, 0, 5]);
    assert_eq!(r.data_type, "TIMESTAMP");
    assert_eq!(r.value, "2023-01-01 00:00:00.000000005");
}

#[test]
fn null_marker_single_byte() {
    let r = guess_type(vec![0xFF]);
    assert_eq!(r.data_type, "NULL");
    assert_eq!(r.value, "NULL");
}

#[test]
fn null_marker_leads_any_length() {
    let r = guess_type(vec![0xFF, 1, 2]);
    assert_eq!(r.data_type, "NULL");
    assert_eq!(r.value, "NULL");
}

#[test]
fn empty_input_is_unrecognized() {
    let r = guess_type(vec![]);
    assert_eq!(r.data_type, "Unrecognized");
    assert_eq!(r.value, "NONE");
}

#[test]
fn single_ascii_byte_is_text() {
    let r = guess_type(vec![0x41]);
    assert_eq!(r.data_type, "VARCHAR2");
    assert_eq!(r.value, "A");
}

#[test]
fn ascii_text() {
    let r = guess_type(b"Hello".to_vec());
    assert_eq!(r.data_type, "VARCHAR2");
    assert_eq!(r.value, "Hello");
}

#[test]
fn non_ascii_alphanumeric_is_text() {
    // A two-byte UTF-8 letter passes the alphanumeric check.
    let r = guess_type(vec![0xC3, 0xA9]);
    assert_eq!(r.data_type, "VARCHAR2");
    assert_eq!(r.value, "\u{e9}");
}

#[test]
fn non_ascii_symbol_is_not_text() {
    // A currency symbol is neither alphanumeric nor ASCII, and the bytes
    // fit no other recognizer.
    let r = guess_type(vec![0xE2, 0x82, 0xAC]);
    assert_eq!(r.data_type, "Unrecognized");
    assert_eq!(r.value, "NONE");
}

#[test]
fn invalid_utf8_not_number_is_unrecognized() {
    let r = guess_type(vec![0x81, 0x81]);
    assert_eq!(r.data_type, "Unrecognized");
    assert_eq!(r.value, "NONE");
}

#[test]
fn single_exponent_byte_is_zero_number() {
    let r = guess_type(vec![0xC8]);
    assert_eq!(r.data_type, "NUMBER");
    assert_eq!(r.value, "0");
}

#[test]
fn bad_month_falls_through_to_text() {
    // Month 13 fails the calendar check; the bytes are all ASCII, so the
    // text recognizer takes the value instead.
    let r = guess_type(vec![0x78, 0x7B, 13, 1, 1, 1, 1]);
    assert_eq!(r.data_type, "VARCHAR2");
}

#[test]
fn leap_day_in_leap_year_is_date() {
    let r = guess_type(vec![120, 124, 2, 29, 1, 1, 1]);
    assert_eq!(r.data_type, "DATE");
    assert_eq!(r.value, "2024-02-29 00:00:00");
}

#[test]
fn leap_day_outside_leap_year_is_not_date() {
    let r = guess_type(vec![120, 123, 2, 29, 1, 1, 1]);
    assert_eq!(r.data_type, "VARCHAR2");
}

#[test]
fn number_with_wrong_terminator_is_unrecognized() {
    let r = guess_type(vec![0xC2, 0x02, 0x66]);
    assert_eq!(r.data_type, "Unrecognized");
    assert_eq!(r.value, "NONE");
}

#[test]
fn hex_input_number() {
    let r = guess_type_str(String::from("C20203"));
    assert_eq!(r.data_type, "NUMBER");
    assert_eq!(r.value, "102");
}

#[test]
fn hex_input_lower_case_null() {
    let r = guess_type_str(String::from("ff"));
    assert_eq!(r.data_type, "NULL");
    assert_eq!(r.value, "NULL");
}

#[test]
fn check_date_rejects_wrong_length() {
    let r = check_date(&vec![120, 123, 1, 1]);
    assert_eq!(r.unwrap_err(), "Not a date");
}

#[test]
fn check_date_rejects_zero_century() {
    let r = check_date(&vec![100, 123, 1, 1, 1, 1, 1]);
    assert_eq!(r.unwrap_err(), "Not a date");
}

#[test]
fn check_date_rejects_zero_hour_byte() {
    let r = check_date(&vec![120, 123, 1, 1, 0, 1, 1]);
    assert_eq!(r.unwrap_err(), "Not a date");
}

#[test]
fn check_timestamp_rejects_wrong_length() {
    let r = check_timestamp(&vec![120, 123, 1, 1, 1, 1, 1]);
    assert_eq!(r.unwrap_err(), "Not a date");
}

#[test]
fn check_string_rejects_invalid_utf8() {
    let r = check_string(&vec![0xC2, 0x41]);
    assert_eq!(r.unwrap_err(), "Not a string");
}

#[test]
fn check_number_rejects_low_first_byte() {
    let r = check_number(&vec![0xC0, 0x02]);
    assert_eq!(r.unwrap_err(), "Not a NUMBER");
}

#[test]
fn check_number_rejects_high_first_byte() {
    let r = check_number(&vec![0xD1, 0x02]);
    assert_eq!(r.unwrap_err(), "Not a NUMBER");
}

#[test]
fn check_number_scales_to_integer() {
    // Pair value 10 at the smallest exponent: 0.10 scaled by ten twice.
    let r = check_number(&vec![0xC1, 0x0B]).unwrap();
    assert_eq!(r.data_type, "NUMBER");
    assert_eq!(r.value, "10");
}

#[test]
fn check_number_wraps_zero_pair_byte() {
    // A zero pair byte renders as 255, the wrapped byte subtraction; the
    // canonical value keeps only the non-zero fraction digit.
    let r = check_number(&vec![0xC1, 0x00]).unwrap();
    assert_eq!(r.data_type, "NUMBER");
    assert_eq!(r.value, "25.5");
}
