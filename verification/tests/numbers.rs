use aamp::number::{
    format_digits, format_hex, format_padded, parse_int, parse_num, parse_plain, strip_hex_prefix,
    HEXADECIMAL,
};

#[test]
fn hexadecimal_format_is_that_of_the_builder() {
    assert_eq!(HEXADECIMAL, lexical::NumberFormatBuilder::hexadecimal());
}

#[test]
fn digits_are_written() {
    assert_eq!(format_digits(0, false), "0");
    assert_eq!(format_digits(1234567890, false), "1234567890");
    assert_eq!(format_digits(u128::MAX, false), u128::MAX.to_string());
    assert_eq!(format_digits(0xabcdef, true), "abcdef");
    assert_eq!(format_padded(7, 1), "7");
    assert_eq!(format_padded(7, 3), "007");
    assert_eq!(format_padded(1234, 3), "1234");
    assert_eq!(format_padded(0, 0), "0");
    assert_eq!(format_hex(0), "0x0");
    assert_eq!(format_hex(u32::MAX), "0xffffffff");
}

#[test]
fn literals_are_read() {
    assert_eq!(parse_int("12", false, true, -100, 100), Some(12));
    assert_eq!(parse_int("-12", false, true, -100, 100), Some(-12));
    assert_eq!(parse_int("+12", false, true, -100, 100), Some(12));
    assert_eq!(parse_int("+12", false, false, 0, 100), Some(12));
    assert_eq!(parse_int("-12", false, false, -100, 100), None);
    assert_eq!(parse_int("-0", false, false, 0, 100), None);
    assert_eq!(parse_int("-0", false, true, 0, 100), Some(0));
    assert_eq!(parse_int("007", false, true, 0, 100), Some(7));
    assert_eq!(parse_int("101", false, true, 0, 100), None);
    assert_eq!(parse_int("", false, true, 0, 100), None);
    assert_eq!(parse_int("+", false, true, 0, 100), None);
    assert_eq!(parse_int("-", false, true, 0, 100), None);
    assert_eq!(parse_int("1a", false, true, 0, 100), None);
    assert_eq!(parse_int("1 ", false, true, 0, 100), None);
    assert_eq!(parse_int("١", false, true, 0, 100), None);
    assert_eq!(parse_int("9223372036854775807", false, true, i64::MIN, i64::MAX), Some(i64::MAX));
    assert_eq!(parse_int("-9223372036854775808", false, true, i64::MIN, i64::MAX), Some(i64::MIN));
    assert_eq!(parse_int("9223372036854775808", false, true, i64::MIN, i64::MAX), None);
    assert_eq!(parse_int("99999999999999999999999", false, true, i64::MIN, i64::MAX), None);
    assert_eq!(parse_int("1A", true, false, 0, 100), Some(26));
    assert_eq!(parse_int("ff", true, false, 0, 255), Some(255));
    assert_eq!(parse_int("-ff", true, true, -255, 255), Some(-255));
    assert_eq!(parse_int("0x1", true, false, 0, 255), None);
    assert_eq!(parse_int("g", true, false, 0, 255), None);
    assert_eq!(parse_int("7fffffffffffffff", true, true, i64::MIN, i64::MAX), Some(i64::MAX));
    assert_eq!(parse_int("8000000000000000", true, true, i64::MIN, i64::MAX), None);
    assert_eq!(parse_int("-8000000000000000", true, true, i64::MIN, i64::MAX), Some(i64::MIN));
}

#[test]
fn numbers_are_decimal_first() {
    assert_eq!(parse_num("10", false, 0, 255), Some(10));
    assert_eq!(parse_num("0x10", false, 0, 255), Some(16));
    assert_eq!(parse_num("a", false, 0, 255), Some(10));
    assert_eq!(parse_num("0x0x10", false, 0, 255), None);
    assert_eq!(parse_num("256", false, 0, 255), None);
    assert_eq!(parse_num("x", false, 0, 255), None);
    assert_eq!(strip_hex_prefix("0x10"), "10");
    assert_eq!(strip_hex_prefix("10"), "10");
    assert_eq!(strip_hex_prefix("0"), "0");
    assert_eq!(parse_plain("a", 0, 255), None);
    assert_eq!(parse_plain("0xa", 0, 255), Some(10));
    assert_eq!(parse_plain("10", 0, 255), Some(10));
}
