use deet::text::{address, decimal, parse_numeral, same_text, signed_decimal};

#[test]
fn decimal_writes_numbers_without_leading_zeros() {
    assert_eq!(decimal(0), "0");
    assert_eq!(decimal(7), "7");
    assert_eq!(decimal(10), "10");
    assert_eq!(decimal(1234567890), "1234567890");
    assert_eq!(decimal(u64::MAX), "18446744073709551615");
}

#[test]
fn signed_decimal_puts_a_minus_before_negative_numbers() {
    assert_eq!(signed_decimal(0), "0");
    assert_eq!(signed_decimal(42), "42");
    assert_eq!(signed_decimal(-1), "-1");
    assert_eq!(signed_decimal(i32::MAX), "2147483647");
    assert_eq!(signed_decimal(i32::MIN), "-2147483648");
}

#[test]
fn address_writes_lower_case_hexadecimal_behind_a_prefix() {
    assert_eq!(address(0), "0x0");
    assert_eq!(address(0xcc), "0xcc");
    assert_eq!(address(0x4005b6), "0x4005b6");
    assert_eq!(address(u64::MAX), "0xffffffffffffffff");
    assert_eq!(address(0xABCDEF), format!("{:#x}", 0xABCDEFu64));
}

#[test]
fn parse_numeral_reads_decimal() {
    assert_eq!(parse_numeral("0", 10), Some(0));
    assert_eq!(parse_numeral("15", 10), Some(15));
    assert_eq!(parse_numeral("+15", 10), Some(15));
    assert_eq!(parse_numeral("007", 10), Some(7));
    assert_eq!(parse_numeral("18446744073709551615", 10), Some(u64::MAX));
}

#[test]
fn parse_numeral_reads_hexadecimal_in_both_cases() {
    assert_eq!(parse_numeral("ff", 16), Some(255));
    assert_eq!(parse_numeral("FF", 16), Some(255));
    assert_eq!(parse_numeral("4005b6", 16), Some(0x4005b6));
    assert_eq!(parse_numeral("ffffffffffffffff", 16), Some(u64::MAX));
    assert_eq!(parse_numeral("z", 36), Some(35));
}

#[test]
fn parse_numeral_refuses_what_is_no_numeral() {
    assert_eq!(parse_numeral("", 10), None);
    assert_eq!(parse_numeral("+", 10), None);
    assert_eq!(parse_numeral("-1", 10), None);
    assert_eq!(parse_numeral("++1", 10), None);
    assert_eq!(parse_numeral("1 ", 10), None);
    assert_eq!(parse_numeral(" 1", 10), None);
    assert_eq!(parse_numeral("1_000", 10), None);
    assert_eq!(parse_numeral("12a", 10), None);
    assert_eq!(parse_numeral("g", 16), None);
    assert_eq!(parse_numeral("0x10", 16), None);
    assert_eq!(parse_numeral("١", 10), None);
}

#[test]
fn parse_numeral_refuses_what_does_not_fit() {
    assert_eq!(parse_numeral("18446744073709551616", 10), None);
    assert_eq!(parse_numeral("10000000000000000", 16), None);
    assert_eq!(parse_numeral("99999999999999999999999999", 10), None);
}

#[test]
fn parse_numeral_agrees_with_the_standard_library() {
    for text in ["0", "+0", "9", "a", "A", "+ff", "ff+", "", "+", "-", "१२", "12345678901234567890123"] {
        for radix in [2u32, 10, 16, 36] {
            assert_eq!(parse_numeral(text, radix), u64::from_str_radix(text, radix).ok(), "{text} in {radix}");
        }
    }
}

#[test]
fn same_text_compares_character_by_character() {
    assert!(same_text("main", "main"));
    assert!(same_text("", ""));
    assert!(!same_text("main", "Main"));
    assert!(!same_text("main", "main "));
}
