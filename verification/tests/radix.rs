use modmapper::radix::{format_decimal, format_radix, hash_to_string, parse_decimal_i32};

#[test]
fn format_radix_writes_zero_as_one_digit() {
    assert_eq!(format_radix(0, 2), "0");
    assert_eq!(format_radix(0, 36), "0");
}

#[test]
fn format_radix_writes_binary_and_hex() {
    assert_eq!(format_radix(5, 2), "101");
    assert_eq!(format_radix(255, 16), "ff");
    assert_eq!(format_radix(4096, 16), "1000");
}

#[test]
fn format_radix_writes_base_36_with_lower_case_letters() {
    assert_eq!(format_radix(35, 36), "z");
    assert_eq!(format_radix(36, 36), "10");
    assert_eq!(format_radix(1295, 36), "zz");
    assert_eq!(format_radix(123_456_789, 36), "21i3v9");
}

#[test]
fn format_radix_writes_the_largest_number() {
    assert_eq!(format_radix(u64::MAX, 36), "3w5e11264sgsf");
    assert_eq!(format_radix(u64::MAX, 10), "18446744073709551615");
    assert_eq!(format_radix(u64::MAX, 2), "1".repeat(64));
}

#[test]
fn format_radix_agrees_with_the_standard_parser() {
    for radix in 2..=36u32 {
        for x in [0u64, 1, 7, 35, 36, 1000, 65_535, 4_294_967_296, u64::MAX - 1] {
            let text = format_radix(x, radix);
            assert_eq!(u64::from_str_radix(&text, radix), Ok(x));
        }
    }
}

#[test]
fn hash_to_string_reads_a_negative_hash_as_unsigned() {
    assert_eq!(hash_to_string(-1), "3w5e11264sgsf");
    assert_eq!(hash_to_string(i64::MIN), format_radix(1u64 << 63, 36));
}

#[test]
fn hash_to_string_writes_a_positive_hash_as_it_is() {
    assert_eq!(hash_to_string(0), "0");
    assert_eq!(hash_to_string(36), "10");
    assert_eq!(hash_to_string(i64::MAX), format_radix(i64::MAX as u64, 36));
}

#[test]
fn format_decimal_writes_signed_numbers() {
    assert_eq!(format_decimal(0), "0");
    assert_eq!(format_decimal(42), "42");
    assert_eq!(format_decimal(-42), "-42");
    assert_eq!(format_decimal(i64::MAX), "9223372036854775807");
    assert_eq!(format_decimal(i64::MIN), "-9223372036854775808");
}

#[test]
fn parse_decimal_reads_plain_numbers() {
    assert_eq!(parse_decimal_i32("0"), Some(0));
    assert_eq!(parse_decimal_i32("1"), Some(1));
    assert_eq!(parse_decimal_i32("2500"), Some(2500));
    assert_eq!(parse_decimal_i32("0005"), Some(5));
}

#[test]
fn parse_decimal_reads_signs() {
    assert_eq!(parse_decimal_i32("+5"), Some(5));
    assert_eq!(parse_decimal_i32("-5"), Some(-5));
    assert_eq!(parse_decimal_i32("-0"), Some(0));
}

#[test]
fn parse_decimal_reads_up_to_the_limits() {
    assert_eq!(parse_decimal_i32("2147483647"), Some(i32::MAX));
    assert_eq!(parse_decimal_i32("-2147483648"), Some(i32::MIN));
    assert_eq!(parse_decimal_i32("2147483648"), None);
    assert_eq!(parse_decimal_i32("-2147483649"), None);
    assert_eq!(parse_decimal_i32("99999999999999999999999999"), None);
    assert_eq!(parse_decimal_i32("00000000000000000000000007"), Some(7));
}

#[test]
fn parse_decimal_refuses_anything_else() {
    assert_eq!(parse_decimal_i32(""), None);
    assert_eq!(parse_decimal_i32("-"), None);
    assert_eq!(parse_decimal_i32("+"), None);
    assert_eq!(parse_decimal_i32(" 5"), None);
    assert_eq!(parse_decimal_i32("5 "), None);
    assert_eq!(parse_decimal_i32("5a"), None);
    assert_eq!(parse_decimal_i32("--5"), None);
    assert_eq!(parse_decimal_i32("1.0"), None);
    assert_eq!(parse_decimal_i32("٣"), None);
}

#[test]
fn parse_decimal_agrees_with_the_standard_parser() {
    for text in ["12", "-12", "+12", "", "x", "2147483647", "2147483648", "-2147483648", "007"] {
        assert_eq!(parse_decimal_i32(text), text.parse::<i32>().ok());
    }
}
