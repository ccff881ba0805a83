use netcalyx::decimal::{
    i32_to_decimal_string, parse_short_usize, to_decimal, to_decimal_string, IntErrorKind,
};

#[test]
fn numerals_are_written() {
    assert_eq!(to_decimal(0), b"0");
    assert_eq!(to_decimal(1090), b"1090");
    assert_eq!(to_decimal_string(0), "0");
    assert_eq!(to_decimal_string(usize::MAX), usize::MAX.to_string());
    assert_eq!(i32_to_decimal_string(-1), "-1");
    assert_eq!(i32_to_decimal_string(i32::MIN), i32::MIN.to_string());
    assert_eq!(i32_to_decimal_string(i32::MAX), i32::MAX.to_string());
}

#[test]
fn only_digits_are_read() {
    assert_eq!(parse_short_usize(b"0"), Ok(0));
    assert_eq!(parse_short_usize(b"007"), Ok(7));
    assert_eq!(parse_short_usize(b"4294967295"), Ok(4294967295));
    assert_eq!(parse_short_usize(b""), Err(IntErrorKind::Empty));
    for text in ["+5", "+", "1x", "-1", " 1", "1 "] {
        assert_eq!(
            parse_short_usize(text.as_bytes()),
            Err(IntErrorKind::InvalidDigit),
            "{text}"
        );
    }
    let overflows = 9_999_999_999u64 > usize::MAX as u64;
    assert_eq!(
        parse_short_usize(b"9999999999") == Err(IntErrorKind::PosOverflow),
        overflows
    );
}

#[test]
fn numerals_read_back() {
    for n in [0usize, 1, 9, 10, 99, 100, 123456789, 4294967295] {
        assert_eq!(parse_short_usize(&to_decimal(n)), Ok(n));
    }
}
