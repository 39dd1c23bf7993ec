use calculate::parse::parse_i32;

#[test]
fn parse_accepts_signed_literals() {
    assert_eq!(parse_i32("123", 0, 3), Some(123));
    assert_eq!(parse_i32("-45", 0, 3), Some(-45));
    assert_eq!(parse_i32("+45", 0, 3), Some(45));
    assert_eq!(parse_i32("007", 0, 3), Some(7));
}

#[test]
fn parse_uses_only_the_given_range() {
    assert_eq!(parse_i32("12 34", 3, 5), Some(34));
    assert_eq!(parse_i32("12 34", 0, 2), Some(12));
}

#[test]
fn parse_rejects_malformed_literals() {
    assert_eq!(parse_i32("", 0, 0), None);
    assert_eq!(parse_i32("-", 0, 1), None);
    assert_eq!(parse_i32("+", 0, 1), None);
    assert_eq!(parse_i32("1x", 0, 2), None);
    assert_eq!(parse_i32("--1", 0, 3), None);
    assert_eq!(parse_i32("1.5", 0, 3), None);
}

#[test]
fn parse_checks_the_i32_range() {
    assert_eq!(parse_i32("2147483647", 0, 10), Some(i32::MAX));
    assert_eq!(parse_i32("-2147483648", 0, 11), Some(i32::MIN));
    assert_eq!(parse_i32("2147483648", 0, 10), None);
    assert_eq!(parse_i32("-2147483649", 0, 11), None);
    assert_eq!(parse_i32("99999999999999999999", 0, 20), None);
}
