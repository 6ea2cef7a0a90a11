use se_parts::parse_quantity;

#[test]
fn parses_plain_quantities() {
    assert_eq!(parse_quantity("0"), Some(0));
    assert_eq!(parse_quantity("12"), Some(12));
    assert_eq!(parse_quantity("007"), Some(7));
    assert_eq!(parse_quantity("18446744073709551615"), Some(u64::MAX));
}

#[test]
fn rejects_non_digit_quantities() {
    assert_eq!(parse_quantity(""), None);
    assert_eq!(parse_quantity("abc"), None);
    assert_eq!(parse_quantity("12a"), None);
    assert_eq!(parse_quantity("-3"), None);
    assert_eq!(parse_quantity("+5"), None);
    assert_eq!(parse_quantity(" 12"), None);
    assert_eq!(parse_quantity("1 2"), None);
}

#[test]
fn rejects_quantities_too_large() {
    assert_eq!(parse_quantity("18446744073709551616"), None);
    assert_eq!(parse_quantity("99999999999999999999999"), None);
}
