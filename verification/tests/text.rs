use neftodng::text::{concat3, decimal_string, signed_decimal_string, str_eq_ignore_ascii_case};

#[test]
fn numbers_are_written_in_decimal() {
    assert_eq!(decimal_string(0), "0");
    assert_eq!(decimal_string(38_000_000), "38000000");
    assert_eq!(decimal_string(u64::MAX), "18446744073709551615");
    assert_eq!(signed_decimal_string(-5_000_000), "-5000000");
    assert_eq!(signed_decimal_string(i64::MIN), "-9223372036854775808");
    assert_eq!(signed_decimal_string(7), "7");
}

#[test]
fn ascii_case_is_ignored_and_nothing_else() {
    assert!(str_eq_ignore_ascii_case("NEF", "nef"));
    assert!(!str_eq_ignore_ascii_case("nef", "ne"));
    assert!(!str_eq_ignore_ascii_case("É", "é"));
    assert_eq!(concat3("a", "b", "c"), "abc");
}
