use plexo_relay::number::{is_plain_number, LosslessNumber};

fn fmt(s: &str) -> String {
    LosslessNumber::new(s.to_string()).format_for_json()
}

#[test]
fn whole_number_gets_single_decimal() {
    assert_eq!(fmt("131"), "131.0");
}

#[test]
fn one_decimal_digit_is_padded() {
    assert_eq!(fmt("12.3"), "12.30");
}

#[test]
fn extra_decimal_digits_are_truncated_not_rounded() {
    assert_eq!(fmt("12.3456"), "12.34");
    assert_eq!(fmt("12.999"), "12.99");
}

#[test]
fn zero_formats_as_zero_point_zero() {
    assert_eq!(fmt("0"), "0.0");
}

#[test]
fn two_decimal_digits_kept_as_is() {
    assert_eq!(fmt("12.34"), "12.34");
    assert_eq!(fmt("12.30"), "12.30");
}

#[test]
fn whitespace_is_trimmed() {
    assert_eq!(fmt("  131  "), "131.0");
    assert_eq!(fmt("\t12.3\n"), "12.30");
}

#[test]
fn all_zero_fraction_is_whole() {
    assert_eq!(fmt("131.000"), "131.0");
    assert_eq!(fmt("5."), "5.0");
}

#[test]
fn leading_zeros_are_normalized() {
    assert_eq!(fmt("007"), "7.0");
    assert_eq!(fmt("007.5"), "7.50");
    assert_eq!(fmt(".5"), "0.50");
}

#[test]
fn signs_are_handled() {
    assert_eq!(fmt("-3"), "-3.0");
    assert_eq!(fmt("+3"), "3.0");
    assert_eq!(fmt("-12.345"), "-12.34");
    assert_eq!(fmt("-0"), "-0.0");
}

#[test]
fn small_fraction_keeps_two_digits() {
    assert_eq!(fmt("1.001"), "1.00");
    assert_eq!(fmt("0.004"), "0.00");
}

#[test]
fn unparseable_text_is_repaired() {
    assert_eq!(fmt("abc"), "abc.0");
    assert_eq!(fmt("abc.5"), "abc.50");
    assert_eq!(fmt("abc.5678"), "abc.56");
    assert_eq!(fmt("1.2.3"), "1.2.3");
    assert_eq!(fmt(""), ".0");
}

#[test]
fn plain_number_classification() {
    assert!(is_plain_number("131"));
    assert!(is_plain_number(" -12.3 "));
    assert!(is_plain_number(".5"));
    assert!(!is_plain_number("abc"));
    assert!(!is_plain_number("1.2.3"));
    assert!(!is_plain_number("1e3"));
    assert!(!is_plain_number(""));
}
