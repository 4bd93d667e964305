use pow_chain::encoding::{decimal_text, decimal_text_unsigned, push_decimal, push_decimal_signed};

#[test]
fn decimal_of_zero_and_small_numbers() {
    assert_eq!(decimal_text(0), "0");
    assert_eq!(decimal_text(7), "7");
    assert_eq!(decimal_text(10), "10");
    assert_eq!(decimal_text_unsigned(123456), "123456");
}

#[test]
fn decimal_of_negative_numbers() {
    assert_eq!(decimal_text(-1), "-1");
    assert_eq!(decimal_text(-45), "-45");
    assert_eq!(decimal_text(i64::MIN), "-9223372036854775808");
    assert_eq!(decimal_text(i64::MAX), "9223372036854775807");
}

#[test]
fn decimal_of_largest_unsigned() {
    assert_eq!(decimal_text_unsigned(u64::MAX), "18446744073709551615");
}

#[test]
fn decimal_is_appended_after_existing_bytes() {
    let mut out = b"n=".to_vec();
    push_decimal(&mut out, 905);
    assert_eq!(out, b"n=905".to_vec());
    let mut signed = b"t=".to_vec();
    push_decimal_signed(&mut signed, -30);
    assert_eq!(signed, b"t=-30".to_vec());
}

#[test]
fn decimal_matches_format() {
    for n in [0i64, 1, 9, 10, 99, 100, -99, -100, 1_700_000_000, -1_700_000_000] {
        assert_eq!(decimal_text(n), format!("{}", n));
    }
}
