use textgraph::numfmt::fmt_i64;

#[test]
fn formats_zero() {
    assert_eq!(fmt_i64(0), "0");
}

#[test]
fn formats_single_digit() {
    assert_eq!(fmt_i64(7), "7");
}

#[test]
fn formats_multiple_digits() {
    assert_eq!(fmt_i64(123), "123");
    assert_eq!(fmt_i64(1000), "1000");
}

#[test]
fn formats_negative_numbers() {
    assert_eq!(fmt_i64(-5), "-5");
    assert_eq!(fmt_i64(-120), "-120");
}

#[test]
fn formats_extremes() {
    assert_eq!(fmt_i64(i64::MAX), "9223372036854775807");
    assert_eq!(fmt_i64(i64::MIN), "-9223372036854775808");
}
