use aevia::ast::Number;
use aevia::decimal::{decimal_parse, decimal_to_i64, decimal_to_string};

fn num(mantissa: i128, scale: u32) -> Number {
    Number { mantissa, scale }
}

#[test]
fn decimal_text_has_sign_whole_part_and_scale_digits() {
    assert_eq!(decimal_to_string(num(-12345, 2)), "-123.45");
    assert_eq!(decimal_to_string(num(5, 3)), "0.005");
    assert_eq!(decimal_to_string(num(0, 0)), "0");
    assert_eq!(decimal_to_string(num(0, 2)), "0.00");
    assert_eq!(decimal_to_string(num(100, 1)), "10.0");
    assert_eq!(decimal_to_string(num(42, 0)), "42");
}

#[test]
fn decimal_to_i64_truncates_toward_zero() {
    assert_eq!(decimal_to_i64(num(-12345, 2)), Some(-123));
    assert_eq!(decimal_to_i64(num(19, 1)), Some(1));
    assert_eq!(decimal_to_i64(num(9223372036854775808, 0)), None);
    assert_eq!(decimal_to_i64(num(-9223372036854775808, 0)), Some(i64::MIN));
    assert_eq!(decimal_to_i64(num(92233720368547758079, 1)), Some(i64::MAX));
}

#[test]
fn decimal_parse_reads_mantissa_and_scale() {
    let n = decimal_parse("-1.50").unwrap();
    assert_eq!((n.mantissa, n.scale), (-150, 2));
    assert!(decimal_parse("abc").is_none());
}
