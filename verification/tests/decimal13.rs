use lob_core::decimals::fixed_decimal::FixedDecimal;

#[test]
fn test_basic_arithmetic() {
    let a = FixedDecimal::from_parts(100, 50000000); // 100.5
    let b = FixedDecimal::from_parts(50, 25000000); // 50.25

    assert_eq!(a.add(b).to_string(), "150.75");
    assert_eq!(a.sub(b).to_string(), "50.25");
    assert_eq!(a.mul(b).to_string(), "5050.125");
    assert_eq!(a.div(b).to_string(), "2");
}

#[test]
fn test_negative_arithmetic() {
    let a = FixedDecimal::from_str("-100.5").unwrap();
    let b = FixedDecimal::from_str("50.25").unwrap();

    assert_eq!(a.add(b).to_string(), "-50.25");
    assert_eq!(a.sub(b).to_string(), "-150.75");
    assert_eq!(a.mul(b).to_string(), "-5050.125");
    assert_eq!(a.div(b).to_string(), "-2");
}

#[test]
fn test_from_string() {
    assert_eq!(FixedDecimal::from_str("123.45").unwrap().to_string(), "123.45");
    assert_eq!(FixedDecimal::from_str("100").unwrap().to_string(), "100");
    assert_eq!(FixedDecimal::from_str("-0.123").unwrap().to_string(), "-0.123");
    assert_eq!(FixedDecimal::from_str("-100").unwrap().to_string(), "-100");
    assert_eq!(FixedDecimal::from_str("-100.123").unwrap().to_string(), "-100.123");
}

#[test]
fn test_zero_cases() {
    assert_eq!(FixedDecimal::from_str("0").unwrap().to_string(), "0");
    assert_eq!(FixedDecimal::from_str("0.0").unwrap().to_string(), "0");
    assert_eq!(FixedDecimal::from_str("-0").unwrap().to_string(), "0");
    assert_eq!(FixedDecimal::from_str("-0.0").unwrap().to_string(), "0");
}

#[test]
fn test_decimal_places() {
    assert_eq!(FixedDecimal::from_str("0.12345678").unwrap().to_string(), "0.12345678");
    assert_eq!(FixedDecimal::from_str("0.1").unwrap().to_string(), "0.1");
    assert_eq!(FixedDecimal::from_str("-0.1").unwrap().to_string(), "-0.1");
}

#[test]
fn test_error_cases() {
    assert!(FixedDecimal::from_str("").is_err());
    assert!(FixedDecimal::from_str(".").is_err());
    assert!(FixedDecimal::from_str("abc").is_err());
    assert!(FixedDecimal::from_str("1.2.3").is_err());
}

#[test]
fn test_rescale_basic() {
    let mut num = FixedDecimal::from_str("123.456789").unwrap();
    num.rescale(2);
    assert_eq!(num.to_string(), "123.45");
}

#[test]
fn test_rescale_negative() {
    let mut num = FixedDecimal::from_str("-123.456789").unwrap();
    num.rescale(2);
    assert_eq!(num.to_string(), "-123.45");
}

#[test]
fn test_rescale_higher_scale() {
    // No change when asking for more precision than the type carries.
    let mut num = FixedDecimal::from_str("123.456789").unwrap();
    let original = num;
    num.rescale(13);
    assert_eq!(num, original);
}

#[test]
fn test_rescale_multiple_times() {
    let mut num = FixedDecimal::from_str("123.456789").unwrap();
    num.rescale(4);
    assert_eq!(num.to_string(), "123.4567");
    num.rescale(2);
    assert_eq!(num.to_string(), "123.45");
}

#[test]
fn test_abs() {
    let num = FixedDecimal::from_str("-123.456789").unwrap();
    assert_eq!(num.abs().to_string(), "123.456789");
}

#[test]
fn test_basic_remainder() {
    let a = FixedDecimal::from_str("10.5").unwrap();
    let b = FixedDecimal::from_str("3.0").unwrap();
    assert_eq!(a.rem(b).to_string(), "1.5");
}

#[test]
fn test_negative_remainder() {
    let a = FixedDecimal::from_str("-10.5").unwrap();
    let b = FixedDecimal::from_str("3.0").unwrap();
    assert_eq!(a.rem(b).to_string(), "-1.5");

    let a = FixedDecimal::from_str("10.5").unwrap();
    let b = FixedDecimal::from_str("-3.0").unwrap();
    assert_eq!(a.rem(b).to_string(), "1.5");

    let a = FixedDecimal::from_str("-10.5").unwrap();
    let b = FixedDecimal::from_str("-3.0").unwrap();
    assert_eq!(a.rem(b).to_string(), "-1.5");
}

#[test]
fn test_min_notional() {
    // 500000000 * 10^-8 is five whole units.
    let total_value = FixedDecimal::with_exponent(500000000, -8);
    assert_eq!(total_value.to_string(), "5");
}

#[test]
fn test_with_exponent_positive() {
    assert_eq!(FixedDecimal::with_exponent(5, 2).to_string(), "500");
    assert_eq!(FixedDecimal::with_exponent(-5, 2).to_string(), "-500");
    assert_eq!(FixedDecimal::with_exponent(123, 0).to_string(), "123");
    assert_eq!(FixedDecimal::with_exponent(0, 7), FixedDecimal::zero());
}

#[test]
fn test_with_exponent_saturates() {
    assert_eq!(FixedDecimal::with_exponent(1, 30), FixedDecimal::max_value());
    assert_eq!(FixedDecimal::with_exponent(-1, 30), FixedDecimal::min_value());
    assert_eq!(FixedDecimal::with_exponent(7, -40), FixedDecimal::zero());
}

#[test]
fn test_from_parts_short_fraction() {
    // The fraction field is left-aligned: 5 means .5, not .00000005.
    assert_eq!(FixedDecimal::from_parts(100, 5).to_string(), "100.5");
    assert_eq!(FixedDecimal::from_parts(0, 0).to_string(), "0");
}

#[test]
fn test_from_int_and_constants() {
    assert_eq!(FixedDecimal::from_int(100).to_string(), "100");
    assert_eq!(FixedDecimal::from_int(-7).to_string(), "-7");
    assert_eq!(FixedDecimal::from_usize(42).to_string(), "42");
    assert_eq!(FixedDecimal::one().to_string(), "1");
    assert_eq!(FixedDecimal::two().to_string(), "2");
    assert_eq!(FixedDecimal::one_hundred().to_string(), "100");
    assert_eq!(FixedDecimal::ten().to_string(), "10");
    assert_eq!(FixedDecimal::one_thousand().to_string(), "1000");
}

#[test]
fn test_error_messages() {
    assert_eq!(FixedDecimal::from_str("1.2.3"), Err("Invalid decimal format"));
    assert_eq!(FixedDecimal::from_str("abc"), Err("Invalid whole number"));
    assert_eq!(FixedDecimal::from_str("1.x"), Err("Invalid decimal part"));
}

#[test]
fn test_saturation() {
    let max = FixedDecimal::max_value();
    let one = FixedDecimal::one();
    assert_eq!(max.add(one), max);
    assert_eq!(FixedDecimal::min_value().sub(one), FixedDecimal::min_value());
}

#[test]
fn test_min_max() {
    let a = FixedDecimal::from_int(3);
    let b = FixedDecimal::from_int(5);
    assert_eq!(a.min(b), a);
    assert_eq!(a.max(b), b);
}

#[test]
fn test_power_of_ten() {
    assert_eq!(FixedDecimal::power_of_ten(0), 1);
    assert_eq!(FixedDecimal::power_of_ten(13), 10_000_000_000_000);
    assert_eq!(FixedDecimal::power_of_ten(19), i64::MAX);
}

#[test]
fn test_zero_flags() {
    assert!(FixedDecimal::zero().is_zero());
    assert!(FixedDecimal::min_value().is_zero()); // the sign-bit-only pattern
    assert!(!FixedDecimal::one().is_zero());
    assert!(FixedDecimal::from_int(-1).is_negative());
    assert!(!FixedDecimal::from_int(1).is_negative());
}
