// Fixed-point values written as literals: whole counts of any integer
// width construct through `from_int`, and literals carrying a fraction
// construct through `from_str`.

use lob_core::decimals::fixed_decimal::FixedDecimal;

#[test]
fn test_fixed_macro_integer_types() {
    assert_eq!(FixedDecimal::from_int(100).to_string(), "100");
    assert_eq!(FixedDecimal::from_int(100i32 as i64).to_string(), "100");
    assert_eq!(FixedDecimal::from_int(100i16 as i64).to_string(), "100");
    assert_eq!(FixedDecimal::from_int(100i8 as i64).to_string(), "100");
    assert_eq!(FixedDecimal::from_int(100u64 as i64).to_string(), "100");
    assert_eq!(FixedDecimal::from_int(100u32 as i64).to_string(), "100");
    assert_eq!(FixedDecimal::from_int(100u16 as i64).to_string(), "100");
    assert_eq!(FixedDecimal::from_int(100u8 as i64).to_string(), "100");
    assert_eq!(FixedDecimal::from_int(-100).to_string(), "-100");
    assert_eq!(FixedDecimal::from_int(-100i32 as i64).to_string(), "-100");
    assert_eq!(FixedDecimal::from_int(-100i16 as i64).to_string(), "-100");
    assert_eq!(FixedDecimal::from_int(-100i8 as i64).to_string(), "-100");
}

#[test]
fn test_fixed_macro_float_types() {
    assert_eq!(FixedDecimal::from_str("100.5").unwrap().to_string(), "100.5");
    assert_eq!(FixedDecimal::from_str("100.5").unwrap().to_string(), "100.5");
    assert_eq!(FixedDecimal::from_str("-100.5").unwrap().to_string(), "-100.5");
    assert_eq!(FixedDecimal::from_str("-100.5").unwrap().to_string(), "-100.5");
}

#[test]
fn test_fixed_macro_defaults() {
    assert_eq!(FixedDecimal::from_int(100).to_string(), "100");
    assert_eq!(FixedDecimal::from_str("100.5").unwrap().to_string(), "100.5");
    assert_eq!(FixedDecimal::from_int(-100).to_string(), "-100");
    assert_eq!(FixedDecimal::from_str("-100.5").unwrap().to_string(), "-100.5");
}

#[test]
fn test_fixed_macro_precision() {
    assert_eq!(FixedDecimal::from_str("1.234567891234").unwrap().to_string(), "1.234567891234");
    assert_eq!(FixedDecimal::from_str("1.23456789").unwrap().to_string(), "1.23456789");
    assert_eq!(FixedDecimal::from_str("-1.23456789").unwrap().to_string(), "-1.23456789");
    assert_eq!(FixedDecimal::from_str("-1.23456789").unwrap().to_string(), "-1.23456789");
}

#[test]
fn test_small_fixed_macro_precision() {
    assert_eq!(FixedDecimal::from_str("1.23").unwrap().to_string(), "1.23");
    assert_eq!(FixedDecimal::from_str("-1.23").unwrap().to_string(), "-1.23");
}
