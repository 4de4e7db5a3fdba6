use lob_core::fixed_decimal::FixedDecimal;

#[test]
fn fixed_decimal_test_basic_arithmetic() {
    let a = FixedDecimal::from_parts(100, 50000000); // 100.5
    let b = FixedDecimal::from_parts(50, 25000000); // 50.25

    assert_eq!(a.add(b).to_string(), "150.75");
    assert_eq!(a.sub(b).to_string(), "50.25");
    assert_eq!(a.mul(b).to_string(), "5050.125");
    assert_eq!(a.div(b).to_string(), "2");
}

#[test]
fn fixed_decimal_test_negative_arithmetic() {
    let a = FixedDecimal::from_str("-100.5").unwrap();
    let b = FixedDecimal::from_str("50.25").unwrap();

    assert_eq!(a.add(b).to_string(), "-50.25");
    assert_eq!(a.sub(b).to_string(), "-150.75");
    assert_eq!(a.mul(b).to_string(), "-5050.125");
    assert_eq!(a.div(b).to_string(), "-2");
}

#[test]
fn fixed_decimal_test_from_string() {
    assert_eq!(FixedDecimal::from_str("123.45").unwrap().to_string(), "123.45");
    assert_eq!(FixedDecimal::from_str("100").unwrap().to_string(), "100");
    assert_eq!(FixedDecimal::from_str("-0.123").unwrap().to_string(), "-0.123");
    assert_eq!(FixedDecimal::from_str("-100").unwrap().to_string(), "-100");
    assert_eq!(FixedDecimal::from_str("-100.123").unwrap().to_string(), "-100.123");
}

#[test]
fn fixed_decimal_test_zero_cases() {
    assert_eq!(FixedDecimal::from_str("0").unwrap().to_string(), "0");
    assert_eq!(FixedDecimal::from_str("0.0").unwrap().to_string(), "0");
    assert_eq!(FixedDecimal::from_str("-0").unwrap().to_string(), "0");
    assert_eq!(FixedDecimal::from_str("-0.0").unwrap().to_string(), "0");
}

#[test]
fn fixed_decimal_test_decimal_places() {
    assert_eq!(FixedDecimal::from_str("0.12345678").unwrap().to_string(), "0.12345678");
    assert_eq!(FixedDecimal::from_str("0.1").unwrap().to_string(), "0.1");
    assert_eq!(FixedDecimal::from_str("-0.1").unwrap().to_string(), "-0.1");
}

#[test]
fn fixed_decimal_test_error_cases() {
    assert!(FixedDecimal::from_str("").is_err());
    assert!(FixedDecimal::from_str(".").is_err());
    assert!(FixedDecimal::from_str("abc").is_err());
    assert!(FixedDecimal::from_str("1.2.3").is_err());
}

#[test]
fn fixed_decimal_test_whole_limit() {
    assert_eq!(
        FixedDecimal::from_str("2000000"),
        Err("Whole number exceeds maximum value of 1 million")
    );
    assert_eq!(FixedDecimal::from_str("1000000").unwrap().to_string(), "1000000");
}

#[test]
fn fixed_decimal_test_round_to() {
    let num = FixedDecimal::from_str("123.456789").unwrap();
    assert_eq!(num.round_to(2).to_string(), "123.45");
    assert_eq!(num.round_to(4).to_string(), "123.4567");
}

#[test]
fn fixed_decimal_test_round_down_to_tick() {
    let num = FixedDecimal::from_str("123.45").unwrap();
    let tick = FixedDecimal::from_str("0.5").unwrap();
    assert_eq!(num.round_down_to_tick(tick).to_string(), "123");
    let tick = FixedDecimal::from_str("0.25").unwrap();
    assert_eq!(num.round_down_to_tick(tick).to_string(), "123.25");
}

#[test]
fn fixed_decimal_test_percentage_of() {
    let part = FixedDecimal::from_int(25);
    let whole = FixedDecimal::from_int(200);
    assert_eq!(part.percentage_of(whole).to_string(), "12.5");
    assert_eq!(part.percentage_of(FixedDecimal::zero()).to_string(), "0");
}

#[test]
fn fixed_decimal_test_price_levels() {
    let start = FixedDecimal::from_str("100").unwrap();
    let tick = FixedDecimal::from_str("0.5").unwrap();
    let ladder = start.price_levels(tick, 4);
    let rendered: Vec<String> = ladder.iter().map(|p| p.to_string()).collect();
    assert_eq!(rendered, vec!["100", "100.5", "101", "101.5"]);
}

#[test]
fn fixed_decimal_test_abs_and_flags() {
    let num = FixedDecimal::from_str("-123.456789").unwrap();
    assert_eq!(num.abs().to_string(), "123.456789");
    assert!(num.is_negative());
    assert!(!num.is_zero());
    assert!(FixedDecimal::zero().is_zero());
    assert_eq!(FixedDecimal::new(1_000_000_000_000).to_string(), "1");
    assert_eq!(FixedDecimal::from_int(3).raw_value(), 3_000_000_000_000);
}
