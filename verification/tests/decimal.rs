use finance::decimal::Decimal;
use finance::decimal::DecimalError;

#[test]
fn test_balance() {
    assert_eq!(Decimal(0).to_string(), "0");
    assert_eq!(Decimal(1).to_string(), "0.01");
    assert_eq!(Decimal(10).to_string(), "0.1");
    assert_eq!(Decimal(101).to_string(), "1.01");
    assert_eq!(Decimal(1010).to_string(), "10.1");
    assert_eq!(Decimal(10101).to_string(), "101.01");
    assert_eq!(Decimal(101010).to_string(), "1010.1");
    assert_eq!(Decimal(1010101).to_string(), "10101.01");
}

#[test]
fn test_balance_from_str() {
    assert_eq!(Decimal::from_str("0").unwrap().0, 0);
    assert_eq!(Decimal::from_str("1000").unwrap().0, 100000);
    assert_eq!(Decimal::from_str("0.01").unwrap().0, 1);
    assert_eq!(Decimal::from_str("0.1").unwrap().0, 10);
    assert_eq!(Decimal::from_str("1.01").unwrap().0, 101);
    assert_eq!(Decimal::from_str("10.1").unwrap().0, 1010);
    assert_eq!(Decimal::from_str("101.01").unwrap().0, 10101);
    assert_eq!(Decimal::from_str("1010.1").unwrap().0, 101010);
    assert_eq!(Decimal::from_str("10101.01").unwrap().0, 1010101);
}

#[test]
fn test_balance_add() {
    assert_eq!(Decimal(0).add(Decimal(0)), Decimal(0));
    assert_eq!(Decimal(0).add(Decimal(1)), Decimal(1));
    assert_eq!(Decimal(1).add(Decimal(0)), Decimal(1));
    assert_eq!(Decimal(1).add(Decimal(1)), Decimal(2));
    assert_eq!(Decimal(1).add(Decimal(10)), Decimal(11));
    assert_eq!(Decimal(10).add(Decimal(1)), Decimal(11));
    assert_eq!(Decimal(10).add(Decimal(10)), Decimal(20));
    assert_eq!(Decimal(101).add(Decimal(101)), Decimal(202));
    assert_eq!(Decimal(1010).add(Decimal(1010)), Decimal(2020));
    assert_eq!(Decimal(10101).add(Decimal(10101)), Decimal(20202));
    assert_eq!(Decimal(101010).add(Decimal(101010)), Decimal(202020));
    assert_eq!(Decimal(1010101).add(Decimal(1010101)), Decimal(2020202));
}

#[test]
fn test_balance_add_assign() {
    let mut balance = Decimal(0);
    balance = balance.add(Decimal(0));
    assert_eq!(balance, Decimal(0));
    balance = balance.add(Decimal(1));
    assert_eq!(balance, Decimal(1));
    balance = balance.add(Decimal(10));
    assert_eq!(balance, Decimal(11));
    balance = balance.add(Decimal(101));
    assert_eq!(balance, Decimal(112));
    balance = balance.add(Decimal(1010));
    assert_eq!(balance, Decimal(1122));
    balance = balance.add(Decimal(10101));
    assert_eq!(balance, Decimal(11223));
    balance = balance.add(Decimal(101010));
    assert_eq!(balance, Decimal(112233));
    balance = balance.add(Decimal(1010101));
    assert_eq!(balance, Decimal(1122334));
}

#[test]
fn test_balance_sub() {
    assert_eq!(Decimal(0).sub(Decimal(0)), Decimal(0));
    assert_eq!(Decimal(1).sub(Decimal(0)), Decimal(1));
    assert_eq!(Decimal(1).sub(Decimal(1)), Decimal(0));
    assert_eq!(Decimal(1).sub(Decimal(10)), Decimal(-9));
    assert_eq!(Decimal(10).sub(Decimal(1)), Decimal(9));
    assert_eq!(Decimal(10).sub(Decimal(10)), Decimal(0));
    assert_eq!(Decimal(101).sub(Decimal(101)), Decimal(0));
    assert_eq!(Decimal(1010).sub(Decimal(1010)), Decimal(0));
    assert_eq!(Decimal(10101).sub(Decimal(10101)), Decimal(0));
    assert_eq!(Decimal(101010).sub(Decimal(101010)), Decimal(0));
    assert_eq!(Decimal(1010101).sub(Decimal(1010101)), Decimal(0));
}

#[test]
fn test_balance_sub_assign() {
    let mut balance = Decimal(0);
    balance = balance.sub(Decimal(0));
    assert_eq!(balance, Decimal(0));
    balance = balance.sub(Decimal(1));
    assert_eq!(balance, Decimal(-1));
    balance = balance.sub(Decimal(10));
    assert_eq!(balance, Decimal(-11));
    balance = balance.sub(Decimal(101));
    assert_eq!(balance, Decimal(-112));
    balance = balance.sub(Decimal(1010));
    assert_eq!(balance, Decimal(-1122));
    balance = balance.sub(Decimal(10101));
    assert_eq!(balance, Decimal(-11223));
}

#[test]
fn test_balance_mul() {
    assert_eq!(Decimal(0).mul(Decimal(0)), Decimal(0));
    assert_eq!(Decimal(0).mul(Decimal(1)), Decimal(0));
    assert_eq!(Decimal(1).mul(Decimal(0)), Decimal(0));
    assert_eq!(Decimal(1).mul(Decimal(1)), Decimal(0));
    assert_eq!(Decimal(1).mul(Decimal(10)), Decimal(0));
    assert_eq!(Decimal(10).mul(Decimal(1)), Decimal(0));
    assert_eq!(
        Decimal::from_str("0.1").unwrap().mul(Decimal::from_str("0.1").unwrap()),
        Decimal::from_str("0.01").unwrap()
    );
    assert_eq!(
        Decimal::from_str("0.1").unwrap().mul(Decimal::from_str("0.01").unwrap()),
        Decimal::from_str("0.0").unwrap()
    );
    assert_eq!(
        Decimal::from_str("1.1").unwrap().mul(Decimal::from_str("5.01").unwrap()),
        Decimal::from_str("5.51").unwrap()
    );
}

#[test]
fn test_div() {
    assert_eq!(
        Decimal::from_str("10").unwrap().div(Decimal::from_str("2").unwrap()).unwrap(),
        Decimal::from_str("5").unwrap()
    );
    assert_eq!(
        Decimal::from_str("10").unwrap().div(Decimal::from_str("3").unwrap()).unwrap(),
        Decimal::from_str("3.33").unwrap()
    );
}

#[test]
fn test_div_by_zero_is_an_error() {
    assert_eq!(
        Decimal::from_str("10").unwrap().div(Decimal(0)),
        Err(DecimalError::DivisionByZero)
    );
    assert_eq!(Decimal(0).div(Decimal(0)), Err(DecimalError::DivisionByZero));
}

#[test]
fn test_parse_rejects_bad_text() {
    assert_eq!(Decimal::from_str("abc"), Err(DecimalError::ParseError));
    assert_eq!(Decimal::from_str("12x"), Err(DecimalError::ParseError));
    assert_eq!(Decimal::from_str("1.x"), Err(DecimalError::ParseError));
    assert_eq!(Decimal::from_str("--1"), Err(DecimalError::ParseError));
    // Text after a second separator is ignored, as the normalization keeps
    // only the first two parts.
    assert_eq!(Decimal::from_str("1.2.3"), Ok(Decimal(120)));
    // A long fraction is truncated to two digits.
    assert_eq!(Decimal::from_str("0.129"), Ok(Decimal(12)));
    // Signs pass through to the combined integer.
    assert_eq!(Decimal::from_str("-1.5"), Ok(Decimal(-150)));
    assert_eq!(Decimal::from_str("+1.5"), Ok(Decimal(150)));
}

#[test]
fn test_multiplication_truncates_below_one_cent() {
    let tenth = Decimal::from_str("0.10").unwrap();
    let cent = Decimal::from_str("0.01").unwrap();
    assert_eq!(tenth.mul(tenth), cent);
    assert_eq!(tenth.mul(cent), Decimal::from_str("0.00").unwrap());
}

#[test]
fn test_truncation_is_toward_zero() {
    let ten = Decimal::from_str("10").unwrap();
    let minus_ten = Decimal::from_str("-10").unwrap();
    let three = Decimal::from_str("3").unwrap();
    let minus_three = Decimal::from_str("-3").unwrap();
    assert_eq!(minus_ten.div(three).unwrap(), Decimal(-333));
    assert_eq!(ten.div(minus_three).unwrap(), Decimal(-333));
    assert_eq!(minus_ten.div(minus_three).unwrap(), Decimal(333));
    assert_eq!(Decimal(-10).mul(Decimal(10)), Decimal(-1));
    assert_eq!(Decimal(-10).mul(Decimal(1)), Decimal(0));
}

#[test]
fn test_extreme_values_round_trip() {
    let smallest = Decimal(i64::MIN);
    assert_eq!(smallest.to_string(), "-92233720368547758.08");
    assert_eq!(Decimal::from_str("-92233720368547758.08").unwrap(), smallest);
    let largest = Decimal(i64::MAX);
    assert_eq!(largest.to_string(), "92233720368547758.07");
    assert_eq!(Decimal::from_str("92233720368547758.07").unwrap(), largest);
    // One cent beyond either end of the representable range fails to parse.
    assert_eq!(
        Decimal::from_str("92233720368547758.08"),
        Err(DecimalError::ParseError)
    );
    assert_eq!(
        Decimal::from_str("-92233720368547758.09"),
        Err(DecimalError::ParseError)
    );
}

#[test]
fn test_format_reparses_to_same_value() {
    for text in ["0", "0.01", "0.1", "1.01", "10.1", "101.01", "1010.1", "-3.7", "-0.01", "1000"] {
        let parsed = Decimal::from_str(text).unwrap();
        let shown = parsed.to_string();
        assert_eq!(Decimal::from_str(&shown).unwrap(), parsed);
    }
}

#[test]
fn test_from_int_scales_by_hundred() {
    assert_eq!(Decimal::from_int(0), Decimal(0));
    assert_eq!(Decimal::from_int(3), Decimal(300));
    assert_eq!(Decimal::from_int(-7), Decimal(-700));
    assert!(Decimal::from_int(1).lt(Decimal::from_int(2)));
    assert!(Decimal::from_int(2).le(Decimal::from_int(2)));
}
