use gpa_rs::decimal::{fixed_string, parse_decimal, short_string, Decimal, DecimalError};

fn parse(s: &str) -> Result<Decimal, DecimalError> {
    parse_decimal(&s.chars().collect())
}

#[test]
fn decimal_literals() {
    assert_eq!(parse("1.14"), Ok(Decimal(1140)));
    assert_eq!(parse("+2"), Ok(Decimal(2000)));
    assert_eq!(parse("-0.5"), Ok(Decimal(-500)));
    assert_eq!(parse(".5"), Ok(Decimal(500)));
    assert_eq!(parse("5."), Ok(Decimal(5000)));
    assert_eq!(parse("1.0005"), Ok(Decimal(1001)));
    assert_eq!(parse("-1.0005"), Ok(Decimal(-1001)));
    assert_eq!(parse("12E-3"), Ok(Decimal(12)));
    assert_eq!(parse(""), Err(DecimalError::Empty));
    assert_eq!(parse("."), Err(DecimalError::Invalid));
    assert_eq!(parse("1e"), Err(DecimalError::Invalid));
    assert_eq!(parse("Infinity"), Err(DecimalError::NotFinite));
    assert_eq!(parse("nan"), Err(DecimalError::NotFinite));
    assert_eq!(parse("1e20"), Err(DecimalError::OutOfRange));
}

#[test]
fn decimal_writing() {
    assert_eq!(fixed_string(Decimal(1300), 1), "1.3");
    assert_eq!(fixed_string(Decimal(2000), 2), "2.00");
    assert_eq!(fixed_string(Decimal(1667), 2), "1.67");
    assert_eq!(fixed_string(Decimal(-1040), 1), "-1.0");
    // exact halves round to the even digit
    assert_eq!(fixed_string(Decimal(2250), 1), "2.2");
    assert_eq!(fixed_string(Decimal(2350), 1), "2.4");
    assert_eq!(fixed_string(Decimal(125), 2), "0.12");
    assert_eq!(fixed_string(Decimal(2251), 1), "2.3");
    assert_eq!(gpa_rs::decimal::quotient_string(25500, 12), "2.12");
    assert_eq!(gpa_rs::decimal::quotient_string(17760, 11), "1.61");
    assert_eq!(short_string(Decimal(2000)), "2");
    assert_eq!(short_string(Decimal(1300)), "1.3");
    assert_eq!(short_string(Decimal(1250)), "1.25");
    assert_eq!(short_string(Decimal(1005)), "1.005");
    assert_eq!(short_string(Decimal(-500)), "-0.5");
}
