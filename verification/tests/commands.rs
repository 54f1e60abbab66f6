use gpa_rs::commands::{parse_range, Cli, Column, NumRange};
use gpa_rs::decimal::Decimal;

#[test]
fn parse_single_u16() {
    let r = parse_range::<u16>("8").unwrap();
    assert!(matches!(r, NumRange::Single(8)));
    assert!(r.matches(&8));
    assert!(!r.matches(&7));
}

#[test]
fn parse_single_16_with_spaces() {
    let r = parse_range::<u16>("   42   ").unwrap();
    assert_eq!(r, NumRange::Single(42));
    assert!(r.matches(&42));
}

#[test]
fn parse_u16_range() {
    let r = parse_range::<u16>("2..5").unwrap();
    assert!(matches!(r, NumRange::Range(_)));
    assert!(r.matches(&2) && r.matches(&4) && r.matches(&5));
    assert!(!r.matches(&6));
}

#[test]
fn parse_u16_hyphen_range() {
    let r = parse_range::<u16>("10-12").unwrap();
    assert!(r.matches(&10) && r.matches(&11) && r.matches(&12));
}

#[test]
fn parse_single_float() {
    let r = parse_range::<Decimal>("1.14").unwrap();
    assert!(matches!(r, NumRange::Single(Decimal(1140))));
    assert!(r.matches(&Decimal(1140)));
    assert!(!r.matches(&Decimal(3000)));
}

#[test]
fn parse_float_range() {
    let r = parse_range::<Decimal>("1.0..=2.5").unwrap();
    assert!(r.matches(&Decimal(1700)));
    assert!(!r.matches(&Decimal(900)));
}

#[test]
fn parse_float_hyphen_range() {
    let r = parse_range::<Decimal>("1.0-2.5").unwrap();
    assert!(r.matches(&Decimal(1700)));
    assert!(!r.matches(&Decimal(900)));
}

#[test]
fn parse_u16_range_rejects_non_number() {
    let err = parse_range::<u16>("abc").unwrap_err();
    assert!(err.contains("invalid digit"));
}

#[test]
fn parse_float_range_reject_non_number() {
    let err = parse_range::<Decimal>("abc").unwrap_err();
    assert!(err.contains("invalid float literal"));
}

#[test]
fn parse_range_rejects_reverse_order() {
    let err = parse_range::<Decimal>("10.0..5.0").unwrap_err();
    assert_eq!(err, "range must be low..high");
}

#[test]
fn parse_range_rejects_reverse_hyphen() {
    let err = parse_range::<Decimal>("12.0-3.0").unwrap_err();
    assert_eq!(err, "range must be low..high");
}

#[test]
fn parse_range_edges() {
    // an inclusive range written with ..= keeps both ends
    let r = parse_range::<u16>("3..=3").unwrap();
    assert!(r.matches(&3));
    assert!(!r.matches(&2));
    // empty text
    assert_eq!(parse_range::<u16>("").unwrap_err(), "cannot parse integer from empty string");
    assert_eq!(parse_range::<Decimal>("  ").unwrap_err(), "cannot parse float from empty string");
    // too large for a u16
    assert_eq!(parse_range::<u16>("70000").unwrap_err(), "number too large to fit in target type");
    // an end that is not a number
    assert!(parse_range::<u16>("1..x").unwrap_err().contains("invalid digit"));
    // infinities are refused by the decimal reader
    assert_eq!(parse_range::<Decimal>("inf").unwrap_err(), "infinite and NaN values are not supported");
    // a minus sign is read as a range separator, so a negative exponent splits the text
    assert_eq!(parse_range::<Decimal>("25e-1").unwrap_err(), "invalid float literal");
    assert_eq!(parse_range::<Decimal>("25e1").unwrap(), NumRange::Single(Decimal(250000)));
}

fn cli(select: Vec<Column>) -> Cli {
    Cli { command: None, filter: None, select, order_by: Vec::new(), reverse: false, short: false }
}

#[test]
fn columns_default_to_all() {
    assert_eq!(
        cli(Vec::new()).columns(),
        vec![Column::Title, Column::Credits, Column::Semester, Column::Grade, Column::Completed]
    );
}

#[test]
fn columns_keep_display_order() {
    assert_eq!(
        cli(vec![Column::Grade, Column::Title]).columns(),
        vec![Column::Title, Column::Grade]
    );
}
