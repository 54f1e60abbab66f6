use gpa_rs::decimal::Decimal;
use gpa_rs::utils::{parse_non_negative_grade, was_interrupted, ErrorLink, GradeError};

/// The chain of an error and its sources, as the library reads it.
fn chain_of(err: &(dyn std::error::Error + 'static)) -> Vec<ErrorLink> {
    let mut chain = Vec::new();
    let mut cur: Option<&(dyn std::error::Error + 'static)> = Some(err);
    while let Some(e) = cur {
        match e.downcast_ref::<std::io::Error>() {
            Some(io) => chain.push(ErrorLink::Io { interrupted: io.kind() == std::io::ErrorKind::Interrupted }),
            None => chain.push(ErrorLink::Other),
        }
        cur = e.source();
    }
    chain
}

#[test]
fn test_was_interrupted() {
    let err = std::io::Error::new(std::io::ErrorKind::Interrupted, "Test error");
    assert!(was_interrupted(&chain_of(&err)));

    let err = std::io::Error::new(std::io::ErrorKind::Other, "Another error");
    assert!(!was_interrupted(&chain_of(&err)));

    let err = std::fmt::Error;
    assert!(!was_interrupted(&chain_of(&err)));
}

#[test]
fn interruption_found_behind_other_errors() {
    assert!(was_interrupted(&[ErrorLink::Other, ErrorLink::Io { interrupted: true }]));
    // the first input/output error decides
    assert!(!was_interrupted(&[ErrorLink::Io { interrupted: false }, ErrorLink::Io { interrupted: true }]));
    assert!(!was_interrupted(&[]));
}

#[test]
fn test_parse_non_negative_grade() {
    assert!(parse_non_negative_grade("3.5").is_ok());
    assert!(parse_non_negative_grade("0").is_ok());
    assert!(parse_non_negative_grade("0.0").is_ok());
    assert!(parse_non_negative_grade("10").is_ok());
    assert!(parse_non_negative_grade("100.10").is_ok());

    assert!(parse_non_negative_grade("-1").is_err());
    assert!(parse_non_negative_grade("-0.0").is_err());
    assert!(parse_non_negative_grade("-3.14").is_err());
    assert!(parse_non_negative_grade("NaN").is_err());
    assert!(parse_non_negative_grade("inf").is_err());
    assert!(parse_non_negative_grade("3.5a").is_err());
}

#[test]
fn grade_values_and_errors() {
    assert_eq!(parse_non_negative_grade(" 3.5 "), Ok(Decimal(3500)));
    assert_eq!(parse_non_negative_grade("100.10"), Ok(Decimal(100100)));
    assert_eq!(parse_non_negative_grade("1.2345"), Ok(Decimal(1235)));
    assert_eq!(parse_non_negative_grade(""), Err(GradeError::NotANumber));
    assert_eq!(parse_non_negative_grade("3.5a"), Err(GradeError::NotANumber));
    assert_eq!(parse_non_negative_grade("NaN"), Err(GradeError::NotFinite));
    assert_eq!(parse_non_negative_grade("-inf"), Err(GradeError::NotFinite));
    assert_eq!(parse_non_negative_grade("-0"), Err(GradeError::Negative));
    assert_eq!(parse_non_negative_grade("1e30"), Err(GradeError::TooLarge));
    assert_eq!(parse_non_negative_grade("-1e30"), Err(GradeError::Negative));
    assert_eq!(GradeError::NotANumber.message(), "Value must be a decimal number");
    assert_eq!(GradeError::NotFinite.message(), "Value can't be infinite nor NaN");
    assert_eq!(GradeError::Negative.message(), "Value can't be negative");
    assert_eq!(GradeError::TooLarge.message(), "Value is too large");
}
