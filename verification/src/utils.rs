//! Reading grades typed by the user, and telling an interrupted prompt from
//! other failures.

use vstd::prelude::*;
use crate::decimal::{Decimal, DecimalError, negative, parse_decimal, spec_parse_decimal};
use crate::text::{chars_of, trim, trimmed_piece};

verus! {

/// Why a typed grade was refused.
#[derive(Clone, Copy, Debug, PartialEq, Eq, Structural)]
pub enum GradeError {
    /// The text is not a decimal number.
    NotANumber,
    /// The text names infinity or not-a-number.
    NotFinite,
    /// The number is negative (minus zero included).
    Negative,
    /// The number is too large to hold in thousandths.
    TooLarge,
}

/// The message shown for `e`.
pub open spec fn grade_error_text(e: GradeError) -> Seq<char> {
    match e {
        GradeError::NotANumber => "Value must be a decimal number"@,
        GradeError::NotFinite => "Value can't be infinite nor NaN"@,
        GradeError::Negative => "Value can't be negative"@,
        GradeError::TooLarge => "Value is too large"@,
    }
}

impl GradeError {
    /// The message shown for the error.
    pub fn message(&self) -> (s: String)
        ensures
            s@ == grade_error_text(*self),
    {
        match self {
            GradeError::NotANumber => String::from_str("Value must be a decimal number"),
            GradeError::NotFinite => String::from_str("Value can't be infinite nor NaN"),
            GradeError::Negative => String::from_str("Value can't be negative"),
            GradeError::TooLarge => String::from_str("Value is too large"),
        }
    }
}

/// What reading the typed grade `s` gives: the text is trimmed and read as a
/// decimal literal; infinities and not-a-number are refused, then anything
/// written with a minus sign.
pub open spec fn spec_parse_grade(s: Seq<char>) -> Result<Decimal, GradeError> {
    let t = trim(s);
    match spec_parse_decimal(t) {
        Err(DecimalError::Empty) => Err(GradeError::NotANumber),
        Err(DecimalError::Invalid) => Err(GradeError::NotANumber),
        Err(DecimalError::NotFinite) => Err(GradeError::NotFinite),
        Err(DecimalError::OutOfRange) => if negative(t) {
            Err(GradeError::Negative)
        } else {
            Err(GradeError::TooLarge)
        },
        Ok(d) => if negative(t) {
            Err(GradeError::Negative)
        } else {
            Ok(d)
        },
    }
}

/// Reads a grade that must be a finite number and not negative.
pub fn parse_non_negative_grade(input: &str) -> (r: Result<Decimal, GradeError>)
    ensures
        r == spec_parse_grade(input@),
{
    let v = chars_of(input);
    let t = trimmed_piece(&v, 0, v.len());
    proof {
        assert(v@.subrange(0, v@.len() as int) =~= v@);
    }
    let minus = t.len() > 0 && t[0] == '-';
    match parse_decimal(&t) {
        Err(DecimalError::Empty) => Err(GradeError::NotANumber),
        Err(DecimalError::Invalid) => Err(GradeError::NotANumber),
        Err(DecimalError::NotFinite) => Err(GradeError::NotFinite),
        Err(DecimalError::OutOfRange) => if minus {
            Err(GradeError::Negative)
        } else {
            Err(GradeError::TooLarge)
        },
        Ok(d) => if minus {
            Err(GradeError::Negative)
        } else {
            Ok(d)
        },
    }
}

/// A parsed grade is never negative.
pub proof fn law_parsed_grade_not_negative(s: Seq<char>)
    ensures
        spec_parse_grade(s) matches Ok(d) ==> d.0 >= 0,
{
    let t = trim(s);
    if let Ok(d) = spec_parse_decimal(t) {
        if !negative(t) {
            assert(crate::decimal::decimal_magnitude(t) >= 0) by {
                crate::decimal::lemma_magnitude_nonneg(t);
            }
        }
    }
}

/// One error in a chain of errors and their sources, as far as telling an
/// interruption goes.
#[derive(Clone, Copy, Debug, PartialEq, Eq, Structural)]
pub enum ErrorLink {
    /// An input/output error, and whether its kind is `Interrupted`.
    Io { interrupted: bool },
    /// Any other error.
    Other,
}

/// Whether the chain of errors `chain` (an error, then its source, and so on)
/// was an interruption: the first input/output error in it decides; without
/// one, it was not.
pub open spec fn spec_was_interrupted(chain: Seq<ErrorLink>) -> bool
    decreases chain.len(),
{
    if chain.len() == 0 {
        false
    } else {
        match chain[0] {
            ErrorLink::Io { interrupted } => interrupted,
            ErrorLink::Other => spec_was_interrupted(chain.drop_first()),
        }
    }
}

/// Whether the chain of errors `chain` was an interruption.
pub fn was_interrupted(chain: &[ErrorLink]) -> (b: bool)
    ensures
        b == spec_was_interrupted(chain@),
{
    let mut i: usize = 0;
    proof {
        assert(chain@.subrange(0, chain@.len() as int) =~= chain@);
    }
    while i < chain.len()
        invariant
            i <= chain@.len(),
            spec_was_interrupted(chain@) == spec_was_interrupted(chain@.subrange(i as int, chain@.len() as int)),
        decreases chain@.len() - i,
    {
        proof {
            assert(chain@.subrange(i as int, chain@.len() as int).drop_first() =~= chain@.subrange(i + 1, chain@.len() as int));
        }
        match chain[i] {
            ErrorLink::Io { interrupted } => {
                return interrupted;
            },
            ErrorLink::Other => {},
        }
        i = i + 1;
    }
    false
}

} // verus!
