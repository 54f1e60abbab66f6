//! What the command line asks for: the subcommand, the filter on courses,
//! the columns to show and to order by, and how numeric filters are read.

use vstd::prelude::*;
use core::ops::RangeInclusive;
use vstd::std_specs::cmp::{PartialEqSpec, PartialOrdSpec};
use vstd::std_specs::range::ContainsSpec;
use crate::decimal::{Decimal, DecimalError, parse_decimal, spec_parse_decimal, is_digit, digit_value};
use crate::text::{
    chars_of, find_text, find_first, replace_text, replace_all, split_once, trim, trimmed_piece,
};

verus! {

/// The subcommands.
#[derive(Clone, Copy, Debug, PartialEq, Eq, Structural)]
pub enum Command {
    /// Launch the interactive prompts for managing courses and the configuration.
    Settings,
    /// Launch the terminal interface.
    Tui,
}

/// The columns of the course overview, in the order they are shown.
#[derive(Clone, Copy, Debug, PartialEq, Eq, Structural)]
pub enum Column {
    Title,
    Credits,
    Semester,
    Grade,
    Completed,
}

/// A filter on a number: one value, or an inclusive range.
#[derive(Debug, PartialEq, Eq)]
pub enum NumRange<T> {
    Single(T),
    Range(RangeInclusive<T>),
}

impl<T: PartialOrd> NumRange<T> {
    /// Whether `v` passes the filter: equal to the single value, or inside the range.
    pub open spec fn spec_matches(&self, v: &T) -> bool {
        match self {
            NumRange::Single(x) => v.eq_spec(x),
            NumRange::Range(r) => r.contains_spec(v),
        }
    }

    /// Whether `v` passes the filter.
    pub fn matches(&self, v: &T) -> (b: bool)
        ensures
            T::obeys_eq_spec() && T::obeys_partial_cmp_spec() ==> b == self.spec_matches(v),
    {
        match self {
            NumRange::Single(x) => v == x,
            NumRange::Range(r) => r.contains(v),
        }
    }
}

/// Which courses to show; every condition that is set must hold.
#[derive(Debug, PartialEq)]
pub struct FilterBy {
    /// The title contains this text.
    pub title: Option<String>,
    /// The semester equals the value or lies in the range.
    pub semester: Option<NumRange<u16>>,
    /// The grade equals the value or lies in the range.
    pub grade: Option<NumRange<Decimal>>,
    /// The credits equal the value or lie in the range.
    pub credits: Option<NumRange<u16>>,
    /// The completed state.
    pub completed: Option<bool>,
}

impl Default for FilterBy {
    fn default() -> (f: Self)
        ensures
            f.title is None,
            f.semester is None,
            f.grade is None,
            f.credits is None,
            f.completed is None,
    {
        FilterBy { title: None, semester: None, grade: None, credits: None, completed: None }
    }
}

/// The parsed command line.
#[derive(Debug, PartialEq)]
pub struct Cli {
    pub command: Option<Command>,
    pub filter: Option<FilterBy>,
    /// Columns to display; all of them when empty.
    pub select: Vec<Column>,
    /// Columns to order by, the first the most significant.
    pub order_by: Vec<Column>,
    /// Reverse the final order.
    pub reverse: bool,
    /// Show only the statistics.
    pub short: bool,
}

/// All columns in the order they are shown.
pub open spec fn all_columns() -> Seq<Column> {
    seq![Column::Title, Column::Credits, Column::Semester, Column::Grade, Column::Completed]
}

/// The columns of `cols` that `select` names, in the order of `cols`.
pub open spec fn retain_selected(cols: Seq<Column>, select: Seq<Column>) -> Seq<Column>
    decreases cols.len(),
{
    if cols.len() == 0 {
        cols
    } else if select.contains(cols[0]) {
        seq![cols[0]] + retain_selected(cols.drop_first(), select)
    } else {
        retain_selected(cols.drop_first(), select)
    }
}

/// Whether `c` is in `v`.
pub fn column_in(v: &[Column], c: Column) -> (b: bool)
    ensures
        b == v@.contains(c),
{
    let mut i: usize = 0;
    while i < v.len()
        invariant
            i <= v@.len(),
            forall|k: int| 0 <= k < i ==> v@[k] != c,
        decreases v@.len() - i,
    {
        if v[i] == c {
            proof {
                assert(v@[i as int] == c);
            }
            return true;
        }
        i = i + 1;
    }
    false
}

impl Cli {
    /// The columns to display: all of them when none is selected, else the
    /// selected ones in the order they are shown.
    pub fn columns(&self) -> (cols: Vec<Column>)
        ensures
            self.select@.len() == 0 ==> cols@ == all_columns(),
            self.select@.len() > 0 ==> cols@ == retain_selected(all_columns(), self.select@),
    {
        let all: Vec<Column> = vec![
            Column::Title,
            Column::Credits,
            Column::Semester,
            Column::Grade,
            Column::Completed,
        ];
        proof {
            assert(all@ =~= all_columns());
        }
        if self.select.len() == 0 {
            return all;
        }
        let mut cols: Vec<Column> = Vec::new();
        let mut i: usize = 0;
        proof {
            assert(all@.subrange(0, all@.len() as int) =~= all@);
            assert(cols@ + retain_selected(all@, self.select@) =~= retain_selected(all@, self.select@));
        }
        while i < all.len()
            invariant
                i <= all@.len(),
                all@ == all_columns(),
                cols@ + retain_selected(all@.subrange(i as int, all@.len() as int), self.select@)
                    == retain_selected(all@, self.select@),
            decreases all@.len() - i,
        {
            let ghost rest = all@.subrange(i as int, all@.len() as int);
            proof {
                assert(rest.drop_first() =~= all@.subrange(i + 1, all@.len() as int));
                assert(rest[0] == all@[i as int]);
            }
            if column_in(self.select.as_slice(), all[i]) {
                let ghost before = cols@;
                cols.push(all[i]);
                proof {
                    assert(cols@ + retain_selected(rest.drop_first(), self.select@) =~= before
                        + retain_selected(rest, self.select@));
                }
            }
            i = i + 1;
        }
        proof {
            assert(all@.subrange(5, 5) =~= Seq::<Column>::empty());
            assert(cols@ + Seq::<Column>::empty() =~= cols@);
        }
        cols
    }
}

// ---------------------------------------------------------------------------
// Reading numbers

/// Why an unsigned integer literal does not give a value.
#[derive(Clone, Copy, Debug, PartialEq, Eq, Structural)]
pub enum IntError {
    Empty,
    InvalidDigit,
    PosOverflow,
}

/// Reads the digits `d` after the value `acc`, left to right, as
/// `u16::from_str` does: a non-digit is an invalid digit, a value past
/// `u16::MAX` an overflow, whichever comes first.
pub open spec fn u16_scan(d: Seq<char>, acc: int) -> Result<u16, IntError>
    decreases d.len(),
{
    if d.len() == 0 {
        Ok(acc as u16)
    } else if !is_digit(d[0]) {
        Err(IntError::InvalidDigit)
    } else if acc * 10 + digit_value(d[0]) > u16::MAX {
        Err(IntError::PosOverflow)
    } else {
        u16_scan(d.drop_first(), acc * 10 + digit_value(d[0]))
    }
}

/// What `u16::from_str` gives for `s`.
pub open spec fn spec_parse_u16(s: Seq<char>) -> Result<u16, IntError> {
    if s.len() == 0 {
        Err(IntError::Empty)
    } else if s.len() == 1 && (s[0] == '+' || s[0] == '-') {
        Err(IntError::InvalidDigit)
    } else if s[0] == '+' {
        u16_scan(s.drop_first(), 0)
    } else {
        u16_scan(s, 0)
    }
}

/// Reads an unsigned 16-bit integer as `u16::from_str` does.
pub fn parse_u16(s: &Vec<char>) -> (r: Result<u16, IntError>)
    ensures
        r == spec_parse_u16(s@),
{
    let n = s.len();
    if n == 0 {
        return Err(IntError::Empty);
    }
    if n == 1 && (s[0] == '+' || s[0] == '-') {
        return Err(IntError::InvalidDigit);
    }
    let start: usize = if s[0] == '+' { 1 } else { 0 };
    let ghost d = if s@[0] == '+' { s@.drop_first() } else { s@ };
    proof {
        assert(d =~= s@.subrange(start as int, n as int));
        assert(spec_parse_u16(s@) == u16_scan(d, 0));
    }
    let mut acc: u32 = 0;
    let mut i = start;
    while i < n
        invariant
            n == s@.len(),
            start <= i <= n,
            acc <= 65535,
            d == s@.subrange(start as int, n as int),
            spec_parse_u16(s@) == u16_scan(d, 0),
            u16_scan(d, 0) == u16_scan(s@.subrange(i as int, n as int), acc as int),
        decreases n - i,
    {
        let c = s[i];
        let ghost rest = s@.subrange(i as int, n as int);
        proof {
            assert(rest[0] == c);
            assert(rest.drop_first() =~= s@.subrange(i + 1, n as int));
        }
        if !('0' <= c && c <= '9') {
            proof {
                assert(u16_scan(rest, acc as int) == Err::<u16, IntError>(IntError::InvalidDigit));
            }
            return Err(IntError::InvalidDigit);
        }
        proof {
            assert(('0' as int) == 48);
            assert(digit_value(c) == (c as u32) - 48);
        }
        let next = acc * 10 + ((c as u32) - 48);
        if next > 65535 {
            proof {
                assert(u16_scan(rest, acc as int) == Err::<u16, IntError>(IntError::PosOverflow));
            }
            return Err(IntError::PosOverflow);
        }
        acc = next;
        i = i + 1;
    }
    proof {
        assert(s@.subrange(n as int, n as int) =~= Seq::<char>::empty());
    }
    Ok(acc as u16)
}

/// A bound of a `NumRange` that the command line can give.
pub trait RangeBound: Sized + PartialOrd {
    /// What reading the text `s` gives: a value, or the message telling why not.
    spec fn spec_read(s: Seq<char>) -> Result<Self, Seq<char>>;

    /// Reads a value from the text `s`.
    fn read_bound(s: &Vec<char>) -> (r: Result<Self, String>)
        ensures
            match r {
                Ok(v) => Self::spec_read(s@) == Ok::<Self, Seq<char>>(v),
                Err(e) => Self::spec_read(s@) == Err::<Self, Seq<char>>(e@),
            };

    /// The type's order is the one its comparisons follow.
    proof fn lemma_ordered()
        ensures
            Self::obeys_partial_cmp_spec(),
            Self::obeys_eq_spec(),
    ;
}

/// The message of an integer literal's error, as `ParseIntError` shows it.
pub open spec fn int_error_text(e: IntError) -> Seq<char> {
    match e {
        IntError::Empty => "cannot parse integer from empty string"@,
        IntError::InvalidDigit => "invalid digit found in string"@,
        IntError::PosOverflow => "number too large to fit in target type"@,
    }
}

/// The message of a decimal literal's error; the first two as `ParseFloatError` shows them.
pub open spec fn decimal_error_text(e: DecimalError) -> Seq<char> {
    match e {
        DecimalError::Empty => "cannot parse float from empty string"@,
        DecimalError::Invalid => "invalid float literal"@,
        DecimalError::NotFinite => "infinite and NaN values are not supported"@,
        DecimalError::OutOfRange => "number too large to fit in a decimal"@,
    }
}

impl RangeBound for u16 {
    open spec fn spec_read(s: Seq<char>) -> Result<u16, Seq<char>> {
        match spec_parse_u16(s) {
            Ok(v) => Ok(v),
            Err(e) => Err(int_error_text(e)),
        }
    }

    fn read_bound(s: &Vec<char>) -> (r: Result<u16, String>) {
        match parse_u16(s) {
            Ok(v) => Ok(v),
            Err(IntError::Empty) => Err(String::from_str("cannot parse integer from empty string")),
            Err(IntError::InvalidDigit) => Err(String::from_str("invalid digit found in string")),
            Err(IntError::PosOverflow) => Err(String::from_str("number too large to fit in target type")),
        }
    }

    proof fn lemma_ordered() {
    }
}

impl RangeBound for Decimal {
    open spec fn spec_read(s: Seq<char>) -> Result<Decimal, Seq<char>> {
        match spec_parse_decimal(s) {
            Ok(v) => Ok(v),
            Err(e) => Err(decimal_error_text(e)),
        }
    }

    fn read_bound(s: &Vec<char>) -> (r: Result<Decimal, String>) {
        match parse_decimal(s) {
            Ok(v) => Ok(v),
            Err(DecimalError::Empty) => Err(String::from_str("cannot parse float from empty string")),
            Err(DecimalError::Invalid) => Err(String::from_str("invalid float literal")),
            Err(DecimalError::NotFinite) => Err(String::from_str("infinite and NaN values are not supported")),
            Err(DecimalError::OutOfRange) => Err(String::from_str("number too large to fit in a decimal")),
        }
    }

    proof fn lemma_ordered() {
    }
}

/// The two ends of a range written `a..b`, `a..=b` or `a-b`, untrimmed; `None`
/// when `s` is a single value.
pub open spec fn range_pieces(s: Seq<char>) -> Option<(Seq<char>, Seq<char>)> {
    let clean = replace_all(s, seq!['.', '.', '='], seq!['.', '.']);
    match split_once(clean, seq!['.', '.']) {
        Some(p) => Some(p),
        None => split_once(clean, seq!['-']),
    }
}

/// What reading the filter text `s` gives.
pub open spec fn spec_parse_range<T: RangeBound>(s: Seq<char>, r: Result<NumRange<T>, String>) -> bool {
    match range_pieces(s) {
        Some((a, b)) => match (T::spec_read(trim(a)), T::spec_read(trim(b))) {
            (Err(e), _) => r matches Err(m) && m@ == e,
            (Ok(_), Err(e)) => r matches Err(m) && m@ == e,
            (Ok(x), Ok(y)) => if x.partial_cmp_spec(&y) == Some(core::cmp::Ordering::Greater) {
                r matches Err(m) && m@ == "range must be low..high"@
            } else {
                r matches Ok(NumRange::Range(rr)) && rr@.start == x && rr@.end == y && !rr@.exhausted
            },
        },
        None => match T::spec_read(trim(s)) {
            Err(e) => r matches Err(m) && m@ == e,
            Ok(x) => r == Ok::<NumRange<T>, String>(NumRange::Single(x)),
        },
    }
}

/// Reads a filter on a number: a single value, or a range `low..high`,
/// `low..=high` or `low-high`, both ends included.
pub fn parse_range<T: RangeBound>(s: &str) -> (r: Result<NumRange<T>, String>)
    ensures
        spec_parse_range::<T>(s@, r),
{
    let v = chars_of(s);
    let incl = vec!['.', '.', '='];
    let dots = vec!['.', '.'];
    let hyphen = vec!['-'];
    proof {
        assert(incl@ =~= seq!['.', '.', '=']);
        assert(dots@ =~= seq!['.', '.']);
        assert(hyphen@ =~= seq!['-']);
    }
    let clean = replace_text(&v, &incl, &dots);
    let (pos, width) = match find_text(&clean, &dots) {
        Some(i) => (Some(i), 2usize),
        None => (find_text(&clean, &hyphen), 1usize),
    };
    match pos {
        Some(i) => {
            let a = trimmed_piece(&clean, 0, i);
            let b = trimmed_piece(&clean, i + width, clean.len());
            let start = T::read_bound(&a)?;
            let end = T::read_bound(&b)?;
            proof {
                T::lemma_ordered();
            }
            if start > end {
                return Err(String::from_str("range must be low..high"));
            }
            Ok(NumRange::Range(RangeInclusive::new(start, end)))
        },
        None => {
            let t = trimmed_piece(&v, 0, v.len());
            proof {
                assert(v@.subrange(0, v@.len() as int) =~= v@);
            }
            let x = T::read_bound(&t)?;
            Ok(NumRange::Single(x))
        },
    }
}

/// A range read from the command line never runs backwards.
pub proof fn law_parsed_range_ordered(s: Seq<char>, r: Result<NumRange<u16>, String>)
    requires
        spec_parse_range::<u16>(s, r),
    ensures
        r matches Ok(NumRange::Range(rr)) ==> rr@.start <= rr@.end && !rr@.exhausted,
{
}

/// A grade range read from the command line never runs backwards.
pub proof fn law_parsed_grade_range_ordered(s: Seq<char>, r: Result<NumRange<Decimal>, String>)
    requires
        spec_parse_range::<Decimal>(s, r),
    ensures
        r matches Ok(NumRange::Range(rr)) ==> rr@.start.0 <= rr@.end.0 && !rr@.exhausted,
{
}

/// A number filter matches exactly its single value, or the values between
/// the two ends of its range, both included (the upper end left out once
/// the range has been run through, as std's `RangeInclusive` does).
pub proof fn law_u16_filter_matches(r: NumRange<u16>, v: u16)
    ensures
        r.spec_matches(&v) == match r {
            NumRange::Single(x) => v == x,
            NumRange::Range(rr) => rr@.start <= v && if rr@.exhausted { v < rr@.end } else { v <= rr@.end },
        },
{
}

/// A grade filter matches exactly its single value, or the grades between
/// the two ends of its range, both included (the upper end left out once
/// the range has been run through).
pub proof fn law_grade_filter_matches(r: NumRange<Decimal>, v: Decimal)
    ensures
        r.spec_matches(&v) == match r {
            NumRange::Single(x) => v.0 == x.0,
            NumRange::Range(rr) => rr@.start.0 <= v.0 && if rr@.exhausted { v.0 < rr@.end.0 } else { v.0 <= rr@.end.0 },
        },
{
}

} // verus!
