//! Exams of a course, and the calendar dates and times they are held on.

use vstd::prelude::*;
use crate::decimal::Decimal;

verus! {

/// A calendar date.
#[derive(Clone, Copy, Debug, PartialEq, Eq, Structural)]
pub struct Date {
    pub year: i32,
    /// 1 to 12.
    pub month: u8,
    /// 1 to 31.
    pub day: u8,
}

impl Date {
    /// Whether `self` comes after `other` in the calendar.
    pub open spec fn spec_after(self, other: Date) -> bool {
        ||| self.year > other.year
        ||| (self.year == other.year && self.month > other.month)
        ||| (self.year == other.year && self.month == other.month && self.day > other.day)
    }

    /// Whether `self` comes after `other` in the calendar.
    pub fn is_after(&self, other: &Date) -> (b: bool)
        ensures
            b == self.spec_after(*other),
    {
        self.year > other.year || (self.year == other.year && self.month > other.month) || (
        self.year == other.year && self.month == other.month && self.day > other.day)
    }
}

/// A time of day.
#[derive(Clone, Copy, Debug, PartialEq, Eq, Structural)]
pub struct Time {
    pub hour: u8,
    pub minute: u8,
    pub second: u8,
    pub nanosecond: u32,
}

/// The kind of an exam.
#[derive(Clone, Copy, Debug, PartialEq, Eq, Structural)]
pub enum ExamKind {
    Written,
    Oral,
    Project,
    Final,
}

/// An exam of a course.
#[derive(Clone, Debug, PartialEq)]
pub struct Exam {
    pub kind: ExamKind,
    pub date: Date,
    pub time: Option<Time>,
    pub weight: Option<Decimal>,
    pub locaation: Option<String>,
    pub grade: Option<Decimal>,
}

} // verus!
