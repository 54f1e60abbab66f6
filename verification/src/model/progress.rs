//! Weekly progress tracking of a course.

use vstd::prelude::*;
use crate::model::exam::Date;

verus! {

/// The state of one week in a progress row.
#[derive(Clone, Copy, Debug, PartialEq, Eq, Structural)]
pub enum Mark {
    Empty,
    Done,
    Skipped,
}

/// A labelled row of weekly marks.
#[derive(Clone, Debug, PartialEq)]
pub struct ProgressRow {
    pub label: String,
    pub marks: Vec<Mark>,
}

/// Weekly progress of a course, starting at a date.
#[derive(Clone, Debug, PartialEq)]
pub struct Progress {
    pub start: Date,
    pub weeks: u16,
    pub rows: Vec<ProgressRow>,
}

} // verus!
