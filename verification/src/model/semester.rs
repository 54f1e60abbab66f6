//! Semesters and their dates.

use vstd::prelude::*;
use crate::model::exam::Date;

verus! {

/// A semester and the dates it runs between.
#[derive(Clone, Copy, Debug, PartialEq, Eq, Structural)]
pub struct Semester {
    pub id: u8,
    pub start: Date,
    pub end: Date,
}

} // verus!
