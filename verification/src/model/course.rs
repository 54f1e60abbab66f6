//! A course with its credits, semester, grade and exams.

use vstd::prelude::*;
use crate::decimal::{Decimal, fixed_string, fixed_text};
use crate::model::exam::{Date, Exam};
use crate::model::progress::Progress;
use crate::text::{dec_digits, pad_left, pad_right, push_decimal, push_padded_left, push_padded_right};

verus! {

/// A course of the study program.
#[derive(Clone, Debug, PartialEq)]
pub struct Course {
    /// A random identifier (the bits of a version-4 UUID).
    pub id: u128,
    pub title: String,
    pub credits: u16,
    pub semester: u16,
    /// The grade, once graded.
    pub grade: Option<Decimal>,
    pub completed: bool,
    pub exams: Vec<Exam>,
    pub progress: Option<Progress>,
}

/// Whether `id` has the layout of a version-4 UUID: version nibble 4, variant bits 0b10.
pub open spec fn is_v4_id(id: u128) -> bool {
    (id >> 76u128) & 0xfu128 == 4 && (id >> 62u128) & 3u128 == 2
}

/// `uuid::Uuid::new_v4`, read as the `u128` of its bytes (`Uuid::as_u128`).
/// The uuid source masks a random number so that the version nibble is 4
/// and the variant bits are 0b10; that layout is all this claims, the other
/// bits being random.
#[verifier::external_body]
fn new_random_id() -> (id: u128)
    ensures
        is_v4_id(id),
{
    uuid::Uuid::new_v4().as_u128()
}

/// Today's date in UTC, from `time::OffsetDateTime::now_utc().date()`,
/// read as year, month number and day. The time crate documents the month
/// as one of the twelve months and the day as 1 to 31; which date it is
/// depends on the clock, so nothing more is claimed.
#[verifier::external_body]
pub(crate) fn today_utc() -> (d: Date)
    ensures
        1 <= d.month <= 12,
        1 <= d.day <= 31,
{
    let t = time::OffsetDateTime::now_utc().date();
    Date { year: t.year(), month: u8::from(t.month()), day: t.day() }
}

/// The exams of `exams` dated after `today`, in their order.
pub open spec fn exams_after(exams: Seq<Exam>, today: Date) -> Seq<Exam>
    decreases exams.len(),
{
    if exams.len() == 0 {
        exams
    } else if exams.last().date.spec_after(today) {
        exams_after(exams.drop_last(), today).push(exams.last())
    } else {
        exams_after(exams.drop_last(), today)
    }
}

/// The exams that the references `r` point to.
pub open spec fn deref_exams(r: Seq<&Exam>) -> Seq<Exam> {
    r.map_values(|e: &Exam| *e)
}

/// The text of a grade in the course table: one fraction digit, or "-".
pub open spec fn grade_text(g: Option<Decimal>) -> Seq<char> {
    match g {
        Some(d) => fixed_text(d, 1),
        None => seq!['-'],
    }
}

/// The text of the completed flag: a check mark, or nothing.
pub open spec fn completed_text(done: bool) -> Seq<char> {
    if done {
        seq!['✓']
    } else {
        Seq::<char>::empty()
    }
}

/// The texts of the strings `v`.
pub open spec fn strings_view(v: Seq<String>) -> Seq<Seq<char>> {
    v.map_values(|s: String| s@)
}

/// The cells of the course's row in the course table: the title padded on
/// the right to 40 characters, credits and semester on the left to 8, grade
/// and completed flag on the right to 8.
pub open spec fn row_cells(c: Course) -> Seq<Seq<char>> {
    seq![
        pad_right(c.title@, 40),
        pad_left(dec_digits(c.credits as nat), 8),
        pad_left(dec_digits(c.semester as nat), 8),
        pad_right(grade_text(c.grade), 8),
        pad_right(completed_text(c.completed), 8),
    ]
}

impl Course {
    /// A new course with the given identifier, no exams and no progress.
    pub fn with_id(id: u128, title: String, credits: u16, semester: u16, grade: Option<Decimal>, completed: bool) -> (c: Course)
        ensures
            c.id == id,
            c.title == title,
            c.credits == credits,
            c.semester == semester,
            c.grade == grade,
            c.completed == completed,
            c.exams@.len() == 0,
            c.progress is None,
    {
        Course { id, title, credits, semester, grade, completed, exams: Vec::new(), progress: None }
    }

    /// A new course with a fresh random identifier, no exams and no progress.
    pub fn new(title: String, credits: u16, semester: u16, grade: Option<Decimal>, completed: bool) -> (c: Course)
        ensures
            is_v4_id(c.id),
            c.title == title,
            c.credits == credits,
            c.semester == semester,
            c.grade == grade,
            c.completed == completed,
            c.exams@.len() == 0,
            c.progress is None,
    {
        Course::with_id(new_random_id(), title, credits, semester, grade, completed)
    }

    /// The exams dated after `today`, in their order.
    pub fn exams_after(&self, today: Date) -> (r: Vec<&Exam>)
        ensures
            deref_exams(r@) == exams_after(self.exams@, today),
    {
        let mut r: Vec<&Exam> = Vec::new();
        let mut i: usize = 0;
        while i < self.exams.len()
            invariant
                i <= self.exams@.len(),
                deref_exams(r@) == exams_after(self.exams@.subrange(0, i as int), today),
            decreases self.exams@.len() - i,
        {
            let e = &self.exams[i];
            proof {
                assert(self.exams@.subrange(0, i + 1).drop_last() =~= self.exams@.subrange(0, i as int));
            }
            if e.date.is_after(&today) {
                let ghost before = r@;
                r.push(e);
                proof {
                    assert(deref_exams(r@) =~= deref_exams(before).push(*e));
                }
            }
            i = i + 1;
        }
        proof {
            assert(self.exams@.subrange(0, i as int) =~= self.exams@);
        }
        r
    }

    /// The exams dated after today (UTC), in their order.
    pub fn upcoming_exams(&self) -> (r: Vec<&Exam>)
        ensures
            exists|today: Date|
                1 <= today.month <= 12 && 1 <= today.day <= 31 && deref_exams(r@) == #[trigger] exams_after(self.exams@, today),
    {
        let today = today_utc();
        self.exams_after(today)
    }

    /// The grade as shown in the course table.
    pub fn grade_str(&self) -> (s: String)
        ensures
            s@ == grade_text(self.grade),
    {
        match self.grade {
            Some(g) => fixed_string(g, 1),
            None => {
                proof {
                    reveal_strlit("-");
                }
                String::from_str("-")
            },
        }
    }

    /// The completed flag as shown in the course table.
    pub fn completed_str(&self) -> (s: String)
        ensures
            s@ == completed_text(self.completed),
    {
        if self.completed {
            proof {
                reveal_strlit("✓");
            }
            String::from_str("✓")
        } else {
            proof {
                reveal_strlit("");
            }
            String::from_str("")
        }
    }

    /// The cells of the course's row in the course table: title, credits,
    /// semester, grade and completed flag, each padded to its column.
    pub fn to_row(&self) -> (cells: Vec<String>)
        ensures
            strings_view(cells@) == row_cells(*self),
    {
        let mut title = String::new();
        push_padded_right(&mut title, self.title.as_str(), 40);
        let mut credits_digits = String::new();
        push_decimal(&mut credits_digits, self.credits as u64);
        let mut credits = String::new();
        push_padded_left(&mut credits, credits_digits.as_str(), 8);
        let mut semester_digits = String::new();
        push_decimal(&mut semester_digits, self.semester as u64);
        let mut semester = String::new();
        push_padded_left(&mut semester, semester_digits.as_str(), 8);
        let g = self.grade_str();
        let mut grade = String::new();
        push_padded_right(&mut grade, g.as_str(), 8);
        let c = self.completed_str();
        let mut done = String::new();
        push_padded_right(&mut done, c.as_str(), 8);
        let cells = vec![title, credits, semester, grade, done];
        proof {
            assert(strings_view(cells@) =~= row_cells(*self));
        }
        cells
    }
}

} // verus!
