//! A grade point average record: the target, the grading system, the
//! semesters and the courses, with the operations on them.

use vstd::prelude::*;
use crate::decimal::Decimal;
use crate::model::course::{Course, deref_exams, exams_after, row_cells, strings_view};
use crate::model::exam::{Date, Exam};
use crate::model::grading_system::GradingSystem;
use crate::model::semester::Semester;
use crate::commands::Column;
use crate::model::sorting::{is_sorted_stably, sort_courses, law_sort_keeps_courses, law_sort_orders_courses};
use crate::model::order::not_after;
use crate::text::{dec_digits, push_decimal, contains_text, occurs_at, text_contains};
use crate::commands::{FilterBy, NumRange};
use crate::model::stats::{Stats, credits_all, credits_graded, credits_points, weighted_sum, lemma_sums_bounded, lemma_credits_prefix};

verus! {

/// A GPA record.
#[derive(Debug, PartialEq)]
pub struct Gpa {
    /// The average aimed at.
    pub target_average: Decimal,
    pub grading_system: GradingSystem,
    pub semesters: Vec<Semester>,
    pub courses: Vec<Course>,
}

/// Why an operation on a GPA record failed.
#[derive(Clone, Copy, Debug, PartialEq, Eq, Structural)]
pub enum GpaError {
    /// There is no course at the index.
    NoCourse(usize),
}

/// The columns the courses are kept in order by: semester, then title.
pub open spec fn default_keys() -> Seq<Column> {
    seq![Column::Semester, Column::Title]
}

/// The message of `e`.
pub open spec fn error_text(e: GpaError) -> Seq<char> {
    match e {
        GpaError::NoCourse(idx) => seq!['N', 'o', ' ', 'c', 'o', 'u', 'r', 's', 'e', ' ', 'a', 't', ' ', 'i', 'n', 'd', 'e', 'x', ' ']
            + dec_digits(idx as nat),
    }
}

impl GpaError {
    /// The message of the error.
    pub fn message(&self) -> (s: String)
        ensures
            s@ == error_text(*self),
    {
        match self {
            GpaError::NoCourse(idx) => {
                let mut s = String::from_str("No course at index ");
                proof {
                    reveal_strlit("No course at index ");
                }
                push_decimal(&mut s, *idx as u64);
                s
            },
        }
    }
}

impl Default for Gpa {
    /// Target average 2.0, the default grading system, no semesters and no courses.
    fn default() -> (g: Self)
        ensures
            g.target_average.0 == 2000,
            g.grading_system.credit_goal == 180,
            g.grading_system.pass_mark.0 == 4000,
            g.grading_system.ignore_failed,
            g.grading_system.lower_is_better,
            g.semesters@.len() == 0,
            g.courses@.len() == 0,
    {
        Gpa {
            target_average: Decimal(2000),
            grading_system: GradingSystem::default(),
            semesters: Vec::new(),
            courses: Vec::new(),
        }
    }
}

impl Gpa {
    /// The course at `idx`, to change in place.
    pub fn get_course_mut(&mut self, idx: usize) -> (r: Result<&mut Course, GpaError>)
        ensures
            r is Ok <==> idx < old(self).courses@.len(),
            r is Err ==> r == Err::<&mut Course, GpaError>(GpaError::NoCourse(idx)) && *final(self) == *old(self),
            r is Ok ==> *r->Ok_0 == old(self).courses@[idx as int]
                && final(self).courses@ == old(self).courses@.update(idx as int, *final(r->Ok_0))
                && final(self).target_average == old(self).target_average
                && final(self).grading_system == old(self).grading_system
                && final(self).semesters == old(self).semesters,
    {
        if idx < self.courses.len() {
            Ok(&mut self.courses[idx])
        } else {
            Err(GpaError::NoCourse(idx))
        }
    }
}

impl Gpa {
    /// Adds `course` and puts the courses back in order by semester, then title.
    pub fn add_course(&mut self, course: Course)
        ensures
            is_sorted_stably(final(self).courses@, old(self).courses@.push(course), default_keys(), false),
            final(self).target_average == old(self).target_average,
            final(self).grading_system == old(self).grading_system,
            final(self).semesters == old(self).semesters,
    {
        self.courses.push(course);
        self.sort_default();
    }

    /// Removes the course at `idx`; fails when there is none.
    pub fn delete_course(&mut self, idx: usize) -> (r: Result<(), GpaError>)
        ensures
            r is Ok <==> idx < old(self).courses@.len(),
            r is Ok ==> final(self).courses@ == old(self).courses@.remove(idx as int)
                && final(self).target_average == old(self).target_average
                && final(self).grading_system == old(self).grading_system
                && final(self).semesters == old(self).semesters,
            r is Err ==> r == Err::<(), GpaError>(GpaError::NoCourse(idx)) && *final(self) == *old(self),
    {
        if idx < self.courses.len() {
            self.courses.remove(idx);
            Ok(())
        } else {
            Err(GpaError::NoCourse(idx))
        }
    }

    /// Sorts the courses stably by `column`, descending when `reverse`.
    pub fn sort_by(&mut self, column: &Column, reverse: bool)
        ensures
            is_sorted_stably(final(self).courses@, old(self).courses@, seq![*column], reverse),
            final(self).target_average == old(self).target_average,
            final(self).grading_system == old(self).grading_system,
            final(self).semesters == old(self).semesters,
    {
        let keys = vec![*column];
        proof {
            assert(keys@ =~= seq![*column]);
        }
        sort_courses(&mut self.courses, keys.as_slice(), reverse);
    }

    /// Sorts the courses stably by semester, then title.
    pub fn sort_default(&mut self)
        ensures
            is_sorted_stably(final(self).courses@, old(self).courses@, default_keys(), false),
            final(self).target_average == old(self).target_average,
            final(self).grading_system == old(self).grading_system,
            final(self).semesters == old(self).semesters,
    {
        let keys = vec![Column::Semester, Column::Title];
        proof {
            assert(keys@ =~= default_keys());
        }
        sort_courses(&mut self.courses, keys.as_slice(), false);
    }
}

/// Whether the grade `g` passes the grade filter `r`: equal to the single
/// value, or inside the range.
pub open spec fn grade_in(r: NumRange<Decimal>, g: Decimal) -> bool {
    match r {
        NumRange::Single(x) => g.0 == x.0,
        NumRange::Range(rr) => rr@.start.0 <= g.0 && if rr@.exhausted {
            g.0 < rr@.end.0
        } else {
            g.0 <= rr@.end.0
        },
    }
}

/// Whether `c` passes the filter `f`: every condition that is set holds.
pub open spec fn filter_matches(f: FilterBy, c: Course) -> bool {
    &&& (f.title matches Some(t) ==> contains_text(c.title@, t@))
    &&& (f.semester matches Some(r) ==> r.spec_matches(&c.semester))
    &&& (f.grade matches Some(r) ==> (c.grade matches Some(g) && grade_in(r, g)))
    &&& (f.credits matches Some(r) ==> r.spec_matches(&c.credits))
    &&& (f.completed matches Some(b) ==> c.completed == b)
}

impl FilterBy {
    /// Whether `course` passes the filter.
    pub fn matches(&self, course: &Course) -> (b: bool)
        ensures
            b == filter_matches(*self, *course),
    {
        if let Some(t) = &self.title {
            if !text_contains(course.title.as_str(), t.as_str()) {
                return false;
            }
        }
        if let Some(s) = &self.semester {
            if !s.matches(&course.semester) {
                return false;
            }
        }
        if let Some(g) = &self.grade {
            match course.grade {
                Some(val) => {
                    if !g.matches(&val) {
                        return false;
                    }
                },
                None => {
                    return false;
                },
            }
        }
        if let Some(c) = &self.credits {
            if !c.matches(&course.credits) {
                return false;
            }
        }
        if let Some(b) = self.completed {
            if course.completed != b {
                return false;
            }
        }
        true
    }
}

impl Gpa {
    /// The statistics of all courses under the grading system.
    pub fn get_stats(&self) -> (s: Stats)
        requires
            credits_all(self.courses@) <= u16::MAX,
        ensures
            s.all == credits_all(self.courses@),
            s.graded == credits_graded(self.courses@, self.grading_system),
            s.points_only == credits_points(self.courses@, self.grading_system),
            s.weighted == weighted_sum(self.courses@, self.grading_system),
    {
        let mut stats = Stats::default();
        let n = self.courses.len();
        let ghost cs = self.courses@;
        let ghost sys = self.grading_system;
        let mut i: usize = 0;
        while i < n
            invariant
                n == cs.len(),
                cs == self.courses@,
                sys == self.grading_system,
                credits_all(cs) <= u16::MAX,
                i <= n,
                stats.all == credits_all(cs.subrange(0, i as int)),
                stats.graded == credits_graded(cs.subrange(0, i as int), sys),
                stats.points_only == credits_points(cs.subrange(0, i as int), sys),
                stats.weighted == weighted_sum(cs.subrange(0, i as int), sys),
            decreases n - i,
        {
            let ghost next = cs.subrange(0, i + 1);
            proof {
                assert(next.drop_last() =~= cs.subrange(0, i as int));
                lemma_credits_prefix(cs, i + 1);
                lemma_sums_bounded(next, sys);
                lemma_sums_bounded(cs.subrange(0, i as int), sys);
                assert(next.last() == cs[i as int]);
                let w = weighted_sum(next, sys);
                let gr = credits_graded(next, sys);
                assert(i128::MIN <= w <= i128::MAX) by (nonlinear_arith)
                    requires -0x8000_0000_0000_0000 * gr <= w <= (0x8000_0000_0000_0000 - 1) * gr, 0 <= gr <= 0xffff;
            }
            stats.add(&self.courses[i], &self.grading_system);
            i = i + 1;
        }
        proof {
            assert(cs.subrange(0, n as int) =~= cs);
        }
        stats
    }
}

/// Adding a course keeps every course there was, adds the new one once, and
/// leaves the courses in order by semester, then title.
pub proof fn law_add_course_adds_one(before: Seq<Course>, course: Course, after: Seq<Course>)
    requires
        before.len() < usize::MAX,
        is_sorted_stably(after, before.push(course), default_keys(), false),
    ensures
        after.to_multiset() =~= before.to_multiset().insert(course),
        after.len() == before.len() + 1,
        forall|a: int, b: int| 0 <= a < b < after.len() ==> not_after(default_keys(), false, #[trigger] after[a], #[trigger] after[b]),
{
    broadcast use vstd::seq_lib::group_to_multiset_ensures;
    law_sort_keeps_courses(after, before.push(course), default_keys(), false);
    law_sort_orders_courses(after, before.push(course), default_keys(), false);
}

/// A filter with no condition set lets every course through.
pub proof fn law_empty_filter_passes_all(f: FilterBy, c: Course)
    requires
        f.title is None,
        f.semester is None,
        f.grade is None,
        f.credits is None,
        f.completed is None,
    ensures
        filter_matches(f, c),
{
}

/// A filter whose only condition is a title lets a course through exactly
/// when that text occurs somewhere in the course's title.
pub proof fn law_title_filter_finds_text_anywhere(f: FilterBy, c: Course)
    requires
        f.title is Some,
        f.semester is None,
        f.grade is None,
        f.credits is None,
        f.completed is None,
    ensures
        filter_matches(f, c) <==> exists|i: int|
            0 <= i && i + f.title->0@.len() <= c.title@.len()
                && #[trigger] c.title@.subrange(i, i + f.title->0@.len()) == f.title->0@,
{
    let t = f.title->0@;
    if filter_matches(f, c) {
        let i = choose|i: int| occurs_at(c.title@, i, t);
        assert(c.title@.subrange(i, i + t.len()) == t);
    }
    if exists|i: int| 0 <= i && i + t.len() <= c.title@.len() && #[trigger] c.title@.subrange(i, i + t.len()) == t {
        let i = choose|i: int| 0 <= i && i + t.len() <= c.title@.len() && #[trigger] c.title@.subrange(i, i + t.len()) == t;
        assert(occurs_at(c.title@, i, t));
    }
}

/// The credits achieved (graded plus passed without a grade) never exceed
/// the credits of all courses.
pub proof fn law_achieved_within_all(cs: Seq<Course>, sys: GradingSystem)
    ensures
        0 <= credits_graded(cs, sys) + credits_points(cs, sys) <= credits_all(cs),
{
    lemma_sums_bounded(cs, sys);
}

/// The exams of the courses `cs` dated after the matching day of `days`,
/// course after course.
pub open spec fn exams_of_courses(cs: Seq<Course>, days: Seq<Date>) -> Seq<Exam>
    decreases cs.len(),
{
    if cs.len() == 0 || days.len() != cs.len() {
        Seq::empty()
    } else {
        exams_of_courses(cs.drop_last(), days.drop_last()) + exams_after(cs.last().exams@, days.last())
    }
}

impl Gpa {
    /// The course at `idx`.
    pub fn get_course(&self, idx: usize) -> (r: Result<&Course, GpaError>)
        ensures
            r is Ok <==> idx < self.courses@.len(),
            r matches Ok(c) ==> *c == self.courses@[idx as int],
            r is Err ==> r == Err::<&Course, GpaError>(GpaError::NoCourse(idx)),
    {
        if idx < self.courses.len() {
            Ok(&self.courses[idx])
        } else {
            Err(GpaError::NoCourse(idx))
        }
    }

    /// The upcoming exams of all courses, course after course, each course's
    /// exams those dated after the day its clock reading gave.
    pub fn all_exams(&self) -> (r: Vec<&Exam>)
        ensures
            exists|days: Seq<Date>| days.len() == self.courses@.len()
                && (forall|k: int| 0 <= k < days.len() ==> 1 <= #[trigger] days[k].month <= 12 && 1 <= days[k].day <= 31)
                && deref_exams(r@) == #[trigger] exams_of_courses(self.courses@, days),
    {
        let mut r: Vec<&Exam> = Vec::new();
        let ghost mut days: Seq<Date> = Seq::empty();
        let mut i: usize = 0;
        while i < self.courses.len()
            invariant
                i <= self.courses@.len(),
                days.len() == i,
                forall|k: int| 0 <= k < days.len() ==> 1 <= #[trigger] days[k].month <= 12 && 1 <= days[k].day <= 31,
                deref_exams(r@) == exams_of_courses(self.courses@.subrange(0, i as int), days),
            decreases self.courses@.len() - i,
        {
            let upcoming = self.courses[i].upcoming_exams();
            let ghost today = choose|today: Date|
                1 <= today.month <= 12 && 1 <= today.day <= 31
                    && deref_exams(upcoming@) == #[trigger] exams_after(self.courses@[i as int].exams@, today);
            let ghost before = r@;
            let mut k: usize = 0;
            while k < upcoming.len()
                invariant
                    k <= upcoming@.len(),
                    r@ == before + upcoming@.subrange(0, k as int),
                decreases upcoming@.len() - k,
            {
                r.push(upcoming[k]);
                k = k + 1;
                proof {
                    assert(r@ =~= before + upcoming@.subrange(0, k as int));
                }
            }
            proof {
                assert(upcoming@.subrange(0, k as int) =~= upcoming@);
                let cs = self.courses@.subrange(0, i + 1);
                assert(cs.drop_last() =~= self.courses@.subrange(0, i as int));
                let old_days = days;
                days = old_days.push(today);
                assert(days.drop_last() =~= old_days);
                assert(cs.last() == self.courses@[i as int]);
                assert(exams_of_courses(cs, days) == exams_of_courses(cs.drop_last(), old_days) + exams_after(cs.last().exams@, today));
                assert(deref_exams(r@) =~= deref_exams(before) + deref_exams(upcoming@));
            }
            i = i + 1;
        }
        proof {
            assert(self.courses@.subrange(0, i as int) =~= self.courses@);
        }
        r
    }

    /// The rows of the course table, one per course in order.
    pub fn to_table(&self) -> (rows: Vec<Vec<String>>)
        ensures
            rows@.len() == self.courses@.len(),
            forall|i: int| 0 <= i < rows@.len() ==> strings_view(#[trigger] rows@[i]@) == row_cells(self.courses@[i]),
    {
        let mut rows: Vec<Vec<String>> = Vec::new();
        let mut i: usize = 0;
        while i < self.courses.len()
            invariant
                i <= self.courses@.len(),
                rows@.len() == i,
                forall|k: int| 0 <= k < i ==> strings_view(#[trigger] rows@[k]@) == row_cells(self.courses@[k]),
            decreases self.courses@.len() - i,
        {
            rows.push(self.courses[i].to_row());
            i = i + 1;
        }
        rows
    }
}

} // verus!
