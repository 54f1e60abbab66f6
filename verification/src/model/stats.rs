//! Statistics over courses: credits in all, credits graded and counted in
//! the average, credits passed without a grade, and the weighted grade sum.

use vstd::prelude::*;
use crate::decimal::{Decimal, Quotient};
use vstd::arithmetic::div_mod::{lemma_fundamental_div_mod, lemma_mod_pos_bound};
use crate::model::course::Course;
use crate::model::grading_system::GradingSystem;

verus! {

/// Accumulated statistics about courses and their grading.
#[derive(Clone, Copy, Debug, PartialEq, Eq, Structural)]
pub struct Stats {
    /// The credits of every course seen.
    pub all: u16,
    /// The credits of the courses whose grade counts in the average.
    pub graded: u16,
    /// The credits of completed courses without a grade.
    pub points_only: u16,
    /// The sum of grade (in thousandths) times credits over the graded courses.
    pub weighted: i128,
}

impl Default for Stats {
    fn default() -> (s: Self)
        ensures
            s.all == 0,
            s.graded == 0,
            s.points_only == 0,
            s.weighted == 0,
    {
        Stats { all: 0, graded: 0, points_only: 0, weighted: 0 }
    }
}

/// Whether the course's grade counts in the average: it is graded, and it
/// passes or failed grades are not ignored.
pub open spec fn counts_graded(c: Course, sys: GradingSystem) -> bool {
    c.grade is Some && !(sys.ignore_failed && !sys.spec_is_pass(c.grade->0))
}

/// Whether the course counts as passed without a grade: ungraded and completed.
pub open spec fn counts_points(c: Course, sys: GradingSystem) -> bool {
    c.grade is None && c.completed
}

/// The credits of all courses in `cs`.
pub open spec fn credits_all(cs: Seq<Course>) -> int
    decreases cs.len(),
{
    if cs.len() == 0 {
        0
    } else {
        credits_all(cs.drop_last()) + cs.last().credits
    }
}

/// The credits of the courses in `cs` whose grade counts.
pub open spec fn credits_graded(cs: Seq<Course>, sys: GradingSystem) -> int
    decreases cs.len(),
{
    if cs.len() == 0 {
        0
    } else {
        credits_graded(cs.drop_last(), sys) + if counts_graded(cs.last(), sys) {
            cs.last().credits as int
        } else {
            0
        }
    }
}

/// The credits of the courses in `cs` passed without a grade.
pub open spec fn credits_points(cs: Seq<Course>, sys: GradingSystem) -> int
    decreases cs.len(),
{
    if cs.len() == 0 {
        0
    } else {
        credits_points(cs.drop_last(), sys) + if counts_points(cs.last(), sys) {
            cs.last().credits as int
        } else {
            0
        }
    }
}

/// The sum of grade times credits over the courses in `cs` whose grade counts.
pub open spec fn weighted_sum(cs: Seq<Course>, sys: GradingSystem) -> int
    decreases cs.len(),
{
    if cs.len() == 0 {
        0
    } else {
        weighted_sum(cs.drop_last(), sys) + if counts_graded(cs.last(), sys) {
            cs.last().grade->0.val() * cs.last().credits
        } else {
            0
        }
    }
}

/// The largest magnitude of a grade in thousandths.
pub open spec fn grade_bound() -> int {
    0x8000_0000_0000_0000
}

/// The counted credits stay within all credits, and the weighted sum within
/// the largest grade times the graded credits.
pub proof fn lemma_sums_bounded(cs: Seq<Course>, sys: GradingSystem)
    ensures
        0 <= credits_graded(cs, sys),
        0 <= credits_points(cs, sys),
        credits_graded(cs, sys) + credits_points(cs, sys) <= credits_all(cs),
        -grade_bound() * credits_graded(cs, sys) <= weighted_sum(cs, sys) <= (grade_bound() - 1) * credits_graded(cs, sys),
    decreases cs.len(),
{
    if cs.len() > 0 {
        lemma_sums_bounded(cs.drop_last(), sys);
        let c = cs.last();
        if counts_graded(c, sys) {
            let g = c.grade->0.val() as int;
            let k = c.credits as int;
            assert(-grade_bound() * k <= g * k <= (grade_bound() - 1) * k) by (nonlinear_arith)
                requires -grade_bound() <= g <= grade_bound() - 1, 0 <= k;
            assert(-grade_bound() * credits_graded(cs, sys) == -grade_bound() * credits_graded(cs.drop_last(), sys) + -grade_bound() * k) by (nonlinear_arith)
                requires credits_graded(cs, sys) == credits_graded(cs.drop_last(), sys) + k;
            assert((grade_bound() - 1) * credits_graded(cs, sys) == (grade_bound() - 1) * credits_graded(cs.drop_last(), sys) + (grade_bound() - 1) * k) by (nonlinear_arith)
                requires credits_graded(cs, sys) == credits_graded(cs.drop_last(), sys) + k;
        }
    }
}

/// The statistics of the courses `cs` under `sys`, when they fit.
pub open spec fn course_stats(cs: Seq<Course>, sys: GradingSystem) -> Stats {
    Stats {
        all: credits_all(cs) as u16,
        graded: credits_graded(cs, sys) as u16,
        points_only: credits_points(cs, sys) as u16,
        weighted: weighted_sum(cs, sys) as i128,
    }
}

/// Credits only grow as courses are added.
pub proof fn lemma_credits_prefix(cs: Seq<Course>, i: int)
    requires
        0 <= i <= cs.len(),
    ensures
        credits_all(cs.subrange(0, i)) <= credits_all(cs),
    decreases cs.len(),
{
    if i < cs.len() {
        assert(cs.drop_last().subrange(0, i) =~= cs.subrange(0, i));
        lemma_credits_prefix(cs.drop_last(), i);
    } else {
        assert(cs.subrange(0, i) =~= cs);
    }
}

/// A quotient stays below `q` when the dividend is below `q` times the divisor.
pub proof fn lemma_quotient_below(x: int, y: int, q: int)
    requires
        y > 0,
        0 <= x < q * y,
    ensures
        x / y < q,
{
    lemma_fundamental_div_mod(x, y);
    lemma_mod_pos_bound(x, y);
    let d = x / y;
    let r = x % y;
    if d >= q {
        assert(x >= q * y) by (nonlinear_arith)
            requires x == y * d + r, r >= 0, d >= q, y > 0;
    }
}

/// When every counted grade lies between `lo` and `hi`, the weighted sum
/// lies between `lo` and `hi` times the graded credits.
proof fn lemma_weighted_between(cs: Seq<Course>, sys: GradingSystem, lo: int, hi: int)
    requires
        forall|i: int| 0 <= i < cs.len() && #[trigger] counts_graded(cs[i], sys) ==> lo <= cs[i].grade->0.val() <= hi,
    ensures
        lo * credits_graded(cs, sys) <= weighted_sum(cs, sys) <= hi * credits_graded(cs, sys),
    decreases cs.len(),
{
    if cs.len() > 0 {
        let rest = cs.drop_last();
        assert forall|i: int| 0 <= i < rest.len() && #[trigger] counts_graded(rest[i], sys) implies lo <= rest[i].grade->0.val() <= hi by {
            assert(rest[i] == cs[i]);
        }
        lemma_weighted_between(rest, sys, lo, hi);
        let c = cs.last();
        let g0 = credits_graded(rest, sys);
        let w0 = weighted_sum(rest, sys);
        if counts_graded(c, sys) {
            assert(counts_graded(cs[cs.len() - 1], sys));
            let x = c.grade->0.val();
            let k = c.credits as int;
            assert(lo * (g0 + k) <= w0 + x * k <= hi * (g0 + k)) by (nonlinear_arith)
                requires lo * g0 <= w0 <= hi * g0, lo <= x <= hi, k >= 0;
        }
    }
}

/// The average over the graded credits lies between the lowest and the
/// highest grade counted in it: the weighted sum lies between those grades
/// times the graded credits.
pub proof fn law_average_within_grades(cs: Seq<Course>, sys: GradingSystem, lo: int, hi: int)
    requires
        forall|i: int| 0 <= i < cs.len() && #[trigger] counts_graded(cs[i], sys) ==> lo <= cs[i].grade->0.val() <= hi,
    ensures
        lo * credits_graded(cs, sys) <= weighted_sum(cs, sys) <= hi * credits_graded(cs, sys),
{
    lemma_weighted_between(cs, sys, lo, hi);
}

/// Whether a course's grade counts in the average does not depend on its
/// completed flag: a grade counts exactly when it passes or failed grades are
/// not ignored, so a passing grade always counts.
pub proof fn law_graded_counts_regardless_of_completed(c: Course, sys: GradingSystem, b: bool)
    ensures
        counts_graded(c, sys) == counts_graded(Course { completed: b, ..c }, sys),
        counts_graded(c, sys) <==> (c.grade matches Some(g) && (sys.spec_is_pass(g) || !sys.ignore_failed)),
{
}

impl Stats {
    /// Adds the course `c` under the grading system `sys`: its credits count
    /// in `all`; a counted grade adds to `graded` and `weighted`; an ungraded
    /// completed course adds to `points_only`.
    pub fn add(&mut self, c: &Course, sys: &GradingSystem)
        requires
            old(self).all + c.credits <= u16::MAX,
            counts_graded(*c, *sys) ==> old(self).graded + c.credits <= u16::MAX,
            counts_graded(*c, *sys) ==> i128::MIN <= old(self).weighted + c.grade->0.val() * c.credits <= i128::MAX,
            counts_points(*c, *sys) ==> old(self).points_only + c.credits <= u16::MAX,
        ensures
            final(self).all == old(self).all + c.credits,
            final(self).graded == old(self).graded + if counts_graded(*c, *sys) { c.credits as int } else { 0 },
            final(self).points_only == old(self).points_only + if counts_points(*c, *sys) { c.credits as int } else { 0 },
            final(self).weighted == old(self).weighted + if counts_graded(*c, *sys) { c.grade->0.val() * c.credits } else { 0 },
    {
        self.all = self.all + c.credits;
        match c.grade {
            Some(g) => {
                if sys.ignore_failed && !sys.is_pass(g) {
                } else {
                    proof {
                        let x = g.0 as int;
                        let k = c.credits as int;
                        assert(-0x8000_0000_0000_0000 * 0x10000 <= x * k <= 0x8000_0000_0000_0000 * 0x10000) by (nonlinear_arith)
                            requires -0x8000_0000_0000_0000 <= x < 0x8000_0000_0000_0000, 0 <= k < 0x10000;
                    }
                    self.weighted = self.weighted + (g.0 as i128) * (c.credits as i128);
                    self.graded = self.graded + c.credits;
                }
            },
            None => {
                if c.completed {
                    self.points_only = self.points_only + c.credits;
                }
            },
        }
    }

    /// The average grade over the graded credits, exactly: the weighted sum
    /// over the graded credits; zero when nothing is graded.
    pub fn avg(&self) -> (a: Quotient)
        ensures
            self.graded > 0 ==> a.num == self.weighted && a.den == self.graded,
            self.graded == 0 ==> a.num == 0 && a.den == 1,
    {
        if self.graded > 0 {
            Quotient { num: self.weighted, den: self.graded }
        } else {
            Quotient { num: 0, den: 1 }
        }
    }

    /// The credits achieved: graded plus passed without a grade.
    pub fn total(&self) -> (t: u16)
        requires
            self.graded + self.points_only <= u16::MAX,
        ensures
            t == self.graded + self.points_only,
    {
        self.graded + self.points_only
    }
}

} // verus!
