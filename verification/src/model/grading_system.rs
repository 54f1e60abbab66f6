//! How grades are judged: which direction is better, and the pass mark.

use vstd::prelude::*;
use crate::decimal::Decimal;

verus! {

/// How grades are judged.
#[derive(Clone, Copy, Debug, PartialEq, Eq)]
pub struct GradingSystem {
    /// The credits the study program asks for.
    pub credit_goal: u16,
    /// Whether failed grades are left out of the average.
    pub ignore_failed: bool,
    /// Whether lower numbers are better grades.
    pub lower_is_better: bool,
    /// The worst grade that still passes.
    pub pass_mark: Decimal,
}

impl Default for GradingSystem {
    /// 180 credits, failed grades ignored, lower is better, pass mark 4.0.
    fn default() -> (s: Self)
        ensures
            s.credit_goal == 180,
            s.pass_mark.0 == 4000,
            s.ignore_failed,
            s.lower_is_better,
    {
        GradingSystem { credit_goal: 180, pass_mark: Decimal(4000), ignore_failed: true, lower_is_better: true }
    }
}

impl GradingSystem {
    /// Whether `a` is at least as good as `b`.
    pub open spec fn spec_better(self, a: Decimal, b: Decimal) -> bool {
        if self.lower_is_better {
            a.0 <= b.0
        } else {
            a.0 >= b.0
        }
    }

    /// Whether `g` passes: it is at least as good as the pass mark.
    pub open spec fn spec_is_pass(self, g: Decimal) -> bool {
        if self.lower_is_better {
            g.0 <= self.pass_mark.0
        } else {
            g.0 >= self.pass_mark.0
        }
    }

    /// Whether `g` passes.
    pub fn is_pass(&self, g: Decimal) -> (b: bool)
        ensures
            b == self.spec_is_pass(g),
    {
        if self.lower_is_better {
            g.0 <= self.pass_mark.0
        } else {
            g.0 >= self.pass_mark.0
        }
    }

    /// Whether `a` is at least as good as `b`.
    pub fn better(&self, a: Decimal, b: Decimal) -> (r: bool)
        ensures
            r == self.spec_better(a, b),
    {
        if self.lower_is_better {
            a.0 <= b.0
        } else {
            a.0 >= b.0
        }
    }
}

/// A grade passes exactly when it is at least as good as the pass mark.
pub proof fn law_pass_is_better_than_mark(sys: GradingSystem, g: Decimal)
    ensures
        sys.spec_is_pass(g) == sys.spec_better(g, sys.pass_mark),
{
}

/// "At least as good as" is a total preorder: reflexive, total and transitive.
pub proof fn law_better_total_preorder(sys: GradingSystem, a: Decimal, b: Decimal, c: Decimal)
    ensures
        sys.spec_better(a, a),
        sys.spec_better(a, b) || sys.spec_better(b, a),
        sys.spec_better(a, b) && sys.spec_better(b, c) ==> sys.spec_better(a, c),
{
}

/// Flipping the direction turns "at least as good" around, except on ties.
pub proof fn law_better_flips_with_direction(sys: GradingSystem, a: Decimal, b: Decimal)
    ensures
        a.0 != b.0 ==> (sys.spec_better(a, b) != GradingSystem { lower_is_better: !sys.lower_is_better, ..sys }.spec_better(a, b)),
{
}

} // verus!
