//! When the iterative solver of a geodesic distance stops, and with what.
//!
//! The solver refines an estimate of the difference in longitude. Each
//! refinement reports what it found; the budget answers with what to do
//! next. The arithmetic of a refinement is the caller's.

use vstd::prelude::*;

verus! {

/// How many refinements one distance may take.
pub const REFINEMENT_LIMIT: u32 = 100;

/// What one refinement found.
#[derive(Clone, Copy, Debug, PartialEq, Eq, Structural)]
pub enum Refinement {
    /// The sine of the angular separation is exactly zero: the two points
    /// coincide, or lie in a degenerate position.
    Degenerate,
    /// The estimate moved by less than the tolerance.
    Settled,
    /// The estimate moved by the tolerance or more.
    Unsettled,
}

/// What the solver does next.
#[derive(Clone, Copy, Debug, PartialEq, Eq, Structural)]
pub enum Directive {
    /// Refine once more.
    Refine,
    /// Stop: the distance is zero.
    Zero,
    /// Stop: the distance is the series evaluated at the settled estimate.
    Evaluate,
}

/// The refinements that one distance may still take.
#[derive(Clone, Copy, Debug, PartialEq, Eq, Structural)]
pub struct Budget {
    pub remaining: u32,
}

/// The directive after a refinement made with `remaining` refinements
/// allowed, itself included. A degenerate position gives zero at once; a
/// settled estimate is evaluated if the refinement was within the budget;
/// an unsettled one is refined again while the budget lasts, and gives zero
/// when it is spent.
pub open spec fn directive_after(remaining: int, found: Refinement) -> Directive {
    match found {
        Refinement::Degenerate => Directive::Zero,
        Refinement::Settled => if remaining >= 1 {
            Directive::Evaluate
        } else {
            Directive::Zero
        },
        Refinement::Unsettled => if remaining >= 2 {
            Directive::Refine
        } else {
            Directive::Zero
        },
    }
}

/// What is left of a budget after one refinement.
pub open spec fn spent(remaining: int) -> int {
    if remaining >= 1 {
        remaining - 1
    } else {
        0
    }
}

/// The directive after the last of a run of refinements that began with
/// `remaining` allowed; `Refine` before the first.
pub open spec fn directive_after_all(remaining: int, found: Seq<Refinement>) -> Directive
    decreases found.len(),
{
    if found.len() == 0 {
        Directive::Refine
    } else {
        directive_after(remaining - (found.len() - 1), found.last())
    }
}

impl Budget {
    /// The full budget.
    pub fn new() -> (budget: Budget)
        ensures
            budget.remaining == REFINEMENT_LIMIT,
    {
        Budget { remaining: REFINEMENT_LIMIT }
    }

    /// Counts one refinement and says what to do next.
    pub fn advance(&mut self, found: Refinement) -> (directive: Directive)
        ensures
            directive == directive_after(old(self).remaining as int, found),
            final(self).remaining == spent(old(self).remaining as int),
            directive == Directive::Refine ==> final(self).remaining >= 1,
    {
        let remaining: u32 = self.remaining;
        if remaining >= 1 {
            self.remaining = remaining - 1;
        }
        match found {
            Refinement::Degenerate => Directive::Zero,
            Refinement::Settled => if remaining >= 1 {
                Directive::Evaluate
            } else {
                Directive::Zero
            },
            Refinement::Unsettled => if remaining >= 2 {
                Directive::Refine
            } else {
                Directive::Zero
            },
        }
    }
}

/// No distance takes more refinements than the limit: whatever a run of
/// that many refinements found, the directive after its last is not to
/// refine again.
pub proof fn lemma_refinements_are_bounded(found: Seq<Refinement>)
    requires
        found.len() >= REFINEMENT_LIMIT,
    ensures
        directive_after_all(REFINEMENT_LIMIT as int, found) != Directive::Refine,
{
}

/// A degenerate position gives a distance of zero, whatever the budget.
pub proof fn lemma_degenerate_is_zero(remaining: int)
    ensures
        directive_after(remaining, Refinement::Degenerate) == Directive::Zero,
{
}

} // verus!
