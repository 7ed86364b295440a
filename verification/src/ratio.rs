//! Exact rational configuration values: probabilities kept in the unit
//! interval by construction, and free non-negative ratios.

use vstd::prelude::*;

verus! {

/// A probability expressed as the exact rational `numerator / denominator`,
/// kept in `[0, 1]` by construction.  Probability-like configuration values
/// are clamped silently at construction and never fail mid-run.
#[derive(Clone, Copy, PartialEq, Eq, Structural)]
pub struct Probability {
    pub numerator: u32,
    pub denominator: u32,
}

impl Probability {
    pub open spec fn well_formed(&self) -> bool {
        &&& self.denominator > 0
        &&& self.numerator <= self.denominator
    }

    /// The probability that is certain (every draw succeeds).
    pub open spec fn is_always(&self) -> bool {
        self.numerator == self.denominator
    }

    /// The probability that is impossible (no draw succeeds).
    pub open spec fn is_never(&self) -> bool {
        self.numerator == 0
    }

    /// Build `numerator / denominator`, clamping into `[0, 1]`: a numerator
    /// above the denominator is lowered to it, and a zero denominator is
    /// read as "out of one".
    pub fn new(numerator: u32, denominator: u32) -> (r: Probability)
        ensures
            r.well_formed(),
            denominator > 0 && numerator <= denominator ==> r == (Probability {
                numerator,
                denominator,
            }),
            denominator > 0 && numerator > denominator ==> r == (Probability {
                numerator: denominator,
                denominator,
            }),
            denominator == 0 ==> r.denominator == 1 && (r.is_always() <==> numerator > 0),
    {
        if denominator == 0 {
            if numerator > 0 {
                Probability { numerator: 1, denominator: 1 }
            } else {
                Probability { numerator: 0, denominator: 1 }
            }
        } else if numerator > denominator {
            Probability { numerator: denominator, denominator }
        } else {
            Probability { numerator, denominator }
        }
    }

    /// The certain probability, `1`.
    pub fn always() -> (r: Probability)
        ensures
            r.well_formed(),
            r.is_always(),
            !r.is_never(),
    {
        Probability { numerator: 1, denominator: 1 }
    }

    /// The impossible probability, `0`.
    pub fn never() -> (r: Probability)
        ensures
            r.well_formed(),
            r.is_never(),
            !r.is_always(),
    {
        Probability { numerator: 0, denominator: 1 }
    }
}

/// A non-negative rational `numerator / denominator`, used for blend weights
/// that may exceed one (such as the extension factor of blend crossover).
#[derive(Clone, Copy, PartialEq, Eq, Structural)]
pub struct Ratio {
    pub numerator: u32,
    pub denominator: u32,
}

impl Ratio {
    pub open spec fn well_formed(&self) -> bool {
        self.denominator > 0
    }

    /// Build `numerator / denominator`; a zero denominator is read as
    /// "out of one".
    pub fn new(numerator: u32, denominator: u32) -> (r: Ratio)
        ensures
            r.well_formed(),
            denominator > 0 ==> r == (Ratio { numerator, denominator }),
            denominator == 0 ==> r == (Ratio { numerator, denominator: 1u32 }),
    {
        if denominator == 0 {
            Ratio { numerator, denominator: 1 }
        } else {
            Ratio { numerator, denominator }
        }
    }
}

} // verus!
