//! Genotype representations: bounded vectors and scalars, and the
//! self-adaptive pairing of a vector with a strategy parameter.

use vstd::prelude::*;

verus! {

/// Marker for genotype representations that operators can act on.
pub trait Parameter {}

/// A bounded numeric vector genotype: every element is meant to stay within
/// the inclusive range `[min_value, max_value]`; the operators clamp, the
/// type itself does not.
pub struct BoundedVector {
    pub min_value: i64,
    pub max_value: i64,
    pub value: Vec<i64>,
}

impl BoundedVector {
    /// The bounds are ordered and every element lies within them.
    pub open spec fn well_formed(&self) -> bool {
        &&& self.min_value <= self.max_value
        &&& forall|i: int|
            0 <= i < self.value@.len() ==> self.min_value <= #[trigger] self.value@[i]
                <= self.max_value
    }

    /// Both vectors share the same bounds.
    pub open spec fn same_bounds(&self, other: &BoundedVector) -> bool {
        &&& self.min_value == other.min_value
        &&& self.max_value == other.max_value
    }

    /// An element-for-element copy.
    pub fn duplicate(&self) -> (r: BoundedVector)
        ensures
            r.min_value == self.min_value,
            r.max_value == self.max_value,
            r.value@ == self.value@,
    {
        let mut value: Vec<i64> = Vec::new();
        let mut i: usize = 0;
        while i < self.value.len()
            invariant
                i <= self.value@.len(),
                value@ == self.value@.subrange(0, i as int),
            decreases self.value@.len() - i,
        {
            value.push(self.value[i]);
            i = i + 1;
        }
        assert(value@ =~= self.value@);
        BoundedVector { min_value: self.min_value, max_value: self.max_value, value }
    }
}

impl Parameter for BoundedVector {}

/// The scalar analogue of `BoundedVector`, used for self-adaptive strategy
/// parameters that co-evolve with the genotype.
#[derive(Clone, Copy, PartialEq, Eq, Structural)]
pub struct BoundedValue {
    pub min_value: i64,
    pub max_value: i64,
    pub value: i64,
}

impl BoundedValue {
    pub open spec fn well_formed(&self) -> bool {
        &&& self.min_value <= self.max_value
        &&& self.min_value <= self.value <= self.max_value
    }

    pub open spec fn same_bounds(&self, other: &BoundedValue) -> bool {
        &&& self.min_value == other.min_value
        &&& self.max_value == other.max_value
    }
}

impl Parameter for BoundedValue {}

/// Marker for strategy parameters usable by self-adaptive Gaussian schemes.
pub trait GaussianStrategyParameter {}

impl GaussianStrategyParameter for BoundedValue {}

/// A vector genotype paired with a scalar strategy parameter (for example a
/// mutation step size) that evolves alongside it.
pub struct SelfAdaptiveGaussianVector {
    pub value: BoundedVector,
    pub strategy_parameter: BoundedValue,
}

impl SelfAdaptiveGaussianVector {
    pub open spec fn well_formed(&self) -> bool {
        &&& self.value.well_formed()
        &&& self.strategy_parameter.well_formed()
    }
}

} // verus!
