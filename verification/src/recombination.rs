//! Recombination strategies: fixed-arity operators that beget two children
//! from two parents, with exact blending arithmetic.

use vstd::prelude::*;

pub mod integer;

use crate::parameter::{BoundedValue, BoundedVector, SelfAdaptiveGaussianVector};
use crate::ratio::{Probability, Ratio};
use crate::rng::{rand_coin, rand_i128_between, rand_index};
use crate::spec_clamp;

verus! {

/// A pluggable fixed-arity recombination operator: two parents beget two
/// children.  Each implementor fixes what it asks of the parents
/// (`recombination_pre`) and what it promises of the children
/// (`recombination_post`).
pub trait Recombinator<T> {
    /// What the operator asks of the two parents.
    spec fn recombination_pre(&self, parent_1: T, parent_2: T) -> bool;

    /// How the two children relate to the two parents.
    spec fn recombination_post(&self, parent_1: T, parent_2: T, child_1: T, child_2: T) -> bool;

    /// Produce two children from two parents, deterministically given the
    /// random stream drawn from `rng`.
    fn recombine(&self, rng: &mut rand::rngs::StdRng, parent_1: &T, parent_2: &T) -> (children: (
        T,
        T,
    ))
        requires
            self.recombination_pre(*parent_1, *parent_2),
        ensures
            self.recombination_post(*parent_1, *parent_2, children.0, children.1),
    ;
}

/// The weighted average of `first` and `second` over a common lower bound:
/// `numerator / denominator` of the weight goes to `second`, the rest to
/// `first`, with the division rounding down.
pub open spec fn spec_blend(
    first: int,
    second: int,
    numerator: int,
    denominator: int,
    min_value: int,
) -> int {
    min_value + (numerator * (second - min_value) + (denominator - numerator) * (first
        - min_value)) / denominator
}

/// The weighted average of two in-bounds values stays in bounds.
fn blend(
    first: i64,
    second: i64,
    numerator: u32,
    denominator: u32,
    min_value: i64,
    max_value: i64,
) -> (r: i64)
    requires
        denominator > 0,
        numerator <= denominator,
        min_value <= first <= max_value,
        min_value <= second <= max_value,
    ensures
        r == spec_blend(
            first as int,
            second as int,
            numerator as int,
            denominator as int,
            min_value as int,
        ),
        min_value <= r <= max_value,
{
    let span = (max_value as i128 - min_value as i128) as u128;
    let shifted_first = (first as i128 - min_value as i128) as u128;
    let shifted_second = (second as i128 - min_value as i128) as u128;
    proof {
        assert((numerator as int) * (shifted_second as int) + ((denominator - numerator) as int) * (
        shifted_first as int) <= (denominator as int) * (span as int) && (denominator as int) * (
        span as int) < 0x100000000000000000000000000000000int && 0 <= (numerator as int) * (
        shifted_second as int)) by (nonlinear_arith)
            requires
                0 <= shifted_first <= span,
                0 <= shifted_second <= span,
                0 <= numerator <= denominator,
                span <= 0xffffffffffffffffffu128,
                denominator <= 0xffffffffu32,
        ;
    }
    let weighted = (numerator as u128) * shifted_second + ((denominator - numerator) as u128)
        * shifted_first;
    let quotient = weighted / (denominator as u128);
    proof {
        vstd::arithmetic::div_mod::lemma_div_is_ordered(
            weighted as int,
            (denominator as int) * (span as int),
            denominator as int,
        );
        vstd::arithmetic::div_mod::lemma_div_multiples_vanish(span as int, denominator as int);
        vstd::arithmetic::div_mod::lemma_div_pos_is_pos(weighted as int, denominator as int);
    }
    (min_value as i128 + quotient as i128) as i64
}

/// Per allele, each child takes its value from either parent with equal
/// probability (one fair coin per child per allele).
pub struct Discrete;

impl Recombinator<BoundedVector> for Discrete {
    open spec fn recombination_pre(&self, parent_1: BoundedVector, parent_2: BoundedVector) -> bool {
        &&& parent_1.well_formed()
        &&& parent_2.well_formed()
        &&& parent_1.same_bounds(&parent_2)
    }

    open spec fn recombination_post(
        &self,
        parent_1: BoundedVector,
        parent_2: BoundedVector,
        child_1: BoundedVector,
        child_2: BoundedVector,
    ) -> bool {
        let shorter = if parent_1.value@.len() <= parent_2.value@.len() {
            parent_1.value@.len() as int
        } else {
            parent_2.value@.len() as int
        };
        &&& child_1.same_bounds(&parent_1) && child_1.value@.len() == parent_1.value@.len()
        &&& child_2.same_bounds(&parent_2) && child_2.value@.len() == parent_2.value@.len()
        &&& forall|i: int|
            0 <= i < shorter ==> #[trigger] child_1.value@[i] == parent_1.value@[i]
                || child_1.value@[i] == parent_2.value@[i]
        &&& forall|i: int|
            0 <= i < shorter ==> #[trigger] child_2.value@[i] == parent_1.value@[i]
                || child_2.value@[i] == parent_2.value@[i]
        &&& forall|i: int|
            shorter <= i < parent_1.value@.len() ==> #[trigger] child_1.value@[i]
                == parent_1.value@[i]
        &&& forall|i: int|
            shorter <= i < parent_2.value@.len() ==> #[trigger] child_2.value@[i]
                == parent_2.value@[i]
        &&& child_1.well_formed()
        &&& child_2.well_formed()
    }

    fn recombine(
        &self,
        rng: &mut rand::rngs::StdRng,
        parent_1: &BoundedVector,
        parent_2: &BoundedVector,
    ) -> (children: (BoundedVector, BoundedVector)) {
        let len_1 = parent_1.value.len();
        let len_2 = parent_2.value.len();
        let shorter = if len_1 <= len_2 {
            len_1
        } else {
            len_2
        };
        let mut value_1: Vec<i64> = Vec::new();
        let mut value_2: Vec<i64> = Vec::new();
        let mut i: usize = 0;
        while i < shorter
            invariant
                i <= shorter,
                shorter <= parent_1.value@.len(),
                shorter <= parent_2.value@.len(),
                value_1@.len() == i,
                value_2@.len() == i,
                forall|k: int|
                    0 <= k < i ==> #[trigger] value_1@[k] == parent_1.value@[k] || value_1@[k]
                        == parent_2.value@[k],
                forall|k: int|
                    0 <= k < i ==> #[trigger] value_2@[k] == parent_1.value@[k] || value_2@[k]
                        == parent_2.value@[k],
            decreases shorter - i,
        {
            if rand_coin(rng, 1, 2) {
                value_1.push(parent_2.value[i]);
            } else {
                value_1.push(parent_1.value[i]);
            }
            if rand_coin(rng, 1, 2) {
                value_2.push(parent_2.value[i]);
            } else {
                value_2.push(parent_1.value[i]);
            }
            i = i + 1;
        }
        let mut j: usize = shorter;
        while j < len_1
            invariant
                shorter <= j <= len_1,
                len_1 == parent_1.value@.len(),
                value_1@.len() == j,
                forall|k: int|
                    0 <= k < shorter ==> #[trigger] value_1@[k] == parent_1.value@[k] || value_1@[k]
                        == parent_2.value@[k],
                forall|k: int| shorter <= k < j ==> #[trigger] value_1@[k] == parent_1.value@[k],
            decreases len_1 - j,
        {
            value_1.push(parent_1.value[j]);
            j = j + 1;
        }
        let mut j: usize = shorter;
        while j < len_2
            invariant
                shorter <= j <= len_2,
                len_2 == parent_2.value@.len(),
                value_2@.len() == j,
                forall|k: int|
                    0 <= k < shorter ==> #[trigger] value_2@[k] == parent_1.value@[k] || value_2@[k]
                        == parent_2.value@[k],
                forall|k: int| shorter <= k < j ==> #[trigger] value_2@[k] == parent_2.value@[k],
            decreases len_2 - j,
        {
            value_2.push(parent_2.value[j]);
            j = j + 1;
        }
        let child_1 = BoundedVector {
            min_value: parent_1.min_value,
            max_value: parent_1.max_value,
            value: value_1,
        };
        let child_2 = BoundedVector {
            min_value: parent_2.min_value,
            max_value: parent_2.max_value,
            value: value_2,
        };
        (child_1, child_2)
    }
}

/// Blend one uniformly chosen allele between the parents with weight
/// `alpha`; all other alleles are copied unchanged.
pub struct SingleArithmetic {
    pub alpha: Probability,
}

impl SingleArithmetic {
    pub fn new(alpha: Probability) -> (r: SingleArithmetic)
        ensures
            r.alpha == alpha,
    {
        SingleArithmetic { alpha }
    }
}

impl Recombinator<BoundedVector> for SingleArithmetic {
    open spec fn recombination_pre(&self, parent_1: BoundedVector, parent_2: BoundedVector) -> bool {
        &&& parent_1.well_formed()
        &&& parent_2.well_formed()
        &&& parent_1.same_bounds(&parent_2)
        &&& self.alpha.well_formed()
        &&& parent_1.value@.len() > 0
        &&& parent_2.value@.len() > 0
    }

    open spec fn recombination_post(
        &self,
        parent_1: BoundedVector,
        parent_2: BoundedVector,
        child_1: BoundedVector,
        child_2: BoundedVector,
    ) -> bool {
        let shorter = if parent_1.value@.len() <= parent_2.value@.len() {
            parent_1.value@.len() as int
        } else {
            parent_2.value@.len() as int
        };
        &&& child_1.same_bounds(&parent_1) && child_2.same_bounds(&parent_2)
        &&& exists|allele: int|
            #![trigger parent_1.value@[allele]]
            0 <= allele < shorter && child_1.value@ == parent_1.value@.update(
                allele,
                spec_blend(
                    parent_1.value@[allele] as int,
                    parent_2.value@[allele] as int,
                    self.alpha.numerator as int,
                    self.alpha.denominator as int,
                    parent_1.min_value as int,
                ) as i64,
            ) && child_2.value@ == parent_2.value@.update(
                allele,
                spec_blend(
                    parent_2.value@[allele] as int,
                    parent_1.value@[allele] as int,
                    self.alpha.numerator as int,
                    self.alpha.denominator as int,
                    parent_1.min_value as int,
                ) as i64,
            )
        &&& child_1.well_formed()
        &&& child_2.well_formed()
    }

    fn recombine(
        &self,
        rng: &mut rand::rngs::StdRng,
        parent_1: &BoundedVector,
        parent_2: &BoundedVector,
    ) -> (children: (BoundedVector, BoundedVector)) {
        let len_1 = parent_1.value.len();
        let len_2 = parent_2.value.len();
        let shorter = if len_1 <= len_2 {
            len_1
        } else {
            len_2
        };
        let allele = rand_index(rng, shorter);
        let mut child_1 = parent_1.duplicate();
        let mut child_2 = parent_2.duplicate();
        let cross_1 = blend(
            parent_1.value[allele],
            parent_2.value[allele],
            self.alpha.numerator,
            self.alpha.denominator,
            parent_1.min_value,
            parent_1.max_value,
        );
        let cross_2 = blend(
            parent_2.value[allele],
            parent_1.value[allele],
            self.alpha.numerator,
            self.alpha.denominator,
            parent_1.min_value,
            parent_1.max_value,
        );
        child_1.value[allele] = cross_1;
        child_2.value[allele] = cross_2;
        proof {
            assert(child_1.value@ =~= parent_1.value@.update(allele as int, cross_1));
            assert(child_2.value@ =~= parent_2.value@.update(allele as int, cross_2));
            assert(cross_1 == spec_blend(
                parent_1.value@[allele as int] as int,
                parent_2.value@[allele as int] as int,
                self.alpha.numerator as int,
                self.alpha.denominator as int,
                parent_1.min_value as int,
            ) as i64);
            assert(cross_2 == spec_blend(
                parent_2.value@[allele as int] as int,
                parent_1.value@[allele as int] as int,
                self.alpha.numerator as int,
                self.alpha.denominator as int,
                parent_1.min_value as int,
            ) as i64);
            assert(child_1.well_formed());
            assert(child_2.well_formed());
            let s = if parent_1.value@.len() <= parent_2.value@.len() {
                parent_1.value@.len() as int
            } else {
                parent_2.value@.len() as int
            };
            assert(0 <= allele < s);
            assert(exists|a: int|
                #![trigger parent_1.value@[a]]
                0 <= a < s && child_1.value@ == parent_1.value@.update(
                    a,
                    spec_blend(
                        parent_1.value@[a] as int,
                        parent_2.value@[a] as int,
                        self.alpha.numerator as int,
                        self.alpha.denominator as int,
                        parent_1.min_value as int,
                    ) as i64,
                ) && child_2.value@ == parent_2.value@.update(
                    a,
                    spec_blend(
                        parent_2.value@[a] as int,
                        parent_1.value@[a] as int,
                        self.alpha.numerator as int,
                        self.alpha.denominator as int,
                        parent_1.min_value as int,
                    ) as i64,
                )) by {
                assert(parent_1.value@[allele as int] == parent_1.value@[allele as int]);
            }
        }
        (child_1, child_2)
    }
}

/// Copy each parent's prefix below `cross_point` unchanged; blend every
/// shared allele from the cross point on with weight `alpha`.
pub struct SimpleArithmetic {
    pub alpha: Probability,
    pub cross_point: usize,
}

impl SimpleArithmetic {
    pub fn new(alpha: Probability, cross_point: usize) -> (r: SimpleArithmetic)
        ensures
            r.alpha == alpha,
            r.cross_point == cross_point,
    {
        SimpleArithmetic { alpha, cross_point }
    }

    /// What this operator leaves in the two children, allele by allele.
    pub open spec fn children_match(
        &self,
        parent_1: BoundedVector,
        parent_2: BoundedVector,
        child_1: BoundedVector,
        child_2: BoundedVector,
    ) -> bool {
        let shorter = if parent_1.value@.len() <= parent_2.value@.len() {
            parent_1.value@.len() as int
        } else {
            parent_2.value@.len() as int
        };
        &&& child_1.same_bounds(&parent_1) && child_1.value@.len() == parent_1.value@.len()
        &&& child_2.same_bounds(&parent_2) && child_2.value@.len() == parent_2.value@.len()
        &&& forall|i: int|
            0 <= i < parent_1.value@.len() && (i < self.cross_point || i >= shorter)
                ==> #[trigger] child_1.value@[i] == parent_1.value@[i]
        &&& forall|i: int|
            0 <= i < parent_2.value@.len() && (i < self.cross_point || i >= shorter)
                ==> #[trigger] child_2.value@[i] == parent_2.value@[i]
        &&& forall|i: int|
            self.cross_point <= i < shorter ==> #[trigger] child_1.value@[i] == spec_blend(
                parent_1.value@[i] as int,
                parent_2.value@[i] as int,
                self.alpha.numerator as int,
                self.alpha.denominator as int,
                parent_1.min_value as int,
            )
        &&& forall|i: int|
            self.cross_point <= i < shorter ==> #[trigger] child_2.value@[i] == spec_blend(
                parent_2.value@[i] as int,
                parent_1.value@[i] as int,
                self.alpha.numerator as int,
                self.alpha.denominator as int,
                parent_1.min_value as int,
            )
        &&& child_1.well_formed()
        &&& child_2.well_formed()
    }
}

impl Recombinator<BoundedVector> for SimpleArithmetic {
    open spec fn recombination_pre(&self, parent_1: BoundedVector, parent_2: BoundedVector) -> bool {
        &&& parent_1.well_formed()
        &&& parent_2.well_formed()
        &&& parent_1.same_bounds(&parent_2)
        &&& self.alpha.well_formed()
    }

    open spec fn recombination_post(
        &self,
        parent_1: BoundedVector,
        parent_2: BoundedVector,
        child_1: BoundedVector,
        child_2: BoundedVector,
    ) -> bool {
        self.children_match(parent_1, parent_2, child_1, child_2)
    }

    fn recombine(
        &self,
        rng: &mut rand::rngs::StdRng,
        parent_1: &BoundedVector,
        parent_2: &BoundedVector,
    ) -> (children: (BoundedVector, BoundedVector)) {
        let len_1 = parent_1.value.len();
        let len_2 = parent_2.value.len();
        let shorter = if len_1 <= len_2 {
            len_1
        } else {
            len_2
        };
        let mut child_1 = parent_1.duplicate();
        let mut child_2 = parent_2.duplicate();
        let mut i: usize = self.cross_point;
        while i < shorter
            invariant
                self.cross_point <= i,
                i <= shorter || i == self.cross_point,
                shorter <= parent_1.value@.len(),
                shorter <= parent_2.value@.len(),
                parent_1.well_formed(),
                parent_2.well_formed(),
                parent_1.same_bounds(&parent_2),
                self.alpha.well_formed(),
                child_1.min_value == parent_1.min_value,
                child_1.max_value == parent_1.max_value,
                child_2.min_value == parent_2.min_value,
                child_2.max_value == parent_2.max_value,
                child_1.value@.len() == parent_1.value@.len(),
                child_2.value@.len() == parent_2.value@.len(),
                forall|k: int|
                    0 <= k < parent_1.value@.len() && !(self.cross_point <= k < i)
                        ==> #[trigger] child_1.value@[k] == parent_1.value@[k],
                forall|k: int|
                    0 <= k < parent_2.value@.len() && !(self.cross_point <= k < i)
                        ==> #[trigger] child_2.value@[k] == parent_2.value@[k],
                forall|k: int|
                    self.cross_point <= k < i ==> #[trigger] child_1.value@[k] == spec_blend(
                        parent_1.value@[k] as int,
                        parent_2.value@[k] as int,
                        self.alpha.numerator as int,
                        self.alpha.denominator as int,
                        parent_1.min_value as int,
                    ),
                forall|k: int|
                    self.cross_point <= k < i ==> #[trigger] child_2.value@[k] == spec_blend(
                        parent_2.value@[k] as int,
                        parent_1.value@[k] as int,
                        self.alpha.numerator as int,
                        self.alpha.denominator as int,
                        parent_1.min_value as int,
                    ),
                forall|k: int|
                    self.cross_point <= k < i ==> parent_1.min_value
                        <= #[trigger] child_1.value@[k] <= parent_1.max_value,
                forall|k: int|
                    self.cross_point <= k < i ==> parent_2.min_value
                        <= #[trigger] child_2.value@[k] <= parent_2.max_value,
            decreases shorter - i,
        {
            let value_1 = parent_1.value[i];
            let value_2 = parent_2.value[i];
            let blended_1 = blend(
                value_1,
                value_2,
                self.alpha.numerator,
                self.alpha.denominator,
                parent_1.min_value,
                parent_1.max_value,
            );
            let blended_2 = blend(
                value_2,
                value_1,
                self.alpha.numerator,
                self.alpha.denominator,
                parent_1.min_value,
                parent_1.max_value,
            );
            let ghost before_1 = child_1.value@;
            let ghost before_2 = child_2.value@;
            child_1.value[i] = blended_1;
            child_2.value[i] = blended_2;
            proof {
                assert(child_1.value@ =~= before_1.update(i as int, blended_1));
                assert(child_2.value@ =~= before_2.update(i as int, blended_2));
            }
            i = i + 1;
        }
        proof {
            assert(child_1.well_formed());
            assert(child_2.well_formed());
        }
        (child_1, child_2)
    }
}

/// Blend every allele with weight `alpha`: arithmetic recombination with a
/// cross point of zero.
pub struct WholeArithmetic {
    pub alpha: Probability,
}

impl WholeArithmetic {
    pub fn new(alpha: Probability) -> (r: WholeArithmetic)
        ensures
            r.alpha == alpha,
    {
        WholeArithmetic { alpha }
    }
}

impl Recombinator<BoundedVector> for WholeArithmetic {
    open spec fn recombination_pre(&self, parent_1: BoundedVector, parent_2: BoundedVector) -> bool {
        &&& parent_1.well_formed()
        &&& parent_2.well_formed()
        &&& parent_1.same_bounds(&parent_2)
        &&& self.alpha.well_formed()
    }

    open spec fn recombination_post(
        &self,
        parent_1: BoundedVector,
        parent_2: BoundedVector,
        child_1: BoundedVector,
        child_2: BoundedVector,
    ) -> bool {
        (SimpleArithmetic { alpha: self.alpha, cross_point: 0 }).children_match(
            parent_1,
            parent_2,
            child_1,
            child_2,
        )
    }

    fn recombine(
        &self,
        rng: &mut rand::rngs::StdRng,
        parent_1: &BoundedVector,
        parent_2: &BoundedVector,
    ) -> (children: (BoundedVector, BoundedVector)) {
        SimpleArithmetic::new(self.alpha, 0).recombine(rng, parent_1, parent_2)
    }
}

impl Recombinator<BoundedValue> for WholeArithmetic {
    open spec fn recombination_pre(&self, parent_1: BoundedValue, parent_2: BoundedValue) -> bool {
        &&& parent_1.well_formed()
        &&& parent_2.well_formed()
        &&& parent_1.same_bounds(&parent_2)
        &&& self.alpha.well_formed()
    }

    open spec fn recombination_post(
        &self,
        parent_1: BoundedValue,
        parent_2: BoundedValue,
        child_1: BoundedValue,
        child_2: BoundedValue,
    ) -> bool {
        &&& child_1.same_bounds(&parent_1) && child_2.same_bounds(&parent_2)
        &&& child_1.value == spec_blend(
            parent_2.value as int,
            parent_1.value as int,
            self.alpha.numerator as int,
            self.alpha.denominator as int,
            parent_1.min_value as int,
        )
        &&& child_2.value == spec_blend(
            parent_1.value as int,
            parent_2.value as int,
            self.alpha.numerator as int,
            self.alpha.denominator as int,
            parent_1.min_value as int,
        )
        &&& child_1.well_formed()
        &&& child_2.well_formed()
    }

    fn recombine(
        &self,
        rng: &mut rand::rngs::StdRng,
        parent_1: &BoundedValue,
        parent_2: &BoundedValue,
    ) -> (children: (BoundedValue, BoundedValue)) {
        let value_1 = blend(
            parent_2.value,
            parent_1.value,
            self.alpha.numerator,
            self.alpha.denominator,
            parent_1.min_value,
            parent_1.max_value,
        );
        let value_2 = blend(
            parent_1.value,
            parent_2.value,
            self.alpha.numerator,
            self.alpha.denominator,
            parent_1.min_value,
            parent_1.max_value,
        );
        let child_1 = BoundedValue {
            min_value: parent_1.min_value,
            max_value: parent_1.max_value,
            value: value_1,
        };
        let child_2 = BoundedValue {
            min_value: parent_2.min_value,
            max_value: parent_2.max_value,
            value: value_2,
        };
        (child_1, child_2)
    }
}

/// The lower edge of the blend-crossover sampling interval for one allele:
/// the smaller value, extended downward by `alpha` times the distance.
pub open spec fn spec_blx_low(first: int, second: int, numerator: int, denominator: int) -> int {
    let low = if first <= second {
        first
    } else {
        second
    };
    let distance = if first <= second {
        second - first
    } else {
        first - second
    };
    low - (numerator * distance) / denominator
}

/// The upper edge of the blend-crossover sampling interval for one allele.
pub open spec fn spec_blx_high(first: int, second: int, numerator: int, denominator: int) -> int {
    let high = if first <= second {
        second
    } else {
        first
    };
    let distance = if first <= second {
        second - first
    } else {
        first - second
    };
    high + (numerator * distance) / denominator
}

/// `result` is some value of the extended interval, clamped into
/// `[min_value, max_value]`.
pub open spec fn blx_result(
    first: int,
    second: int,
    numerator: int,
    denominator: int,
    min_value: int,
    max_value: int,
    result: int,
) -> bool {
    exists|draw: int|
        #![auto]
        spec_blx_low(first, second, numerator, denominator) <= draw <= spec_blx_high(
            first,
            second,
            numerator,
            denominator,
        ) && result == crate::spec_clamp(draw, min_value, max_value)
}

/// Per allele, draw each child's value uniformly from the interval spanned
/// by the parents and extended by `alpha` times their distance on each side,
/// then clamp into the genotype bounds.
pub struct BlendCrossover {
    pub alpha: Ratio,
}

impl BlendCrossover {
    pub fn new(alpha: Ratio) -> (r: BlendCrossover)
        ensures
            r.alpha == alpha,
    {
        BlendCrossover { alpha }
    }
}

impl Recombinator<BoundedVector> for BlendCrossover {
    open spec fn recombination_pre(&self, parent_1: BoundedVector, parent_2: BoundedVector) -> bool {
        &&& parent_1.well_formed()
        &&& parent_2.well_formed()
        &&& parent_1.same_bounds(&parent_2)
        &&& self.alpha.well_formed()
        &&& parent_1.value@.len() == parent_2.value@.len()
    }

    open spec fn recombination_post(
        &self,
        parent_1: BoundedVector,
        parent_2: BoundedVector,
        child_1: BoundedVector,
        child_2: BoundedVector,
    ) -> bool {
        &&& child_1.same_bounds(&parent_1) && child_1.value@.len() == parent_1.value@.len()
        &&& child_2.same_bounds(&parent_2) && child_2.value@.len() == parent_2.value@.len()
        &&& forall|i: int|
            #![auto]
            0 <= i < parent_1.value@.len() ==> blx_result(
                parent_1.value@[i] as int,
                parent_2.value@[i] as int,
                self.alpha.numerator as int,
                self.alpha.denominator as int,
                parent_1.min_value as int,
                parent_1.max_value as int,
                child_1.value@[i] as int,
            )
        &&& forall|i: int|
            #![auto]
            0 <= i < parent_2.value@.len() ==> blx_result(
                parent_1.value@[i] as int,
                parent_2.value@[i] as int,
                self.alpha.numerator as int,
                self.alpha.denominator as int,
                parent_2.min_value as int,
                parent_2.max_value as int,
                child_2.value@[i] as int,
            )
        &&& child_1.well_formed()
        &&& child_2.well_formed()
    }

    fn recombine(
        &self,
        rng: &mut rand::rngs::StdRng,
        parent_1: &BoundedVector,
        parent_2: &BoundedVector,
    ) -> (children: (BoundedVector, BoundedVector)) {
        let length = parent_1.value.len();
        let mut value_1: Vec<i64> = Vec::new();
        let mut value_2: Vec<i64> = Vec::new();
        let mut i: usize = 0;
        while i < length
            invariant
                i <= length,
                length == parent_1.value@.len(),
                length == parent_2.value@.len(),
                parent_1.well_formed(),
                parent_2.well_formed(),
                parent_1.same_bounds(&parent_2),
                self.alpha.well_formed(),
                value_1@.len() == i,
                value_2@.len() == i,
                forall|k: int|
                    #![auto]
                    0 <= k < i ==> blx_result(
                        parent_1.value@[k] as int,
                        parent_2.value@[k] as int,
                        self.alpha.numerator as int,
                        self.alpha.denominator as int,
                        parent_1.min_value as int,
                        parent_1.max_value as int,
                        value_1@[k] as int,
                    ),
                forall|k: int|
                    #![auto]
                    0 <= k < i ==> blx_result(
                        parent_1.value@[k] as int,
                        parent_2.value@[k] as int,
                        self.alpha.numerator as int,
                        self.alpha.denominator as int,
                        parent_2.min_value as int,
                        parent_2.max_value as int,
                        value_2@[k] as int,
                    ),
                forall|k: int|
                    0 <= k < i ==> parent_1.min_value <= #[trigger] value_1@[k]
                        <= parent_1.max_value,
                forall|k: int|
                    0 <= k < i ==> parent_2.min_value <= #[trigger] value_2@[k]
                        <= parent_2.max_value,
            decreases length - i,
        {
            let first = parent_1.value[i];
            let second = parent_2.value[i];
            let (low_value, distance): (i64, u64) = if first <= second {
                (first, #[verifier::truncate] ((second as i128 - first as i128) as u64))
            } else {
                (second, #[verifier::truncate] ((first as i128 - second as i128) as u64))
            };
            let high_value: i64 = if first <= second {
                second
            } else {
                first
            };
            proof {
                assert((self.alpha.numerator as int) * (distance as int)
                    < 0x100000000000000000000000000000000int && 0 <= (self.alpha.numerator as int)
                    * (distance as int)) by (nonlinear_arith)
                    requires
                        0 <= distance <= 0xffffffffffffffffu64,
                        0 <= self.alpha.numerator <= 0xffffffffu32,
                ;
            }
            let extension_wide = (self.alpha.numerator as u128) * (distance as u128) / (
            self.alpha.denominator as u128);
            proof {
                vstd::arithmetic::div_mod::lemma_div_pos_is_pos(
                    (self.alpha.numerator as int) * (distance as int),
                    self.alpha.denominator as int,
                );
                vstd::arithmetic::div_mod::lemma_div_nonincreasing(
                    (self.alpha.numerator as int) * (distance as int),
                    self.alpha.denominator as int,
                );
                assert((self.alpha.numerator as int) * (distance as int)
                    <= 0xffffffffu32 * 0xffffffffffffffffu64) by (nonlinear_arith)
                    requires
                        0 <= distance <= 0xffffffffffffffffu64,
                        0 <= self.alpha.numerator <= 0xffffffffu32,
                ;
            }
            let extension = extension_wide as i128;
            let low = low_value as i128 - extension;
            let high = high_value as i128 + extension;
            let draw_1 = rand_i128_between(rng, low, high);
            let draw_2 = rand_i128_between(rng, low, high);
            let clamped_1: i64 = if draw_1 < parent_1.min_value as i128 {
                parent_1.min_value
            } else if draw_1 > parent_1.max_value as i128 {
                parent_1.max_value
            } else {
                draw_1 as i64
            };
            let clamped_2: i64 = if draw_2 < parent_2.min_value as i128 {
                parent_2.min_value
            } else if draw_2 > parent_2.max_value as i128 {
                parent_2.max_value
            } else {
                draw_2 as i64
            };
            proof {
                assert(clamped_1 == spec_clamp(
                    draw_1 as int,
                    parent_1.min_value as int,
                    parent_1.max_value as int,
                ));
                assert(clamped_2 == spec_clamp(
                    draw_2 as int,
                    parent_2.min_value as int,
                    parent_2.max_value as int,
                ));
                assert(blx_result(
                    parent_1.value@[i as int] as int,
                    parent_2.value@[i as int] as int,
                    self.alpha.numerator as int,
                    self.alpha.denominator as int,
                    parent_1.min_value as int,
                    parent_1.max_value as int,
                    clamped_1 as int,
                ));
                assert(blx_result(
                    parent_1.value@[i as int] as int,
                    parent_2.value@[i as int] as int,
                    self.alpha.numerator as int,
                    self.alpha.denominator as int,
                    parent_2.min_value as int,
                    parent_2.max_value as int,
                    clamped_2 as int,
                ));
            }
            value_1.push(clamped_1);
            value_2.push(clamped_2);
            i = i + 1;
        }
        let child_1 = BoundedVector {
            min_value: parent_1.min_value,
            max_value: parent_1.max_value,
            value: value_1,
        };
        let child_2 = BoundedVector {
            min_value: parent_2.min_value,
            max_value: parent_2.max_value,
            value: value_2,
        };
        (child_1, child_2)
    }
}

/// Recombine a self-adaptive Gaussian genotype by recombining its vector and
/// its strategy parameter with their own sub-recombinators and pairing the
/// results.
pub struct SelfAdaptiveGaussianVectorRecombinator<
    TR: Recombinator<BoundedVector>,
    SR: Recombinator<BoundedValue>,
> {
    pub value_recombinator: TR,
    pub strategy_parameter_recombinator: SR,
}

impl<
    TR: Recombinator<BoundedVector>,
    SR: Recombinator<BoundedValue>,
> Recombinator<SelfAdaptiveGaussianVector> for SelfAdaptiveGaussianVectorRecombinator<TR, SR> {
    open spec fn recombination_pre(
        &self,
        parent_1: SelfAdaptiveGaussianVector,
        parent_2: SelfAdaptiveGaussianVector,
    ) -> bool {
        &&& self.value_recombinator.recombination_pre(parent_1.value, parent_2.value)
        &&& self.strategy_parameter_recombinator.recombination_pre(
            parent_1.strategy_parameter,
            parent_2.strategy_parameter,
        )
    }

    open spec fn recombination_post(
        &self,
        parent_1: SelfAdaptiveGaussianVector,
        parent_2: SelfAdaptiveGaussianVector,
        child_1: SelfAdaptiveGaussianVector,
        child_2: SelfAdaptiveGaussianVector,
    ) -> bool {
        &&& self.value_recombinator.recombination_post(
            parent_1.value,
            parent_2.value,
            child_1.value,
            child_2.value,
        )
        &&& self.strategy_parameter_recombinator.recombination_post(
            parent_1.strategy_parameter,
            parent_2.strategy_parameter,
            child_1.strategy_parameter,
            child_2.strategy_parameter,
        )
    }

    fn recombine(
        &self,
        rng: &mut rand::rngs::StdRng,
        parent_1: &SelfAdaptiveGaussianVector,
        parent_2: &SelfAdaptiveGaussianVector,
    ) -> (children: (SelfAdaptiveGaussianVector, SelfAdaptiveGaussianVector)) {
        let (value_1, value_2) = self.value_recombinator.recombine(
            rng,
            &parent_1.value,
            &parent_2.value,
        );
        let (strategy_1, strategy_2) = self.strategy_parameter_recombinator.recombine(
            rng,
            &parent_1.strategy_parameter,
            &parent_2.strategy_parameter,
        );
        let child_1 = SelfAdaptiveGaussianVector { value: value_1, strategy_parameter: strategy_1 };
        let child_2 = SelfAdaptiveGaussianVector { value: value_2, strategy_parameter: strategy_2 };
        (child_1, child_2)
    }
}

} // verus!
