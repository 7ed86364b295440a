//! Mutation strategies: pluggable unary operators on genotypes, each
//! promising that the result stays within its declared bounds.

use vstd::prelude::*;

pub mod integer;

use crate::parameter::{BoundedValue, BoundedVector};
use crate::ratio::Probability;
use crate::rng::{rand_coin, rand_i64_between};
use crate::spec_clamp;

verus! {

/// A pluggable unary operator on a genotype or individual.  Each implementor
/// fixes what it asks of its input (`mutation_pre`) and what it promises of
/// the value after the call (`mutation_post`); the bounded operators promise
/// there that the result stays within its declared bounds.
pub trait Mutator<T> {
    /// What the operator asks of the value it is given.
    spec fn mutation_pre(&self, parameter: T) -> bool;

    /// How the value after the call relates to the value before it.
    spec fn mutation_post(&self, pre: T, post: T) -> bool;

    /// Mutate `parameter` in place, deterministically given the random
    /// stream drawn from `rng`.
    fn mutate(&self, rng: &mut rand::rngs::StdRng, parameter: &mut T)
        requires
            self.mutation_pre(*old(parameter)),
        ensures
            self.mutation_post(*old(parameter), *final(parameter)),
    ;
}

/// Independently, per element, with the configured probability, resample the
/// element uniformly within the vector's bounds.
pub struct UniformMutator {
    pub probability: Probability,
}

impl UniformMutator {
    pub fn new(probability: Probability) -> (r: UniformMutator)
        ensures
            r.probability == probability,
    {
        UniformMutator { probability }
    }
}

impl Mutator<BoundedVector> for UniformMutator {
    open spec fn mutation_pre(&self, parameter: BoundedVector) -> bool {
        &&& parameter.well_formed()
        &&& self.probability.well_formed()
    }

    open spec fn mutation_post(&self, pre: BoundedVector, post: BoundedVector) -> bool {
        &&& post.same_bounds(&pre)
        &&& post.value@.len() == pre.value@.len()
        &&& post.well_formed()
        &&& forall|i: int|
            0 <= i < post.value@.len() ==> #[trigger] post.value@[i] == pre.value@[i]
                || pre.min_value <= post.value@[i] <= pre.max_value
        &&& self.probability.is_never() ==> post.value@ == pre.value@
    }

    fn mutate(&self, rng: &mut rand::rngs::StdRng, parameter: &mut BoundedVector) {
        let ghost pre = *parameter;
        let mut i: usize = 0;
        while i < parameter.value.len()
            invariant
                i <= parameter.value@.len(),
                parameter.min_value == pre.min_value,
                parameter.max_value == pre.max_value,
                parameter.value@.len() == pre.value@.len(),
                pre.well_formed(),
                self.probability.well_formed(),
                forall|k: int|
                    0 <= k < parameter.value@.len() ==> #[trigger] parameter.value@[k]
                        == pre.value@[k] || pre.min_value <= parameter.value@[k] <= pre.max_value,
                self.probability.is_never() ==> parameter.value@ == pre.value@,
                i as int <= parameter.value@.len(),
            decreases parameter.value@.len() - i,
        {
            if rand_coin(rng, self.probability.numerator, self.probability.denominator) {
                let drawn = rand_i64_between(rng, parameter.min_value, parameter.max_value);
                let ghost before = parameter.value@;
                parameter.value[i] = drawn;
                assert(parameter.value@ =~= before.update(i as int, drawn));
            }
            i = i + 1;
        }
        assert(parameter.well_formed());
    }
}

/// Per-element Gaussian perturbation.  The noise itself comes from a
/// floating-point normal source outside this crate; `add_noise_clamped`
/// below is the verified application of any such noise vector.
pub struct SimpleGaussian {
    /// Per-element step sizes, read by the caller that draws the noise.
    pub std: Vec<i64>,
}

impl SimpleGaussian {
    pub fn new(std: Vec<i64>) -> (r: SimpleGaussian)
        ensures
            r.std@ == std@,
    {
        SimpleGaussian { std }
    }
}

/// Add `noise[i]` to element `i` and clamp the sum back into the vector's
/// bounds.  This is the whole in-bounds guarantee of Gaussian mutation,
/// whatever noise was drawn.
pub fn add_noise_clamped(parameter: &mut BoundedVector, noise: &Vec<i64>)
    requires
        old(parameter).min_value <= old(parameter).max_value,
        noise@.len() == old(parameter).value@.len(),
    ensures
        final(parameter).same_bounds(old(parameter)),
        final(parameter).value@.len() == old(parameter).value@.len(),
        final(parameter).well_formed(),
        forall|i: int|
            0 <= i < noise@.len() ==> #[trigger] final(parameter).value@[i] == spec_clamp(
                old(parameter).value@[i] + noise@[i],
                old(parameter).min_value as int,
                old(parameter).max_value as int,
            ),
{
    let ghost pre = *parameter;
    let mut i: usize = 0;
    while i < parameter.value.len()
        invariant
            i <= parameter.value@.len(),
            parameter.min_value == pre.min_value,
            parameter.max_value == pre.max_value,
            parameter.value@.len() == pre.value@.len(),
            noise@.len() == pre.value@.len(),
            pre.min_value <= pre.max_value,
            forall|k: int|
                i <= k < parameter.value@.len() ==> #[trigger] parameter.value@[k]
                    == pre.value@[k],
            forall|k: int|
                0 <= k < i ==> #[trigger] parameter.value@[k] == spec_clamp(
                    pre.value@[k] + noise@[k],
                    pre.min_value as int,
                    pre.max_value as int,
                ),
        decreases parameter.value@.len() - i,
    {
        let shifted = parameter.value[i] as i128 + noise[i] as i128;
        let clamped: i64 = if shifted < parameter.min_value as i128 {
            parameter.min_value
        } else if shifted > parameter.max_value as i128 {
            parameter.max_value
        } else {
            shifted as i64
        };
        let ghost before = parameter.value@;
        parameter.value[i] = clamped;
        assert(parameter.value@ =~= before.update(i as int, clamped));
        i = i + 1;
    }
    assert(parameter.well_formed());
}

/// Truncating scale of `value` by the non-negative rational
/// `numerator / denominator` (rounding toward zero).
pub open spec fn spec_scale_trunc(value: int, numerator: int, denominator: int) -> int {
    if value >= 0 {
        (value * numerator) / denominator
    } else {
        -(((-value) * numerator) / denominator)
    }
}

/// Multiplicative self-adaptive step-size control.  The log-normal factor
/// itself comes from a floating-point normal source outside this crate;
/// `scale_clamped` below is the verified application of any such factor.
pub struct LogNormal {
    /// The deviation of the underlying normal draw, read by the caller that
    /// draws the factor.
    pub std: i64,
    /// A floor below which the mutated value is never allowed to fall.
    pub min_value: i64,
}

impl LogNormal {
    pub fn new(std: i64, min_value: i64) -> (r: LogNormal)
        ensures
            r.std == std,
            r.min_value == min_value,
    {
        LogNormal { std, min_value }
    }

    /// Multiply `parameter` by the non-negative rational factor
    /// `factor_numerator / factor_denominator`, then clamp into
    /// `[max(self.min_value, parameter.min_value), parameter.max_value]`.
    pub fn scale_clamped(
        &self,
        parameter: &mut BoundedValue,
        factor_numerator: u64,
        factor_denominator: u64,
    )
        requires
            old(parameter).well_formed(),
            factor_denominator > 0,
            self.min_value <= old(parameter).max_value,
        ensures
            final(parameter).same_bounds(old(parameter)),
            final(parameter).value == spec_clamp(
                spec_scale_trunc(
                    old(parameter).value as int,
                    factor_numerator as int,
                    factor_denominator as int,
                ),
                if self.min_value > old(parameter).min_value {
                    self.min_value as int
                } else {
                    old(parameter).min_value as int
                },
                old(parameter).max_value as int,
            ),
    {
        let lo: i64 = if self.min_value > parameter.min_value {
            self.min_value
        } else {
            parameter.min_value
        };
        let hi: i64 = parameter.max_value;
        let value = parameter.value;
        proof {
            assert((value as int) * (factor_numerator as int)
                < 0x80000000000000000000000000000000int && ((-(value as int)) * (
            factor_numerator as int)) < 0x80000000000000000000000000000000int) by (nonlinear_arith)
                requires
                    -0x8000000000000000int <= value <= 0x7fffffffffffffffint,
                    0 <= factor_numerator <= 0xffffffffffffffffint,
            ;
        }
        let scaled: i128 = if value >= 0 {
            let wide = (value as u128) * (factor_numerator as u128);
            let quotient = wide / (factor_denominator as u128);
            if quotient > i128::MAX as u128 {
                // Larger than any bound can be; clamping takes over below.
                i128::MAX
            } else {
                quotient as i128
            }
        } else {
            let magnitude = (-(value as i128)) as u128;
            let wide = magnitude * (factor_numerator as u128);
            let quotient = wide / (factor_denominator as u128);
            if quotient > i128::MAX as u128 {
                i128::MIN
            } else {
                -(quotient as i128)
            }
        };
        proof {
            lemma_scale_trunc_in_wide_range(
                value as int,
                factor_numerator as int,
                factor_denominator as int,
            );
        }
        let clamped: i64 = if scaled < lo as i128 {
            lo
        } else if scaled > hi as i128 {
            hi
        } else {
            scaled as i64
        };
        parameter.value = clamped;
    }
}

/// The truncating scale of a 64-bit value by a 64-bit rational stays inside
/// the 128-bit range, and its sign follows the sign of the value.
proof fn lemma_scale_trunc_in_wide_range(value: int, numerator: int, denominator: int)
    requires
        i64::MIN <= value <= i64::MAX,
        0 <= numerator <= u64::MAX,
        denominator > 0,
    ensures
        value >= 0 ==> spec_scale_trunc(value, numerator, denominator) >= 0,
        value < 0 ==> spec_scale_trunc(value, numerator, denominator) <= 0,
        value >= 0 ==> spec_scale_trunc(value, numerator, denominator) <= value * numerator,
        value < 0 ==> spec_scale_trunc(value, numerator, denominator) >= -((-value) * numerator),
{
    if value >= 0 {
        vstd::arithmetic::mul::lemma_mul_nonnegative(value, numerator);
        vstd::arithmetic::div_mod::lemma_div_pos_is_pos(value * numerator, denominator);
        vstd::arithmetic::div_mod::lemma_div_nonincreasing(value * numerator, denominator);
    } else {
        vstd::arithmetic::mul::lemma_mul_nonnegative(-value, numerator);
        vstd::arithmetic::div_mod::lemma_div_pos_is_pos((-value) * numerator, denominator);
        vstd::arithmetic::div_mod::lemma_div_nonincreasing((-value) * numerator, denominator);
    }
}

} // verus!
