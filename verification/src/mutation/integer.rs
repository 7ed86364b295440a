//! Scalar mutation operators on the integer genotype: bit flips on the
//! two's-complement pattern, uniform resetting, and creep steps.

use vstd::prelude::*;

use crate::clamp_i64;
use crate::mutation::Mutator;
use crate::ratio::Probability;
use crate::rng::{rand_coin, rand_i64_between};
use crate::spec_clamp;

verus! {

/// The integer with the low sixty-four bits of `value`'s two's-complement
/// pattern XOR-ed with `mask`.
pub open spec fn spec_flip_bits(value: i64, mask: u64) -> i64 {
    ((value as u64) ^ mask) as i64
}

/// `mask` has no bit set at position `count` or above.
pub open spec fn low_bits_only(mask: u64, count: u32) -> bool {
    count < 64 ==> mask >> (count as u64) == 0
}

/// The mask with exactly the low `count` bits set.
pub open spec fn spec_low_mask(count: u32) -> u64 {
    if count >= 64 {
        !0u64
    } else {
        !(!0u64 << (count as u64))
    }
}

/// Flip each of the low `max_bit_count` bits of the value's two's-complement
/// pattern with the configured probability, then clamp the reinterpreted
/// result into `[min_value, max_value]`.
pub struct BitFlip {
    pub probability: Probability,
    pub max_bit_count: u32,
    pub min_value: i64,
    pub max_value: i64,
}

impl BitFlip {
    pub fn new(probability: Probability, max_bit_count: u32, min_value: i64, max_value: i64) -> (r:
        BitFlip)
        ensures
            r.probability == probability,
            r.max_bit_count == max_bit_count,
            r.min_value == min_value,
            r.max_value == max_value,
    {
        BitFlip { probability, max_bit_count, min_value, max_value }
    }
}

impl Mutator<i64> for BitFlip {
    open spec fn mutation_pre(&self, parameter: i64) -> bool {
        &&& self.min_value <= self.max_value
        &&& self.probability.well_formed()
    }

    open spec fn mutation_post(&self, pre: i64, post: i64) -> bool {
        &&& exists|mask: u64|
            #[trigger] low_bits_only(mask, self.max_bit_count) && post == spec_clamp(
                spec_flip_bits(pre, mask) as int,
                self.min_value as int,
                self.max_value as int,
            )
        &&& self.min_value <= post <= self.max_value
        &&& self.probability.is_never() ==> post == spec_clamp(
            pre as int,
            self.min_value as int,
            self.max_value as int,
        )
        &&& self.probability.is_always() ==> post == spec_clamp(
            spec_flip_bits(pre, spec_low_mask(self.max_bit_count)) as int,
            self.min_value as int,
            self.max_value as int,
        )
    }

    fn mutate(&self, rng: &mut rand::rngs::StdRng, parameter: &mut i64) {
        let limit: u32 = if self.max_bit_count < 64 {
            self.max_bit_count
        } else {
            64
        };
        let mut mask: u64 = 0;
        let mut i: u32 = 0;
        assert(0u64 >> 0u64 == 0u64) by (bit_vector);
        assert(!(!0u64 << 0u64) == 0u64) by (bit_vector);
        while i < limit
            invariant
                i <= limit,
                limit <= 64,
                self.probability.well_formed(),
                i < 64 ==> mask >> (i as u64) == 0,
                self.probability.is_never() ==> mask == 0,
                self.probability.is_always() ==> mask == spec_low_mask(i),
            decreases limit - i,
        {
            let coin = rand_coin(rng, self.probability.numerator, self.probability.denominator);
            let ghost m = mask;
            let ghost sh = i as u64;
            if coin {
                mask = mask | (1u64 << i);
                if i < 63 {
                    assert((m | (1u64 << sh)) >> ((sh + 1) as u64) == 0) by (bit_vector)
                        requires
                            m >> sh == 0,
                            sh < 63,
                    ;
                }
                proof {
                    if self.probability.is_always() {
                        if sh < 63 {
                            assert((!(!0u64 << sh)) | (1u64 << sh) == !(!0u64 << ((sh
                                + 1) as u64))) by (bit_vector)
                                requires
                                    sh < 63,
                            ;
                        } else {
                            assert((!(!0u64 << 63u64)) | (1u64 << 63u64) == !0u64)
                                by (bit_vector);
                        }
                    }
                }
            } else {
                if i < 63 {
                    assert(mask >> ((i + 1) as u64) == 0) by (bit_vector)
                        requires
                            mask >> (i as u64) == 0,
                            i < 63u32,
                    ;
                }
            }
            i = i + 1;
        }
        proof {
            if self.max_bit_count < 64 {
                assert(mask >> (self.max_bit_count as u64) == 0);
            }
            assert(low_bits_only(mask, self.max_bit_count));
            if self.probability.is_never() {
                let pre = *old(parameter);
                assert(((pre as u64) ^ 0u64) as i64 == pre) by (bit_vector);
            }
            if self.probability.is_always() {
                assert(mask == spec_low_mask(self.max_bit_count));
            }
        }
        let bits: u64 = #[verifier::truncate] (*parameter as u64);
        let flipped: i64 = #[verifier::truncate] ((bits ^ mask) as i64);
        assert(flipped == spec_flip_bits(*old(parameter), mask));
        *parameter = clamp_i64(flipped, self.min_value, self.max_value);
        assert(low_bits_only(mask, self.max_bit_count) && *parameter == spec_clamp(
            spec_flip_bits(*old(parameter), mask) as int,
            self.min_value as int,
            self.max_value as int,
        ));
        assert(self.probability.is_always() ==> *parameter == spec_clamp(
            spec_flip_bits(*old(parameter), spec_low_mask(self.max_bit_count)) as int,
            self.min_value as int,
            self.max_value as int,
        ));
    }
}

/// With the configured probability, replace the value by a uniform draw over
/// `[min_value, max_value]`; otherwise leave it unchanged.
pub struct RandomResetting {
    pub probability: Probability,
    pub min_value: i64,
    pub max_value: i64,
}

impl RandomResetting {
    pub fn new(probability: Probability, min_value: i64, max_value: i64) -> (r: RandomResetting)
        ensures
            r.probability == probability,
            r.min_value == min_value,
            r.max_value == max_value,
    {
        RandomResetting { probability, min_value, max_value }
    }
}

impl Mutator<i64> for RandomResetting {
    open spec fn mutation_pre(&self, parameter: i64) -> bool {
        &&& self.min_value <= self.max_value
        &&& self.probability.well_formed()
    }

    open spec fn mutation_post(&self, pre: i64, post: i64) -> bool {
        &&& post == pre || self.min_value <= post <= self.max_value
        &&& self.probability.is_always() ==> self.min_value <= post <= self.max_value
        &&& self.probability.is_never() ==> post == pre
    }

    fn mutate(&self, rng: &mut rand::rngs::StdRng, parameter: &mut i64) {
        if rand_coin(rng, self.probability.numerator, self.probability.denominator) {
            *parameter = rand_i64_between(rng, self.min_value, self.max_value);
        }
    }
}

/// With the configured probability, add or subtract (fair coin) a fixed step
/// size, saturating at the matching bound on overflow, then clamp into
/// `[min_value, max_value]`.
pub struct SimpleCreep {
    pub probability: Probability,
    pub min_value: i64,
    pub max_value: i64,
    pub step_size: i64,
}

impl SimpleCreep {
    pub fn new(probability: Probability, min_value: i64, max_value: i64, step_size: i64) -> (r:
        SimpleCreep)
        ensures
            r.probability == probability,
            r.min_value == min_value,
            r.max_value == max_value,
            r.step_size == step_size,
    {
        SimpleCreep { probability, min_value, max_value, step_size }
    }

    /// The value one creep step above `pre`: the sum, saturated to
    /// `max_value` when it leaves the 64-bit range, then clamped.
    pub open spec fn spec_step_up(&self, pre: i64) -> int {
        let raw = if i64::MIN <= pre + self.step_size <= i64::MAX {
            pre + self.step_size
        } else {
            self.max_value as int
        };
        spec_clamp(raw, self.min_value as int, self.max_value as int)
    }

    /// The value one creep step below `pre`: the difference, saturated to
    /// `min_value` when it leaves the 64-bit range, then clamped.
    pub open spec fn spec_step_down(&self, pre: i64) -> int {
        let raw = if i64::MIN <= pre - self.step_size <= i64::MAX {
            pre - self.step_size
        } else {
            self.min_value as int
        };
        spec_clamp(raw, self.min_value as int, self.max_value as int)
    }
}

impl Mutator<i64> for SimpleCreep {
    open spec fn mutation_pre(&self, parameter: i64) -> bool {
        &&& self.min_value <= self.max_value
        &&& self.probability.well_formed()
    }

    open spec fn mutation_post(&self, pre: i64, post: i64) -> bool {
        &&& post == pre || post == self.spec_step_up(pre) || post == self.spec_step_down(pre)
        &&& self.probability.is_always() ==> post == self.spec_step_up(pre) || post
            == self.spec_step_down(pre)
        &&& self.probability.is_never() ==> post == pre
    }

    fn mutate(&self, rng: &mut rand::rngs::StdRng, parameter: &mut i64) {
        if rand_coin(rng, self.probability.numerator, self.probability.denominator) {
            let raw: i64 = if rand_coin(rng, 1, 2) {
                match parameter.checked_add(self.step_size) {
                    Some(sum) => clamp_i64(sum, self.min_value, self.max_value),
                    None => clamp_i64(self.max_value, self.min_value, self.max_value),
                }
            } else {
                match parameter.checked_sub(self.step_size) {
                    Some(difference) => clamp_i64(difference, self.min_value, self.max_value),
                    None => clamp_i64(self.min_value, self.min_value, self.max_value),
                }
            };
            *parameter = raw;
        }
    }
}

} // verus!
