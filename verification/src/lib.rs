//! Composable building blocks for population-based metaheuristic
//! optimization: bounded genotypes, individuals, mutation and recombination
//! operators, parent and survivor selection, and island migration, each with
//! a verified contract over an exact integer model.

use vstd::prelude::*;

pub mod individual;
pub mod mutation;
pub mod parameter;
pub mod population;
pub mod ratio;
pub mod recombination;
pub mod rng;
pub mod samplers;
pub mod selection;
pub mod sorting;

verus! {

/// What clamping a mathematical integer into `[min_value, max_value]` means.
pub open spec fn spec_clamp(value: int, min_value: int, max_value: int) -> int {
    if value < min_value {
        min_value
    } else if value > max_value {
        max_value
    } else {
        value
    }
}

/// Clamp `value` into the inclusive range `[min_value, max_value]`.
pub fn clamp_i64(value: i64, min_value: i64, max_value: i64) -> (r: i64)
    requires
        min_value <= max_value,
    ensures
        r == spec_clamp(value as int, min_value as int, max_value as int),
        min_value <= r <= max_value,
{
    if value < min_value {
        min_value
    } else if value > max_value {
        max_value
    } else {
        value
    }
}

/// Sum of the first `i` selection weights, as a mathematical integer.
pub open spec fn prefix_weight_sum(s: Seq<u64>, i: int) -> int
    decreases i,
    when i >= 0
{
    if i <= 0 {
        0
    } else {
        prefix_weight_sum(s, i - 1) + s[i - 1]
    }
}

/// Sum of a sequence of selection weights, as a mathematical integer.
pub open spec fn sum_weights(s: Seq<u64>) -> int {
    prefix_weight_sum(s, s.len() as int)
}

/// Prefix sums of unsigned weights grow monotonically from zero.
pub proof fn lemma_prefix_weight_sum_monotone(s: Seq<u64>, i: int, j: int)
    requires
        0 <= i <= j,
    ensures
        0 <= prefix_weight_sum(s, i) <= prefix_weight_sum(s, j),
    decreases j,
{
    if j > 0 {
        if i < j {
            lemma_prefix_weight_sum_monotone(s, i, j - 1);
        } else {
            lemma_prefix_weight_sum_monotone(s, i - 1, j - 1);
        }
    }
}

/// Every weight is bounded by the sum of the whole sequence.
pub proof fn lemma_sum_weights_nonneg(s: Seq<u64>)
    ensures
        sum_weights(s) >= 0,
{
    lemma_prefix_weight_sum_monotone(s, 0, s.len() as int);
}

/// The sum is at least any single weight of the sequence.
pub proof fn lemma_sum_weights_element_lower(s: Seq<u64>, idx: int)
    requires
        0 <= idx < s.len(),
    ensures
        sum_weights(s) >= s[idx],
{
    lemma_prefix_weight_sum_monotone(s, 0, idx);
    lemma_prefix_weight_sum_monotone(s, idx + 1, s.len() as int);
}

/// The sum of `len` weights of at most `cap` each is at most `len * cap`.
pub proof fn lemma_prefix_weight_sum_upper(s: Seq<u64>, i: int, cap: int)
    requires
        0 <= i <= s.len(),
        forall|k: int| 0 <= k < s.len() ==> s[k] <= cap,
    ensures
        prefix_weight_sum(s, i) <= i * cap,
    decreases i,
{
    if i > 0 {
        lemma_prefix_weight_sum_upper(s, i - 1, cap);
        assert(i * cap == (i - 1) * cap + cap) by {
            vstd::arithmetic::mul::lemma_mul_is_distributive_add_other_way(cap, i - 1, 1);
        }
    } else {
        vstd::arithmetic::mul::lemma_mul_basics(cap);
    }
}

} // verus!
