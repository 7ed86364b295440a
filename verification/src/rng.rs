//! The trusted boundary to the outside random source: every draw the
//! operators make goes through one of these thin wrappers.

use vstd::prelude::*;

verus! {

/// The concrete random source threaded through every operator call.
/// Nothing is assumed about the values it produces beyond the ranges
/// stated on the draw functions below.
#[verifier::external_type_specification]
#[verifier::external_body]
pub struct ExStdRng(rand::rngs::StdRng);

/// Relies on rand's `Rng::gen_range` over `0..bound`: it panics on an empty
/// range and otherwise returns a value of the range.
#[verifier::external_body]
pub(crate) fn rand_index(rng: &mut rand::rngs::StdRng, bound: usize) -> (r: usize)
    requires
        bound > 0,
    ensures
        r < bound,
{
    rand::Rng::gen_range(rng, 0..bound)
}

/// Relies on rand's `Rng::gen_range` over `lo..=hi`: it panics on an empty
/// range and otherwise returns a value of the range.
#[verifier::external_body]
pub(crate) fn rand_i64_between(rng: &mut rand::rngs::StdRng, lo: i64, hi: i64) -> (r: i64)
    requires
        lo <= hi,
    ensures
        lo <= r <= hi,
{
    rand::Rng::gen_range(rng, lo..=hi)
}

/// Relies on rand's `Rng::gen_range` over `lo..=hi` for `i128`: it panics on
/// an empty range and otherwise returns a value of the range.
#[verifier::external_body]
pub(crate) fn rand_i128_between(rng: &mut rand::rngs::StdRng, lo: i128, hi: i128) -> (r: i128)
    requires
        lo <= hi,
    ensures
        lo <= r <= hi,
{
    rand::Rng::gen_range(rng, lo..=hi)
}

/// Relies on rand's `Rng::gen_range` over `0..bound` for `u128`: it panics on
/// an empty range and otherwise returns a value of the range.
#[verifier::external_body]
pub(crate) fn rand_u128_below(rng: &mut rand::rngs::StdRng, bound: u128) -> (r: u128)
    requires
        bound > 0,
    ensures
        r < bound,
{
    rand::Rng::gen_range(rng, 0..bound)
}

/// Relies on rand's `Rng::gen_ratio`, a Bernoulli draw with probability
/// `numerator / denominator`: its `Bernoulli::from_ratio` source rejects
/// `numerator > denominator` and `denominator == 0`, always samples `true`
/// when `numerator == denominator`, and always samples `false` when
/// `numerator == 0`.
#[verifier::external_body]
pub(crate) fn rand_coin(rng: &mut rand::rngs::StdRng, numerator: u32, denominator: u32) -> (r: bool)
    requires
        denominator > 0,
        numerator <= denominator,
    ensures
        numerator == denominator ==> r,
        numerator == 0 ==> !r,
{
    rand::Rng::gen_ratio(rng, numerator, denominator)
}

/// Relies on rand's `Rng::gen` for `u64`: sixty-four independent random bits;
/// nothing is promised of the value.
#[verifier::external_body]
pub(crate) fn rand_bits(rng: &mut rand::rngs::StdRng) -> u64 {
    rand::Rng::gen(rng)
}

/// Relies on rand's `SliceRandom::shuffle`: an in-place Fisher-Yates pass
/// made of element swaps, so the slice afterwards holds the same elements
/// with the same length.
#[verifier::external_body]
pub(crate) fn shuffle<T>(rng: &mut rand::rngs::StdRng, values: &mut Vec<T>)
    ensures
        final(values)@.len() == old(values)@.len(),
        final(values)@.to_multiset() == old(values)@.to_multiset(),
{
    rand::seq::SliceRandom::shuffle(values.as_mut_slice(), rng)
}

/// Relies on rand's `index::sample`: it panics when `amount > length` and
/// otherwise returns exactly `amount` distinct indices drawn from
/// `0..length`.
#[verifier::external_body]
pub(crate) fn sample_distinct_indices(rng: &mut rand::rngs::StdRng, length: usize, amount: usize) -> (r:
    Vec<usize>)
    requires
        amount <= length,
    ensures
        r@.len() == amount,
        forall|i: int| 0 <= i < r@.len() ==> r@[i] < length,
        forall|i: int, j: int| 0 <= i < j < r@.len() ==> r@[i] != r@[j],
{
    rand::seq::index::sample(rng, length, amount).into_vec()
}

/// Relies on rand's `WeightedIndex` over `u64` weights: `new` sums the
/// weights (the requires keep that sum from overflowing) and rejects an empty
/// or all-zero list, and `sample` draws below the total and binary-searches
/// the cumulative weights, so it returns the index of a positive weight.
#[verifier::external_body]
pub(crate) fn weighted_pick(rng: &mut rand::rngs::StdRng, weights: &Vec<u64>) -> (r: usize)
    requires
        weights@.len() > 0,
        crate::sum_weights(weights@) > 0,
        crate::sum_weights(weights@) <= u64::MAX,
    ensures
        r < weights@.len(),
        weights@[r as int] > 0,
{
    let distribution = rand::distributions::WeightedIndex::new(weights).unwrap();
    rand::Rng::sample(rng, &distribution)
}

} // verus!
