//! Parent selection: uniform, fitness-proportionate, rank-based and
//! tournament mating-pool strategies, built on an exact integer
//! stochastic-universal-sampling walk.

use vstd::prelude::*;

use crate::individual::Individual;
use crate::ratio::Ratio;
use crate::ratio::Probability;
use crate::rng::{rand_coin, rand_index, rand_u128_below, sample_distinct_indices, weighted_pick};
use crate::{lemma_prefix_weight_sum_monotone, prefix_weight_sum, sum_weights};

verus! {

/// Picks a mating pool of a given size from a population.  Each implementor
/// fixes what it asks of the call (`selection_pre`) and what it promises of
/// the pool (`selection_post`).
pub trait ParentSelector<I: Individual> {
    /// What the selector asks of the population and the pool size.
    spec fn selection_pre(&self, individuals: Seq<I>, number_children: int) -> bool;

    /// How the returned pool relates to the population.
    spec fn selection_post(&self, individuals: Seq<I>, number_children: int, result: Seq<I>) -> bool;

    /// Choose `number_children` individuals, with replacement,
    /// deterministically given the random stream drawn from `rng`.
    fn select(&self, rng: &mut rand::rngs::StdRng, individuals: &Vec<I>, number_children: usize) -> (result:
        Vec<I>)
        requires
            self.selection_pre(individuals@, number_children as int),
        ensures
            self.selection_post(individuals@, number_children as int, result@),
    ;
}

/// `result` holds, position by position, faithful copies of the `source`
/// individuals named by `indices`.
pub open spec fn picks_match<I: Individual>(source: Seq<I>, indices: Seq<int>, result: Seq<I>) -> bool {
    &&& result.len() == indices.len()
    &&& forall|k: int| 0 <= k < indices.len() ==> 0 <= #[trigger] indices[k] < source.len()
    &&& forall|k: int|
        0 <= k < indices.len() ==> source[#[trigger] indices[k]].duplicates(&result[k])
}

/// `x` is a faithful copy of some member of `individuals`.
pub open spec fn duplicates_member<I: Individual>(individuals: Seq<I>, x: I) -> bool {
    exists|j: int| 0 <= j < individuals.len() && #[trigger] individuals[j].duplicates(&x)
}

/// `x` is a faithful copy of some member of `individuals` whose selection
/// weight is positive.
pub open spec fn duplicates_weighted_member<I: Individual>(
    individuals: Seq<I>,
    weights: Seq<u64>,
    x: I,
) -> bool {
    exists|j: int|
        0 <= j < individuals.len() && weights[j] > 0 && #[trigger] individuals[j].duplicates(&x)
}

/// The index sequence that stochastic universal sampling emits from window
/// `i` on, with the walking pointer at `r`.  Everything is scaled by the
/// number of slots `n`: window `i` covers `[n * C(i), n * C(i + 1))` over
/// the cumulative weights `C`, and the pointer advances by the total weight,
/// so that the `n` pointers are evenly spaced over `[0, n * C(len))`.
pub open spec fn sus_from(weights: Seq<u64>, n: int, i: int, r: int) -> Seq<int>
    decreases
            weights.len() - i,
            (if n * prefix_weight_sum(weights, i + 1) - r >= 0 {
                n * prefix_weight_sum(weights, i + 1) - r
            } else {
                0
            }),
    when 0 <= i && n >= 0 && sum_weights(weights) > 0
{
    if i >= weights.len() {
        Seq::empty()
    } else if r < n * prefix_weight_sum(weights, i + 1) {
        seq![i] + sus_from(weights, n, i, r + sum_weights(weights))
    } else {
        sus_from(weights, n, i + 1, r)
    }
}

/// How many evenly spaced pointers starting at `r` still fall below
/// `bound`, advancing by `step` each time.
pub open spec fn pointers_below(bound: int, r: int, step: int) -> int {
    if r >= bound {
        0
    } else {
        (bound - r + step - 1) / step
    }
}

/// The walk emits one index per pointer below the scaled total weight.
proof fn lemma_sus_from_len(weights: Seq<u64>, n: int, i: int, r: int)
    requires
        0 <= i <= weights.len(),
        n >= 0,
        sum_weights(weights) > 0,
        r >= n * prefix_weight_sum(weights, i),
    ensures
        sus_from(weights, n, i, r).len() == pointers_below(n * sum_weights(weights), r, sum_weights(weights)),
    decreases
            weights.len() - i,
            (if n * prefix_weight_sum(weights, i + 1) - r >= 0 {
                n * prefix_weight_sum(weights, i + 1) - r
            } else {
                0
            }),
{
    let step = sum_weights(weights);
    let bound = n * sum_weights(weights);
    if i >= weights.len() {
        assert(prefix_weight_sum(weights, i) == sum_weights(weights));
        assert(r >= bound);
    } else if r < n * prefix_weight_sum(weights, i + 1) {
        lemma_sus_from_len(weights, n, i, r + step);
        lemma_prefix_weight_sum_monotone(weights, i + 1, weights.len() as int);
        vstd::arithmetic::mul::lemma_mul_inequality(
            prefix_weight_sum(weights, i + 1),
            sum_weights(weights),
            n,
        );
        assert(n * prefix_weight_sum(weights, i + 1) <= n * sum_weights(weights)) by {
            assert(prefix_weight_sum(weights, i + 1) * n <= sum_weights(weights) * n);
            vstd::arithmetic::mul::lemma_mul_is_commutative(
                prefix_weight_sum(weights, i + 1),
                n,
            );
            vstd::arithmetic::mul::lemma_mul_is_commutative(sum_weights(weights), n);
        }
        assert(r < bound);
        if r + step >= bound {
            assert(pointers_below(bound, r + step, step) == 0);
            vstd::arithmetic::div_mod::lemma_fundamental_div_mod_converse(
                bound - r + step - 1,
                step,
                1,
                bound - r - 1,
            );
            assert(pointers_below(bound, r, step) == 1);
        } else {
            vstd::arithmetic::div_mod::lemma_div_plus_one(bound - (r + step) + step - 1, step);
            assert(bound - r + step - 1 == step + (bound - (r + step) + step - 1));
            assert(pointers_below(bound, r, step) == 1 + pointers_below(bound, r + step, step));
        }
    } else {
        lemma_sus_from_len(weights, n, i + 1, r);
    }
}

/// With the starting offset anywhere in `[0, total)`, the walk emits
/// exactly `n` indices.
proof fn lemma_sus_from_full_len(weights: Seq<u64>, n: int, r0: int)
    requires
        n >= 0,
        sum_weights(weights) > 0,
        0 <= r0 < sum_weights(weights),
    ensures
        sus_from(weights, n, 0, r0).len() == n,
{
    let step = sum_weights(weights);
    let bound = n * step;
    lemma_sus_from_len(weights, n, 0, r0);
    if n == 0 {
        assert(bound == 0);
        assert(pointers_below(bound, r0, step) == 0);
    } else {
        vstd::arithmetic::mul::lemma_mul_strictly_positive(n, step);
        assert(r0 < bound) by {
            vstd::arithmetic::mul::lemma_mul_inequality(1, n, step);
        }
        vstd::arithmetic::div_mod::lemma_fundamental_div_mod_converse(
            bound - r0 + step - 1,
            step,
            n,
            step - 1 - r0,
        );
        assert(pointers_below(bound, r0, step) == n);
    }
}

/// Stochastic universal sampling: spin one random offset and walk `n`
/// evenly spaced pointers over the cumulative weights, emitting the window
/// each pointer lands in.  Low variance: a window of weight `w` receives
/// between `floor(n * w / total)` and `ceil(n * w / total)` picks.
pub fn stochastic_universal_sampling<I: Individual>(
    rng: &mut rand::rngs::StdRng,
    individuals: &Vec<I>,
    number_children: usize,
    weights: &Vec<u64>,
) -> (result: Vec<I>)
    requires
        weights@.len() == individuals@.len(),
        sum_weights(weights@) > 0,
        (number_children as int + 1) * sum_weights(weights@) <= u128::MAX,
    ensures
        result@.len() == number_children,
        exists|r0: int|
            0 <= r0 < sum_weights(weights@) && picks_match(
                individuals@,
                sus_from(weights@, number_children as int, 0, r0),
                result@,
            ),
{
    let ghost n = number_children as int;
    let total = sum_weights_u128(weights);
    let offset = rand_u128_below(rng, total);
    let ghost r0 = offset as int;
    let mut result: Vec<I> = Vec::new();
    let ghost mut emitted: Seq<int> = Seq::empty();
    let mut cumulative: u128 = 0;
    let mut r: u128 = offset;
    let mut i: usize = 0;
    proof {
        assert(n * prefix_weight_sum(weights@, 0) == 0) by {
            vstd::arithmetic::mul::lemma_mul_basics(n);
        }
    }
    while i < weights.len()
        invariant
            0 <= i <= weights@.len(),
            weights@.len() == individuals@.len(),
            sum_weights(weights@) > 0,
            (n + 1) * sum_weights(weights@) <= u128::MAX,
            n == number_children as int,
            total == sum_weights(weights@),
            cumulative == prefix_weight_sum(weights@, i as int),
            0 <= r0 < total,
            r == r0 + emitted.len() * total,
            emitted.len() <= n,
            r >= n * prefix_weight_sum(weights@, i as int) || emitted.len() == n,
            sus_from(weights@, n, 0, r0) == emitted + sus_from(weights@, n, i as int, r as int),
            picks_match(individuals@, emitted, result@),
        decreases weights@.len() - i,
    {
        proof {
            lemma_prefix_weight_sum_monotone(weights@, i as int + 1, weights@.len() as int);
            vstd::arithmetic::mul::lemma_mul_inequality(
                prefix_weight_sum(weights@, i as int + 1),
                sum_weights(weights@),
                n,
            );
            vstd::arithmetic::mul::lemma_mul_is_commutative(
                prefix_weight_sum(weights@, i as int + 1),
                n,
            );
            vstd::arithmetic::mul::lemma_mul_is_commutative(sum_weights(weights@), n);
            vstd::arithmetic::mul::lemma_mul_inequality(n, n + 1, sum_weights(weights@));
            vstd::arithmetic::mul::lemma_mul_is_commutative(n, sum_weights(weights@));
            vstd::arithmetic::mul::lemma_mul_is_commutative(n + 1, sum_weights(weights@));
        }
        cumulative = cumulative + (weights[i] as u128);
        let ghost window_bound = n * prefix_weight_sum(weights@, i as int + 1);
        let bound = (number_children as u128) * cumulative;
        while r < bound
            invariant
                0 <= i < weights@.len(),
                weights@.len() == individuals@.len(),
                sum_weights(weights@) > 0,
                (n + 1) * sum_weights(weights@) <= u128::MAX,
                n == number_children as int,
                total == sum_weights(weights@),
                cumulative == prefix_weight_sum(weights@, i as int + 1),
                bound == n * prefix_weight_sum(weights@, i as int + 1),
                bound <= n * sum_weights(weights@),
                n * sum_weights(weights@) <= (n + 1) * sum_weights(weights@),
                0 <= r0 < total,
                r == r0 + emitted.len() * total,
                emitted.len() <= n,
                r >= bound || emitted.len() < n,
                sus_from(weights@, n, 0, r0) == emitted + sus_from(
                    weights@,
                    n,
                    i as int,
                    r as int,
                ),
                picks_match(individuals@, emitted, result@),
            decreases (if r < bound {
                bound - r
            } else {
                0
            }),
        {
            let pick = individuals[i].duplicate();
            result.push(pick);
            proof {
                assert(sus_from(weights@, n, i as int, r as int) == seq![i as int] + sus_from(
                    weights@,
                    n,
                    i as int,
                    r as int + total as int,
                ));
                emitted = emitted.push(i as int);
                assert(emitted + sus_from(weights@, n, i as int, r as int + total as int)
                    =~= sus_from(weights@, n, 0, r0));
                assert(emitted.len() * total == (emitted.len() - 1) * total + total) by {
                    vstd::arithmetic::mul::lemma_mul_is_distributive_add_other_way(
                        total as int,
                        emitted.len() - 1,
                        1,
                    );
                }
                if emitted.len() == n && (r as int) + (total as int) < (bound as int) {
                    assert(n * prefix_weight_sum(weights@, i as int + 1) <= n * sum_weights(
                        weights@,
                    ));
                    assert(r0 + n * total >= n * total);
                    assert(false);
                }
            }
            proof {
                vstd::arithmetic::mul::lemma_mul_is_distributive_add_other_way(
                    sum_weights(weights@),
                    n,
                    1,
                );
                vstd::arithmetic::mul::lemma_mul_basics(sum_weights(weights@));
            }
            r = r + total;
        }
        proof {
            if emitted.len() == n {
                assert(r as int >= n * total) by {
                    vstd::arithmetic::mul::lemma_mul_is_commutative(emitted.len() as int, total as int);
                    vstd::arithmetic::mul::lemma_mul_is_commutative(n, total as int);
                }
            }
            assert(sus_from(weights@, n, i as int, r as int) == sus_from(
                weights@,
                n,
                i as int + 1,
                r as int,
            ));
        }
        i = i + 1;
    }
    proof {
        assert(sus_from(weights@, n, i as int, r as int) == Seq::<int>::empty());
        assert(sus_from(weights@, n, 0, r0) =~= emitted);
        lemma_sus_from_full_len(weights@, n, r0);
    }
    result
}

/// Add up the weights; the sum of `u64` weights always fits in a `u128`.
fn sum_weights_u128(weights: &Vec<u64>) -> (total: u128)
    ensures
        total == sum_weights(weights@),
{
    let mut total: u128 = 0;
    let mut i: usize = 0;
    while i < weights.len()
        invariant
            i <= weights@.len(),
            total == prefix_weight_sum(weights@, i as int),
            total <= i * 0xffffffffffffffffu64,
        decreases weights@.len() - i,
    {
        proof {
            vstd::arithmetic::mul::lemma_mul_is_distributive_add_other_way(
                0xffffffffffffffffu64 as int,
                i as int,
                1,
            );
            assert((i as int + 1) * 0xffffffffffffffffu64 <= (weights@.len() as int)
                * 0xffffffffffffffffu64 || i as int + 1 > weights@.len() as int) by {
                vstd::arithmetic::mul::lemma_mul_inequality(
                    i as int + 1,
                    weights@.len() as int,
                    0xffffffffffffffffu64 as int,
                );
                vstd::arithmetic::mul::lemma_mul_is_commutative(
                    i as int + 1,
                    0xffffffffffffffffu64 as int,
                );
                vstd::arithmetic::mul::lemma_mul_is_commutative(
                    weights@.len() as int,
                    0xffffffffffffffffu64 as int,
                );
            }
            assert((weights@.len() as int) * 0xffffffffffffffffu64
                <= 0xffffffffffffffffu64 as int * 0xffffffffffffffffu64 as int) by {
                vstd::arithmetic::mul::lemma_mul_inequality(
                    weights@.len() as int,
                    0xffffffffffffffffu64 as int,
                    0xffffffffffffffffu64 as int,
                );
                vstd::arithmetic::mul::lemma_mul_is_commutative(
                    weights@.len() as int,
                    0xffffffffffffffffu64 as int,
                );
            }
        }
        total = total + (weights[i] as u128);
        i = i + 1;
    }
    total
}

/// Independent weighted draws (the roulette wheel): each of the
/// `number_children` slots is filled by one independent draw, so selection
/// counts vary more than under stochastic universal sampling.
pub fn roulette_wheel<I: Individual>(
    rng: &mut rand::rngs::StdRng,
    individuals: &Vec<I>,
    number_children: usize,
    weights: &Vec<u64>,
) -> (result: Vec<I>)
    requires
        weights@.len() == individuals@.len(),
        weights@.len() > 0,
        sum_weights(weights@) > 0,
        sum_weights(weights@) <= u64::MAX,
    ensures
        result@.len() == number_children,
        forall|k: int|
            0 <= k < result@.len() ==> duplicates_weighted_member(
                individuals@,
                weights@,
                #[trigger] result@[k],
            ),
{
    let mut result: Vec<I> = Vec::new();
    let mut k: usize = 0;
    while k < number_children
        invariant
            k <= number_children,
            weights@.len() == individuals@.len(),
            weights@.len() > 0,
            sum_weights(weights@) > 0,
            sum_weights(weights@) <= u64::MAX,
            result@.len() == k,
            forall|m: int|
                0 <= m < result@.len() ==> duplicates_weighted_member(
                    individuals@,
                    weights@,
                    #[trigger] result@[m],
                ),
        decreases number_children - k,
    {
        let j = weighted_pick(rng, weights);
        let pick = individuals[j].duplicate();
        result.push(pick);
        proof {
            assert(individuals@[j as int].duplicates(&result@[result@.len() - 1]));
            assert(duplicates_weighted_member(individuals@, weights@, result@[result@.len() - 1]));
        }
        k = k + 1;
    }
    result
}

/// Draw `number_children` indices uniformly, with replacement.
pub struct UniformSelector;

impl UniformSelector {
    pub fn new() -> (r: UniformSelector)
        ensures
            r == (UniformSelector),
    {
        UniformSelector
    }
}

impl<I: Individual> ParentSelector<I> for UniformSelector {
    open spec fn selection_pre(&self, individuals: Seq<I>, number_children: int) -> bool {
        individuals.len() > 0
    }

    open spec fn selection_post(&self, individuals: Seq<I>, number_children: int, result: Seq<I>) -> bool {
        &&& result.len() == number_children
        &&& forall|k: int|
            0 <= k < result.len() ==> duplicates_member(individuals, #[trigger] result[k])
    }

    fn select(&self, rng: &mut rand::rngs::StdRng, individuals: &Vec<I>, number_children: usize) -> (result:
        Vec<I>) {
        let mut result: Vec<I> = Vec::new();
        let mut k: usize = 0;
        while k < number_children
            invariant
                k <= number_children,
                individuals@.len() > 0,
                result@.len() == k,
                forall|m: int|
                    0 <= m < result@.len() ==> duplicates_member(
                        individuals@,
                        #[trigger] result@[m],
                    ),
            decreases number_children - k,
        {
            let j = rand_index(rng, individuals.len());
            let pick = individuals[j].duplicate();
            result.push(pick);
            proof {
                assert(individuals@[j as int].duplicates(&result@[result@.len() - 1]));
                assert(duplicates_member(individuals@, result@[result@.len() - 1]));
            }
            k = k + 1;
        }
        result
    }
}

/// The scale of the fixed-point weights used by exponential ranking.
pub const EXP_SCALE: u64 = 1000000000;

/// The reciprocal of Euler's number at the same fixed-point scale.
pub const EXP_INVERSE_E: u64 = 367879441;

/// `ranking` lists each position of `individuals` exactly once, ordered by
/// fitness.
pub open spec fn fitness_ranking<I: Individual>(
    ranking: Seq<usize>,
    individuals: Seq<I>,
    descending: bool,
) -> bool {
    &&& ranking.len() == individuals.len()
    &&& forall|k: int| 0 <= k < ranking.len() ==> #[trigger] ranking[k] < individuals.len()
    &&& forall|a: int, b: int| 0 <= a < b < ranking.len() ==> ranking[a] != ranking[b]
    &&& forall|a: int, b: int|
        0 <= a <= b < ranking.len() ==> (if descending {
            individuals[ranking[a] as int].spec_fitness() >= individuals[
                ranking[b] as int
            ].spec_fitness()
        } else {
            individuals[ranking[a] as int].spec_fitness() <= individuals[
                ranking[b] as int
            ].spec_fitness()
        })
}

/// Sort a list of positions of `individuals` by the fitness they point at.
fn sort_indices_by_fitness<I: Individual>(
    individuals: &Vec<I>,
    indices: &mut Vec<usize>,
    descending: bool,
)
    requires
        forall|k: int| 0 <= k < old(indices)@.len() ==> #[trigger] old(indices)@[k]
            < individuals@.len(),
    ensures
        final(indices)@.len() == old(indices)@.len(),
        final(indices)@.to_multiset() == old(indices)@.to_multiset(),
        forall|k: int| 0 <= k < final(indices)@.len() ==> #[trigger] final(indices)@[k]
            < individuals@.len(),
        forall|a: int, b: int|
            0 <= a <= b < final(indices)@.len() ==> (if descending {
                individuals@[final(indices)@[a] as int].spec_fitness() >= individuals@[
                    final(indices)@[b] as int
                ].spec_fitness()
            } else {
                individuals@[final(indices)@[a] as int].spec_fitness() <= individuals@[
                    final(indices)@[b] as int
                ].spec_fitness()
            }),
{
    let ghost orig = indices@;
    let mut i: usize = 1;
    while i < indices.len()
        invariant
            1 <= i,
            indices@.len() == orig.len(),
            indices@.to_multiset() == orig.to_multiset(),
            forall|k: int| 0 <= k < indices@.len() ==> #[trigger] indices@[k]
                < individuals@.len(),
            forall|a: int, b: int|
                0 <= a <= b < i && b < indices@.len() ==> (if descending {
                    individuals@[indices@[a] as int].spec_fitness() >= individuals@[
                        indices@[b] as int
                    ].spec_fitness()
                } else {
                    individuals@[indices@[a] as int].spec_fitness() <= individuals@[
                        indices@[b] as int
                    ].spec_fitness()
                }),
        decreases indices@.len() - i,
    {
        let ghost before = indices@;
        let x = indices.remove(i);
        let ghost removed = indices@;
        let x_fitness = individuals[x].fitness();
        let mut j: usize = i;
        while j > 0
            invariant_except_break
                j <= i,
                i <= removed.len(),
                indices@ == removed,
                forall|k: int| 0 <= k < removed.len() ==> #[trigger] removed[k]
                    < individuals@.len(),
                x_fitness == individuals@[x as int].spec_fitness(),
                forall|k: int|
                    j <= k < i ==> (if descending {
                        individuals@[#[trigger] indices@[k] as int].spec_fitness() < x_fitness
                    } else {
                        individuals@[#[trigger] indices@[k] as int].spec_fitness() > x_fitness
                    }),
            ensures
                j <= i,
                indices@ == removed,
                forall|k: int|
                    j <= k < i ==> (if descending {
                        individuals@[#[trigger] indices@[k] as int].spec_fitness() < x_fitness
                    } else {
                        individuals@[#[trigger] indices@[k] as int].spec_fitness() > x_fitness
                    }),
                j > 0 ==> (if descending {
                    individuals@[indices@[j - 1] as int].spec_fitness() >= x_fitness
                } else {
                    individuals@[indices@[j - 1] as int].spec_fitness() <= x_fitness
                }),
            decreases j,
        {
            let previous = indices[j - 1];
            let previous_fitness = individuals[previous].fitness();
            let goes_after = if descending {
                previous_fitness < x_fitness
            } else {
                previous_fitness > x_fitness
            };
            if goes_after {
                j = j - 1;
            } else {
                break ;
            }
        }
        indices.insert(j, x);
        proof {
            broadcast use vstd::seq_lib::group_to_multiset_ensures;

            assert(indices@ == removed.insert(j as int, x));
            assert(removed.to_multiset() =~= before.to_multiset().remove(x));
            assert(indices@.to_multiset() =~= removed.to_multiset().insert(x));
            assert(before.to_multiset().count(x) > 0);
            assert(indices@.to_multiset() =~= before.to_multiset());
            assert forall|a: int, b: int|
                0 <= a <= b < i + 1 && b < indices@.len() implies (if descending {
                individuals@[indices@[a] as int].spec_fitness() >= individuals@[
                    indices@[b] as int
                ].spec_fitness()
            } else {
                individuals@[indices@[a] as int].spec_fitness() <= individuals@[
                    indices@[b] as int
                ].spec_fitness()
            }) by {
                if a < j {
                    assert(indices@[a] == removed[a]);
                }
                if b < j {
                    assert(indices@[b] == removed[b]);
                }
                if a > j {
                    assert(indices@[a] == removed[a - 1]);
                }
                if b > j {
                    assert(indices@[b] == removed[b - 1]);
                }
                if j > 0 {
                    assert(removed[j - 1] == before[j - 1]);
                }
            }
        }
        i = i + 1;
    }
}

/// Rank the population: the returned list holds each position once,
/// ordered by ascending fitness.
fn rank_indices_by_fitness<I: Individual>(individuals: &Vec<I>) -> (ranking: Vec<usize>)
    ensures
        fitness_ranking(ranking@, individuals@, false),
{
    let mut ranking: Vec<usize> = Vec::new();
    let mut j: usize = 0;
    while j < individuals.len()
        invariant
            j <= individuals@.len(),
            ranking@.len() == j,
            forall|k: int| 0 <= k < j ==> #[trigger] ranking@[k] == k,
        decreases individuals@.len() - j,
    {
        ranking.push(j);
        j = j + 1;
    }
    let ghost identity = ranking@;
    proof {
        assert(identity.no_duplicates());
        identity.lemma_multiset_has_no_duplicates();
    }
    sort_indices_by_fitness(individuals, &mut ranking, false);
    proof {
        ranking@.lemma_multiset_has_no_duplicates_conv();
    }
    ranking
}

/// Scatter per-rank weights back onto original positions: position
/// `ranking[r]` receives the weight of rank `r`.
fn assign_rank_weights(ranking: &Vec<usize>, rank_values: &Vec<u64>) -> (ws: Vec<u64>)
    requires
        ranking@.len() == rank_values@.len(),
        forall|k: int| 0 <= k < ranking@.len() ==> #[trigger] ranking@[k] < ranking@.len(),
        forall|a: int, b: int| 0 <= a < b < ranking@.len() ==> ranking@[a] != ranking@[b],
    ensures
        ws@.len() == ranking@.len(),
        forall|r: int|
            0 <= r < ranking@.len() ==> ws@[#[trigger] ranking@[r] as int] == rank_values@[r],
{
    let mu = ranking.len();
    let mut ws: Vec<u64> = Vec::new();
    let mut j: usize = 0;
    while j < mu
        invariant
            j <= mu,
            ws@.len() == j,
        decreases mu - j,
    {
        ws.push(0);
        j = j + 1;
    }
    let mut r: usize = 0;
    while r < mu
        invariant
            r <= mu,
            mu == ranking@.len(),
            ranking@.len() == rank_values@.len(),
            ws@.len() == mu,
            forall|k: int| 0 <= k < ranking@.len() ==> #[trigger] ranking@[k] < ranking@.len(),
            forall|a: int, b: int| 0 <= a < b < ranking@.len() ==> ranking@[a] != ranking@[b],
            forall|q: int|
                0 <= q < r ==> ws@[#[trigger] ranking@[q] as int] == rank_values@[q],
        decreases mu - r,
    {
        let position = ranking[r];
        let ghost before = ws@;
        ws[position] = rank_values[r];
        proof {
            assert(ws@ =~= before.update(position as int, rank_values@[r as int]));
        }
        r = r + 1;
    }
    ws
}

/// The smallest fitness in a non-empty population.
pub open spec fn min_fitness<I: Individual>(individuals: Seq<I>) -> int
    decreases individuals.len(),
    when individuals.len() >= 1
{
    if individuals.len() == 1 {
        individuals[0].spec_fitness() as int
    } else {
        let rest = min_fitness(individuals.drop_last());
        if individuals.last().spec_fitness() < rest {
            individuals.last().spec_fitness() as int
        } else {
            rest
        }
    }
}

/// The minimum is a lower bound and is attained.
proof fn lemma_min_fitness<I: Individual>(individuals: Seq<I>)
    requires
        individuals.len() >= 1,
    ensures
        forall|i: int|
            0 <= i < individuals.len() ==> min_fitness(individuals) <= (
            #[trigger] individuals[i]).spec_fitness(),
        exists|j: int|
            0 <= j < individuals.len() && (#[trigger] individuals[j]).spec_fitness()
                == min_fitness(individuals),
    decreases individuals.len(),
{
    if individuals.len() == 1 {
        assert(individuals[0].spec_fitness() == min_fitness(individuals));
    } else {
        lemma_min_fitness(individuals.drop_last());
        assert(forall|i: int|
            0 <= i < individuals.len() - 1 ==> individuals.drop_last()[i] == individuals[i]);
        let j = choose|j: int|
            0 <= j < individuals.drop_last().len() && (
            #[trigger] individuals.drop_last()[j]).spec_fitness() == min_fitness(
                individuals.drop_last(),
            );
        if individuals.last().spec_fitness() < min_fitness(individuals.drop_last()) {
            assert(individuals[individuals.len() - 1].spec_fitness() == min_fitness(individuals));
        } else {
            assert(individuals[j].spec_fitness() == min_fitness(individuals));
        }
    }
    assert(individuals.len() == 1 ==> individuals[0].spec_fitness() == min_fitness(individuals));
}

/// The selection weights of fitness-proportionate selection: every fitness,
/// shifted so the worst individual still weighs one.
pub open spec fn fp_weights<I: Individual>(individuals: Seq<I>) -> Seq<u64> {
    Seq::new(
        individuals.len(),
        |i: int| (individuals[i].spec_fitness() - min_fitness(individuals) + 1) as u64,
    )
}

/// Shift all fitness values to be strictly positive, normalize them into
/// selection weights, and apply stochastic universal sampling.
pub struct FitnessProportionate;

impl<I: Individual> ParentSelector<I> for FitnessProportionate {
    open spec fn selection_pre(&self, individuals: Seq<I>, number_children: int) -> bool {
        &&& individuals.len() >= 1
        &&& forall|i: int, j: int|
            0 <= i < individuals.len() && 0 <= j < individuals.len() ==> (
            #[trigger] individuals[i]).spec_fitness() - (#[trigger] individuals[j]).spec_fitness()
                + 1 <= u64::MAX
        &&& (number_children + 1) * (individuals.len() * 0xffffffffffffffffu64) <= u128::MAX
    }

    open spec fn selection_post(&self, individuals: Seq<I>, number_children: int, result: Seq<I>) -> bool {
        &&& result.len() == number_children
        &&& exists|r0: int|
            #![auto]
            0 <= r0 < sum_weights(fp_weights(individuals)) && picks_match(
                individuals,
                sus_from(fp_weights(individuals), number_children, 0, r0),
                result,
            )
    }

    fn select(&self, rng: &mut rand::rngs::StdRng, individuals: &Vec<I>, number_children: usize) -> (result:
        Vec<I>) {
        proof {
            lemma_min_fitness(individuals@);
        }
        let mut minimum = individuals[0].fitness();
        let mut i: usize = 1;
        while i < individuals.len()
            invariant
                1 <= i <= individuals@.len(),
                individuals@.len() >= 1,
                minimum == min_fitness(individuals@.take(i as int)),
            decreases individuals@.len() - i,
        {
            let fitness = individuals[i].fitness();
            proof {
                assert(individuals@.take(i as int + 1).drop_last() =~= individuals@.take(i as int));
                assert(individuals@.take(i as int + 1).last() == individuals@[i as int]);
            }
            if fitness < minimum {
                minimum = fitness;
            }
            i = i + 1;
        }
        proof {
            assert(individuals@.take(individuals@.len() as int) =~= individuals@);
        }
        let mut weights: Vec<u64> = Vec::new();
        let mut k: usize = 0;
        while k < individuals.len()
            invariant
                k <= individuals@.len(),
                individuals@.len() >= 1,
                minimum == min_fitness(individuals@),
                forall|i0: int, j0: int|
                    0 <= i0 < individuals@.len() && 0 <= j0 < individuals@.len() ==> (
                    #[trigger] individuals@[i0]).spec_fitness() - (
                    #[trigger] individuals@[j0]).spec_fitness() + 1 <= u64::MAX,
                forall|i0: int|
                    0 <= i0 < individuals@.len() ==> min_fitness(individuals@) <= (
                    #[trigger] individuals@[i0]).spec_fitness(),
                exists|j0: int|
                    0 <= j0 < individuals@.len() && (#[trigger] individuals@[j0]).spec_fitness()
                        == min_fitness(individuals@),
                weights@.len() == k,
                forall|i0: int| 0 <= i0 < k ==> #[trigger] weights@[i0] == fp_weights(
                    individuals@,
                )[i0],
            decreases individuals@.len() - k,
        {
            let fitness = individuals[k].fitness();
            proof {
                let witness = choose|j0: int|
                    0 <= j0 < individuals@.len() && (#[trigger] individuals@[j0]).spec_fitness()
                        == min_fitness(individuals@);
                assert(individuals@[k as int].spec_fitness() - individuals@[
                    witness
                ].spec_fitness() + 1 <= u64::MAX);
            }
            let weight = ((fitness as i128) - (minimum as i128) + 1) as u64;
            weights.push(weight);
            k = k + 1;
        }
        proof {
            assert(weights@ =~= fp_weights(individuals@));
            assert(fp_weights(individuals@)[0] >= 1);
            crate::lemma_sum_weights_element_lower(weights@, 0);
            lemma_sus_weight_capacity(
                weights@,
                number_children as int,
                individuals@.len() as int,
                0xffffffffffffffffu64 as int,
            );
        }
        stochastic_universal_sampling(rng, individuals, number_children, &weights)
    }
}

/// Bounded weights keep the scaled pointer walk within machine range.
proof fn lemma_sus_weight_capacity(ws: Seq<u64>, n: int, mu: int, cap: int)
    requires
        n >= 0,
        cap >= 0,
        ws.len() == mu,
        forall|k: int| 0 <= k < ws.len() ==> ws[k] <= cap,
        (n + 1) * (mu * cap) <= u128::MAX,
    ensures
        (n + 1) * sum_weights(ws) <= u128::MAX,
{
    crate::lemma_prefix_weight_sum_upper(ws, mu, cap);
    crate::lemma_sum_weights_nonneg(ws);
    vstd::arithmetic::mul::lemma_mul_inequality(sum_weights(ws), mu * cap, n + 1);
    vstd::arithmetic::mul::lemma_mul_is_commutative(sum_weights(ws), n + 1);
    vstd::arithmetic::mul::lemma_mul_is_commutative(mu * cap, n + 1);
}

/// The linear-ranking weight of rank `rank` among `mu` individuals, scaled
/// by `mu * (mu - 1) * s_den` so it is an integer.
pub open spec fn lr_weight(s_num: int, s_den: int, mu: int, rank: int) -> int {
    (2 * s_den - s_num) * (mu - 1) + 2 * rank * (s_num - s_den)
}

/// Rank individuals by ascending fitness and give rank `i` the selection
/// probability `(2 - s) / mu + 2 i (s - 1) / (mu (mu - 1))`, then apply
/// stochastic universal sampling.
pub struct LinearRanking {
    pub s: Ratio,
}

impl LinearRanking {
    pub fn new(s: Ratio) -> (r: LinearRanking)
        ensures
            r.s == s,
    {
        LinearRanking { s }
    }
}

impl<I: Individual> ParentSelector<I> for LinearRanking {
    open spec fn selection_pre(&self, individuals: Seq<I>, number_children: int) -> bool {
        &&& individuals.len() >= 2
        &&& self.s.well_formed()
        &&& self.s.denominator <= self.s.numerator <= 2 * self.s.denominator
        &&& 3 * (self.s.denominator as int) * (individuals.len() - 1) <= u64::MAX
        &&& (number_children + 1) * (individuals.len() * 0xffffffffffffffffu64) <= u128::MAX
    }

    open spec fn selection_post(&self, individuals: Seq<I>, number_children: int, result: Seq<I>) -> bool {
        &&& result.len() == number_children
        &&& exists|ranking: Seq<usize>, ws: Seq<u64>|
            #![auto]
            {
                &&& fitness_ranking(ranking, individuals, false)
                &&& ws.len() == individuals.len()
                &&& forall|r: int|
                    0 <= r < ranking.len() ==> ws[ranking[r] as int] == lr_weight(
                        self.s.numerator as int,
                        self.s.denominator as int,
                        individuals.len() as int,
                        r,
                    )
                &&& exists|r0: int|
                    #![auto]
                    0 <= r0 < sum_weights(ws) && picks_match(
                        individuals,
                        sus_from(ws, number_children, 0, r0),
                        result,
                    )
            }
    }

    fn select(&self, rng: &mut rand::rngs::StdRng, individuals: &Vec<I>, number_children: usize) -> (result:
        Vec<I>) {
        let mu = individuals.len();
        let s_num = self.s.numerator;
        let s_den = self.s.denominator;
        let ranking = rank_indices_by_fitness(individuals);
        let mut rank_values: Vec<u64> = Vec::new();
        let mut r: usize = 0;
        while r < mu
            invariant
                r <= mu,
                mu == individuals@.len(),
                mu >= 2,
                s_num == self.s.numerator,
                s_den == self.s.denominator,
                0 < s_den <= s_num <= 2 * s_den,
                3 * (s_den as int) * (mu - 1) <= u64::MAX,
                rank_values@.len() == r,
                forall|q: int|
                    0 <= q < r ==> #[trigger] rank_values@[q] == lr_weight(
                        s_num as int,
                        s_den as int,
                        mu as int,
                        q,
                    ),
            decreases mu - r,
        {
            proof {
                assert((2 * (s_den as int) - s_num) * (mu - 1) + 2 * (r as int) * ((s_num as int)
                    - s_den) <= 3 * (s_den as int) * (mu - 1) && (2 * (s_den as int) - s_num) * (mu
                    - 1) + 2 * (r as int) * ((s_num as int) - s_den) >= 0) by (nonlinear_arith)
                    requires
                        0 < s_den <= s_num <= 2 * s_den,
                        0 <= r < mu,
                        mu >= 2,
                ;
            }
            let base = ((2 * (s_den as u64) - (s_num as u64)) as u128) * ((mu - 1) as u128);
            let slope = 2 * (r as u128) * (((s_num as u64) - (s_den as u64)) as u128);
            let weight = (base + slope) as u64;
            rank_values.push(weight);
            r = r + 1;
        }
        let ws = assign_rank_weights(&ranking, &rank_values);
        proof {
            assert((lr_weight(s_num as int, s_den as int, mu as int, mu as int - 1)) == (mu as int
                - 1) * (s_num as int) && (mu as int - 1) * (s_num as int) > 0) by (nonlinear_arith)
                requires
                    0 < s_den <= s_num <= 2 * s_den,
                    mu >= 2,
            ;
            assert(ws@[ranking@[mu - 1] as int] == lr_weight(
                s_num as int,
                s_den as int,
                mu as int,
                mu as int - 1,
            ));
            crate::lemma_sum_weights_element_lower(ws@, ranking@[mu - 1] as int);
            lemma_sus_weight_capacity(
                ws@,
                number_children as int,
                individuals@.len() as int,
                0xffffffffffffffffu64 as int,
            );
        }
        let result = stochastic_universal_sampling(rng, individuals, number_children, &ws);
        proof {
            assert(fitness_ranking(ranking@, individuals@, false) && ws@.len()
                == individuals@.len());
        }
        result
    }
}

/// The fixed-point decay `e^{-rank}`, at the scale of `EXP_SCALE`, computed
/// by repeated multiplication with `EXP_INVERSE_E` and truncating division.
pub open spec fn exp_decay(rank: int) -> int
    decreases rank,
    when rank >= 0
{
    if rank <= 0 {
        EXP_SCALE as int
    } else {
        (exp_decay(rank - 1) * (EXP_INVERSE_E as int)) / (EXP_SCALE as int)
    }
}

/// The decay stays within the fixed-point scale.
proof fn lemma_exp_decay_bounds(rank: int)
    requires
        rank >= 0,
    ensures
        0 <= exp_decay(rank) <= EXP_SCALE,
    decreases rank,
{
    if rank > 0 {
        lemma_exp_decay_bounds(rank - 1);
        vstd::arithmetic::mul::lemma_mul_nonnegative(exp_decay(rank - 1), EXP_INVERSE_E as int);
        vstd::arithmetic::div_mod::lemma_div_pos_is_pos(
            exp_decay(rank - 1) * (EXP_INVERSE_E as int),
            EXP_SCALE as int,
        );
        assert(exp_decay(rank - 1) * (EXP_INVERSE_E as int) <= (EXP_SCALE as int) * (
        EXP_SCALE as int)) by (nonlinear_arith)
            requires
                0 <= exp_decay(rank - 1) <= EXP_SCALE as int,
                0 < EXP_INVERSE_E < EXP_SCALE,
        ;
        vstd::arithmetic::div_mod::lemma_div_is_ordered(
            exp_decay(rank - 1) * (EXP_INVERSE_E as int),
            (EXP_SCALE as int) * (EXP_SCALE as int),
            EXP_SCALE as int,
        );
        vstd::arithmetic::div_mod::lemma_div_multiples_vanish(
            EXP_SCALE as int,
            EXP_SCALE as int,
        );
        assert((EXP_SCALE as int) * (EXP_SCALE as int) / (EXP_SCALE as int) == EXP_SCALE as int);
    }
}

/// Rank individuals by ascending fitness, weigh rank `i` by the
/// fixed-point value of `1 - e^{-i}`, normalize, and apply stochastic
/// universal sampling.
pub struct ExponentialRanking;

impl<I: Individual> ParentSelector<I> for ExponentialRanking {
    open spec fn selection_pre(&self, individuals: Seq<I>, number_children: int) -> bool {
        &&& individuals.len() >= 2
        &&& (number_children + 1) * (individuals.len() * 0xffffffffffffffffu64) <= u128::MAX
    }

    open spec fn selection_post(&self, individuals: Seq<I>, number_children: int, result: Seq<I>) -> bool {
        &&& result.len() == number_children
        &&& exists|ranking: Seq<usize>, ws: Seq<u64>|
            #![auto]
            {
                &&& fitness_ranking(ranking, individuals, false)
                &&& ws.len() == individuals.len()
                &&& forall|r: int|
                    0 <= r < ranking.len() ==> ws[ranking[r] as int] == EXP_SCALE - exp_decay(r)
                &&& exists|r0: int|
                    #![auto]
                    0 <= r0 < sum_weights(ws) && picks_match(
                        individuals,
                        sus_from(ws, number_children, 0, r0),
                        result,
                    )
            }
    }

    fn select(&self, rng: &mut rand::rngs::StdRng, individuals: &Vec<I>, number_children: usize) -> (result:
        Vec<I>) {
        let mu = individuals.len();
        let ranking = rank_indices_by_fitness(individuals);
        let mut rank_values: Vec<u64> = Vec::new();
        let mut decay: u64 = EXP_SCALE;
        let mut r: usize = 0;
        while r < mu
            invariant
                r <= mu,
                mu == individuals@.len(),
                decay == exp_decay(r as int),
                0 <= decay <= EXP_SCALE,
                rank_values@.len() == r,
                forall|q: int|
                    0 <= q < r ==> #[trigger] rank_values@[q] == EXP_SCALE - exp_decay(q),
            decreases mu - r,
        {
            rank_values.push(EXP_SCALE - decay);
            proof {
                lemma_exp_decay_bounds(r as int + 1);
                assert((decay as int) * (EXP_INVERSE_E as int) <= (EXP_SCALE as int) * (
                EXP_INVERSE_E as int)) by (nonlinear_arith)
                    requires
                        0 <= decay <= EXP_SCALE as int,
                ;
            }
            decay = ((decay as u128 * EXP_INVERSE_E as u128) / (EXP_SCALE as u128)) as u64;
            r = r + 1;
        }
        let ws = assign_rank_weights(&ranking, &rank_values);
        proof {
            lemma_exp_decay_bounds(1);
            vstd::arithmetic::div_mod::lemma_div_multiples_vanish(
                EXP_INVERSE_E as int,
                EXP_SCALE as int,
            );
            assert(exp_decay(0) == EXP_SCALE as int);
            assert(exp_decay(1) == (EXP_SCALE as int * EXP_INVERSE_E as int) / (EXP_SCALE as int));
            assert((EXP_SCALE as int) * (EXP_INVERSE_E as int) / (EXP_SCALE as int)
                == EXP_INVERSE_E as int);
            assert(exp_decay(1) == EXP_INVERSE_E);
            assert(ws@[ranking@[1] as int] == EXP_SCALE - exp_decay(1));
            crate::lemma_sum_weights_element_lower(ws@, ranking@[1] as int);
            lemma_sus_weight_capacity(
                ws@,
                number_children as int,
                individuals@.len() as int,
                0xffffffffffffffffu64 as int,
            );
        }
        let result = stochastic_universal_sampling(rng, individuals, number_children, &ws);
        proof {
            assert(fitness_ranking(ranking@, individuals@, false) && ws@.len()
                == individuals@.len());
        }
        result
    }
}

/// How tournament candidates are sampled from the population.
pub enum TournamentSampleMethod {
    WithReplacement,
    WithoutReplacement,
}

/// Repeatedly sample a fixed number of candidates and let them play: with
/// acceptance probability one the best candidate wins outright; otherwise
/// the candidates are ranked best-first and the first to pass a Bernoulli
/// draw wins, falling back to the worst.
pub struct Tournament {
    pub tournament_size: usize,
    pub sample_method: TournamentSampleMethod,
    pub acceptance_probability: Probability,
}

impl Tournament {
    pub fn new(
        tournament_size: usize,
        sample_method: TournamentSampleMethod,
        acceptance_probability: Probability,
    ) -> (r: Tournament)
        ensures
            r.tournament_size == tournament_size,
            r.sample_method == sample_method,
            r.acceptance_probability == acceptance_probability,
    {
        Tournament { tournament_size, sample_method, acceptance_probability }
    }

    /// An admissible candidate draw for one round: `tournament_size`
    /// positions of the population, pairwise distinct when sampling without
    /// replacement.
    pub open spec fn candidates_ok(&self, candidates: Seq<usize>, population_len: int) -> bool {
        &&& candidates.len() == self.tournament_size
        &&& forall|k: int| 0 <= k < candidates.len() ==> #[trigger] candidates[k] < population_len
        &&& matches!(self.sample_method, TournamentSampleMethod::WithoutReplacement)
            ==> forall|a: int, b: int|
            0 <= a < b < candidates.len() ==> candidates[a] != candidates[b]
    }

    /// `x` faithfully copies the winner of one tournament round over some
    /// admissible candidate draw: the deterministic argmax under acceptance
    /// probability one, the ranked Bernoulli walk otherwise.
    pub open spec fn tournament_pick_ok<I: Individual>(&self, individuals: Seq<I>, x: I) -> bool {
        exists|candidates: Seq<usize>, winner: usize|
            #![trigger self.candidates_ok(candidates, individuals.len() as int), individuals[winner as int]]
            {
                &&& self.candidates_ok(candidates, individuals.len() as int)
                &&& winner < individuals.len()
                &&& if self.acceptance_probability.is_always() {
                    deterministic_winner_ok(individuals, candidates, winner)
                } else {
                    stochastic_winner_ok(
                        individuals,
                        candidates,
                        self.acceptance_probability,
                        winner,
                    )
                }
                &&& individuals[winner as int].duplicates(&x)
            }
    }

    /// Draw the candidate positions of one tournament round.
    fn sample_candidates(&self, rng: &mut rand::rngs::StdRng, length: usize) -> (candidates: Vec<
        usize,
    >)
        requires
            length > 0,
            self.tournament_size > 0,
            matches!(self.sample_method, TournamentSampleMethod::WithoutReplacement)
                ==> self.tournament_size <= length,
        ensures
            candidates@.len() == self.tournament_size,
            forall|k: int| 0 <= k < candidates@.len() ==> #[trigger] candidates@[k] < length,
            matches!(self.sample_method, TournamentSampleMethod::WithoutReplacement)
                ==> forall|a: int, b: int|
                0 <= a < b < candidates@.len() ==> candidates@[a] != candidates@[b],
    {
        match self.sample_method {
            TournamentSampleMethod::WithReplacement => {
                let mut candidates: Vec<usize> = Vec::new();
                let mut k: usize = 0;
                while k < self.tournament_size
                    invariant
                        k <= self.tournament_size,
                        length > 0,
                        candidates@.len() == k,
                        forall|m: int|
                            0 <= m < candidates@.len() ==> #[trigger] candidates@[m] < length,
                    decreases self.tournament_size - k,
                {
                    candidates.push(rand_index(rng, length));
                    k = k + 1;
                }
                candidates
            },
            TournamentSampleMethod::WithoutReplacement => {
                sample_distinct_indices(rng, length, self.tournament_size)
            },
        }
    }
}

/// The best of the sampled candidates: the winner's fitness dominates every
/// candidate's, and among equals the latest sampled candidate wins.
/// `winner` is a candidate whose fitness dominates every candidate's, and
/// specifically the last sampled candidate attaining that maximum.
pub open spec fn deterministic_winner_ok<I: Individual>(
    individuals: Seq<I>,
    candidates: Seq<usize>,
    winner: usize,
) -> bool {
    exists|w: int|
        #![auto]
        0 <= w < candidates.len() && candidates[w] == winner && (forall|l: int|
            w < l < candidates.len() ==> individuals[
                #[trigger] candidates[l] as int
            ].spec_fitness() < individuals[winner as int].spec_fitness()) && (forall|l: int|
            0 <= l < candidates.len() ==> individuals[
                #[trigger] candidates[l] as int
            ].spec_fitness() <= individuals[winner as int].spec_fitness())
}

pub fn deterministic_tournament_winner<I: Individual>(
    individuals: &Vec<I>,
    candidates: &Vec<usize>,
) -> (winner: usize)
    requires
        candidates@.len() > 0,
        forall|k: int| 0 <= k < candidates@.len() ==> #[trigger] candidates@[k]
            < individuals@.len(),
    ensures
        winner < individuals@.len(),
        deterministic_winner_ok(individuals@, candidates@, winner),
{
    let mut winner = candidates[0];
    let mut winner_fitness = individuals[winner].fitness();
    let ghost mut winner_position: int = 0;
    let mut k: usize = 1;
    while k < candidates.len()
        invariant
            1 <= k <= candidates@.len(),
            forall|m: int| 0 <= m < candidates@.len() ==> #[trigger] candidates@[m]
                < individuals@.len(),
            0 <= winner_position < k,
            candidates@[winner_position] == winner,
            winner_fitness == individuals@[winner as int].spec_fitness(),
            forall|l: int|
                winner_position < l < k ==> individuals@[
                    #[trigger] candidates@[l] as int
                ].spec_fitness() < winner_fitness,
            forall|l: int|
                0 <= l < k ==> individuals@[#[trigger] candidates@[l] as int].spec_fitness()
                    <= winner_fitness,
        decreases candidates@.len() - k,
    {
        let challenger = candidates[k];
        let challenger_fitness = individuals[challenger].fitness();
        if challenger_fitness >= winner_fitness {
            winner = challenger;
            winner_fitness = challenger_fitness;
            proof {
                winner_position = k as int;
            }
        }
        k = k + 1;
    }
    winner
}

/// One stochastic tournament round over already sampled candidates: rank
/// them best-first and walk down, accepting the first that passes a
/// Bernoulli draw, falling back to the worst.  With acceptance one the best
/// wins; with acceptance zero the worst does.
/// `winner` stands at some position of a best-first ordering of the
/// candidates: at the very top under acceptance probability one, at the
/// very bottom under acceptance probability zero.
pub open spec fn stochastic_winner_ok<I: Individual>(
    individuals: Seq<I>,
    candidates: Seq<usize>,
    acceptance_probability: Probability,
    winner: usize,
) -> bool {
    exists|sorted: Seq<usize>, position: int|
        #![auto]
        {
            &&& sorted.to_multiset() == candidates.to_multiset()
            &&& sorted.len() == candidates.len()
            &&& forall|a: int, b: int|
                0 <= a <= b < sorted.len() ==> individuals[sorted[a] as int].spec_fitness()
                    >= individuals[sorted[b] as int].spec_fitness()
            &&& 0 <= position < sorted.len()
            &&& winner == sorted[position]
            &&& acceptance_probability.is_always() ==> position == 0
            &&& acceptance_probability.is_never() ==> position == sorted.len() - 1
        }
}

pub fn stochastic_tournament_winner<I: Individual>(
    rng: &mut rand::rngs::StdRng,
    individuals: &Vec<I>,
    candidates: &Vec<usize>,
    acceptance_probability: Probability,
) -> (winner: usize)
    requires
        candidates@.len() > 0,
        forall|k: int| 0 <= k < candidates@.len() ==> #[trigger] candidates@[k]
            < individuals@.len(),
        acceptance_probability.well_formed(),
    ensures
        winner < individuals@.len(),
        stochastic_winner_ok(individuals@, candidates@, acceptance_probability, winner),
{
    let mut sorted: Vec<usize> = Vec::new();
    let mut c: usize = 0;
    while c < candidates.len()
        invariant
            c <= candidates@.len(),
            sorted@ == candidates@.take(c as int),
        decreases candidates@.len() - c,
    {
        sorted.push(candidates[c]);
        proof {
            assert(sorted@ =~= candidates@.take(c as int + 1));
        }
        c = c + 1;
    }
    proof {
        assert(candidates@.take(candidates@.len() as int) =~= candidates@);
    }
    sort_indices_by_fitness(individuals, &mut sorted, true);
    let mut position: usize = 0;
    while position < sorted.len() - 1
        invariant_except_break
            0 <= position < sorted@.len(),
            sorted@.len() == candidates@.len(),
            candidates@.len() > 0,
            acceptance_probability.well_formed(),
            acceptance_probability.is_always() ==> position == 0,
        ensures
            0 <= position < sorted@.len(),
            sorted@.len() == candidates@.len(),
            acceptance_probability.is_always() ==> position == 0,
            acceptance_probability.is_never() ==> position == sorted@.len() - 1,
        decreases sorted@.len() - position,
    {
        if rand_coin(
            rng,
            acceptance_probability.numerator,
            acceptance_probability.denominator,
        ) {
            break ;
        }
        position = position + 1;
    }
    let winner = sorted[position];
    proof {
        assert({
            &&& sorted@.to_multiset() == candidates@.to_multiset()
            &&& sorted@.len() == candidates@.len()
            &&& forall|a: int, b: int|
                0 <= a <= b < sorted@.len() ==> individuals@[sorted@[a] as int].spec_fitness()
                    >= individuals@[sorted@[b] as int].spec_fitness()
            &&& 0 <= (position as int) && (position as int) < sorted@.len()
            &&& winner == sorted@[position as int]
            &&& acceptance_probability.is_always() ==> position as int == 0
            &&& acceptance_probability.is_never() ==> position as int == sorted@.len() - 1
        });
    }
    winner
}

impl<I: Individual> ParentSelector<I> for Tournament {
    open spec fn selection_pre(&self, individuals: Seq<I>, number_children: int) -> bool {
        &&& individuals.len() > 0
        &&& self.tournament_size > 0
        &&& self.acceptance_probability.well_formed()
        &&& matches!(self.sample_method, TournamentSampleMethod::WithoutReplacement)
            ==> self.tournament_size <= individuals.len()
    }

    open spec fn selection_post(&self, individuals: Seq<I>, number_children: int, result: Seq<I>) -> bool {
        &&& result.len() == number_children
        &&& forall|k: int|
            0 <= k < result.len() ==> self.tournament_pick_ok(individuals, #[trigger] result[k])
    }

    fn select(&self, rng: &mut rand::rngs::StdRng, individuals: &Vec<I>, number_children: usize) -> (result:
        Vec<I>) {
        let deterministic = self.acceptance_probability.numerator
            == self.acceptance_probability.denominator;
        let mut result: Vec<I> = Vec::new();
        let mut k: usize = 0;
        while k < number_children
            invariant
                k <= number_children,
                individuals@.len() > 0,
                self.tournament_size > 0,
                self.acceptance_probability.well_formed(),
                deterministic == self.acceptance_probability.is_always(),
                matches!(self.sample_method, TournamentSampleMethod::WithoutReplacement)
                    ==> self.tournament_size <= individuals@.len(),
                result@.len() == k,
                forall|m: int|
                    0 <= m < result@.len() ==> self.tournament_pick_ok(
                        individuals@,
                        #[trigger] result@[m],
                    ),
            decreases number_children - k,
        {
            let candidates = self.sample_candidates(rng, individuals.len());
            let winner = if deterministic {
                deterministic_tournament_winner(individuals, &candidates)
            } else {
                stochastic_tournament_winner(
                    rng,
                    individuals,
                    &candidates,
                    self.acceptance_probability,
                )
            };
            let pick = individuals[winner].duplicate();
            result.push(pick);
            proof {
                assert(self.candidates_ok(candidates@, individuals@.len() as int));
                assert(individuals@[winner as int].duplicates(&result@[result@.len() - 1]));
                assert(self.tournament_pick_ok(individuals@, result@[result@.len() - 1]));
            }
            k = k + 1;
        }
        result
    }
}

/// The sum of a constant weight sequence.
proof fn lemma_constant_prefix_sum(weights: Seq<u64>, value: u64, i: int)
    requires
        0 <= i <= weights.len(),
        forall|k: int| 0 <= k < weights.len() ==> #[trigger] weights[k] == value,
    ensures
        prefix_weight_sum(weights, i) == i * value,
    decreases i,
{
    if i > 0 {
        lemma_constant_prefix_sum(weights, value, i - 1);
        assert(i * value == (i - 1) * value + value) by {
            vstd::arithmetic::mul::lemma_mul_is_distributive_add_other_way(value as int, i - 1, 1);
        }
    } else {
        vstd::arithmetic::mul::lemma_mul_basics(value as int);
    }
}

/// From window `i` on, with the pointer at `r0 + i * total`, the uniform
/// walk emits each remaining index exactly once, in order.
proof fn lemma_sus_uniform_from(weights: Seq<u64>, value: u64, i: int, r0: int)
    requires
        0 <= i <= weights.len(),
        forall|k: int| 0 <= k < weights.len() ==> #[trigger] weights[k] == value,
        value > 0,
        0 <= r0 < sum_weights(weights),
    ensures
        sus_from(weights, weights.len() as int, i, r0 + i * sum_weights(weights)) == Seq::new(
            (weights.len() - i) as nat,
            |k: int| i + k,
        ),
    decreases weights.len() - i,
{
    let len = weights.len() as int;
    let total = sum_weights(weights);
    lemma_constant_prefix_sum(weights, value, len);
    assert(total == len * value);
    vstd::arithmetic::mul::lemma_mul_strictly_positive(len, value as int);
    if i == len {
        assert(sus_from(weights, len, i, r0 + i * total) =~= Seq::new(0, |k: int| i + k));
    } else {
        lemma_constant_prefix_sum(weights, value, i + 1);
        assert(len * prefix_weight_sum(weights, i + 1) == (i + 1) * total) by (nonlinear_arith)
            requires
                prefix_weight_sum(weights, i + 1) == (i + 1) * value,
                total == len * value,
        ;
        assert((i + 1) * total == i * total + total) by {
            vstd::arithmetic::mul::lemma_mul_is_distributive_add_other_way(total, i, 1);
        }
        assert(r0 + i * total < len * prefix_weight_sum(weights, i + 1));
        assert(sus_from(weights, len, i, r0 + i * total) == seq![i] + sus_from(
            weights,
            len,
            i,
            r0 + i * total + total,
        ));
        assert(r0 + i * total + total >= len * prefix_weight_sum(weights, i + 1));
        assert(sus_from(weights, len, i, r0 + i * total + total) == sus_from(
            weights,
            len,
            i + 1,
            r0 + (i + 1) * total,
        ));
        lemma_sus_uniform_from(weights, value, i + 1, r0);
        assert(seq![i] + Seq::new((len - i - 1) as nat, |k: int| i + 1 + k) =~= Seq::new(
            (len - i) as nat,
            |k: int| i + k,
        ));
    }
}

/// Stochastic universal sampling at its lowest variance: with equal
/// positive weights and one slot per individual, the walk selects every
/// individual exactly once, in order, whatever offset was drawn.
/// Independent weighted draws over the same distribution carry no such
/// guarantee; only their average matches.
pub proof fn lemma_sus_uniform_selects_each_once(weights: Seq<u64>, value: u64, r0: int)
    requires
        weights.len() >= 1,
        forall|k: int| 0 <= k < weights.len() ==> #[trigger] weights[k] == value,
        value > 0,
        0 <= r0 < sum_weights(weights),
    ensures
        sus_from(weights, weights.len() as int, 0, r0) == Seq::new(
            weights.len(),
            |k: int| k,
        ),
{
    lemma_sus_uniform_from(weights, value, 0, r0);
    assert(r0 + 0 * sum_weights(weights) == r0) by {
        vstd::arithmetic::mul::lemma_mul_basics(sum_weights(weights));
    }
    assert(Seq::new(weights.len(), |k: int| 0 + k) =~= Seq::new(weights.len(), |k: int| k));
}

} // verus!
