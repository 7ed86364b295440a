//! Survivor selection: replace-worst, elitist merge, generational
//! replacement and the round-robin tournament.

use vstd::prelude::*;
use vstd::multiset::Multiset;

use crate::individual::{spec_order, Individual};
use crate::ratio::Probability;
use crate::rng::sample_distinct_indices;
use crate::sorting::{sort_by_fitness, sorted_ascending_by_fitness, sorted_descending_by_fitness};
use core::cmp::Ordering;

verus! {

/// Merges a population with offspring and decides who persists.  Each
/// implementor fixes what it asks of the call (`selection_pre`) and how the
/// surviving population relates to both groups (`selection_post`).
pub trait SurvivorSelector<I: Individual> {
    /// What the selector asks of the two groups.
    spec fn selection_pre(&self, population: Seq<I>, offspring: Seq<I>) -> bool;

    /// How the surviving population relates to the two groups.
    spec fn selection_post(&self, population: Seq<I>, offspring: Seq<I>, survivors: Seq<I>) -> bool;

    /// Decide the surviving population in place, consuming the offspring.
    fn select(&self, rng: &mut rand::rngs::StdRng, population: &mut Vec<I>, offspring: Vec<I>)
        requires
            self.selection_pre(old(population)@, offspring@),
        ensures
            self.selection_post(old(population)@, offspring@, final(population)@),
    ;
}

/// Which group a merged tournament candidate came from.
#[derive(PartialEq, Eq, Structural)]
pub enum GroupType {
    Population,
    Offspring,
}

impl GroupType {
    pub fn is_population(&self) -> (r: bool)
        ensures
            r <==> self == GroupType::Population,
    {
        matches!(self, GroupType::Population)
    }
}

/// One contestant of the round-robin survivor tournament: a position within
/// its origin group, tagged with that group, its fitness, and the battles it
/// has won.
pub struct TournamentCandidate {
    pub candidate: usize,
    pub group_type: GroupType,
    pub wins: u32,
    pub fitness: i64,
}

impl TournamentCandidate {
    pub fn new(candidate: usize, group_type: GroupType, fitness: i64) -> (r: TournamentCandidate)
        ensures
            r.candidate == candidate,
            r.group_type == group_type,
            r.fitness == fitness,
            r.wins == 0,
    {
        TournamentCandidate { candidate, group_type, wins: 0, fitness }
    }

    /// Battle one rival: a strictly better fitness scores one more win.
    pub fn compete(&mut self, other: &TournamentCandidate)
        requires
            old(self).wins < u32::MAX,
        ensures
            final(self).wins == old(self).wins + (if old(self).fitness > other.fitness {
                1int
            } else {
                0int
            }),
            final(self).candidate == old(self).candidate,
            final(self).group_type == old(self).group_type,
            final(self).fitness == old(self).fitness,
    {
        if self.fitness > other.fitness {
            self.wins = self.wins + 1;
        }
    }

    /// Order two candidates by their win counts.
    pub fn compare_wins(&self, other: &TournamentCandidate) -> (r: Ordering)
        ensures
            r == spec_order(self.wins as int, other.wins as int),
    {
        if self.wins < other.wins {
            Ordering::Less
        } else if self.wins == other.wins {
            Ordering::Equal
        } else {
            Ordering::Greater
        }
    }
}

/// How many of the population's slots a replacement rate claims.
pub open spec fn replacement_count(rate: Probability, population_size: int) -> int {
    ((rate.numerator as int) * population_size) / (rate.denominator as int)
}

/// A full replacement rate claims the whole population.
pub proof fn lemma_full_replacement_count(rate: Probability, population_size: int)
    requires
        rate.well_formed(),
        rate.is_always(),
        population_size >= 0,
    ensures
        replacement_count(rate, population_size) == population_size,
{
    vstd::arithmetic::div_mod::lemma_div_multiples_vanish(
        population_size,
        rate.denominator as int,
    );
    vstd::arithmetic::mul::lemma_mul_is_commutative(rate.denominator as int, population_size);
}

/// Sort the population worst-first and the offspring best-first, then
/// overwrite the worst `rate` share of the population with the best
/// offspring, one for one by rank.
pub struct ReplaceWorstSelector {
    pub replacement_rate: Probability,
}

impl ReplaceWorstSelector {
    pub fn new(replacement_rate: Probability) -> (r: ReplaceWorstSelector)
        ensures
            r.replacement_rate == replacement_rate,
    {
        ReplaceWorstSelector { replacement_rate }
    }
}

impl<I: Individual> SurvivorSelector<I> for ReplaceWorstSelector {
    open spec fn selection_pre(&self, population: Seq<I>, offspring: Seq<I>) -> bool {
        self.replacement_rate.well_formed()
    }

    open spec fn selection_post(&self, population: Seq<I>, offspring: Seq<I>, survivors: Seq<I>) -> bool {
        let replaced = {
            let claimed = replacement_count(self.replacement_rate, population.len() as int);
            if claimed <= offspring.len() {
                claimed
            } else {
                offspring.len() as int
            }
        };
        exists|population_sorted: Seq<I>, offspring_sorted: Seq<I>|
            #![trigger population_sorted.to_multiset(), offspring_sorted.to_multiset()]
            {
                &&& population_sorted.to_multiset() == population.to_multiset()
                &&& population_sorted.len() == population.len()
                &&& sorted_ascending_by_fitness(population_sorted)
                &&& offspring_sorted.to_multiset() == offspring.to_multiset()
                &&& offspring_sorted.len() == offspring.len()
                &&& sorted_descending_by_fitness(offspring_sorted)
                &&& survivors == offspring_sorted.take(replaced) + population_sorted.skip(replaced)
            }
    }

    fn select(&self, rng: &mut rand::rngs::StdRng, population: &mut Vec<I>, offspring: Vec<I>) {
        let ghost offspring_orig = offspring@;
        let mut offspring = offspring;
        sort_by_fitness(population, false);
        sort_by_fitness(&mut offspring, true);
        let ghost population_sorted = population@;
        let ghost offspring_sorted = offspring@;
        let population_size = population.len();
        proof {
            assert((self.replacement_rate.numerator as int) * (population_size as int)
                < 0x100000000000000000000000000000000int && 0 <= (
            self.replacement_rate.numerator as int) * (population_size as int))
                by (nonlinear_arith)
                requires
                    0 <= self.replacement_rate.numerator <= 0xffffffffu32,
                    0 <= population_size <= 0xffffffffffffffffu64,
            ;
        }
        let claimed_wide = (self.replacement_rate.numerator as u128) * (population_size as u128);
        let claimed = (claimed_wide / (self.replacement_rate.denominator as u128)) as usize;
        proof {
            vstd::arithmetic::mul::lemma_mul_inequality(
                self.replacement_rate.numerator as int,
                self.replacement_rate.denominator as int,
                population_size as int,
            );
            vstd::arithmetic::mul::lemma_mul_is_commutative(
                self.replacement_rate.numerator as int,
                population_size as int,
            );
            vstd::arithmetic::mul::lemma_mul_is_commutative(
                self.replacement_rate.denominator as int,
                population_size as int,
            );
            vstd::arithmetic::div_mod::lemma_div_multiples_vanish(
                population_size as int,
                self.replacement_rate.denominator as int,
            );
            vstd::arithmetic::div_mod::lemma_div_is_ordered(
                claimed_wide as int,
                (self.replacement_rate.denominator as int) * (population_size as int),
                self.replacement_rate.denominator as int,
            );
            vstd::arithmetic::div_mod::lemma_div_pos_is_pos(
                claimed_wide as int,
                self.replacement_rate.denominator as int,
            );
        }
        let replaced = if claimed <= offspring.len() {
            claimed
        } else {
            offspring.len()
        };
        let mut i: usize = 0;
        while i < replaced
            invariant
                i <= replaced,
                replaced <= population@.len(),
                replaced <= offspring@.len(),
                population@.len() == population_sorted.len(),
                offspring@.len() == offspring_sorted.len(),
                forall|k: int| i <= k < population@.len() ==> #[trigger] population@[k]
                    == population_sorted[k],
                forall|k: int| 0 <= k < i ==> #[trigger] population@[k] == offspring_sorted[k],
                forall|k: int| i <= k < offspring@.len() ==> #[trigger] offspring@[k]
                    == offspring_sorted[k],
            decreases replaced - i,
        {
            let source = element_mut(&mut offspring, i);
            let target = element_mut(population, i);
            core::mem::swap(target, source);
            i = i + 1;
        }
        proof {
            assert(population@ =~= offspring_sorted.take(replaced as int)
                + population_sorted.skip(replaced as int));
            let claimed_spec = replacement_count(
                self.replacement_rate,
                population_sorted.len() as int,
            );
            assert(claimed as int == claimed_spec);
            let replaced_spec: int = if claimed_spec <= offspring_sorted.len() {
                claimed_spec
            } else {
                offspring_sorted.len() as int
            };
            assert(replaced as int == replaced_spec);
            assert(population_sorted.to_multiset() == old(population)@.to_multiset());
            assert(offspring_sorted.to_multiset() == offspring_orig.to_multiset());
            assert({
                &&& population_sorted.len() == old(population)@.len()
                &&& sorted_ascending_by_fitness(population_sorted)
                &&& sorted_descending_by_fitness(offspring_sorted)
                &&& population@ == offspring_sorted.take(replaced_spec) + population_sorted.skip(
                    replaced_spec,
                )
            });
        }
    }
}

/// A mutable borrow of one element of a vector.
fn element_mut<T>(values: &mut Vec<T>, index: usize) -> (element: &mut T)
    requires
        index < old(values)@.len(),
    ensures
        *element == old(values)@[index as int],
        final(values)@ == old(values)@.update(index as int, *final(element)),
{
    &mut values[index]
}

/// Move every element of `source` into `pool` (in reverse order).
fn drain_into<I: Individual>(source: &mut Vec<I>, pool: &mut Vec<I>)
    ensures
        final(source)@.len() == 0,
        final(pool)@.to_multiset() == old(pool)@.to_multiset().add(old(source)@.to_multiset()),
        final(pool)@.len() == old(pool)@.len() + old(source)@.len(),
{
    proof {
        broadcast use vstd::seq_lib::group_to_multiset_ensures;

    }
    let ghost source_orig = source@;
    let ghost pool_orig = pool@;
    while source.len() > 0
        invariant
            pool@.to_multiset().add(source@.to_multiset()) == pool_orig.to_multiset().add(
                source_orig.to_multiset(),
            ),
            pool@.len() + source@.len() == pool_orig.len() + source_orig.len(),
        decreases source@.len(),
    {
        let ghost source_before = source@;
        let ghost pool_before = pool@;
        match source.pop() {
            Some(individual) => {
                pool.push(individual);
            },
            None => {},
        }
        proof {
            broadcast use vstd::seq_lib::group_to_multiset_ensures;

            assert(source@ =~= source_before.drop_last());
            assert(source_before.drop_last() =~= source_before.remove(
                source_before.len() - 1,
            ));
            assert(source@.to_multiset() =~= source_before.to_multiset().remove(
                source_before.last(),
            ));
            assert(pool@.to_multiset() =~= pool_before.to_multiset().insert(
                source_before.last(),
            ));
            assert(source_before.to_multiset().count(source_before.last()) > 0) by {
                assert(source_before.contains(source_before.last()));
            }
            assert(pool@.to_multiset().add(source@.to_multiset()) =~= pool_before.to_multiset().add(
                source_before.to_multiset(),
            ));
        }
    }
    proof {
        assert(pool@.to_multiset() =~= pool@.to_multiset().add(source@.to_multiset()));
    }
}

/// Merge both groups, sort best-first, keep the best `population_size`:
/// the elitist mu-plus-lambda scheme.  The surviving maximum fitness never
/// falls below the previous population's maximum.
pub struct MergeRanked;

impl<I: Individual> SurvivorSelector<I> for MergeRanked {
    open spec fn selection_pre(&self, population: Seq<I>, offspring: Seq<I>) -> bool {
        true
    }

    open spec fn selection_post(&self, population: Seq<I>, offspring: Seq<I>, survivors: Seq<I>) -> bool {
        &&& exists|merged_sorted: Seq<I>|
            #![auto]
            {
                &&& merged_sorted.to_multiset() == population.to_multiset().add(
                    offspring.to_multiset(),
                )
                &&& merged_sorted.len() == population.len() + offspring.len()
                &&& sorted_descending_by_fitness(merged_sorted)
                &&& survivors == merged_sorted.take(population.len() as int)
            }
        &&& population.len() > 0 ==> survivors.len() == population.len() && forall|i: int|
            0 <= i < population.len() ==> survivors[0].spec_fitness() >= (
            #[trigger] population[i]).spec_fitness()
    }

    fn select(&self, rng: &mut rand::rngs::StdRng, population: &mut Vec<I>, offspring: Vec<I>) {
        let ghost population_orig = population@;
        let ghost offspring_orig = offspring@;
        let population_size = population.len();
        let mut offspring = offspring;
        let mut pool: Vec<I> = Vec::new();
        drain_into(population, &mut pool);
        drain_into(&mut offspring, &mut pool);
        proof {
            broadcast use vstd::seq_lib::group_to_multiset_ensures;

            assert(Seq::<I>::empty().to_multiset() =~= Multiset::<I>::empty()) by {
                assert forall|x: I| Seq::<I>::empty().to_multiset().count(x) == 0 by {
                    assert(!Seq::<I>::empty().contains(x));
                }
            }
            assert(Multiset::<I>::empty().add(population_orig.to_multiset())
                =~= population_orig.to_multiset());
            assert(pool@.to_multiset() == population_orig.to_multiset().add(
                offspring_orig.to_multiset(),
            ));
        }
        sort_by_fitness(&mut pool, true);
        let ghost merged_sorted = pool@;
        pool.truncate(population_size);
        let survivors = pool;
        *population = survivors;
        proof {
            broadcast use vstd::seq_lib::group_to_multiset_ensures;

            assert(population@ =~= merged_sorted.take(population_size as int));
            if population_orig.len() > 0 {
                assert forall|i: int| 0 <= i < population_orig.len() implies population@[
                    0
                ].spec_fitness() >= (#[trigger] population_orig[i]).spec_fitness() by {
                    assert(population_orig.contains(population_orig[i]));
                    assert(population_orig.to_multiset().count(population_orig[i]) > 0);
                    assert(merged_sorted.to_multiset().count(population_orig[i]) > 0);
                    assert(merged_sorted.contains(population_orig[i]));
                    let j = choose|j: int|
                        0 <= j < merged_sorted.len() && merged_sorted[j] == population_orig[i];
                    assert(merged_sorted[0].spec_fitness() >= merged_sorted[j].spec_fitness());
                }
            }
        }
    }
}

/// Sort the offspring best-first, discard the whole prior population, and
/// keep the best `population_size` offspring: the mu-comma-lambda scheme.
/// There must be at least as many offspring as population slots.
pub struct GenerationalRanked;

impl<I: Individual> SurvivorSelector<I> for GenerationalRanked {
    open spec fn selection_pre(&self, population: Seq<I>, offspring: Seq<I>) -> bool {
        population.len() <= offspring.len()
    }

    open spec fn selection_post(&self, population: Seq<I>, offspring: Seq<I>, survivors: Seq<I>) -> bool {
        exists|offspring_sorted: Seq<I>|
            #![auto]
            {
                &&& offspring_sorted.to_multiset() == offspring.to_multiset()
                &&& offspring_sorted.len() == offspring.len()
                &&& sorted_descending_by_fitness(offspring_sorted)
                &&& survivors == offspring_sorted.take(population.len() as int)
            }
    }

    fn select(&self, rng: &mut rand::rngs::StdRng, population: &mut Vec<I>, offspring: Vec<I>) {
        let mut offspring = offspring;
        sort_by_fitness(&mut offspring, true);
        let ghost offspring_sorted = offspring@;
        let ghost population_orig = population@;
        let mut i: usize = 0;
        while i < population.len()
            invariant
                i <= population@.len(),
                population@.len() == population_orig.len(),
                population@.len() <= offspring@.len(),
                offspring@.len() == offspring_sorted.len(),
                forall|k: int| i <= k < offspring@.len() ==> #[trigger] offspring@[k]
                    == offspring_sorted[k],
                forall|k: int| 0 <= k < i ==> #[trigger] population@[k] == offspring_sorted[k],
            decreases population@.len() - i,
        {
            let source = element_mut(&mut offspring, i);
            let target = element_mut(population, i);
            core::mem::swap(target, source);
            i = i + 1;
        }
        proof {
            assert(population@ =~= offspring_sorted.take(population_orig.len() as int));
        }
    }
}

/// `order` lists every contestant position exactly once, ranked by
/// descending win count.
pub open spec fn rr_ranking(order: Seq<usize>, wins: Seq<u32>) -> bool {
    &&& order.len() == wins.len()
    &&& forall|k: int| 0 <= k < order.len() ==> #[trigger] order[k] < wins.len()
    &&& forall|a: int, b: int| 0 <= a < b < order.len() ==> order[a] != order[b]
    &&& forall|a: int, b: int|
        0 <= a <= b < order.len() ==> wins[order[a] as int] >= wins[order[b] as int]
}

/// Which members of one origin group stand among the first `winner_count`
/// ranked contestants.  Contestants of the group occupy the ranking
/// positions `offset..offset + group_len`.
pub open spec fn winner_flags(
    order: Seq<usize>,
    winner_count: int,
    offset: int,
    group_len: int,
) -> Seq<bool> {
    Seq::new(
        group_len as nat,
        |p: int|
            exists|k: int| 0 <= k < winner_count && #[trigger] order[k] as int == offset + p,
    )
}

/// Walk the population slots with an offspring cursor: a winning population
/// member keeps its slot, a losing slot takes the next winning offspring,
/// and a losing slot past the offspring keeps its member.
pub open spec fn rr_place<I: Individual>(
    population: Seq<I>,
    offspring: Seq<I>,
    keep: Seq<bool>,
    offspring_won: Seq<bool>,
    p: int,
    o: int,
) -> Seq<I>
    decreases population.len() - p, offspring.len() - o,
    when 0 <= p && 0 <= o
{
    if p >= population.len() {
        Seq::empty()
    } else if keep[p] {
        seq![population[p]] + rr_place(population, offspring, keep, offspring_won, p + 1, o)
    } else if o >= offspring.len() {
        seq![population[p]] + rr_place(population, offspring, keep, offspring_won, p + 1, o)
    } else if offspring_won[o] {
        seq![offspring[o]] + rr_place(population, offspring, keep, offspring_won, p + 1, o + 1)
    } else {
        rr_place(population, offspring, keep, offspring_won, p, o + 1)
    }
}

/// What any round-robin survivor step leaves behind, for a given win table
/// over the merged contestants (offspring first, then population).
pub open spec fn round_robin_outcome<I: Individual>(
    wins: Seq<u32>,
    population: Seq<I>,
    offspring: Seq<I>,
    survivors: Seq<I>,
) -> bool {
    exists|order: Seq<usize>|
        #![trigger rr_ranking(order, wins)]
        {
            &&& rr_ranking(order, wins)
            &&& survivors == rr_place(
                population,
                offspring,
                winner_flags(
                    order,
                    population.len() as int,
                    offspring.len() as int,
                    population.len() as int,
                ),
                winner_flags(order, population.len() as int, 0, offspring.len() as int),
                0,
                0,
            )
        }
}

/// Sort a list of contestant positions by the win counts they point at,
/// descending.
fn sort_indices_by_wins(wins: &Vec<u32>, indices: &mut Vec<usize>)
    requires
        forall|k: int| 0 <= k < old(indices)@.len() ==> #[trigger] old(indices)@[k] < wins@.len(),
    ensures
        final(indices)@.len() == old(indices)@.len(),
        final(indices)@.to_multiset() == old(indices)@.to_multiset(),
        forall|k: int| 0 <= k < final(indices)@.len() ==> #[trigger] final(indices)@[k]
            < wins@.len(),
        forall|a: int, b: int|
            0 <= a <= b < final(indices)@.len() ==> wins@[final(indices)@[a] as int] >= wins@[
                final(indices)@[b] as int
            ],
{
    let ghost orig = indices@;
    let mut i: usize = 1;
    while i < indices.len()
        invariant
            1 <= i,
            indices@.len() == orig.len(),
            indices@.to_multiset() == orig.to_multiset(),
            forall|k: int| 0 <= k < indices@.len() ==> #[trigger] indices@[k] < wins@.len(),
            forall|a: int, b: int|
                0 <= a <= b < i && b < indices@.len() ==> wins@[indices@[a] as int] >= wins@[
                    indices@[b] as int
                ],
        decreases indices@.len() - i,
    {
        let ghost before = indices@;
        let x = indices.remove(i);
        let ghost removed = indices@;
        let x_wins = wins[x];
        let mut j: usize = i;
        while j > 0
            invariant_except_break
                j <= i,
                i <= removed.len(),
                indices@ == removed,
                forall|k: int| 0 <= k < removed.len() ==> #[trigger] removed[k] < wins@.len(),
                x_wins == wins@[x as int],
                forall|k: int| j <= k < i ==> wins@[#[trigger] indices@[k] as int] < x_wins,
            ensures
                j <= i,
                indices@ == removed,
                forall|k: int| j <= k < i ==> wins@[#[trigger] indices@[k] as int] < x_wins,
                j > 0 ==> wins@[indices@[j - 1] as int] >= x_wins,
            decreases j,
        {
            let previous = indices[j - 1];
            if wins[previous] < x_wins {
                j = j - 1;
            } else {
                break ;
            }
        }
        indices.insert(j, x);
        proof {
            broadcast use vstd::seq_lib::group_to_multiset_ensures;

            assert(indices@ == removed.insert(j as int, x));
            assert(removed.to_multiset() =~= before.to_multiset().remove(x));
            assert(indices@.to_multiset() =~= removed.to_multiset().insert(x));
            assert(before.to_multiset().count(x) > 0);
            assert(indices@.to_multiset() =~= before.to_multiset());
            assert forall|a: int, b: int|
                0 <= a <= b < i + 1 && b < indices@.len() implies wins@[indices@[a] as int]
                >= wins@[indices@[b] as int] by {
                if a < j {
                    assert(indices@[a] == removed[a]);
                }
                if b < j {
                    assert(indices@[b] == removed[b]);
                }
                if a > j {
                    assert(indices@[a] == removed[a - 1]);
                }
                if b > j {
                    assert(indices@[b] == removed[b - 1]);
                }
                if j > 0 {
                    assert(removed[j - 1] == before[j - 1]);
                }
            }
        }
        i = i + 1;
    }
}

/// Apply one table of battle outcomes: rank all contestants by wins,
/// keep the top `population_size` of them, and swap the winning offspring
/// into the slots of the losing population members, both in ascending
/// order.
pub fn round_robin_survivors<I: Individual>(
    wins: &Vec<u32>,
    population: &mut Vec<I>,
    offspring: Vec<I>,
)
    requires
        wins@.len() == old(population)@.len() + offspring@.len(),
    ensures
        final(population)@.len() == old(population)@.len(),
        round_robin_outcome(wins@, old(population)@, offspring@, final(population)@),
{
    let ghost pop0 = population@;
    let ghost off0 = offspring@;
    let mut offspring = offspring;
    let population_size = population.len();
    let offspring_size = offspring.len();
    let merged = wins.len();
    let mut order: Vec<usize> = Vec::new();
    let mut j: usize = 0;
    while j < merged
        invariant
            j <= merged,
            order@.len() == j,
            forall|k: int| 0 <= k < j ==> #[trigger] order@[k] == k,
        decreases merged - j,
    {
        order.push(j);
        j = j + 1;
    }
    proof {
        assert(order@.no_duplicates());
        order@.lemma_multiset_has_no_duplicates();
    }
    sort_indices_by_wins(wins, &mut order);
    proof {
        order@.lemma_multiset_has_no_duplicates_conv();
        assert(rr_ranking(order@, wins@));
    }
    let mut keep_flags: Vec<bool> = Vec::new();
    let mut p: usize = 0;
    while p < population_size
        invariant
            p <= population_size,
            keep_flags@.len() == p,
            forall|q: int| 0 <= q < p ==> #[trigger] keep_flags@[q] == false,
        decreases population_size - p,
    {
        keep_flags.push(false);
        p = p + 1;
    }
    let mut offspring_flags: Vec<bool> = Vec::new();
    let mut q: usize = 0;
    while q < offspring_size
        invariant
            q <= offspring_size,
            offspring_flags@.len() == q,
            forall|m: int| 0 <= m < q ==> #[trigger] offspring_flags@[m] == false,
        decreases offspring_size - q,
    {
        offspring_flags.push(false);
        q = q + 1;
    }
    let mut k: usize = 0;
    while k < population_size
        invariant
            k <= population_size,
            population_size <= order@.len(),
            order@.len() == wins@.len(),
            wins@.len() == population_size + offspring_size,
            forall|m: int| 0 <= m < order@.len() ==> #[trigger] order@[m] < wins@.len(),
            keep_flags@.len() == population_size,
            offspring_flags@.len() == offspring_size,
            forall|q0: int|
                0 <= q0 < population_size ==> (#[trigger] keep_flags@[q0] <==> exists|k0: int|
                    0 <= k0 < k && #[trigger] order@[k0] as int == offspring_size + q0),
            forall|m0: int|
                0 <= m0 < offspring_size ==> (#[trigger] offspring_flags@[m0] <==> exists|
                    k0: int,
                |
                    0 <= k0 < k && #[trigger] order@[k0] as int == m0),
        decreases population_size - k,
    {
        let winner = order[k];
        if winner >= offspring_size {
            let ghost before = keep_flags@;
            keep_flags[winner - offspring_size] = true;
            proof {
                assert(keep_flags@ =~= before.update(winner - offspring_size, true));
            }
        } else {
            let ghost before = offspring_flags@;
            offspring_flags[winner] = true;
            proof {
                assert(offspring_flags@ =~= before.update(winner as int, true));
            }
        }
        k = k + 1;
    }
    let ghost keep = winner_flags(
        order@,
        population_size as int,
        offspring_size as int,
        population_size as int,
    );
    let ghost offspring_won = winner_flags(order@, population_size as int, 0, offspring_size as int);
    proof {
        assert(keep_flags@ =~= keep);
        assert(offspring_flags@ =~= offspring_won);
    }
    let mut p: usize = 0;
    let mut o: usize = 0;
    while p < population_size
        invariant
            p <= population_size,
            o <= offspring_size,
            population@.len() == population_size,
            offspring@.len() == offspring_size,
            pop0.len() == population_size,
            off0.len() == offspring_size,
            keep_flags@ == keep,
            offspring_flags@ == offspring_won,
            keep.len() == population_size,
            offspring_won.len() == offspring_size,
            forall|m: int| p <= m < population_size ==> #[trigger] population@[m] == pop0[m],
            forall|m: int| o <= m < offspring_size ==> #[trigger] offspring@[m] == off0[m],
            rr_place(pop0, off0, keep, offspring_won, 0, 0) == population@.take(p as int)
                + rr_place(pop0, off0, keep, offspring_won, p as int, o as int),
        decreases population_size - p, offspring_size - o,
    {
        let ghost before_pop = population@;
        if keep_flags[p] {
            proof {
                assert(rr_place(pop0, off0, keep, offspring_won, p as int, o as int) == seq![
                    pop0[p as int],
                ] + rr_place(pop0, off0, keep, offspring_won, p as int + 1, o as int));
                assert(population@.take(p as int + 1) =~= population@.take(p as int) + seq![
                    population@[p as int],
                ]);
            }
            p = p + 1;
        } else if o >= offspring_size {
            proof {
                assert(rr_place(pop0, off0, keep, offspring_won, p as int, o as int) == seq![
                    pop0[p as int],
                ] + rr_place(pop0, off0, keep, offspring_won, p as int + 1, o as int));
                assert(population@.take(p as int + 1) =~= population@.take(p as int) + seq![
                    population@[p as int],
                ]);
            }
            p = p + 1;
        } else if offspring_flags[o] {
            let source = element_mut(&mut offspring, o);
            let target = element_mut(population, p);
            core::mem::swap(target, source);
            proof {
                assert(rr_place(pop0, off0, keep, offspring_won, p as int, o as int) == seq![
                    off0[o as int],
                ] + rr_place(pop0, off0, keep, offspring_won, p as int + 1, o as int + 1));
                assert(population@.take(p as int + 1) =~= before_pop.take(p as int) + seq![
                    off0[o as int],
                ]);
                assert(population@.take(p as int) =~= before_pop.take(p as int));
            }
            p = p + 1;
            o = o + 1;
        } else {
            proof {
                assert(rr_place(pop0, off0, keep, offspring_won, p as int, o as int) == rr_place(
                    pop0,
                    off0,
                    keep,
                    offspring_won,
                    p as int,
                    o as int + 1,
                ));
            }
            o = o + 1;
        }
    }
    proof {
        assert(rr_place(pop0, off0, keep, offspring_won, population_size as int, o as int)
            =~= Seq::<I>::empty());
        assert(population@.take(population_size as int) =~= population@);
        assert(population@ =~= rr_place(pop0, off0, keep, offspring_won, 0, 0));
        assert(rr_ranking(order@, wins@));
    }
}

/// The fitness of merged contestant `j`: the offspring come first, then the
/// population.
pub open spec fn merged_fitness<I: Individual>(
    population: Seq<I>,
    offspring: Seq<I>,
    j: int,
) -> int {
    if j < offspring.len() {
        offspring[j].spec_fitness() as int
    } else {
        population[j - offspring.len()].spec_fitness() as int
    }
}

/// How many rivals of the list contestant `n` beats outright (strictly
/// better fitness).
pub open spec fn beaten_count<I: Individual>(
    population: Seq<I>,
    offspring: Seq<I>,
    n: int,
    rivals: Seq<usize>,
) -> int
    decreases rivals.len(),
{
    if rivals.len() == 0 {
        0
    } else {
        beaten_count(population, offspring, n, rivals.drop_last()) + (if merged_fitness(
            population,
            offspring,
            rivals.last() as int,
        ) < merged_fitness(population, offspring, n) {
            1int
        } else {
            0int
        })
    }
}

/// A full rival draw for contestant `n`: as many pairwise-distinct other
/// contestants as asked for and available, never `n` itself.
pub open spec fn rival_draw_ok(
    rivals: Seq<usize>,
    n: int,
    merged: int,
    number_rivals: int,
) -> bool {
    &&& rivals.len() == (if number_rivals < merged - 1 {
        number_rivals
    } else {
        merged - 1
    })
    &&& forall|m: int|
        0 <= m < rivals.len() ==> #[trigger] rivals[m] < merged && rivals[m] != n
    &&& forall|a: int, b: int| 0 <= a < b < rivals.len() ==> rivals[a] != rivals[b]
}

/// `win` counts the battles contestant `n` wins against one full rival
/// draw.
pub open spec fn win_entry_ok<I: Individual>(
    population: Seq<I>,
    offspring: Seq<I>,
    number_rivals: int,
    n: int,
    win: u32,
) -> bool {
    exists|rivals: Seq<usize>|
        #![trigger rival_draw_ok(rivals, n, population.len() + offspring.len() as int, number_rivals)]
        rival_draw_ok(rivals, n, population.len() + offspring.len() as int, number_rivals) && win
            == beaten_count(population, offspring, n, rivals)
}

/// Every win count is the number of battles won against one full rival
/// draw.
pub open spec fn battle_wins_ok<I: Individual>(
    wins: Seq<u32>,
    population: Seq<I>,
    offspring: Seq<I>,
    number_rivals: int,
) -> bool {
    &&& wins.len() == population.len() + offspring.len()
    &&& forall|n: int|
        0 <= n < wins.len() ==> win_entry_ok(
            population,
            offspring,
            number_rivals,
            n,
            #[trigger] wins[n],
        )
}

/// Merge population and offspring into one contestant pool; every
/// contestant battles a random sample of rivals, scoring a win for each
/// strictly worse fitness; the contestants with the most wins survive,
/// winning offspring taking the slots of losing population members.
pub struct RoundRobinTournament {
    pub number_rivals: usize,
}

impl<I: Individual> SurvivorSelector<I> for RoundRobinTournament {
    open spec fn selection_pre(&self, population: Seq<I>, offspring: Seq<I>) -> bool {
        &&& population.len() + offspring.len() <= usize::MAX
        &&& self.number_rivals <= u32::MAX
    }

    open spec fn selection_post(&self, population: Seq<I>, offspring: Seq<I>, survivors: Seq<I>) -> bool {
        &&& survivors.len() == population.len()
        &&& exists|wins: Seq<u32>|
            #![trigger round_robin_outcome(wins, population, offspring, survivors)]
            {
                &&& battle_wins_ok(wins, population, offspring, self.number_rivals as int)
                &&& round_robin_outcome(wins, population, offspring, survivors)
            }
    }

    fn select(&self, rng: &mut rand::rngs::StdRng, population: &mut Vec<I>, offspring: Vec<I>) {
        let ghost pop0 = population@;
        let ghost off0 = offspring@;
        let population_size = population.len();
        let offspring_size = offspring.len();
        let merged = offspring_size + population_size;
        let mut fitnesses: Vec<i64> = Vec::new();
        let mut j: usize = 0;
        while j < offspring_size
            invariant
                j <= offspring_size,
                offspring_size == off0.len(),
                offspring@ == off0,
                fitnesses@.len() == j,
                forall|q: int| 0 <= q < j ==> #[trigger] fitnesses@[q] == off0[q].spec_fitness(),
            decreases offspring_size - j,
        {
            let fitness = offspring[j].fitness();
            fitnesses.push(fitness);
            j = j + 1;
        }
        let mut j: usize = 0;
        while j < population_size
            invariant
                j <= population_size,
                population_size == pop0.len(),
                offspring_size == off0.len(),
                population@ == pop0,
                fitnesses@.len() == offspring_size + j,
                forall|q: int|
                    0 <= q < offspring_size ==> #[trigger] fitnesses@[q] == off0[
                        q
                    ].spec_fitness(),
                forall|q: int|
                    0 <= q < j ==> #[trigger] fitnesses@[offspring_size + q] == pop0[
                        q
                    ].spec_fitness(),
            decreases population_size - j,
        {
            let fitness = population[j].fitness();
            fitnesses.push(fitness);
            j = j + 1;
        }
        assert forall|q: int| 0 <= q < merged implies #[trigger] fitnesses@[q] == merged_fitness(
            pop0,
            off0,
            q,
        ) by {
            if q >= offspring_size {
                assert(fitnesses@[offspring_size + (q - offspring_size)] == pop0[(q
                    - offspring_size) as int].spec_fitness());
            }
        }
        let mut wins: Vec<u32> = Vec::new();
        let mut n: usize = 0;
        while n < merged
            invariant
                n <= merged,
                merged == fitnesses@.len(),
                merged == pop0.len() + off0.len(),
                self.number_rivals <= u32::MAX,
                forall|q: int|
                    0 <= q < merged ==> #[trigger] fitnesses@[q] == merged_fitness(pop0, off0, q),
                wins@.len() == n,
                forall|q: int|
                    0 <= q < n ==> win_entry_ok(
                        pop0,
                        off0,
                        self.number_rivals as int,
                        q,
                        #[trigger] wins@[q],
                    ),
            decreases merged - n,
        {
            let available = merged - 1;
            let want = if self.number_rivals < available {
                self.number_rivals
            } else {
                available
            };
            let drawn = sample_distinct_indices(rng, available, want);
            let ghost mut rivals: Seq<usize> = Seq::empty();
            let mut count: u32 = 0;
            let mut m: usize = 0;
            while m < drawn.len()
                invariant
                    m <= drawn@.len(),
                    drawn@.len() == want,
                    want <= self.number_rivals,
                    self.number_rivals <= u32::MAX,
                    n < merged,
                    merged == fitnesses@.len(),
                    merged == pop0.len() + off0.len(),
                    forall|q: int|
                        0 <= q < merged ==> #[trigger] fitnesses@[q] == merged_fitness(
                            pop0,
                            off0,
                            q,
                        ),
                    forall|k: int| 0 <= k < drawn@.len() ==> #[trigger] drawn@[k] < merged - 1,
                    forall|a: int, b: int| 0 <= a < b < drawn@.len() ==> drawn@[a] != drawn@[b],
                    rivals.len() == m,
                    forall|q: int|
                        0 <= q < m ==> #[trigger] rivals[q] == (if drawn@[q] >= n {
                            (drawn@[q] + 1) as usize
                        } else {
                            drawn@[q]
                        }),
                    forall|q: int|
                        0 <= q < m ==> #[trigger] rivals[q] < merged && rivals[q] != n,
                    count <= m,
                    count == beaten_count(pop0, off0, n as int, rivals),
                decreases drawn@.len() - m,
            {
                let r = drawn[m];
                // Reindex past the contestant itself, so rivals never
                // include it.
                let rival = if r >= n {
                    r + 1
                } else {
                    r
                };
                let ghost before = rivals;
                proof {
                    rivals = rivals.push(rival);
                    assert(rivals.drop_last() =~= before);
                    assert(rivals.last() == rival);
                }
                if fitnesses[n] > fitnesses[rival] {
                    count = count + 1;
                }
                m = m + 1;
            }
            proof {
                assert forall|a: int, b: int| 0 <= a < b < rivals.len() implies rivals[a]
                    != rivals[b] by {
                    assert(drawn@[a] != drawn@[b]);
                    if drawn@[a] < n && drawn@[b] < n {
                    } else if drawn@[a] >= n && drawn@[b] >= n {
                    } else {
                        assert(rivals[a] <= n - 1 || rivals[a] >= n + 1);
                    }
                }
                assert(rival_draw_ok(
                    rivals,
                    n as int,
                    pop0.len() + off0.len() as int,
                    self.number_rivals as int,
                ));
            }
            let ghost wins_before = wins@;
            wins.push(count);
            proof {
                assert(win_entry_ok(pop0, off0, self.number_rivals as int, n as int, count));
                assert forall|q: int| 0 <= q < n as int + 1 implies win_entry_ok(
                    pop0,
                    off0,
                    self.number_rivals as int,
                    q,
                    #[trigger] wins@[q],
                ) by {
                    if q == n as int {
                        assert(wins@[q] == count);
                    } else {
                        assert(wins@[q] == wins_before[q]);
                    }
                }
            }
            n = n + 1;
        }
        proof {
            assert(battle_wins_ok(wins@, pop0, off0, self.number_rivals as int));
        }
        round_robin_survivors(&wins, population, offspring);
    }
}

} // verus!
