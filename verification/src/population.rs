//! The population container and the island model: aging, fitness
//! assignment, random initialization, and conservation-checked migration.

use vstd::prelude::*;
use vstd::multiset::Multiset;

use crate::individual::{BoundedVectorIndividual, Individual};
use crate::parameter::BoundedVector;
use crate::rng::{rand_index, rand_i64_between, shuffle};
use crate::sorting::{sort_by_fitness, sorted_ascending_by_fitness, sorted_descending_by_fitness};

verus! {

/// How individuals are ordered within each island before a migration swap.
pub enum MigrationType {
    /// Shuffle each island, so a random selection migrates.
    Random,
    /// Sort each island best-first, so the best individuals migrate.
    Best,
    /// Sort each island worst-first, so the worst individuals migrate.
    Worst,
}

/// An ordered collection of individuals evolved together.
pub struct Population<I: Individual> {
    pub individuals: Vec<I>,
}

/// A mutable borrow of one element of a vector.
fn element_mut<T>(values: &mut Vec<T>, index: usize) -> (element: &mut T)
    requires
        index < old(values)@.len(),
    ensures
        *element == old(values)@[index as int],
        final(values)@ == old(values)@.update(index as int, *final(element)),
{
    &mut values[index]
}

/// All individuals held across an archipelago, as one multiset.
pub open spec fn islands_individuals<I: Individual>(archipelago: Seq<Population<I>>) -> Multiset<
    I,
>
    decreases archipelago.len(),
{
    if archipelago.len() == 0 {
        Multiset::empty()
    } else {
        islands_individuals(archipelago.drop_last()).add(
            archipelago.last().individuals@.to_multiset(),
        )
    }
}

/// The island sizes across an archipelago, in island order.
pub open spec fn island_sizes<I: Individual>(archipelago: Seq<Population<I>>) -> Seq<int> {
    archipelago.map_values(|island: Population<I>| island.individuals@.len() as int)
}

/// The first migration stage: the island order, kept as it was or
/// rearranged into some permutation when a shuffle was asked for.
pub open spec fn islands_arranged<I: Individual>(
    before: Seq<Population<I>>,
    after: Seq<Population<I>>,
    shuffled: bool,
) -> bool {
    &&& after.len() == before.len()
    &&& if shuffled {
        after.to_multiset() == before.to_multiset()
    } else {
        after == before
    }
}

/// One island after the second migration stage: the same individuals,
/// sorted best-first for `Best`, worst-first for `Worst`, and in some order
/// for `Random`.
pub open spec fn island_reordered<I: Individual>(
    before: Population<I>,
    after: Population<I>,
    migration_type: MigrationType,
) -> bool {
    &&& after.individuals@.len() == before.individuals@.len()
    &&& after.individuals@.to_multiset() == before.individuals@.to_multiset()
    &&& matches!(migration_type, MigrationType::Best) ==> sorted_descending_by_fitness(
        after.individuals@,
    )
    &&& matches!(migration_type, MigrationType::Worst) ==> sorted_ascending_by_fitness(
        after.individuals@,
    )
}

/// The second migration stage, island by island.
pub open spec fn islands_reordered<I: Individual>(
    before: Seq<Population<I>>,
    after: Seq<Population<I>>,
    migration_type: MigrationType,
) -> bool {
    &&& after.len() == before.len()
    &&& forall|i: int|
        0 <= i < before.len() ==> island_reordered(before[i], #[trigger] after[i], migration_type)
}

/// The third migration stage: swapping the first `k` individuals of each
/// adjacent pair in turn rotates the front blocks one island backward, so
/// every island's front block comes from its successor and the last
/// island's from the first.
pub open spec fn front_blocks_rotated<I: Individual>(
    before: Seq<Population<I>>,
    after: Seq<Population<I>>,
    k: int,
) -> bool {
    &&& after.len() == before.len()
    &&& forall|i: int|
        0 <= i < before.len() ==> (#[trigger] after[i]).individuals@ == before[
            if i + 1 < before.len() {
                i + 1
            } else {
                0
            }
        ].individuals@.take(k) + before[i].individuals@.skip(k)
}

/// Taking one island out takes exactly its individuals out of the total.
proof fn lemma_islands_individuals_remove<I: Individual>(archipelago: Seq<Population<I>>, i: int)
    requires
        0 <= i < archipelago.len(),
    ensures
        islands_individuals(archipelago) =~= islands_individuals(archipelago.remove(i)).add(
            archipelago[i].individuals@.to_multiset(),
        ),
    decreases archipelago.len(),
{
    if i == archipelago.len() - 1 {
        assert(archipelago.remove(i) =~= archipelago.drop_last());
    } else {
        assert(archipelago.remove(i).drop_last() =~= archipelago.drop_last().remove(i));
        assert(archipelago.remove(i).last() == archipelago.last());
        lemma_islands_individuals_remove(archipelago.drop_last(), i);
        assert(archipelago.drop_last()[i] == archipelago[i]);
    }
}

/// Putting one island in adds exactly its individuals to the total.
proof fn lemma_islands_individuals_insert<I: Individual>(
    archipelago: Seq<Population<I>>,
    i: int,
    island: Population<I>,
)
    requires
        0 <= i <= archipelago.len(),
    ensures
        islands_individuals(archipelago.insert(i, island)) =~= islands_individuals(
            archipelago,
        ).add(island.individuals@.to_multiset()),
{
    lemma_islands_individuals_remove(archipelago.insert(i, island), i);
    assert(archipelago.insert(i, island).remove(i) =~= archipelago);
    assert(archipelago.insert(i, island)[i] == island);
}

impl<I: Individual> Population<I> {
    /// The individuals this population holds, in order.
    pub open spec fn spec_individuals(&self) -> Seq<I> {
        self.individuals@
    }

    /// Wrap an explicit list of individuals.
    pub fn new_from_individuals(individuals: Vec<I>) -> (r: Population<I>)
        ensures
            r.spec_individuals() == individuals@,
    {
        Population { individuals }
    }

    /// Read access to the individuals.
    pub fn individuals(&self) -> (r: &Vec<I>)
        ensures
            r@ == self.spec_individuals(),
    {
        &self.individuals
    }

    /// Write access to the individuals.
    pub fn individuals_mut(&mut self) -> (r: &mut Vec<I>)
        ensures
            *r == old(self).individuals,
            final(self).individuals == *final(r),
    {
        &mut self.individuals
    }

    /// Assign `fitnesses[i]` to individual `i`.  The two lists must have the
    /// same length; a caller handing a mismatched list has broken the
    /// population invariant and is rejected up front.
    pub fn set_fitnesses(&mut self, fitnesses: &Vec<i64>)
        requires
            fitnesses@.len() == old(self).spec_individuals().len(),
        ensures
            final(self).spec_individuals().len() == old(self).spec_individuals().len(),
            forall|i: int|
                0 <= i < fitnesses@.len() ==> I::fitness_replaced(
                    old(self).spec_individuals()[i],
                    fitnesses@[i],
                    #[trigger] final(self).spec_individuals()[i],
                ),
    {
        let ghost orig = self.individuals@;
        let mut i: usize = 0;
        while i < self.individuals.len()
            invariant
                i <= self.individuals@.len(),
                self.individuals@.len() == orig.len(),
                fitnesses@.len() == orig.len(),
                forall|k: int| i <= k < orig.len() ==> self.individuals@[k] == orig[k],
                forall|k: int|
                    0 <= k < i ==> I::fitness_replaced(
                        orig[k],
                        fitnesses@[k],
                        #[trigger] self.individuals@[k],
                    ),
            decreases self.individuals@.len() - i,
        {
            let individual = element_mut(&mut self.individuals, i);
            individual.set_fitness(fitnesses[i]);
            i = i + 1;
        }
    }

    /// Advance every individual's age by one generation.
    pub fn increment_ages(&mut self)
        requires
            forall|i: int|
                0 <= i < old(self).spec_individuals().len() ==> (#[trigger] old(
                    self,
                ).spec_individuals()[i]).spec_age() < u32::MAX,
        ensures
            final(self).spec_individuals().len() == old(self).spec_individuals().len(),
            forall|i: int|
                0 <= i < old(self).spec_individuals().len() ==> I::age_replaced(
                    old(self).spec_individuals()[i],
                    (old(self).spec_individuals()[i].spec_age() + 1) as u32,
                    #[trigger] final(self).spec_individuals()[i],
                ),
    {
        let ghost orig = self.individuals@;
        assert(forall|k: int|
            0 <= k < orig.len() ==> (#[trigger] orig[k]).spec_age() < u32::MAX) by {
            assert(orig == old(self).spec_individuals());
        }
        let mut i: usize = 0;
        while i < self.individuals.len()
            invariant
                i <= self.individuals@.len(),
                self.individuals@.len() == orig.len(),
                forall|k: int| i <= k < orig.len() ==> self.individuals@[k] == orig[k],
                forall|k: int|
                    0 <= k < orig.len() ==> (#[trigger] orig[k]).spec_age() < u32::MAX,
                forall|k: int|
                    0 <= k < i ==> I::age_replaced(
                        orig[k],
                        (orig[k].spec_age() + 1) as u32,
                        #[trigger] self.individuals@[k],
                    ),
            decreases self.individuals@.len() - i,
        {
            let current: &I = &self.individuals[i];
            let age = current.age();
            assert(self.individuals@[i as int] == orig[i as int]);
            assert(orig[i as int].spec_age() < u32::MAX);
            assert(age < u32::MAX);
            let individual = element_mut(&mut self.individuals, i);
            individual.set_age(age + 1);
            i = i + 1;
        }
    }

    /// Exchange individuals along a chain of islands.  Island order is
    /// optionally shuffled, each island is reordered according to
    /// `migration_type`, and each adjacent pair of islands then swaps its
    /// first `number_swap` individuals in place, which rotates the front
    /// blocks one island backward.  The chain is open: the last island does
    /// not swap back into the first.
    ///
    /// Whatever was drawn, the total multiset of individuals across the
    /// archipelago and the multiset of island sizes are both preserved.
    pub fn migrate(
        rng: &mut rand::rngs::StdRng,
        archipelago: &mut Vec<Population<I>>,
        number_swap: usize,
        migration_type: MigrationType,
        shuffle_islands: bool,
    )
        requires
            forall|i: int|
                0 <= i < old(archipelago)@.len() ==> number_swap <= (#[trigger] old(
                    archipelago,
                )@[i]).individuals@.len(),
        ensures
            final(archipelago)@.len() == old(archipelago)@.len(),
            islands_individuals(final(archipelago)@) == islands_individuals(old(archipelago)@),
            island_sizes(final(archipelago)@).to_multiset() == island_sizes(
                old(archipelago)@,
            ).to_multiset(),
            exists|arranged: Seq<Population<I>>, reordered: Seq<Population<I>>|
                #![trigger islands_arranged(old(archipelago)@, arranged, shuffle_islands), islands_reordered(arranged, reordered, migration_type)]
                {
                    &&& islands_arranged(old(archipelago)@, arranged, shuffle_islands)
                    &&& islands_reordered(arranged, reordered, migration_type)
                    &&& front_blocks_rotated(
                        reordered,
                        final(archipelago)@,
                        number_swap as int,
                    )
                },
    {
        let ghost orig_total = islands_individuals(archipelago@);
        let ghost orig_sizes = island_sizes(archipelago@).to_multiset();
        let ghost orig_len = archipelago@.len();
        let ghost ns = number_swap as int;

        // Randomized or fixed ring topology.
        if shuffle_islands {
            shuffle_archipelago(rng, archipelago);
        }
        let ghost arranged = archipelago@;
        proof {
            assert(islands_arranged(old(archipelago)@, arranged, shuffle_islands));
        }
        // Reorder each island so the migrating prefix is random, best or
        // worst.
        let mut k: usize = 0;
        while k < archipelago.len()
            invariant
                k <= archipelago@.len(),
                archipelago@.len() == orig_len,
                arranged.len() == orig_len,
                islands_individuals(archipelago@) == orig_total,
                island_sizes(archipelago@).to_multiset() == orig_sizes,
                forall|i: int|
                    0 <= i < archipelago@.len() ==> number_swap <= (
                    #[trigger] archipelago@[i]).individuals@.len(),
                forall|i: int| k <= i < orig_len ==> #[trigger] archipelago@[i] == arranged[i],
                forall|i: int|
                    0 <= i < k ==> island_reordered(
                        arranged[i],
                        #[trigger] archipelago@[i],
                        migration_type,
                    ),
            decreases archipelago@.len() - k,
        {
            let ghost before = archipelago@;
            let island = element_mut(archipelago, k);
            let ghost island_before = *island;
            match migration_type {
                MigrationType::Random => {
                    shuffle(rng, &mut island.individuals);
                },
                MigrationType::Best => {
                    sort_by_fitness(&mut island.individuals, true);
                },
                MigrationType::Worst => {
                    sort_by_fitness(&mut island.individuals, false);
                },
            }
            proof {
                lemma_update_island_preserves_totals(
                    before,
                    k as int,
                    archipelago@[k as int],
                );
                assert(island_sizes(archipelago@) =~= island_sizes(before));
                assert(island_reordered(
                    arranged[k as int],
                    archipelago@[k as int],
                    migration_type,
                ));
            }
            k = k + 1;
        }
        let ghost reordered = archipelago@;
        proof {
            assert(islands_reordered(arranged, reordered, migration_type));
            assert(forall|t: int|
                0 <= t < orig_len ==> number_swap <= (
                #[trigger] reordered[t]).individuals@.len());
        }
        // Walk the chain; each adjacent pair swaps its migrating prefix.
        if archipelago.len() == 0 {
            proof {
                assert(front_blocks_rotated(reordered, archipelago@, ns));
            }
            return ;
        }
        let mut i: usize = 0;
        while i < archipelago.len() - 1
            invariant
                archipelago@.len() >= 1,
                archipelago@.len() == orig_len,
                reordered.len() == orig_len,
                ns == number_swap as int,
                0 <= i < orig_len,
                islands_individuals(archipelago@) == orig_total,
                island_sizes(archipelago@).to_multiset() == orig_sizes,
                forall|j: int|
                    0 <= j < archipelago@.len() ==> number_swap <= (
                    #[trigger] archipelago@[j]).individuals@.len(),
                forall|t: int|
                    0 <= t < orig_len ==> number_swap <= (
                    #[trigger] reordered[t]).individuals@.len(),
                forall|t: int|
                    0 <= t < i ==> (#[trigger] archipelago@[t]).individuals@ == reordered[t
                        + 1].individuals@.take(ns) + reordered[t].individuals@.skip(ns),
                i == 0 ==> archipelago@[0].individuals@ == reordered[0].individuals@,
                i >= 1 ==> archipelago@[i as int].individuals@ == reordered[
                    0
                ].individuals@.take(ns) + reordered[i as int].individuals@.skip(ns),
                forall|t: int| i < t < orig_len ==> #[trigger] archipelago@[t] == reordered[t],
            decreases archipelago@.len() - i,
        {
            let ghost before = archipelago@;
            let mut first = archipelago.remove(i);
            let mut second = archipelago.remove(i);
            let ghost first_before = first.individuals@;
            let ghost second_before = second.individuals@;
            swap_prefixes(&mut first.individuals, &mut second.individuals, number_swap);
            archipelago.insert(i, second);
            archipelago.insert(i, first);
            proof {
                lemma_swap_pair_preserves_totals(
                    before,
                    archipelago@,
                    i as int,
                    first,
                    second,
                );
                assert(archipelago@ =~= before.update(i as int, first).update(
                    i as int + 1,
                    second,
                ));
                assert(second_before == reordered[i as int + 1].individuals@);
                if i == 0 {
                    assert(first_before.skip(ns) == reordered[0].individuals@.skip(ns));
                    assert(first_before.take(ns) =~= reordered[0].individuals@.take(ns));
                } else {
                    assert(first_before == reordered[0].individuals@.take(ns) + reordered[
                        i as int
                    ].individuals@.skip(ns));
                    assert(reordered[0].individuals@.take(ns).len() == ns);
                    assert(first_before.skip(ns) =~= reordered[
                        i as int
                    ].individuals@.skip(ns));
                    assert(first_before.take(ns) =~= reordered[0].individuals@.take(ns));
                }
                assert(archipelago@[i as int].individuals@ == reordered[i as int
                    + 1].individuals@.take(ns) + reordered[i as int].individuals@.skip(ns));
                assert(archipelago@[i as int + 1].individuals@ == reordered[
                    0
                ].individuals@.take(ns) + reordered[i as int + 1].individuals@.skip(ns));
            }
            i = i + 1;
        }
        proof {
            assert forall|t: int|
                0 <= t < orig_len implies (#[trigger] archipelago@[t]).individuals@ == reordered[
                if t + 1 < orig_len {
                    t + 1
                } else {
                    0
                }
            ].individuals@.take(ns) + reordered[t].individuals@.skip(ns) by {
                if t == orig_len - 1 {
                    if orig_len == 1 {
                        assert(archipelago@[0].individuals@ =~= reordered[
                            0
                        ].individuals@.take(ns) + reordered[0].individuals@.skip(ns));
                    }
                }
            }
            assert(front_blocks_rotated(reordered, archipelago@, ns));
        }
    }
}

/// Put the islands of an archipelago into a uniformly random order by a
/// Fisher-Yates pass of verified element swaps.
fn shuffle_archipelago<I: Individual>(
    rng: &mut rand::rngs::StdRng,
    archipelago: &mut Vec<Population<I>>,
)
    ensures
        final(archipelago)@.len() == old(archipelago)@.len(),
        final(archipelago)@.to_multiset() == old(archipelago)@.to_multiset(),
        islands_individuals(final(archipelago)@) == islands_individuals(old(archipelago)@),
        island_sizes(final(archipelago)@).to_multiset() == island_sizes(
            old(archipelago)@,
        ).to_multiset(),
        forall|i: int|
            0 <= i < final(archipelago)@.len() ==> exists|j: int|
                0 <= j < old(archipelago)@.len() && #[trigger] final(archipelago)@[i] == old(
                    archipelago,
                )@[j],
{
    let ghost orig = archipelago@;
    let mut k: usize = archipelago.len();
    while k > 1
        invariant
            k <= archipelago@.len(),
            archipelago@.len() == orig.len(),
            archipelago@.to_multiset() == orig.to_multiset(),
            islands_individuals(archipelago@) == islands_individuals(orig),
            island_sizes(archipelago@).to_multiset() == island_sizes(orig).to_multiset(),
            forall|i: int|
                0 <= i < archipelago@.len() ==> exists|j: int|
                    0 <= j < orig.len() && #[trigger] archipelago@[i] == orig[j],
        decreases k,
    {
        let target = k - 1;
        let source = rand_index(rng, k);
        if source != target {
            let ghost before = archipelago@;
            let (low, high) = if source < target {
                (source, target)
            } else {
                (target, source)
            };
            let island_high = archipelago.remove(high);
            let island_low = archipelago.remove(low);
            archipelago.insert(low, island_high);
            archipelago.insert(high, island_low);
            proof {
                lemma_swap_islands_preserves_totals(
                    before,
                    archipelago@,
                    low as int,
                    high as int,
                );
            }
        }
        k = k - 1;
    }
}

/// Replacing one island by a reordering of itself (same individuals, same
/// size) leaves both archipelago totals unchanged.
proof fn lemma_update_island_preserves_totals<I: Individual>(
    before: Seq<Population<I>>,
    k: int,
    updated: Population<I>,
)
    requires
        0 <= k < before.len(),
        updated.individuals@.to_multiset() == before[k].individuals@.to_multiset(),
        updated.individuals@.len() == before[k].individuals@.len(),
    ensures
        islands_individuals(before.update(k, updated)) == islands_individuals(before),
{
    let after = before.update(k, updated);
    lemma_islands_individuals_remove(after, k);
    lemma_islands_individuals_remove(before, k);
    assert(after.remove(k) =~= before.remove(k));
    assert(islands_individuals(after).add(Multiset::empty()) =~= islands_individuals(before).add(
        Multiset::empty(),
    ));
}

/// Swapping two whole islands leaves both archipelago totals unchanged.
proof fn lemma_swap_islands_preserves_totals<I: Individual>(
    before: Seq<Population<I>>,
    after: Seq<Population<I>>,
    low: int,
    high: int,
)
    requires
        0 <= low < high < before.len(),
        after == before.remove(high).remove(low).insert(low, before[high]).insert(
            high,
            before[low],
        ),
    ensures
        after.to_multiset() == before.to_multiset(),
        islands_individuals(after) == islands_individuals(before),
        island_sizes(after).to_multiset() == island_sizes(before).to_multiset(),
        forall|i: int|
            0 <= i < after.len() ==> exists|j: int|
                0 <= j < before.len() && #[trigger] after[i] == before[j],
{
    assert(after =~= before.update(low, before[high]).update(high, before[low]));
    lemma_seq_multiset_swap(before, low, high);
    let middle = before.remove(high).remove(low);
    lemma_islands_individuals_remove(before, high);
    lemma_islands_individuals_remove(before.remove(high), low);
    assert(before.remove(high)[low] == before[low]);
    lemma_islands_individuals_insert(middle, low, before[high]);
    lemma_islands_individuals_insert(
        middle.insert(low, before[high]),
        high,
        before[low],
    );
    assert(islands_individuals(after) =~= islands_individuals(before));
    assert(island_sizes(after).to_multiset() =~= island_sizes(before).to_multiset()) by {
        assert(island_sizes(after) =~= island_sizes(before).update(
            low,
            island_sizes(before)[high],
        ).update(high, island_sizes(before)[low]));
        lemma_seq_multiset_swap(island_sizes(before), low, high);
    }
    assert forall|i: int| 0 <= i < after.len() implies exists|j: int|
        0 <= j < before.len() && #[trigger] after[i] == before[j] by {
        if i == low {
            assert(after[i] == before[high]);
        } else if i == high {
            assert(after[i] == before[low]);
        } else {
            assert(after[i] == before[i]);
        }
    }
}

/// Swapping two positions of a sequence keeps its multiset.
proof fn lemma_seq_multiset_swap<A>(s: Seq<A>, low: int, high: int)
    requires
        0 <= low < high < s.len(),
    ensures
        s.update(low, s[high]).update(high, s[low]).to_multiset() == s.to_multiset(),
{
    broadcast use vstd::seq_lib::group_to_multiset_ensures;

    let swapped = s.update(low, s[high]).update(high, s[low]);
    assert(swapped =~= s.remove(high).remove(low).insert(low, s[high]).insert(high, s[low]));
    assert(s.remove(high).remove(low).insert(low, s[high]).insert(high, s[low]).to_multiset()
        =~= s.to_multiset()) by {
        assert(s.remove(high).to_multiset() =~= s.to_multiset().remove(s[high]));
        assert(s.remove(high)[low] == s[low]);
        assert(s.remove(high).remove(low).to_multiset() =~= s.remove(high).to_multiset().remove(
            s[low],
        ));
        assert(s.to_multiset().count(s[high]) > 0);
        assert(s.remove(high).to_multiset().count(s[low]) > 0) by {
            assert(s.remove(high).contains(s[low]));
        }
    }
}

/// Swapping matched prefixes between two adjacent islands leaves both
/// archipelago totals unchanged.
proof fn lemma_swap_pair_preserves_totals<I: Individual>(
    before: Seq<Population<I>>,
    after: Seq<Population<I>>,
    i: int,
    first: Population<I>,
    second: Population<I>,
)
    requires
        0 <= i,
        i + 1 < before.len(),
        after == before.remove(i).remove(i).insert(i, second).insert(i, first),
        first.individuals@.to_multiset().add(second.individuals@.to_multiset())
            == before[i].individuals@.to_multiset().add(before[i + 1].individuals@.to_multiset()),
        first.individuals@.len() == before[i].individuals@.len(),
        second.individuals@.len() == before[i + 1].individuals@.len(),
    ensures
        islands_individuals(after) == islands_individuals(before),
        island_sizes(after).to_multiset() == island_sizes(before).to_multiset(),
        after.len() == before.len(),
{
    let middle = before.remove(i).remove(i);
    lemma_islands_individuals_remove(before, i);
    lemma_islands_individuals_remove(before.remove(i), i);
    assert(before.remove(i)[i] == before[i + 1]);
    lemma_islands_individuals_insert(middle, i, second);
    lemma_islands_individuals_insert(middle.insert(i, second), i, first);
    assert(islands_individuals(after) == islands_individuals(middle).add(
        second.individuals@.to_multiset(),
    ).add(first.individuals@.to_multiset()));
    assert(islands_individuals(before) == islands_individuals(middle).add(
        before[i + 1].individuals@.to_multiset(),
    ).add(before[i].individuals@.to_multiset()));
    assert forall|x: I| islands_individuals(after).count(x) == islands_individuals(before).count(
        x,
    ) by {
        let core = islands_individuals(middle);
        let first_part = first.individuals@.to_multiset();
        let second_part = second.individuals@.to_multiset();
        let left_part = before[i].individuals@.to_multiset();
        let right_part = before[i + 1].individuals@.to_multiset();
        assert(first_part.add(second_part).count(x) == left_part.add(right_part).count(x));
        assert(core.add(second_part).add(first_part).count(x) == core.add(second_part).count(x)
            + first_part.count(x));
        assert(core.add(second_part).count(x) == core.count(x) + second_part.count(x));
        assert(core.add(right_part).add(left_part).count(x) == core.add(right_part).count(x)
            + left_part.count(x));
        assert(core.add(right_part).count(x) == core.count(x) + right_part.count(x));
    }
    assert(islands_individuals(after) =~= islands_individuals(before));
    assert(island_sizes(after) =~= island_sizes(before).update(i, first.individuals@.len() as int)
        .update(i + 1, second.individuals@.len() as int));
    assert(island_sizes(after) =~= island_sizes(before));
}

/// Swap the first `count` elements of two vectors, element by element and in
/// place.
fn swap_prefixes<T>(first: &mut Vec<T>, second: &mut Vec<T>, count: usize)
    requires
        count <= old(first)@.len(),
        count <= old(second)@.len(),
    ensures
        final(first)@ =~= old(second)@.subrange(0, count as int) + old(first)@.skip(count as int),
        final(second)@ =~= old(first)@.subrange(0, count as int) + old(second)@.skip(count as int),
        final(first)@.len() == old(first)@.len(),
        final(second)@.len() == old(second)@.len(),
        final(first)@.to_multiset().add(final(second)@.to_multiset()) == old(
            first,
        )@.to_multiset().add(old(second)@.to_multiset()),
{
    let ghost first_orig = first@;
    let ghost second_orig = second@;
    let mut j: usize = 0;
    while j < count
        invariant
            j <= count,
            count <= first_orig.len(),
            count <= second_orig.len(),
            first@.len() == first_orig.len(),
            second@.len() == second_orig.len(),
            forall|k: int| 0 <= k < j ==> #[trigger] first@[k] == second_orig[k],
            forall|k: int| 0 <= k < j ==> #[trigger] second@[k] == first_orig[k],
            forall|k: int| j <= k < first_orig.len() ==> #[trigger] first@[k] == first_orig[k],
            forall|k: int| j <= k < second_orig.len() ==> #[trigger] second@[k] == second_orig[k],
        decreases count - j,
    {
        let first_element = element_mut(first, j);
        let second_element = element_mut(second, j);
        core::mem::swap(first_element, second_element);
        j = j + 1;
    }
    proof {
        assert(first@ =~= second_orig.subrange(0, count as int) + first_orig.skip(count as int));
        assert(second@ =~= first_orig.subrange(0, count as int) + second_orig.skip(count as int));
        lemma_prefix_swap_multisets(first_orig, second_orig, count as int);
    }
}

/// Exchanging matched prefixes preserves the union multiset of two
/// sequences.
proof fn lemma_prefix_swap_multisets<T>(first: Seq<T>, second: Seq<T>, count: int)
    requires
        0 <= count <= first.len(),
        count <= second.len(),
    ensures
        (second.subrange(0, count) + first.skip(count)).to_multiset().add(
            (first.subrange(0, count) + second.skip(count)).to_multiset(),
        ) == first.to_multiset().add(second.to_multiset()),
{
    vstd::seq_lib::lemma_multiset_commutative(second.subrange(0, count), first.skip(count));
    vstd::seq_lib::lemma_multiset_commutative(first.subrange(0, count), second.skip(count));
    assert(first =~= first.subrange(0, count) + first.skip(count));
    assert(second =~= second.subrange(0, count) + second.skip(count));
    vstd::seq_lib::lemma_multiset_commutative(first.subrange(0, count), first.skip(count));
    vstd::seq_lib::lemma_multiset_commutative(second.subrange(0, count), second.skip(count));
    assert((second.subrange(0, count) + first.skip(count)).to_multiset().add(
        (first.subrange(0, count) + second.skip(count)).to_multiset(),
    ) =~= first.to_multiset().add(second.to_multiset()));
}

impl Population<BoundedVectorIndividual> {
    /// Build a population of `size` individuals whose genotypes hold
    /// `length` values drawn uniformly from `[min_value, max_value]`, with
    /// default fitness and age zero.
    pub fn new(
        rng: &mut rand::rngs::StdRng,
        min_value: i64,
        max_value: i64,
        length: usize,
        size: usize,
    ) -> (r: Population<BoundedVectorIndividual>)
        requires
            min_value <= max_value,
        ensures
            r.spec_individuals().len() == size,
            forall|i: int|
                0 <= i < size ==> {
                    let individual = #[trigger] r.spec_individuals()[i];
                    &&& individual.spec_vector().min_value == min_value
                    &&& individual.spec_vector().max_value == max_value
                    &&& individual.spec_vector().value@.len() == length
                    &&& individual.spec_vector().well_formed()
                    &&& individual.spec_fitness() == 0
                    &&& individual.spec_age() == 0
                },
    {
        let mut individuals: Vec<BoundedVectorIndividual> = Vec::new();
        let mut n: usize = 0;
        while n < size
            invariant
                n <= size,
                min_value <= max_value,
                individuals@.len() == n,
                forall|i: int|
                    0 <= i < n ==> {
                        let individual = #[trigger] individuals@[i];
                        &&& individual.spec_vector().min_value == min_value
                        &&& individual.spec_vector().max_value == max_value
                        &&& individual.spec_vector().value@.len() == length
                        &&& individual.spec_vector().well_formed()
                        &&& individual.spec_fitness() == 0
                        &&& individual.spec_age() == 0
                    },
            decreases size - n,
        {
            let mut value: Vec<i64> = Vec::new();
            let mut j: usize = 0;
            while j < length
                invariant
                    j <= length,
                    min_value <= max_value,
                    value@.len() == j,
                    forall|k: int| 0 <= k < j ==> min_value <= #[trigger] value@[k] <= max_value,
                decreases length - j,
            {
                value.push(rand_i64_between(rng, min_value, max_value));
                j = j + 1;
            }
            let vector = BoundedVector { min_value, max_value, value };
            individuals.push(BoundedVectorIndividual::new(vector));
            n = n + 1;
        }
        Population::new_from_individuals(individuals)
    }
}

} // verus!
