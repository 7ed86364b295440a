//! Verified insertion sorts shared by selection and migration.

use vstd::prelude::*;

use crate::individual::Individual;

verus! {

/// Fitness never decreases along the sequence.
pub open spec fn sorted_ascending_by_fitness<I: Individual>(s: Seq<I>) -> bool {
    forall|a: int, b: int|
        0 <= a <= b < s.len() ==> #[trigger] s[a].spec_fitness() <= #[trigger] s[b].spec_fitness()
}

/// Fitness never increases along the sequence.
pub open spec fn sorted_descending_by_fitness<I: Individual>(s: Seq<I>) -> bool {
    forall|a: int, b: int|
        0 <= a <= b < s.len() ==> #[trigger] s[a].spec_fitness() >= #[trigger] s[b].spec_fitness()
}

/// Where a value of the given fitness belongs in the sorted prefix
/// `v[0..upto]`: every element at or after the returned position sorts
/// strictly after the value.
fn insertion_point<I: Individual>(v: &Vec<I>, upto: usize, fitness: i64, descending: bool) -> (j:
    usize)
    requires
        upto <= v@.len(),
    ensures
        j <= upto,
        !descending ==> forall|k: int|
            j <= k < upto ==> #[trigger] v@[k].spec_fitness() > fitness,
        descending ==> forall|k: int| j <= k < upto ==> #[trigger] v@[k].spec_fitness() < fitness,
        !descending && j > 0 ==> v@[j - 1].spec_fitness() <= fitness,
        descending && j > 0 ==> v@[j - 1].spec_fitness() >= fitness,
{
    let mut j: usize = upto;
    while j > 0
        invariant
            j <= upto,
            upto <= v@.len(),
            !descending ==> forall|k: int|
                j <= k < upto ==> #[trigger] v@[k].spec_fitness() > fitness,
            descending ==> forall|k: int|
                j <= k < upto ==> #[trigger] v@[k].spec_fitness() < fitness,
        decreases j,
    {
        let previous = &v[j - 1];
        let previous_fitness = previous.fitness();
        let goes_after = if descending {
            previous_fitness < fitness
        } else {
            previous_fitness > fitness
        };
        if goes_after {
            j = j - 1;
        } else {
            return j;
        }
    }
    j
}

/// In-place insertion sort by fitness: the vector afterwards holds the same
/// individuals, ordered ascending or descending as asked.
pub fn sort_by_fitness<I: Individual>(v: &mut Vec<I>, descending: bool)
    ensures
        final(v)@.len() == old(v)@.len(),
        final(v)@.to_multiset() == old(v)@.to_multiset(),
        !descending ==> sorted_ascending_by_fitness(final(v)@),
        descending ==> sorted_descending_by_fitness(final(v)@),
{
    let ghost orig = v@;
    let mut i: usize = 1;
    while i < v.len()
        invariant
            1 <= i,
            v@.len() == orig.len(),
            v@.to_multiset() == orig.to_multiset(),
            forall|a: int, b: int|
                0 <= a <= b < i && b < v@.len() ==> (if descending {
                    v@[a].spec_fitness() >= v@[b].spec_fitness()
                } else {
                    v@[a].spec_fitness() <= v@[b].spec_fitness()
                }),
        decreases v@.len() - i,
    {
        let ghost before = v@;
        let x = v.remove(i);
        let ghost removed = v@;
        let x_fitness = x.fitness();
        let j = insertion_point(v, i, x_fitness, descending);
        v.insert(j, x);
        proof {
            broadcast use vstd::seq_lib::group_to_multiset_ensures;

            assert(v@ == removed.insert(j as int, x));
            assert(removed.to_multiset() =~= before.to_multiset().remove(x));
            assert(v@.to_multiset() =~= removed.to_multiset().insert(x));
            assert(before.to_multiset().count(x) > 0);
            assert(v@.to_multiset() =~= before.to_multiset());
            assert forall|a: int, b: int|
                0 <= a <= b < i + 1 && b < v@.len() implies (if descending {
                v@[a].spec_fitness() >= v@[b].spec_fitness()
            } else {
                v@[a].spec_fitness() <= v@[b].spec_fitness()
            }) by {
                if a < j {
                    assert(v@[a] == removed[a]);
                }
                if b < j {
                    assert(v@[b] == removed[b]);
                }
                if a > j {
                    assert(v@[a] == removed[a - 1]);
                }
                if b > j {
                    assert(v@[b] == removed[b - 1]);
                }
                if j > 0 {
                    assert(removed[j - 1] == before[j - 1]);
                }
            }
        }
        i = i + 1;
    }
}

/// In-place insertion sort of raw values, ascending.
pub fn sort_u32(v: &mut Vec<u32>)
    ensures
        final(v)@.len() == old(v)@.len(),
        final(v)@.to_multiset() == old(v)@.to_multiset(),
        forall|a: int, b: int| 0 <= a <= b < final(v)@.len() ==> final(v)@[a] <= final(v)@[b],
{
    let ghost orig = v@;
    let mut i: usize = 1;
    while i < v.len()
        invariant
            1 <= i,
            v@.len() == orig.len(),
            v@.to_multiset() == orig.to_multiset(),
            forall|a: int, b: int| 0 <= a <= b < i && b < v@.len() ==> v@[a] <= v@[b],
        decreases v@.len() - i,
    {
        let ghost before = v@;
        let x = v.remove(i);
        let ghost removed = v@;
        let mut j: usize = i;
        while j > 0
            invariant_except_break
                j <= i,
                i <= removed.len(),
                v@ == removed,
                forall|k: int| j <= k < i ==> #[trigger] v@[k] > x,
            ensures
                j <= i,
                v@ == removed,
                forall|k: int| j <= k < i ==> #[trigger] v@[k] > x,
                j > 0 ==> v@[j - 1] <= x,
            decreases j,
        {
            if v[j - 1] > x {
                j = j - 1;
            } else {
                break ;
            }
        }
        v.insert(j, x);
        proof {
            broadcast use vstd::seq_lib::group_to_multiset_ensures;

            assert(v@ == removed.insert(j as int, x));
            assert(removed.to_multiset() =~= before.to_multiset().remove(x));
            assert(v@.to_multiset() =~= removed.to_multiset().insert(x));
            assert(before.to_multiset().count(x) > 0);
            assert(v@.to_multiset() =~= before.to_multiset());
            assert forall|a: int, b: int| 0 <= a <= b < i + 1 && b < v@.len() implies v@[a]
                <= v@[b] by {
                if a < j {
                    assert(v@[a] == removed[a]);
                }
                if b < j {
                    assert(v@[b] == removed[b]);
                }
                if a > j {
                    assert(v@[a] == removed[a - 1]);
                }
                if b > j {
                    assert(v@[b] == removed[b - 1]);
                }
                if j > 0 {
                    assert(removed[j - 1] == before[j - 1]);
                }
            }
        }
        i = i + 1;
    }
}

} // verus!
