//! Bit-level recombination: one-point, n-point and uniform masks over
//! sixty-four-bit patterns, with the mask-inversion law.

use vstd::prelude::*;

use crate::recombination::Recombinator;
use crate::rng::{rand_bits, rand_index, sample_distinct_indices};

verus! {

/// Bit-level recombination of one child: the bits of `first` where `mask`
/// is set, the bits of `second` elsewhere.
pub open spec fn spec_mask_combine(first: u64, second: u64, mask: u64) -> u64 {
    (first & mask) | (second & !mask)
}

/// Combine two bit patterns through a mask: the bits of `first` where the
/// mask is set, the bits of `second` elsewhere.
pub fn mask_combine(first: u64, second: u64, mask: u64) -> (r: u64)
    ensures
        r == spec_mask_combine(first, second, mask),
{
    (first & mask) | (second & !mask)
}

/// The pair of children that a bit mask carves out of two parents.
pub open spec fn mask_children(parent_1: u64, parent_2: u64, mask: u64, child_1: u64, child_2: u64) -> bool {
    &&& child_1 == spec_mask_combine(parent_1, parent_2, mask)
    &&& child_2 == spec_mask_combine(parent_2, parent_1, mask)
}

/// Mask recombination undoes itself: recombining the two children with the
/// same mask reproduces the parents exactly, and recombining them with the
/// complementary mask reproduces the parents in swapped order.  (Drawing a
/// fresh random mask instead is not guaranteed to reproduce anything.)
pub proof fn lemma_mask_recombination_inverse(parent_1: u64, parent_2: u64, mask: u64)
    ensures
        spec_mask_combine(
            spec_mask_combine(parent_1, parent_2, mask),
            spec_mask_combine(parent_2, parent_1, mask),
            mask,
        ) == parent_1,
        spec_mask_combine(
            spec_mask_combine(parent_2, parent_1, mask),
            spec_mask_combine(parent_1, parent_2, mask),
            mask,
        ) == parent_2,
        spec_mask_combine(
            spec_mask_combine(parent_1, parent_2, mask),
            spec_mask_combine(parent_2, parent_1, mask),
            !mask,
        ) == parent_2,
        spec_mask_combine(
            spec_mask_combine(parent_2, parent_1, mask),
            spec_mask_combine(parent_1, parent_2, mask),
            !mask,
        ) == parent_1,
{
    assert((((parent_1 & mask) | (parent_2 & !mask)) & mask) | (((parent_2 & mask) | (parent_1
        & !mask)) & !mask) == parent_1) by (bit_vector);
    assert((((parent_2 & mask) | (parent_1 & !mask)) & mask) | (((parent_1 & mask) | (parent_2
        & !mask)) & !mask) == parent_2) by (bit_vector);
    assert((((parent_1 & mask) | (parent_2 & !mask)) & !mask) | (((parent_2 & mask) | (parent_1
        & !mask)) & !!mask) == parent_2) by (bit_vector);
    assert((((parent_2 & mask) | (parent_1 & !mask)) & !mask) | (((parent_1 & mask) | (parent_2
        & !mask)) & !!mask) == parent_1) by (bit_vector);
}

/// Split both parents' bit patterns at one random position in `[1, 63]`:
/// each child takes one parent's high bits and the other parent's low bits.
pub struct OnePoint;

impl Recombinator<u64> for OnePoint {
    open spec fn recombination_pre(&self, parent_1: u64, parent_2: u64) -> bool {
        true
    }

    open spec fn recombination_post(&self, parent_1: u64, parent_2: u64, child_1: u64, child_2: u64) -> bool {
        exists|point: u64|
            #![auto]
            1 <= point < 64 && mask_children(parent_1, parent_2, !0u64 << point, child_1, child_2)
    }

    fn recombine(&self, rng: &mut rand::rngs::StdRng, parent_1: &u64, parent_2: &u64) -> (children:
        (u64, u64)) {
        let point = (rand_index(rng, 63) + 1) as u64;
        let mask = !0u64 << point;
        let child_1 = (*parent_1 & mask) | (*parent_2 & !mask);
        let child_2 = (*parent_2 & mask) | (*parent_1 & !mask);
        proof {
            assert(mask_children(*parent_1, *parent_2, !0u64 << point, child_1, child_2));
        }
        (child_1, child_2)
    }
}

/// The mask with the bits of `[low, low + width)` set.
pub open spec fn spec_span_mask(low: u32, width: u32) -> u64 {
    !(!0u64 << width) << low
}

/// The alternation mask built from a sorted list of crossover points with
/// the sentinels `0` and `64` at its ends: every second span contributes its
/// bits.
pub open spec fn spec_npoint_mask(points: Seq<u32>, w: int) -> u64
    decreases points.len() - w,
        when 0 <= w
{
    if w + 1 < points.len() {
        spec_span_mask(points[w], (points[w + 1] - points[w]) as u32) | spec_npoint_mask(
            points,
            w + 2,
        )
    } else {
        0u64
    }
}

/// Split both parents' bit patterns at `points` distinct random positions
/// and alternate which parent contributes each span.
pub struct NPoint {
    pub points: usize,
}

impl NPoint {
    pub fn new(points: usize) -> (r: NPoint)
        ensures
            r.points == points,
    {
        NPoint { points }
    }
}

impl Recombinator<u64> for NPoint {
    open spec fn recombination_pre(&self, parent_1: u64, parent_2: u64) -> bool {
        self.points >= 1
    }

    open spec fn recombination_post(&self, parent_1: u64, parent_2: u64, child_1: u64, child_2: u64) -> bool {
        exists|points: Seq<u32>|
            #![auto]
            {
                &&& points.len() == (if self.points < 63 {
                    self.points + 2
                } else {
                    65int
                })
                &&& points[0] == 0
                &&& points.last() == 64
                &&& forall|a: int, b: int| 0 <= a < b < points.len() ==> points[a] < points[b]
                &&& mask_children(
                    parent_1,
                    parent_2,
                    spec_npoint_mask(points, 0),
                    child_1,
                    child_2,
                )
            }
    }

    fn recombine(&self, rng: &mut rand::rngs::StdRng, parent_1: &u64, parent_2: &u64) -> (children:
        (u64, u64)) {
        let amount = if self.points < 63 {
            self.points
        } else {
            63
        };
        let drawn = sample_distinct_indices(rng, 63, amount);
        let mut points: Vec<u32> = Vec::new();
        let mut i: usize = 0;
        while i < drawn.len()
            invariant
                i <= drawn@.len(),
                points@.len() == i,
                forall|k: int| 0 <= k < drawn@.len() ==> #[trigger] drawn@[k] < 63,
                forall|k: int, l: int| 0 <= k < l < drawn@.len() ==> drawn@[k] != drawn@[l],
                forall|k: int| 0 <= k < i ==> #[trigger] points@[k] == drawn@[k] + 1,
                forall|k: int| 0 <= k < i ==> 1 <= #[trigger] points@[k] < 64,
                forall|k: int, l: int| 0 <= k < l < i ==> points@[k] != points@[l],
            decreases drawn@.len() - i,
        {
            points.push((drawn[i] + 1) as u32);
            i = i + 1;
        }
        points.push(0);
        points.push(64);
        let ghost unsorted = points@;
        proof {
            broadcast use vstd::seq_lib::group_to_multiset_ensures;

            let n = unsorted.len() - 2;
            assert forall|a: int, b: int| 0 <= a < b < unsorted.len() implies unsorted[a]
                != unsorted[b] by {
                if b < n {
                } else if b == n {
                    assert(unsorted[b] == 0 && unsorted[a] >= 1);
                } else {
                    assert(unsorted[b] == 64 && (a == n || unsorted[a] < 64));
                }
            }
            assert(unsorted.no_duplicates());
            unsorted.lemma_multiset_has_no_duplicates();
        }
        crate::sorting::sort_u32(&mut points);
        proof {
            broadcast use vstd::seq_lib::group_to_multiset_ensures;

            assert forall|k: int| 0 <= k < points@.len() implies #[trigger] points@[k] <= 64 by {
                assert(points@.contains(points@[k]));
                assert(points@.to_multiset().count(points@[k]) > 0);
                assert(unsorted.to_multiset().count(points@[k]) > 0);
                assert(unsorted.contains(points@[k]));
                let at = choose|m: int| 0 <= m < unsorted.len() && unsorted[m] == points@[k];
                assert(unsorted[at] <= 64);
            }
            points@.lemma_multiset_has_no_duplicates_conv();
            lemma_sorted_distinct(points@);
        }
        let mask = build_npoint_mask(&points);
        let child_1 = (*parent_1 & mask) | (*parent_2 & !mask);
        let child_2 = (*parent_2 & mask) | (*parent_1 & !mask);
        proof {
            broadcast use vstd::seq_lib::group_to_multiset_ensures;

            assert(points@[0] == 0 && points@.last() == 64) by {
                assert(unsorted.contains(0u32) && unsorted.contains(64u32));
                assert(unsorted.to_multiset().count(0u32) > 0);
                assert(unsorted.to_multiset().count(64u32) > 0);
                assert(points@.to_multiset().count(0u32) > 0);
                assert(points@.to_multiset().count(64u32) > 0);
                assert(points@.contains(0u32) && points@.contains(64u32));
                let zero_at = choose|k: int| 0 <= k < points@.len() && points@[k] == 0u32;
                let top_at = choose|k: int| 0 <= k < points@.len() && points@[k] == 64u32;
                if zero_at != 0 {
                    assert(points@[0] < points@[zero_at]);
                }
                if top_at != points@.len() - 1 {
                    assert(points@[top_at] < points@.last());
                }
            }
            assert(points@.len() == (if self.points < 63 {
                self.points + 2
            } else {
                65int
            }));
            assert(mask_children(
                *parent_1,
                *parent_2,
                spec_npoint_mask(points@, 0),
                child_1,
                child_2,
            ));
        }
        (child_1, child_2)
    }
}

/// A strictly increasing sequence has no duplicates; here, a sorted
/// sequence of pairwise-distinct values is strictly increasing.
proof fn lemma_sorted_distinct(points: Seq<u32>)
    requires
        forall|a: int, b: int| 0 <= a <= b < points.len() ==> points[a] <= points[b],
        forall|a: int, b: int| 0 <= a < b < points.len() ==> points[a] != points[b],
    ensures
        forall|a: int, b: int| 0 <= a < b < points.len() ==> points[a] < points[b],
{
}

/// Collect the alternating span masks of a sorted point list.
fn build_npoint_mask(points: &Vec<u32>) -> (mask: u64)
    requires
        points@.len() >= 3,
        forall|a: int, b: int| 0 <= a < b < points@.len() ==> points@[a] < points@[b],
        forall|k: int| 0 <= k < points@.len() ==> #[trigger] points@[k] <= 64,
    ensures
        mask == spec_npoint_mask(points@, 0),
{
    let mut accumulated: u64 = 0;
    let mut w: usize = 0;
    proof {
        let ghost whole = spec_npoint_mask(points@, 0);
        assert(0u64 | whole == whole) by (bit_vector);
    }
    while w < points.len() - 1
        invariant
            points@.len() >= 3,
            forall|a: int, b: int| 0 <= a < b < points@.len() ==> points@[a] < points@[b],
            forall|k: int| 0 <= k < points@.len() ==> #[trigger] points@[k] <= 64,
            spec_npoint_mask(points@, 0) == accumulated | spec_npoint_mask(points@, w as int),
            w <= points@.len() + 1,
        decreases points@.len() + 2 - w,
    {
        let left = points[w];
        let right = points[w + 1];
        proof {
            assert(left < right);
            if left == 0 && right == 64 {
                assert(points@[1] > points@[0] && points@[points@.len() - 1] > points@[1]);
                if w as int == 0 {
                    assert(points@[1] < 64 || points@.len() == 2);
                } else {
                    assert(points@[0] < points@[w as int]);
                }
            }
            assert(right - left < 64);
            assert(left < 64);
        }
        let width = right - left;
        let span = !(!0u64 << width) << left;
        proof {
            let ghost acc = accumulated;
            let ghost rest = spec_npoint_mask(points@, w + 2);
            assert(acc | (span | rest) == (acc | span) | rest) by (bit_vector);
        }
        accumulated = accumulated | span;
        w = w + 2;
    }
    proof {
        assert(spec_npoint_mask(points@, w as int) == 0);
        let ghost acc = accumulated;
        assert(acc | 0u64 == acc) by (bit_vector);
    }
    accumulated
}

/// Build a mask from sixty-four fair coin flips; children combine the
/// parents' bits through it.
pub struct Uniform;

impl Recombinator<u64> for Uniform {
    open spec fn recombination_pre(&self, parent_1: u64, parent_2: u64) -> bool {
        true
    }

    open spec fn recombination_post(&self, parent_1: u64, parent_2: u64, child_1: u64, child_2: u64) -> bool {
        exists|mask: u64| #![auto] mask_children(parent_1, parent_2, mask, child_1, child_2)
    }

    fn recombine(&self, rng: &mut rand::rngs::StdRng, parent_1: &u64, parent_2: &u64) -> (children:
        (u64, u64)) {
        let mask = rand_bits(rng);
        let child_1 = (*parent_1 & mask) | (*parent_2 & !mask);
        let child_2 = (*parent_2 & mask) | (*parent_1 & !mask);
        proof {
            assert(mask_children(*parent_1, *parent_2, mask, child_1, child_2));
        }
        (child_1, child_2)
    }
}

} // verus!
