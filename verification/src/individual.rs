//! The individual abstraction: fitness and age capabilities, the concrete
//! bounded-vector individual, and the lifts of genotype operators onto
//! individuals.

use vstd::prelude::*;

use crate::mutation::Mutator;
use crate::parameter::BoundedVector;
use crate::recombination::Recombinator;
use core::cmp::Ordering;

verus! {

/// The capability contract of one candidate solution: fitness and age can be
/// read and replaced, individuals can be compared by either, and a faithful
/// copy can be taken.  The fitness type is the totally ordered `i64`, so the
/// derived comparisons are always defined.
pub trait Individual: Sized {
    /// The fitness this individual carries.
    spec fn spec_fitness(&self) -> i64;

    /// The age this individual carries.
    spec fn spec_age(&self) -> u32;

    /// `post` is `pre` with its fitness replaced by `fitness` and everything
    /// else kept.
    spec fn fitness_replaced(pre: Self, fitness: i64, post: Self) -> bool;

    /// `post` is `pre` with its age replaced by `age` and everything else
    /// kept.
    spec fn age_replaced(pre: Self, age: u32, post: Self) -> bool;

    /// `copy` carries the same genotype, fitness and age as `self`.
    spec fn duplicates(&self, copy: &Self) -> bool;

    proof fn lemma_fitness_replaced(pre: Self, fitness: i64, post: Self)
        requires
            Self::fitness_replaced(pre, fitness, post),
        ensures
            post.spec_fitness() == fitness,
            post.spec_age() == pre.spec_age(),
    ;

    proof fn lemma_age_replaced(pre: Self, age: u32, post: Self)
        requires
            Self::age_replaced(pre, age, post),
        ensures
            post.spec_age() == age,
            post.spec_fitness() == pre.spec_fitness(),
    ;

    proof fn lemma_duplicates(a: Self, b: Self)
        requires
            a.duplicates(&b),
        ensures
            b.spec_fitness() == a.spec_fitness(),
            b.spec_age() == a.spec_age(),
    ;

    fn fitness(&self) -> (r: i64)
        ensures
            r == self.spec_fitness(),
    ;

    fn set_fitness(&mut self, fitness: i64)
        ensures
            Self::fitness_replaced(*old(self), fitness, *final(self)),
    ;

    fn age(&self) -> (r: u32)
        ensures
            r == self.spec_age(),
    ;

    fn set_age(&mut self, age: u32)
        ensures
            Self::age_replaced(*old(self), age, *final(self)),
    ;

    /// Order two individuals by fitness.
    fn compare_fitness(&self, other: &Self) -> (r: Ordering)
        ensures
            r == spec_order(self.spec_fitness() as int, other.spec_fitness() as int),
    ;

    /// Order two individuals by age.
    fn compare_age(&self, other: &Self) -> (r: Ordering)
        ensures
            r == spec_order(self.spec_age() as int, other.spec_age() as int),
    ;

    /// A faithful copy of this individual.
    fn duplicate(&self) -> (r: Self)
        ensures
            self.duplicates(&r),
    ;
}

/// The ordering of two mathematical integers.
pub open spec fn spec_order(a: int, b: int) -> Ordering {
    if a < b {
        Ordering::Less
    } else if a == b {
        Ordering::Equal
    } else {
        Ordering::Greater
    }
}

/// An individual whose genotype is one bounded numeric vector.
pub struct BoundedVectorIndividual {
    pub vector: BoundedVector,
    pub fitness: i64,
    pub age: u32,
}

impl BoundedVectorIndividual {
    /// The genotype this individual wraps.
    pub open spec fn spec_vector(&self) -> &BoundedVector {
        &self.vector
    }

    pub fn vector(&self) -> (r: &BoundedVector)
        ensures
            r == self.spec_vector(),
    {
        &self.vector
    }

    /// Wrap a genotype with default fitness and age zero.
    pub fn new(vector: BoundedVector) -> (r: BoundedVectorIndividual)
        ensures
            r.spec_vector() == vector,
            r.spec_fitness() == 0,
            r.spec_age() == 0,
    {
        BoundedVectorIndividual { vector, fitness: 0, age: 0 }
    }
}

impl Individual for BoundedVectorIndividual {
    open spec fn spec_fitness(&self) -> i64 {
        self.fitness
    }

    open spec fn spec_age(&self) -> u32 {
        self.age
    }

    open spec fn fitness_replaced(pre: Self, fitness: i64, post: Self) -> bool {
        &&& post.vector == pre.vector
        &&& post.fitness == fitness
        &&& post.age == pre.age
    }

    open spec fn age_replaced(pre: Self, age: u32, post: Self) -> bool {
        &&& post.vector == pre.vector
        &&& post.fitness == pre.fitness
        &&& post.age == age
    }

    open spec fn duplicates(&self, copy: &Self) -> bool {
        &&& copy.vector.min_value == self.vector.min_value
        &&& copy.vector.max_value == self.vector.max_value
        &&& copy.vector.value@ == self.vector.value@
        &&& copy.fitness == self.fitness
        &&& copy.age == self.age
    }

    proof fn lemma_fitness_replaced(pre: Self, fitness: i64, post: Self) {
    }

    proof fn lemma_age_replaced(pre: Self, age: u32, post: Self) {
    }

    proof fn lemma_duplicates(a: Self, b: Self) {
    }

    fn fitness(&self) -> (r: i64) {
        self.fitness
    }

    fn set_fitness(&mut self, fitness: i64) {
        self.fitness = fitness;
    }

    fn age(&self) -> (r: u32) {
        self.age
    }

    fn set_age(&mut self, age: u32) {
        self.age = age;
    }

    fn compare_fitness(&self, other: &Self) -> (r: Ordering) {
        if self.fitness < other.fitness {
            Ordering::Less
        } else if self.fitness == other.fitness {
            Ordering::Equal
        } else {
            Ordering::Greater
        }
    }

    fn compare_age(&self, other: &Self) -> (r: Ordering) {
        if self.age < other.age {
            Ordering::Less
        } else if self.age == other.age {
            Ordering::Equal
        } else {
            Ordering::Greater
        }
    }

    fn duplicate(&self) -> (r: Self) {
        BoundedVectorIndividual {
            vector: self.vector.duplicate(),
            fitness: self.fitness,
            age: self.age,
        }
    }
}

/// Lifts a mutator on bounded vectors to one on bounded-vector individuals:
/// the genotype is mutated, fitness and age are left untouched.
pub struct BoundedVectorIndividualMutator<M: Mutator<BoundedVector>> {
    pub vector_mutator: M,
}

impl<M: Mutator<BoundedVector>> BoundedVectorIndividualMutator<M> {
    /// Which vector mutator this wrapper applies.
    pub open spec fn spec_vector_mutator(&self) -> &M {
        &self.vector_mutator
    }

    pub fn new(vector_mutator: M) -> (r: BoundedVectorIndividualMutator<M>)
        ensures
            r.spec_vector_mutator() == vector_mutator,
    {
        BoundedVectorIndividualMutator { vector_mutator }
    }
}

impl<M: Mutator<BoundedVector>> Mutator<BoundedVectorIndividual> for BoundedVectorIndividualMutator<
    M,
> {
    open spec fn mutation_pre(&self, parameter: BoundedVectorIndividual) -> bool {
        self.vector_mutator.mutation_pre(*parameter.spec_vector())
    }

    open spec fn mutation_post(&self, pre: BoundedVectorIndividual, post: BoundedVectorIndividual) -> bool {
        &&& self.vector_mutator.mutation_post(*pre.spec_vector(), *post.spec_vector())
        &&& post.spec_fitness() == pre.spec_fitness()
        &&& post.spec_age() == pre.spec_age()
    }

    fn mutate(&self, rng: &mut rand::rngs::StdRng, parameter: &mut BoundedVectorIndividual) {
        self.vector_mutator.mutate(rng, &mut parameter.vector);
    }
}

/// Lifts a recombinator on bounded vectors to one on bounded-vector
/// individuals: the parents' genotypes are recombined and each child starts
/// with default fitness and age zero.
pub struct BoundedVectorIndividualRecombinator<R: Recombinator<BoundedVector>> {
    pub vector_recombinator: R,
}

impl<R: Recombinator<BoundedVector>> BoundedVectorIndividualRecombinator<R> {
    /// Which vector recombinator this wrapper applies.
    pub open spec fn spec_vector_recombinator(&self) -> &R {
        &self.vector_recombinator
    }

    pub fn new(vector_recombinator: R) -> (r: BoundedVectorIndividualRecombinator<R>)
        ensures
            r.spec_vector_recombinator() == vector_recombinator,
    {
        BoundedVectorIndividualRecombinator { vector_recombinator }
    }
}

impl<R: Recombinator<BoundedVector>> Recombinator<BoundedVectorIndividual> for BoundedVectorIndividualRecombinator<
    R,
> {
    open spec fn recombination_pre(
        &self,
        parent_1: BoundedVectorIndividual,
        parent_2: BoundedVectorIndividual,
    ) -> bool {
        self.vector_recombinator.recombination_pre(
            *parent_1.spec_vector(),
            *parent_2.spec_vector(),
        )
    }

    open spec fn recombination_post(
        &self,
        parent_1: BoundedVectorIndividual,
        parent_2: BoundedVectorIndividual,
        child_1: BoundedVectorIndividual,
        child_2: BoundedVectorIndividual,
    ) -> bool {
        &&& self.vector_recombinator.recombination_post(
            *parent_1.spec_vector(),
            *parent_2.spec_vector(),
            *child_1.spec_vector(),
            *child_2.spec_vector(),
        )
        &&& child_1.spec_fitness() == 0 && child_1.spec_age() == 0
        &&& child_2.spec_fitness() == 0 && child_2.spec_age() == 0
    }

    fn recombine(
        &self,
        rng: &mut rand::rngs::StdRng,
        parent_1: &BoundedVectorIndividual,
        parent_2: &BoundedVectorIndividual,
    ) -> (children: (BoundedVectorIndividual, BoundedVectorIndividual)) {
        let (vector_1, vector_2) = self.vector_recombinator.recombine(
            rng,
            &parent_1.vector,
            &parent_2.vector,
        );
        (BoundedVectorIndividual::new(vector_1), BoundedVectorIndividual::new(vector_2))
    }
}

} // verus!
