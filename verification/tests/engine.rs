use rand::rngs::StdRng;
use rand::SeedableRng;

use metaheurustics::individual::{
    BoundedVectorIndividual, BoundedVectorIndividualMutator, BoundedVectorIndividualRecombinator,
    Individual,
};
use metaheurustics::mutation::integer::{BitFlip, RandomResetting, SimpleCreep};
use metaheurustics::mutation::{add_noise_clamped, LogNormal, Mutator, SimpleGaussian, UniformMutator};
use metaheurustics::parameter::{BoundedValue, BoundedVector, SelfAdaptiveGaussianVector};
use metaheurustics::population::Population;
use metaheurustics::ratio::{Probability, Ratio};
use metaheurustics::recombination::integer::{mask_combine, NPoint, OnePoint, Uniform};
use metaheurustics::recombination::{
    BlendCrossover, Discrete, Recombinator, SelfAdaptiveGaussianVectorRecombinator,
    SimpleArithmetic, SingleArithmetic, WholeArithmetic,
};
use metaheurustics::selection::parent::{ParentSelector, UniformSelector};
use metaheurustics::selection::survivor::{ReplaceWorstSelector, SurvivorSelector};

fn bent_cigar(x: &[i64]) -> i64 {
    let sum: f64 = x[1..].iter().map(|v| (*v as f64) * (*v as f64)).sum();
    let value = (x[0] as f64) * (x[0] as f64) + 1e6 * sum;
    value as i64
}

#[test]
fn test_random_resetting() {
    let mut rng: StdRng = SeedableRng::seed_from_u64(1234);
    let mut parameter = 0;
    let mutator = RandomResetting::new(Probability::new(1, 1), 0, 10);
    mutator.mutate(&mut rng, &mut parameter);
    assert!((0..=10).contains(&parameter));
}

#[test]
fn test_simple_creep() {
    let mut rng: StdRng = SeedableRng::seed_from_u64(1234);
    let mut parameter = 0;
    let mutator = SimpleCreep::new(Probability::new(1, 1), 0, 10, 1);
    mutator.mutate(&mut rng, &mut parameter);
    assert!((0..=10).contains(&parameter));
}

#[test]
fn test_improvement_per_epoch() {
    let mut rng: StdRng = SeedableRng::seed_from_u64(1234);
    let evaluate = |x: &[i64]| -> i64 { -bent_cigar(x) };
    let alpha = Probability::new(1, 2);
    let mutation_probability = Probability::new(1, 100);
    let replacement_rate = Probability::new(9, 10);

    let parent_selector = UniformSelector::new();
    let recombinator = BoundedVectorIndividualRecombinator::new(SingleArithmetic::new(alpha));
    let mutator = BoundedVectorIndividualMutator::new(UniformMutator::new(mutation_probability));
    let survivor_selector = ReplaceWorstSelector::new(replacement_rate);

    let mut population = Population::new(&mut rng, -100, 100, 10, 1000);

    for individual in population.individuals_mut().iter_mut() {
        let fitness = evaluate(&individual.vector().value);
        individual.set_fitness(fitness);
    }

    let mut last_max_fitness = population
        .individuals()
        .iter()
        .map(|individual| individual.fitness())
        .max()
        .unwrap();
    for _ in 0..100 {
        let size = population.individuals().len();
        let mating_pool = parent_selector.select(&mut rng, population.individuals(), size);

        let mut offspring = Vec::new();
        for pair in mating_pool.chunks(2) {
            if pair.len() == 2 {
                let (child_1, child_2) = recombinator.recombine(&mut rng, &pair[0], &pair[1]);
                offspring.push(child_1);
                offspring.push(child_2);
            }
        }

        for individual in offspring.iter_mut() {
            mutator.mutate(&mut rng, individual);
            let fitness = evaluate(&individual.vector().value);
            individual.set_fitness(fitness);
        }

        survivor_selector.select(&mut rng, population.individuals_mut(), offspring);

        let max_fitness = population
            .individuals()
            .iter()
            .map(|individual| individual.fitness())
            .max()
            .unwrap();

        assert!(max_fitness >= last_max_fitness);
        last_max_fitness = max_fitness;
    }
}

#[test]
fn bounded_mutators_stay_within_bounds() {
    let mut rng: StdRng = SeedableRng::seed_from_u64(7);
    for _ in 0..200 {
        let mut value = 5i64;
        BitFlip::new(Probability::new(1, 2), 64, -17, 23).mutate(&mut rng, &mut value);
        assert!((-17..=23).contains(&value));

        let mut value = -3i64;
        RandomResetting::new(Probability::new(1, 2), -8, 8).mutate(&mut rng, &mut value);
        assert!((-8..=8).contains(&value));

        let mut value = 7i64;
        SimpleCreep::new(Probability::new(1, 2), 0, 10, 4).mutate(&mut rng, &mut value);
        assert!((0..=10).contains(&value));

        let mut vector = BoundedVector {
            min_value: -5,
            max_value: 5,
            value: vec![-5, 0, 5, 2],
        };
        UniformMutator::new(Probability::new(1, 1)).mutate(&mut rng, &mut vector);
        assert!(vector.value.iter().all(|v| (-5..=5).contains(v)));
    }
}

#[test]
fn random_resetting_probability_extremes() {
    let mut rng: StdRng = SeedableRng::seed_from_u64(99);
    for _ in 0..100 {
        // Probability one always draws a fresh value within the bounds,
        // even when the current value lies outside them.
        let mut value = 20i64;
        RandomResetting::new(Probability::always(), 0, 10).mutate(&mut rng, &mut value);
        assert!((0..=10).contains(&value));

        // Probability zero leaves the value untouched.
        let mut value = 20i64;
        RandomResetting::new(Probability::never(), 0, 10).mutate(&mut rng, &mut value);
        assert_eq!(value, 20);
    }
}

#[test]
fn simple_creep_steps_and_saturates() {
    let mut rng: StdRng = SeedableRng::seed_from_u64(3);
    for _ in 0..50 {
        let mut value = 5i64;
        SimpleCreep::new(Probability::new(1, 1), 0, 10, 2).mutate(&mut rng, &mut value);
        assert!(value == 3 || value == 7);

        // A step that overflows the representable range saturates at the
        // matching bound before clamping.
        let mut value = i64::MAX - 1;
        SimpleCreep::new(Probability::new(1, 1), i64::MIN, i64::MAX, i64::MAX).mutate(
            &mut rng, &mut value,
        );
        assert!((i64::MIN..=i64::MAX).contains(&value));
    }
}

#[test]
fn blend_weights_give_exact_averages() {
    let mut rng: StdRng = SeedableRng::seed_from_u64(5);
    let parent_1 = BoundedValue {
        min_value: 0,
        max_value: 100,
        value: 10,
    };
    let parent_2 = BoundedValue {
        min_value: 0,
        max_value: 100,
        value: 20,
    };
    // With alpha = 1/2 both children hold the midpoint.
    let half = WholeArithmetic::new(Probability::new(1, 2));
    let (child_1, child_2) = half.recombine(&mut rng, &parent_1, &parent_2);
    assert_eq!(child_1.value, 15);
    assert_eq!(child_2.value, 15);
    // With alpha = 1 each child copies one parent; the first child weighs
    // the first parent fully.
    let full = WholeArithmetic::new(Probability::new(1, 1));
    let (child_1, child_2) = full.recombine(&mut rng, &parent_1, &parent_2);
    assert_eq!(child_1.value, 10);
    assert_eq!(child_2.value, 20);
}

#[test]
fn single_arithmetic_changes_one_allele() {
    let mut rng: StdRng = SeedableRng::seed_from_u64(11);
    let parent_1 = BoundedVector {
        min_value: 0,
        max_value: 100,
        value: vec![10, 10, 10, 10],
    };
    let parent_2 = BoundedVector {
        min_value: 0,
        max_value: 100,
        value: vec![30, 30, 30, 30],
    };
    let operator = SingleArithmetic::new(Probability::new(1, 2));
    for _ in 0..20 {
        let (child_1, child_2) = operator.recombine(&mut rng, &parent_1, &parent_2);
        let changed_1 = child_1
            .value
            .iter()
            .zip(parent_1.value.iter())
            .filter(|(a, b)| a != b)
            .count();
        let changed_2 = child_2
            .value
            .iter()
            .zip(parent_2.value.iter())
            .filter(|(a, b)| a != b)
            .count();
        assert_eq!(changed_1, 1);
        assert_eq!(changed_2, 1);
        assert!(child_1.value.contains(&20));
        assert!(child_2.value.contains(&20));
    }
}

#[test]
fn blend_crossover_respects_bounds_and_interval() {
    let mut rng: StdRng = SeedableRng::seed_from_u64(13);
    let parent_1 = BoundedVector {
        min_value: -50,
        max_value: 50,
        value: vec![-10, 0, 40],
    };
    let parent_2 = BoundedVector {
        min_value: -50,
        max_value: 50,
        value: vec![10, 0, 45],
    };
    // With a zero extension factor every drawn allele stays between the
    // parents' values.
    let operator = BlendCrossover::new(Ratio::new(0, 1));
    for _ in 0..50 {
        let (child_1, child_2) = operator.recombine(&mut rng, &parent_1, &parent_2);
        for child in [&child_1, &child_2] {
            assert!((-10..=10).contains(&child.value[0]));
            assert_eq!(child.value[1], 0);
            assert!((40..=45).contains(&child.value[2]));
        }
    }
}

#[test]
fn bit_level_recombination_partitions_bits() {
    let mut rng: StdRng = SeedableRng::seed_from_u64(17);
    let parent_1: u64 = 0xdead_beef_0123_4567;
    let parent_2: u64 = 0x0f0f_f0f0_aaaa_5555;
    for _ in 0..50 {
        let (c1, c2) = OnePoint.recombine(&mut rng, &parent_1, &parent_2);
        assert_eq!(c1 | c2, parent_1 | parent_2);
        assert_eq!(c1 & c2, parent_1 & parent_2);

        let (c1, c2) = NPoint::new(3).recombine(&mut rng, &parent_1, &parent_2);
        assert_eq!(c1 | c2, parent_1 | parent_2);
        assert_eq!(c1 & c2, parent_1 & parent_2);

        let (c1, c2) = Uniform.recombine(&mut rng, &parent_1, &parent_2);
        assert_eq!(c1 | c2, parent_1 | parent_2);
        assert_eq!(c1 & c2, parent_1 & parent_2);
    }
}

#[test]
fn mask_recombination_is_invertible_with_the_same_mask() {
    let parent_1: u64 = 0x0123_4567_89ab_cdef;
    let parent_2: u64 = 0xfeed_face_cafe_beef;
    for mask in [0u64, u64::MAX, 0xffff_0000_ffff_0000, 0x5555_5555_5555_5555] {
        let child_1 = mask_combine(parent_1, parent_2, mask);
        let child_2 = mask_combine(parent_2, parent_1, mask);
        // Re-application with the same mask reproduces the parents exactly.
        assert_eq!(mask_combine(child_1, child_2, mask), parent_1);
        assert_eq!(mask_combine(child_2, child_1, mask), parent_2);
        // The complementary mask reproduces them in swapped order.
        assert_eq!(mask_combine(child_1, child_2, !mask), parent_2);
        assert_eq!(mask_combine(child_2, child_1, !mask), parent_1);
    }
}

#[test]
fn simple_arithmetic_blends_after_the_cross_point() {
    let mut rng: StdRng = SeedableRng::seed_from_u64(19);
    let parent_1 = BoundedVector {
        min_value: 0,
        max_value: 100,
        value: vec![0, 10, 20, 30],
    };
    let parent_2 = BoundedVector {
        min_value: 0,
        max_value: 100,
        value: vec![100, 90, 80, 70],
    };
    let operator = SimpleArithmetic::new(Probability::new(1, 2), 2);
    let (child_1, child_2) = operator.recombine(&mut rng, &parent_1, &parent_2);
    // Prefixes below the cross point are copied; the rest is averaged.
    assert_eq!(child_1.value, vec![0, 10, 50, 50]);
    assert_eq!(child_2.value, vec![100, 90, 50, 50]);
}

#[test]
fn discrete_recombination_chooses_parent_alleles() {
    let mut rng: StdRng = SeedableRng::seed_from_u64(23);
    let parent_1 = BoundedVector {
        min_value: 0,
        max_value: 100,
        value: vec![1, 2, 3, 4, 5],
    };
    let parent_2 = BoundedVector {
        min_value: 0,
        max_value: 100,
        value: vec![11, 12, 13, 14, 15],
    };
    for _ in 0..20 {
        let (child_1, child_2) = Discrete.recombine(&mut rng, &parent_1, &parent_2);
        for i in 0..5 {
            assert!(child_1.value[i] == parent_1.value[i] || child_1.value[i] == parent_2.value[i]);
            assert!(child_2.value[i] == parent_1.value[i] || child_2.value[i] == parent_2.value[i]);
        }
    }
}

#[test]
fn gaussian_noise_application_clamps_exactly() {
    let mut parameter = BoundedVector {
        min_value: -5,
        max_value: 5,
        value: vec![0, 3, -4],
    };
    add_noise_clamped(&mut parameter, &vec![100, -4, -100]);
    assert_eq!(parameter.value, vec![5, -1, -5]);
}

#[test]
fn log_normal_scaling_is_exact_and_floored() {
    // Scale 10 by 3/2 within [1, 100]: exactly 15.
    let mutator = LogNormal::new(1, 2);
    let mut parameter = BoundedValue {
        min_value: 1,
        max_value: 100,
        value: 10,
    };
    mutator.scale_clamped(&mut parameter, 3, 2);
    assert_eq!(parameter.value, 15);

    // Shrinking below the mutator's own floor clamps to that floor.
    let floored = LogNormal::new(1, 8);
    let mut parameter = BoundedValue {
        min_value: 1,
        max_value: 100,
        value: 10,
    };
    floored.scale_clamped(&mut parameter, 1, 2);
    assert_eq!(parameter.value, 8);

    // Truncating division rounds toward zero.
    let mutator = LogNormal::new(1, 0);
    let mut parameter = BoundedValue {
        min_value: 0,
        max_value: 100,
        value: 7,
    };
    mutator.scale_clamped(&mut parameter, 1, 2);
    assert_eq!(parameter.value, 3);
}

#[test]
fn simple_gaussian_keeps_its_step_sizes() {
    let mutator = SimpleGaussian::new(vec![2, 4, 8]);
    assert_eq!(mutator.std, vec![2, 4, 8]);
}

#[test]
fn self_adaptive_recombination_pairs_components() {
    let mut rng: StdRng = SeedableRng::seed_from_u64(29);
    let parent = |value: i64, step: i64| SelfAdaptiveGaussianVector {
        value: BoundedVector {
            min_value: 0,
            max_value: 100,
            value: vec![value, value],
        },
        strategy_parameter: BoundedValue {
            min_value: 0,
            max_value: 50,
            value: step,
        },
    };
    let operator = SelfAdaptiveGaussianVectorRecombinator {
        value_recombinator: WholeArithmetic::new(Probability::new(1, 2)),
        strategy_parameter_recombinator: WholeArithmetic::new(Probability::new(1, 2)),
    };
    let parent_1 = parent(10, 4);
    let parent_2 = parent(30, 8);
    let (child_1, child_2) = operator.recombine(&mut rng, &parent_1, &parent_2);
    assert_eq!(child_1.value.value, vec![20, 20]);
    assert_eq!(child_2.value.value, vec![20, 20]);
    assert_eq!(child_1.strategy_parameter.value, 6);
    assert_eq!(child_2.strategy_parameter.value, 6);
}

#[test]
fn bit_flip_probability_one_flips_every_counted_bit() {
    let mut rng: StdRng = SeedableRng::seed_from_u64(37);
    // With probability one and all sixty-four bits counted, the mutation is
    // the deterministic bitwise complement (clamping is a no-op on the full
    // range): 0 becomes -1.
    let mut value = 0i64;
    BitFlip::new(Probability::new(1, 1), 64, i64::MIN, i64::MAX).mutate(&mut rng, &mut value);
    assert_eq!(value, -1);

    // Counting only the low eight bits flips exactly those.
    let mut value = 0i64;
    BitFlip::new(Probability::new(1, 1), 8, i64::MIN, i64::MAX).mutate(&mut rng, &mut value);
    assert_eq!(value, 0xff);

    // With probability zero the value is merely clamped.
    let mut value = 99i64;
    BitFlip::new(Probability::new(0, 1), 64, 0, 10).mutate(&mut rng, &mut value);
    assert_eq!(value, 10);
}

#[test]
fn n_point_recombination_always_mixes() {
    let mut rng: StdRng = SeedableRng::seed_from_u64(41);
    let parent_1: u64 = 0;
    let parent_2: u64 = u64::MAX;
    // With at least one interior crossover point, each child takes at least
    // one bit span from each parent, so neither child copies a parent.
    for _ in 0..100 {
        let (c1, c2) = NPoint::new(2).recombine(&mut rng, &parent_1, &parent_2);
        assert_ne!(c1, parent_1);
        assert_ne!(c1, parent_2);
        assert_ne!(c2, parent_1);
        assert_ne!(c2, parent_2);
        assert_eq!(c1 ^ c2, u64::MAX);
    }
}
