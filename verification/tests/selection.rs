use rand::rngs::StdRng;
use rand::SeedableRng;

use metaheurustics::individual::{BoundedVectorIndividual, Individual};
use metaheurustics::parameter::BoundedVector;
use metaheurustics::population::{MigrationType, Population};
use metaheurustics::ratio::Probability;
use metaheurustics::samplers::{check_multivariate_dimensions, SamplerError};
use metaheurustics::selection::parent::{
    roulette_wheel, stochastic_universal_sampling, ExponentialRanking, FitnessProportionate,
    LinearRanking, ParentSelector, Tournament, TournamentSampleMethod,
};
use metaheurustics::selection::survivor::{
    GenerationalRanked, GroupType, MergeRanked, ReplaceWorstSelector, RoundRobinTournament,
    SurvivorSelector, TournamentCandidate,
};
use metaheurustics::ratio::Ratio;

fn tagged_individual(tag: i64, fitness: i64) -> BoundedVectorIndividual {
    let mut individual = BoundedVectorIndividual::new(BoundedVector {
        min_value: -1000,
        max_value: 1000,
        value: vec![tag],
    });
    individual.set_fitness(fitness);
    individual
}

fn tags(individuals: &[BoundedVectorIndividual]) -> Vec<i64> {
    individuals.iter().map(|i| i.vector().value[0]).collect()
}

#[test]
fn sus_with_equal_weights_selects_each_exactly_once() {
    // The low-variance half of the sampling comparison: with one slot per
    // individual and equal weights, every individual is selected exactly
    // once, in every trial.
    let individuals: Vec<_> = (0..8).map(|t| tagged_individual(t, t)).collect();
    let weights = vec![1u64; 8];
    for seed in 0..200 {
        let mut rng: StdRng = SeedableRng::seed_from_u64(seed);
        let picks = stochastic_universal_sampling(&mut rng, &individuals, 8, &weights);
        let mut counts = [0usize; 8];
        for pick in &picks {
            counts[pick.vector().value[0] as usize] += 1;
        }
        assert_eq!(counts, [1; 8]);
    }
}

#[test]
fn sus_variance_is_below_roulette_variance() {
    // Selection counts under stochastic universal sampling track the equal
    // probabilities exactly, while independent roulette draws scatter.
    let individuals: Vec<_> = (0..8).map(|t| tagged_individual(t, t)).collect();
    let weights = vec![1u64; 8];
    let mut rng: StdRng = SeedableRng::seed_from_u64(1234);
    let mut sus_squared_error = 0f64;
    let mut roulette_squared_error = 0f64;
    for _ in 0..200 {
        let sus_picks = stochastic_universal_sampling(&mut rng, &individuals, 8, &weights);
        let roulette_picks = roulette_wheel(&mut rng, &individuals, 8, &weights);
        let mut sus_counts = [0f64; 8];
        let mut roulette_counts = [0f64; 8];
        for pick in &sus_picks {
            sus_counts[pick.vector().value[0] as usize] += 1.0;
        }
        for pick in &roulette_picks {
            roulette_counts[pick.vector().value[0] as usize] += 1.0;
        }
        for t in 0..8 {
            sus_squared_error += (sus_counts[t] - 1.0) * (sus_counts[t] - 1.0);
            roulette_squared_error += (roulette_counts[t] - 1.0) * (roulette_counts[t] - 1.0);
        }
    }
    assert!(sus_squared_error < roulette_squared_error);
    assert_eq!(sus_squared_error, 0.0);
}

#[test]
fn fitness_proportionate_prefers_the_fit() {
    let individuals = vec![
        tagged_individual(0, -5),
        tagged_individual(1, -5),
        tagged_individual(2, 95),
    ];
    let mut rng: StdRng = SeedableRng::seed_from_u64(42);
    let picks = FitnessProportionate.select(&mut rng, &individuals, 300);
    assert_eq!(picks.len(), 300);
    let winners = picks.iter().filter(|p| p.vector().value[0] == 2).count();
    // The fit individual holds 101 of 103 weight shares.
    assert!(winners > 250);
}

#[test]
fn linear_ranking_orders_selection_pressure() {
    let individuals = vec![
        tagged_individual(0, 10),
        tagged_individual(1, 20),
        tagged_individual(2, 30),
        tagged_individual(3, 40),
    ];
    let mut rng: StdRng = SeedableRng::seed_from_u64(7);
    // s = 2: the best rank gets the largest share, the worst rank none.
    let picks = LinearRanking::new(Ratio::new(2, 1)).select(&mut rng, &individuals, 400);
    assert_eq!(picks.len(), 400);
    let worst = picks.iter().filter(|p| p.vector().value[0] == 0).count();
    let best = picks.iter().filter(|p| p.vector().value[0] == 3).count();
    assert_eq!(worst, 0);
    assert!(best > 100);
}

#[test]
fn exponential_ranking_never_selects_the_worst() {
    let individuals = vec![
        tagged_individual(0, 1),
        tagged_individual(1, 2),
        tagged_individual(2, 3),
    ];
    let mut rng: StdRng = SeedableRng::seed_from_u64(21);
    let picks = ExponentialRanking.select(&mut rng, &individuals, 100);
    assert_eq!(picks.len(), 100);
    // Rank zero carries the weight 1 - e^0 = 0.
    assert_eq!(picks.iter().filter(|p| p.vector().value[0] == 0).count(), 0);
}

#[test]
fn deterministic_tournament_picks_the_best_of_all() {
    let individuals = vec![
        tagged_individual(0, 5),
        tagged_individual(1, 50),
        tagged_individual(2, -3),
    ];
    let mut rng: StdRng = SeedableRng::seed_from_u64(9);
    // Sampling the whole population without replacement makes the
    // deterministic tournament a pure argmax.
    let tournament = Tournament::new(
        3,
        TournamentSampleMethod::WithoutReplacement,
        Probability::new(1, 1),
    );
    let picks = tournament.select(&mut rng, &individuals, 20);
    assert_eq!(picks.len(), 20);
    assert!(picks.iter().all(|p| p.vector().value[0] == 1));
}

#[test]
fn stochastic_tournament_with_zero_acceptance_picks_the_worst() {
    let individuals = vec![
        tagged_individual(0, 5),
        tagged_individual(1, 50),
        tagged_individual(2, -3),
    ];
    let mut rng: StdRng = SeedableRng::seed_from_u64(9);
    let tournament = Tournament::new(
        3,
        TournamentSampleMethod::WithoutReplacement,
        Probability::new(0, 1),
    );
    let picks = tournament.select(&mut rng, &individuals, 20);
    assert!(picks.iter().all(|p| p.vector().value[0] == 2));
}

#[test]
fn roulette_never_picks_zero_weight() {
    let individuals = vec![
        tagged_individual(0, 1),
        tagged_individual(1, 2),
        tagged_individual(2, 3),
    ];
    let weights = vec![0u64, 0, 7];
    let mut rng: StdRng = SeedableRng::seed_from_u64(31);
    let picks = roulette_wheel(&mut rng, &individuals, 50, &weights);
    assert!(picks.iter().all(|p| p.vector().value[0] == 2));
}

#[test]
fn replace_worst_full_rate_replaces_by_rank() {
    let mut rng: StdRng = SeedableRng::seed_from_u64(2);
    let mut population = vec![
        tagged_individual(0, 3),
        tagged_individual(1, 1),
        tagged_individual(2, 2),
    ];
    let offspring = vec![
        tagged_individual(10, 40),
        tagged_individual(11, 60),
        tagged_individual(12, 50),
    ];
    ReplaceWorstSelector::new(Probability::new(1, 1)).select(&mut rng, &mut population, offspring);
    // The population is fully replaced by the offspring sorted descending
    // by fitness, one for one by rank.
    assert_eq!(tags(&population), vec![11, 12, 10]);
}

#[test]
fn replace_worst_keeps_the_best_share() {
    let mut rng: StdRng = SeedableRng::seed_from_u64(2);
    let mut population = vec![
        tagged_individual(0, 30),
        tagged_individual(1, 10),
        tagged_individual(2, 20),
        tagged_individual(3, 40),
    ];
    let offspring = vec![tagged_individual(10, 100), tagged_individual(11, 90)];
    ReplaceWorstSelector::new(Probability::new(1, 2)).select(&mut rng, &mut population, offspring);
    // The two worst slots take the two best offspring; the two best stay.
    assert_eq!(tags(&population), vec![10, 11, 0, 3]);
}

#[test]
fn merge_ranked_keeps_the_best_of_both() {
    let mut rng: StdRng = SeedableRng::seed_from_u64(2);
    let mut population = vec![
        tagged_individual(0, 30),
        tagged_individual(1, 10),
        tagged_individual(2, 20),
    ];
    let offspring = vec![tagged_individual(10, 25), tagged_individual(11, 5)];
    MergeRanked.select(&mut rng, &mut population, offspring);
    assert_eq!(tags(&population), vec![0, 10, 2]);
}

#[test]
fn merge_ranked_never_loses_the_maximum() {
    // Monotonic elitism: whatever the offspring, the maximum fitness of the
    // population never decreases from one generation to the next.
    let mut rng: StdRng = SeedableRng::seed_from_u64(4);
    let mut population = vec![
        tagged_individual(0, 17),
        tagged_individual(1, -4),
        tagged_individual(2, 9),
    ];
    for round in 0..20 {
        let before = population.iter().map(|i| i.fitness()).max().unwrap();
        let offspring = vec![
            tagged_individual(100 + round, -50 + round),
            tagged_individual(200 + round, round - 10),
        ];
        MergeRanked.select(&mut rng, &mut population, offspring);
        let after = population.iter().map(|i| i.fitness()).max().unwrap();
        assert!(after >= before);
    }
}

#[test]
fn generational_ranked_keeps_only_offspring() {
    let mut rng: StdRng = SeedableRng::seed_from_u64(2);
    let mut population = vec![tagged_individual(0, 100), tagged_individual(1, 90)];
    let offspring = vec![
        tagged_individual(10, 1),
        tagged_individual(11, 3),
        tagged_individual(12, 2),
    ];
    GenerationalRanked.select(&mut rng, &mut population, offspring);
    // The prior population is discarded entirely, however fit it was.
    assert_eq!(tags(&population), vec![11, 12]);
}

#[test]
fn round_robin_tournament_preserves_size_and_prefers_winners() {
    let mut rng: StdRng = SeedableRng::seed_from_u64(8);
    let mut population = vec![
        tagged_individual(0, 5),
        tagged_individual(1, 100),
        tagged_individual(2, 7),
    ];
    let offspring = vec![tagged_individual(10, 90), tagged_individual(11, 1)];
    RoundRobinTournament { number_rivals: 4 }.select(&mut rng, &mut population, offspring);
    assert_eq!(population.len(), 3);
    // With every candidate battling all four rivals the two strongest
    // always survive.
    let survivors = tags(&population);
    assert!(survivors.contains(&1));
    assert!(survivors.contains(&10));
}

#[test]
fn tournament_candidates_count_wins() {
    let mut candidate = TournamentCandidate::new(3, GroupType::Offspring, 10);
    assert_eq!(candidate.wins, 0);
    assert!(!candidate.group_type.is_population());
    let weaker = TournamentCandidate::new(1, GroupType::Population, 5);
    let stronger = TournamentCandidate::new(2, GroupType::Population, 50);
    candidate.compete(&weaker);
    candidate.compete(&stronger);
    assert_eq!(candidate.wins, 1);
    assert_eq!(
        candidate.compare_wins(&weaker),
        std::cmp::Ordering::Greater
    );
}

fn island(tags: &[i64]) -> Population<BoundedVectorIndividual> {
    Population::new_from_individuals(tags.iter().map(|t| tagged_individual(*t, *t)).collect())
}

#[test]
fn migration_preserves_total_and_island_sizes() {
    for migration_type in [MigrationType::Random, MigrationType::Best, MigrationType::Worst] {
        for shuffle in [false, true] {
            let mut rng: StdRng = SeedableRng::seed_from_u64(77);
            let mut archipelago = vec![
                island(&[1, 2, 3, 4]),
                island(&[5, 6, 7, 8]),
                island(&[9, 10, 11, 12]),
            ];
            let migration = match migration_type {
                MigrationType::Random => MigrationType::Random,
                MigrationType::Best => MigrationType::Best,
                MigrationType::Worst => MigrationType::Worst,
            };
            Population::migrate(&mut rng, &mut archipelago, 2, migration, shuffle);
            assert_eq!(archipelago.len(), 3);
            for isle in &archipelago {
                assert_eq!(isle.individuals().len(), 4);
            }
            let mut all: Vec<i64> = archipelago
                .iter()
                .flat_map(|isle| tags(isle.individuals()))
                .collect();
            all.sort();
            assert_eq!(all, (1..=12).collect::<Vec<i64>>());
        }
    }
}

#[test]
fn migration_best_moves_the_best_forward() {
    let mut rng: StdRng = SeedableRng::seed_from_u64(77);
    let mut archipelago = vec![island(&[4, 1, 3, 2]), island(&[8, 5, 7, 6])];
    Population::migrate(&mut rng, &mut archipelago, 1, MigrationType::Best, false);
    // Each island is sorted best-first; the two fronts then swap, so the
    // first island now leads with the second island's best.
    assert_eq!(tags(archipelago[0].individuals()), vec![8, 3, 2, 1]);
    assert_eq!(tags(archipelago[1].individuals()), vec![4, 7, 6, 5]);
}

#[test]
fn population_ages_and_fitness_assignment() {
    let mut population = Population::new_from_individuals(vec![
        tagged_individual(0, 0),
        tagged_individual(1, 0),
    ]);
    population.set_fitnesses(&vec![7, -3]);
    let fitnesses: Vec<i64> = population.individuals().iter().map(|i| i.fitness()).collect();
    assert_eq!(fitnesses, vec![7, -3]);
    population.increment_ages();
    population.increment_ages();
    let ages: Vec<u32> = population.individuals().iter().map(|i| i.age()).collect();
    assert_eq!(ages, vec![2, 2]);
}

#[test]
fn random_population_respects_bounds() {
    let mut rng: StdRng = SeedableRng::seed_from_u64(1234);
    let population = Population::new(&mut rng, -100, 100, 10, 50);
    assert_eq!(population.individuals().len(), 50);
    for individual in population.individuals() {
        assert_eq!(individual.vector().value.len(), 10);
        assert!(individual
            .vector()
            .value
            .iter()
            .all(|v| (-100..=100).contains(v)));
        assert_eq!(individual.age(), 0);
        assert_eq!(individual.fitness(), 0);
    }
}

#[test]
fn sampler_dimension_check_accepts_squares_only() {
    assert!(check_multivariate_dimensions(3, 9).is_ok());
    assert!(check_multivariate_dimensions(0, 0).is_ok());
    assert_eq!(
        check_multivariate_dimensions(3, 8),
        Err(SamplerError::DimensionMismatch)
    );
    assert_eq!(
        check_multivariate_dimensions(2, 9),
        Err(SamplerError::DimensionMismatch)
    );
    assert_ne!(
        SamplerError::DimensionMismatch,
        SamplerError::NotPositiveDefinite
    );
}
