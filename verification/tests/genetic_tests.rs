use mckp_ga::generator::{EnhancedChromosomeGenerator, RandomChromosomeGenerator};
use mckp_ga::genetic::{ConfigError, GeneticAlgorithm, KnapsackGeneticAlgorithm};
use mckp_ga::preprocessing::PreprocessingResult;
use mckp_ga::structure::chromosome::Chromosome;
use mckp_ga::structure::configuration::{initialize_configuration, Configuration, ConfigurationByGenerations};
use mckp_ga::structure::fix_result::UBFixResult;
use mckp_ga::structure::make_item;
use mckp_ga::structure::problem::Problem;
use mckp_ga::structure::relaxation_result::LPRelaxationResult;

fn two_group_problem(capacity: u32) -> Problem {
    let data = vec![
        vec![make_item(10, 5), make_item(20, 10), make_item(30, 14)],
        vec![make_item(15, 7), make_item(25, 12), make_item(40, 15)],
    ];
    Problem { capacity, data, size: 2 }
}

fn config(population_size: u32, no_upgrade_limit: u8, seed: u64) -> ConfigurationByGenerations {
    initialize_configuration(10, no_upgrade_limit, population_size, seed, false)
}

fn engine(
    capacity: u32,
    population_size: u32,
    no_upgrade_limit: u8,
    seed: u64,
) -> KnapsackGeneticAlgorithm<ConfigurationByGenerations> {
    let pre = PreprocessingResult::empty();
    KnapsackGeneticAlgorithm::init(
        two_group_problem(capacity),
        config(population_size, no_upgrade_limit, seed),
        &pre,
    )
    .expect("a valid configuration")
}

// An already-feasible chromosome comes back unchanged from repair, and its
// fitness is the plain sum of the chosen gains.
#[test]
fn test_repair_feasible_chromosome_is_unchanged() {
    let executor = engine(50, 10, 5, 1);
    let mut c = Chromosome::init_chromosome(vec![3, 3]);
    c.set_fitness(123);
    c.increase_age();
    let repaired = executor.repair_chromosome(&c);
    assert_eq!(repaired.genes, vec![3, 3]);
    assert_eq!(repaired.fitness, 123);
    assert_eq!(repaired.age, 1);
    let (gain, cost) = executor.get_chromosome_summary(&repaired);
    assert_eq!(gain, 70);
    assert_eq!(cost, 29);
    assert_eq!(executor.fitness_func(&repaired), 70);
}

// Under capacity 20 the chromosome [3, 3] costs 29 and must be demoted, each
// time at the selected gene of worst marginal rate (most cost per gain),
// first group first on ties: group 0's tiers lose twice, and the
// deterministic result is [1, 3] at cost 20.
#[test]
fn test_repair_demotes_worst_rate_until_feasible() {
    let executor = engine(20, 10, 5, 1);
    let c = Chromosome::init_chromosome(vec![3, 3]);
    let repaired = executor.repair_chromosome(&c);
    assert_eq!(repaired.genes, vec![1, 3]);
    assert_eq!(repaired.fitness, 0);
    let (gain, cost) = executor.get_chromosome_summary(&repaired);
    assert_eq!(gain, 50);
    assert_eq!(cost, 20);
    // Repair is idempotent: the repaired chromosome is already feasible.
    let again = executor.repair_chromosome(&repaired);
    assert_eq!(again.genes, repaired.genes);
}

// Post-repair cost never exceeds the capacity, even from a zero budget.
#[test]
fn test_repair_respects_zero_capacity() {
    let executor = engine(0, 10, 5, 1);
    let c = Chromosome::init_chromosome(vec![3, 3]);
    let repaired = executor.repair_chromosome(&c);
    assert_eq!(repaired.genes, vec![0, 0]);
    let (_, cost) = executor.get_chromosome_summary(&repaired);
    assert_eq!(cost, 0);
}

// After evaluation the population is sorted best-first.
#[test]
fn test_evaluate_sorts_population_descending() {
    let mut executor = engine(50, 16, 5, 42);
    executor.evaluate();
    for i in 0..executor.population.len() {
        assert!(executor.population[0].fitness >= executor.population[i].fitness);
        assert!(executor.population[i].fitness >= 0);
    }
}

// The infeasibility sentinel: an over-budget assignment earns fitness 0.
#[test]
fn test_fitness_sentinel_for_infeasible() {
    let executor = engine(20, 10, 5, 1);
    let c = Chromosome::init_chromosome(vec![3, 3]);
    assert_eq!(executor.fitness_func(&c), 0);
    let feasible = Chromosome::init_chromosome(vec![1, 1]);
    assert_eq!(executor.fitness_func(&feasible), 25);
}

// The fixed-respecting generator never selects a fixed group, and never
// lands on a dominated tier.
#[test]
fn test_enhanced_generator_respects_fixed_and_dominated() {
    let problem = two_group_problem(50);
    let mut relaxation = LPRelaxationResult::empty();
    relaxation.f_0 = vec![(1, 0)];
    let ub_fix = UBFixResult::new(vec![(0, 2)], vec![0, 0], 0);
    let mut generator = EnhancedChromosomeGenerator::new(problem, 7, relaxation, ub_fix);
    for _ in 0..50 {
        let c = generator.generate_chromosome_f0();
        assert_eq!(c.genes.len(), 2);
        // Group 0 is in the fixed set: it must select nothing.
        assert_eq!(c.genes[0], 0);
        // Tier 0 of group 1 is dominated: gene 1 never lands on it.
        assert_ne!(c.genes[1], 1);
        assert!(c.genes[1] <= 3);
    }
    for _ in 0..50 {
        let c = generator.generate_chromosome_f1();
        assert_eq!(c.genes[0], 0);
        assert!(c.genes[1] <= 3);
    }
}

// The uniform generator produces well-formed chromosomes in bulk.
#[test]
fn test_random_generator_produces_valid_genes() {
    let mut generator = RandomChromosomeGenerator::new(two_group_problem(50), 3);
    let batch = generator.generate_chromosomes(25);
    assert_eq!(batch.len(), 25);
    for c in &batch {
        assert_eq!(c.genes.len(), 2);
        assert!(c.genes.iter().all(|&g| g <= 3));
        assert_eq!(c.fitness, 0);
    }
}

// Two runs with the same seed, problem and configuration produce the same
// solution.
#[test]
fn test_runs_with_same_seed_are_identical() {
    let mut first = engine(50, 10, 5, 99);
    let mut second = engine(50, 10, 5, 99);
    let a = first.run();
    let b = second.run();
    assert_eq!(a.fitness, b.fitness);
    assert_eq!(a.cost, b.cost);
    assert_eq!(a.generations, b.generations);
    assert_eq!(a.data, b.data);
}

// Stagnation-based termination: with a zero budget nothing can ever improve
// the retained best, so evolution consumes exactly the stagnation limit.
#[test]
fn test_stagnation_limit_bounds_generations() {
    let mut executor = engine(0, 10, 5, 11);
    let solution = executor.run();
    assert_eq!(solution.generations, 5);
    assert_eq!(solution.fitness, 0);
    assert_eq!(solution.cost, 0);
    assert!(solution.data.is_empty());
}

// A full run returns an internally consistent, feasible solution.
#[test]
fn test_run_returns_consistent_solution() {
    let mut executor = engine(50, 20, 8, 4);
    let solution = executor.run();
    assert!(solution.cost <= 50);
    let gain: i64 = solution.data.iter().map(|it| it.gain).sum();
    let cost: i64 = solution.data.iter().map(|it| it.cost).sum();
    assert_eq!(solution.fitness, gain);
    assert_eq!(solution.cost, cost);
}

// A run seeded from preprocessing still terminates and stays feasible.
#[test]
fn test_run_with_preprocessing_enabled() {
    let problem = two_group_problem(20);
    let preprocessor = mckp_ga::preprocessing::ProblemPreprocessor::new(&problem);
    let pre = preprocessor.process_problem();
    let configuration = initialize_configuration(10, 5, 12, 21, true);
    let mut executor = KnapsackGeneticAlgorithm::init(problem, configuration, &pre)
        .expect("a valid configuration");
    let solution = executor.run();
    assert!(solution.cost <= 20);
    // The true optimum under capacity 20 is 50 (tier 1 of group 0 plus tier
    // 3 of group 1); no solution may claim more than the proved upper bound.
    assert!(solution.fitness <= 50);
}

// Configuration getters hand back exactly what was configured.
#[test]
fn test_configuration_getters() {
    let c = initialize_configuration(9, 17, 33, 77, true);
    assert_eq!(c.get_initial_mutation_factor(), 9);
    assert_eq!(c.get_no_upgrade_limit(), 17);
    assert_eq!(c.get_population_size(), 33);
    assert_eq!(c.get_seed(), 77);
    assert!(c.is_enhanced_enabled());
}

// An empty problem is rejected before evolution starts.
#[test]
fn test_init_rejects_empty_problem() {
    let pre = PreprocessingResult::empty();
    let problem = Problem { capacity: 10, data: vec![], size: 0 };
    let r = KnapsackGeneticAlgorithm::init(problem, config(10, 5, 1), &pre);
    assert_eq!(r.err(), Some(ConfigError::EmptyProblem));
}

// A population too small for pairwise crossover is rejected as well.
#[test]
fn test_init_rejects_tiny_population() {
    let pre = PreprocessingResult::empty();
    let r = KnapsackGeneticAlgorithm::init(two_group_problem(50), config(1, 5, 1), &pre);
    assert_eq!(r.err(), Some(ConfigError::EmptyPopulation));
}

// With bound-aware seeding enabled, the first member of the initial
// population is exactly the repaired warm-start assignment.
#[test]
fn test_warm_start_seeds_first_member() {
    let problem = two_group_problem(50);
    let mut pre = PreprocessingResult::empty();
    pre.ub_fix_result = UBFixResult::new(vec![], vec![3, 3], 70);
    let configuration = initialize_configuration(10, 5, 10, 2, true);
    let executor =
        KnapsackGeneticAlgorithm::init(problem, configuration, &pre).expect("a valid configuration");
    // [3, 3] costs 29 <= 50: the warm start is already feasible and survives
    // repair unchanged.
    assert_eq!(executor.population[0].genes, vec![3, 3]);
    assert_eq!(executor.population.len(), 10);
}
