use mu_lambda::evolution::{CanMutate, Fitness, MuLambdaEvolution};
use mu_lambda::fitness::FitnessMeasure;
use mu_lambda::probe::ProbeOrganism;

fn probe(value: i64, step: i64) -> ProbeOrganism {
    ProbeOrganism { value, step, comparable: true }
}

fn values(engine: &MuLambdaEvolution<ProbeOrganism>) -> Vec<i64> {
    engine.population.iter().map(|p| p.value).collect()
}

#[test]
fn initial_population_is_one_short_of_mu_plus_lambda() {
    let engine = MuLambdaEvolution::<ProbeOrganism>::with_population(5, 5);
    assert_eq!(engine.generation, 1);
    assert_eq!(engine.elite_rate, 5);
    assert_eq!(engine.reproduction_rate, 5);
    assert_eq!(engine.population.len(), 9);
}

#[test]
fn step_settles_population_at_lambda_plus_min_mu_lambda() {
    // mu <= lambda
    let mut engine = MuLambdaEvolution::<ProbeOrganism>::with_population(2, 3);
    assert_eq!(engine.population.len(), 4);
    engine.evolve_step();
    assert_eq!(engine.population.len(), 3 + 2);
    engine.evolve_step();
    assert_eq!(engine.population.len(), 3 + 2);

    // mu > lambda
    let mut engine = MuLambdaEvolution::<ProbeOrganism>::with_population(4, 2);
    assert_eq!(engine.population.len(), 5);
    engine.evolve_step();
    assert_eq!(engine.population.len(), 2 + 2);
    engine.evolve_step();
    assert_eq!(engine.population.len(), 2 + 2);
}

#[test]
fn step_increments_generation() {
    let mut engine = MuLambdaEvolution::<ProbeOrganism>::with_population(2, 2);
    assert_eq!(engine.generation, 1);
    engine.evolve_step();
    assert_eq!(engine.generation, 2);
    engine.evolve_step();
    assert_eq!(engine.generation, 3);
}

#[test]
fn step_ranks_truncates_and_appends_mutated_elite_clones() {
    // mu = 2, lambda = 3, genomes [5, 3, 1, 4, 2], mutation adds 10.
    // All fitnesses are distinct, so whatever the shuffle, ranking gives
    // [5, 4, 3, 2, 1]; the survivors are [5, 4, 3]; the elites [5, 4] are
    // cloned and mutated to [15, 14]; the new population is [5, 4, 3, 15, 14].
    let mut engine = MuLambdaEvolution::<ProbeOrganism>::with_population(2, 3);
    engine.population = vec![probe(5, 10), probe(3, 10), probe(1, 10), probe(4, 10), probe(2, 10)];
    engine.evolve_step();
    assert_eq!(values(&engine), vec![5, 4, 3, 15, 14]);
}

#[test]
fn survivor_originals_are_not_mutated() {
    // The survivors [5, 4, 3] reappear by value; only the appended clones
    // carry the mutation step.
    let mut engine = MuLambdaEvolution::<ProbeOrganism>::with_population(3, 3);
    engine.population = vec![probe(5, 7), probe(4, 7), probe(3, 7)];
    engine.evolve_step();
    assert_eq!(values(&engine), vec![5, 4, 3, 12, 11, 10]);
}

#[test]
fn incomparable_fitness_does_not_break_a_step() {
    let mut engine = MuLambdaEvolution::<ProbeOrganism>::with_population(2, 5);
    engine.population = vec![
        probe(5, 1),
        ProbeOrganism { value: 9, step: 1, comparable: false },
        probe(7, 1),
        probe(6, 1),
        probe(8, 1),
    ];
    engine.evolve_step();
    assert_eq!(engine.population.len(), 5 + 2);
}

#[test]
fn evolve_until_stops_at_the_threshold_generation_exactly() {
    let mut engine = MuLambdaEvolution::<ProbeOrganism>::with_population(2, 2);
    engine.evolve_until(|generation, _: &ProbeOrganism| generation >= 5, false);
    assert_eq!(engine.generation, 5);
}

#[test]
fn evolve_until_always_runs_at_least_one_step() {
    let mut engine = MuLambdaEvolution::<ProbeOrganism>::with_population(2, 2);
    engine.evolve_until(|generation, _: &ProbeOrganism| generation >= 0, false);
    assert_eq!(engine.generation, 2);
}

#[test]
fn evolve_until_accepts_on_an_organism_condition() {
    // Default probes start at 0 and step by 1: each generation's mutated
    // clones climb by one, so some member eventually reaches 3.
    let mut engine = MuLambdaEvolution::<ProbeOrganism>::with_population(2, 2);
    engine.evolve_until(|_, p: &ProbeOrganism| p.value >= 3, false);
    assert!(engine.population.iter().any(|p| p.value >= 3));
}

#[test]
fn creature_example_runs_to_completion() {
    // stops at the latest at generation 100, by the predicate's own bound
    mu_lambda::creature::run_creature_example();
}

#[test]
fn report_line_format() {
    let mut engine = MuLambdaEvolution::<ProbeOrganism>::with_population(2, 2);
    engine.population = vec![probe(3, 1), ProbeOrganism { value: -4, step: 1, comparable: false }];
    assert_eq!(engine.report_line(), "1: [3](3)  [-4](NaN)  ");
}

#[test]
fn printing_a_population_does_not_disturb_it() {
    let mut engine = MuLambdaEvolution::<ProbeOrganism>::with_population(2, 2);
    engine.population = vec![probe(3, 1), ProbeOrganism { value: 0, step: 1, comparable: false }];
    engine.print();
    assert_eq!(values(&engine), vec![3, 0]);
}

#[test]
fn probe_mutation_saturates() {
    let mut p = ProbeOrganism { value: i64::MAX - 1, step: 5, comparable: true };
    p.mutate();
    assert_eq!(p.value, i64::MAX);
    let mut q = ProbeOrganism { value: i64::MIN + 1, step: -5, comparable: true };
    q.mutate();
    assert_eq!(q.value, i64::MIN);
}

#[test]
fn probe_measure_reports_genome_and_comparability() {
    let m = probe(42, 1).evaluate();
    assert_eq!(m, FitnessMeasure { rank: 42, ordered: true });
    let n = ProbeOrganism { value: 9, step: 1, comparable: false }.evaluate();
    assert!(!n.ordered);
}
