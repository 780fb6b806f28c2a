use badger_groups::fitness::{fitness, FitnessStrategy};
use badger_groups::generation::{breed, Draw, Generation};
use badger_groups::histogram::{MAX_TOTAL, UNIT};
use badger_groups::params::{ConfigurationError, Parameters, Rate};
use badger_groups::record::Badger;
use rand::rngs::StdRng;
use rand::SeedableRng;

fn badger(name: &str, kind: &str) -> Badger {
    Badger {
        name: name.to_string(),
        gender: format!("gender-{}", kind),
        discipline: format!("discipline-{}", kind),
        seniority: format!("seniority-{}", kind),
        client: format!("client-{}", kind),
        team: format!("team-{}", kind),
    }
}

fn nine() -> Vec<Badger> {
    ["x", "y", "z", "x", "y", "z", "x", "y", "z"]
        .iter()
        .enumerate()
        .map(|(i, k)| badger(&format!("b{}", i), k))
        .collect()
}

fn rate(numer: u32, denom: u32) -> Rate {
    Rate::new(numer, denom).unwrap()
}

fn params(size: usize, ngroups: usize, crossover: Rate, mutation: Rate, survival: Rate) -> Parameters {
    let mut p = Parameters::new(size, ngroups);
    p.crossover_rate = crossover;
    p.mutation_rate = mutation;
    p.survival_rate = survival;
    p
}

fn groups_in_use(solution: &Vec<usize>) -> usize {
    let mut ids = solution.clone();
    ids.sort();
    ids.dedup();
    ids.len()
}

fn error_of(p: Parameters, badgers: &Vec<Badger>) -> Option<ConfigurationError> {
    let mut rng = StdRng::seed_from_u64(0);
    Generation::new(p, FitnessStrategy::DistributionalSimilarity, badgers, &mut rng).err()
}

#[test]
fn default_parameters() {
    let p = Parameters::new(150, 9);
    assert_eq!(p.population_size, 150);
    assert_eq!(p.ngroups, 9);
    assert_eq!((p.crossover_rate.numerator(), p.crossover_rate.denominator()), (85, 100));
    assert_eq!((p.mutation_rate.numerator(), p.mutation_rate.denominator()), (15, 100));
    assert_eq!((p.survival_rate.numerator(), p.survival_rate.denominator()), (1, 5));
    assert_eq!(p.check(40), None);
}

#[test]
fn parameters_are_checked_in_order() {
    assert_eq!(Parameters::new(0, 1).check(0), Some(ConfigurationError::TooFewGroups));
    assert_eq!(Parameters::new(10, 0).check(9), Some(ConfigurationError::TooFewGroups));
    assert_eq!(Parameters::new(0, 2).check(0), Some(ConfigurationError::EmptyPopulation));
    assert_eq!(Parameters::new(4, 2).check(0), Some(ConfigurationError::NoSurvivors));
    assert_eq!(Parameters::new(5, 2).check(0), Some(ConfigurationError::NoRecords));
    assert_eq!(Parameters::new(5, 2).check(MAX_TOTAL + 1), Some(ConfigurationError::TooManyRecords));
    assert_eq!(Parameters::new(5, 2).check(MAX_TOTAL), None);
    assert_eq!(Parameters::new(5, 2).check(1), None);
}

#[test]
fn generation_rejects_unsound_parameters() {
    let badgers = nine();
    let nobody: Vec<Badger> = Vec::new();
    assert_eq!(error_of(Parameters::new(10, 1), &badgers), Some(ConfigurationError::TooFewGroups));
    assert_eq!(error_of(Parameters::new(0, 3), &badgers), Some(ConfigurationError::EmptyPopulation));
    assert_eq!(error_of(Parameters::new(4, 3), &badgers), Some(ConfigurationError::NoSurvivors));
    let none_survive = params(10, 3, rate(1, 1), rate(0, 1), rate(0, 1));
    assert_eq!(error_of(none_survive, &badgers), Some(ConfigurationError::NoSurvivors));
    assert_eq!(error_of(Parameters::new(10, 3), &nobody), Some(ConfigurationError::NoRecords));
    assert_eq!(error_of(Parameters::new(10, 3), &badgers), None);
}

#[test]
fn first_generation_draws_ids_below_the_number_of_groups() {
    let badgers = nine();
    let mut rng = StdRng::seed_from_u64(11);
    let generation =
        Generation::new(Parameters::new(40, 3), FitnessStrategy::DiversityCount, &badgers, &mut rng)
            .unwrap();
    assert_eq!(generation.population.len(), 40);
    assert_eq!(generation.params.ngroups, 3);
    assert_eq!(generation.strategy, FitnessStrategy::DiversityCount);
    assert_eq!(generation.ideal.size, 3 * UNIT);
    let mut seen = [false; 3];
    for row in &generation.population {
        assert_eq!(row.len(), 9);
        for id in row {
            assert!(*id < 3);
            seen[*id] = true;
        }
    }
    assert!(seen.iter().all(|s| *s));
}

#[test]
fn same_seed_same_search() {
    let badgers = nine();
    let mut one = StdRng::seed_from_u64(12);
    let mut two = StdRng::seed_from_u64(12);
    let strategy = FitnessStrategy::DistributionalSimilarity;
    let a = Generation::new(Parameters::new(20, 3), strategy, &badgers, &mut one).unwrap();
    let b = Generation::new(Parameters::new(20, 3), strategy, &badgers, &mut two).unwrap();
    assert_eq!(a.population, b.population);
    let a = a.next_gen(&mut one);
    let b = b.next_gen(&mut two);
    assert_eq!(a.population, b.population);
}

#[test]
fn scores_follow_the_population() {
    let badgers = nine();
    let mut rng = StdRng::seed_from_u64(13);
    let strategy = FitnessStrategy::DistributionalSimilarity;
    let generation = Generation::new(Parameters::new(12, 3), strategy, &badgers, &mut rng).unwrap();
    let scores = generation.score_all();
    assert_eq!(scores.len(), 12);
    for (row, score) in generation.population.iter().zip(&scores) {
        assert_eq!(fitness(strategy, row, &badgers, &generation.ideal), *score);
    }
}

#[test]
fn fittest_returns_the_share_that_survives_best_first() {
    let badgers = nine();
    for (strategy, seed) in
        [(FitnessStrategy::DistributionalSimilarity, 14), (FitnessStrategy::DiversityCount, 15)]
    {
        let mut rng = StdRng::seed_from_u64(seed);
        let p = params(25, 3, rate(1, 2), rate(1, 2), rate(1, 3));
        let generation = Generation::new(p, strategy, &badgers, &mut rng).unwrap();
        let best = generation.fittest();
        assert_eq!(best.len(), 8);
        let scores: Vec<i128> =
            best.iter().map(|row| fitness(strategy, row, &badgers, &generation.ideal)).collect();
        for pair in scores.windows(2) {
            if strategy.lower_is_better() {
                assert!(pair[0] <= pair[1]);
            } else {
                assert!(pair[0] >= pair[1]);
            }
        }
        for row in &best {
            assert!(generation.population.contains(row));
        }
        let all = generation.score_all();
        let worst_kept = scores[7];
        let at_least_as_good = all
            .iter()
            .filter(|s| if strategy.lower_is_better() { **s <= worst_kept } else { **s >= worst_kept })
            .count();
        assert!(at_least_as_good >= 8);
    }
}

#[test]
fn breed_follows_the_draw() {
    let survivors = vec![vec![0, 0, 0, 0], vec![1, 1, 1, 1], vec![2, 2, 2, 2]];
    let clone = Draw { mother: 1, crossover: None, mutation: None };
    assert_eq!(breed(&survivors, &clone), vec![1, 1, 1, 1]);
    let crossed = Draw { mother: 0, crossover: Some((2, 1)), mutation: None };
    assert_eq!(breed(&survivors, &crossed), vec![0, 2, 2, 2]);
    let mutated = Draw { mother: 2, crossover: None, mutation: Some((3, 0)) };
    assert_eq!(breed(&survivors, &mutated), vec![2, 2, 2, 0]);
    let both = Draw { mother: 1, crossover: Some((0, 3)), mutation: Some((0, 2)) };
    assert_eq!(breed(&survivors, &both), vec![2, 1, 1, 0]);
    let at_front = Draw { mother: 1, crossover: Some((0, 0)), mutation: None };
    assert_eq!(breed(&survivors, &at_front), vec![0, 0, 0, 0]);
}

#[test]
fn next_generation_keeps_size_and_shape() {
    let badgers = nine();
    let mut rng = StdRng::seed_from_u64(16);
    let p = params(30, 4, rate(1, 2), rate(1, 2), rate(1, 5));
    let mut generation =
        Generation::new(p, FitnessStrategy::DiversityCount, &badgers, &mut rng).unwrap();
    for _ in 0..10 {
        generation = generation.next_gen(&mut rng);
        assert_eq!(generation.population.len(), 30);
        assert_eq!(generation.params.population_size, 30);
        assert_eq!(generation.ideal.size, 2_250_000);
        for row in &generation.population {
            assert_eq!(row.len(), 9);
            assert!(row.iter().all(|id| *id < 4));
        }
    }
}

#[test]
fn without_crossover_and_mutation_children_are_survivors() {
    let badgers = nine();
    let mut rng = StdRng::seed_from_u64(17);
    let p = params(20, 3, rate(0, 1), rate(0, 1), rate(1, 4));
    let generation =
        Generation::new(p, FitnessStrategy::DistributionalSimilarity, &badgers, &mut rng).unwrap();
    let survivors = generation.fittest();
    assert_eq!(survivors.len(), 5);
    let next = generation.next_gen(&mut rng);
    for row in &next.population {
        assert!(survivors.contains(row));
    }
}

#[test]
fn with_sure_mutation_children_differ_from_a_survivor_in_at_most_one_gene() {
    let badgers = nine();
    let mut rng = StdRng::seed_from_u64(18);
    let p = params(20, 3, rate(0, 1), rate(1, 1), rate(1, 4));
    let generation =
        Generation::new(p, FitnessStrategy::DistributionalSimilarity, &badgers, &mut rng).unwrap();
    let survivors = generation.fittest();
    let next = generation.next_gen(&mut rng);
    for row in &next.population {
        assert!(survivors
            .iter()
            .any(|s| s.iter().zip(row).filter(|(a, b)| a != b).count() <= 1));
    }
}

#[test]
fn with_sure_crossover_children_splice_two_survivors() {
    let badgers = nine();
    let mut rng = StdRng::seed_from_u64(19);
    let p = params(20, 3, rate(1, 1), rate(0, 1), rate(1, 4));
    let generation =
        Generation::new(p, FitnessStrategy::DistributionalSimilarity, &badgers, &mut rng).unwrap();
    let survivors = generation.fittest();
    let next = generation.next_gen(&mut rng);
    for row in &next.population {
        let mut found = false;
        for mother in &survivors {
            for father in &survivors {
                for split in 0..9 {
                    if row[..split] == mother[..split] && row[split..] == father[split..] {
                        found = true;
                    }
                }
            }
        }
        assert!(found);
    }
}

#[test]
fn one_record_gives_candidates_of_one_gene() {
    let badgers = vec![badger("solo", "x")];
    let mut rng = StdRng::seed_from_u64(20);
    let p = params(10, 2, rate(1, 1), rate(1, 2), rate(1, 2));
    let mut generation =
        Generation::new(p, FitnessStrategy::DistributionalSimilarity, &badgers, &mut rng).unwrap();
    for _ in 0..5 {
        for row in &generation.population {
            assert_eq!(row.len(), 1);
            assert!(row[0] < 2);
        }
        assert_eq!(generation.fittest().len(), 5);
        generation = generation.next_gen(&mut rng);
    }
}

#[test]
fn nine_records_in_three_groups_end_to_end() {
    let badgers = nine();
    let strategy = FitnessStrategy::DistributionalSimilarity;
    let mut rng = StdRng::seed_from_u64(34);
    let p = params(10, 3, rate(1, 1), rate(0, 1), rate(1, 2));
    let mut generation = Generation::new(p, strategy, &badgers, &mut rng).unwrap();
    let mut scores = Vec::new();
    for _ in 0..5 {
        scores.push(fitness(strategy, &generation.fittest()[0], &badgers, &generation.ideal));
        generation = generation.next_gen(&mut rng);
        assert_eq!(generation.population.len(), 10);
    }
    let best = generation.fittest()[0].clone();
    scores.push(fitness(strategy, &best, &badgers, &generation.ideal));
    for pair in scores.windows(2) {
        assert!(pair[1] <= pair[0]);
    }
    assert_eq!(scores, vec![42_000_000, 38_499_992, 30_000_000, 30_000_000, 30_000_000, 6_000_000]);
    assert_eq!(best.len(), 9);
    assert_eq!(groups_in_use(&best), 3);
}
