use genetic::Genetic;
use genetic::GeneticError;
use genetic::PROB_ONE;
use rand::rngs::StdRng;
use rand::RngExt;
use rand::SeedableRng;

fn seeded(seed: u64) -> StdRng {
    StdRng::seed_from_u64(seed)
}

#[test]
fn correct_agent() {
    let test = Genetic {
        population: 10,
        max_generation: 10,
        pc: PROB_ONE / 2,
        pm: PROB_ONE / 2,
        get_random_agent: || 123usize,
        f_fitness: |_a: &usize| 1i64,
        f_mutate: |a: &usize| *a + 1,
        f_offspring: |a: &usize, b: &usize| (*a + *b) / 2,
    };

    let pop = test.get_population();
    assert_eq!(pop[0], 123);
}

#[test]
fn correct_mutation() {
    let test = Genetic {
        population: 10,
        max_generation: 1,
        pc: PROB_ONE / 2,
        pm: PROB_ONE,
        get_random_agent: || 123usize,
        f_fitness: |_a: &usize| 1i64,
        f_mutate: |a: &usize| *a + 1,
        f_offspring: |a: &usize, b: &usize| (*a + *b) / 2,
    };

    let mut rng = seeded(1);
    let pop = test.run(&mut rng).unwrap();
    assert_eq!(pop[0], 124);
}

#[test]
fn correct_crossover() {
    let test = Genetic {
        population: 2,
        max_generation: 1,
        pc: PROB_ONE,
        pm: PROB_ONE,
        get_random_agent: || 121usize,
        f_fitness: |a: &usize| 10i64 - (*a as i64 - 244).abs(),
        f_mutate: |a: &usize| *a + 2,
        f_offspring: |a: &usize, b: &usize| *a + *b,
    };

    let mut rng = seeded(2);
    let pop = test.run(&mut rng).unwrap();
    assert_eq!(pop[0], 244);
}

#[test]
fn convergence() {
    let test = Genetic {
        population: 100,
        max_generation: 20,
        pc: PROB_ONE / 2,
        pm: 2 * PROB_ONE / 5,
        get_random_agent: || rand::rng().random_range(-5.0f64..5.0),
        f_fitness: |a: &f64| ((5.0 - a * a) * 1_000_000.0) as i64,
        f_mutate: |a: &f64| *a + rand::rng().random_range(-0.01..0.01),
        f_offspring: |a: &f64, b: &f64| (*a + *b) / 2.0,
    };

    let mut rng = seeded(3);
    let simul = test.run(&mut rng).unwrap();
    let best = test.get_best(&simul).unwrap();
    assert!(simul[best].abs() < 1.0);
}

#[test]
fn run_length_matches_population() {
    for (n, gens) in [(1usize, 0usize), (1, 3), (3, 0), (3, 4), (17, 2)] {
        let test = Genetic {
            population: n,
            max_generation: gens,
            pc: PROB_ONE / 2,
            pm: PROB_ONE / 2,
            get_random_agent: || 7usize,
            f_fitness: |a: &usize| *a as i64,
            f_mutate: |a: &usize| *a + 1,
            f_offspring: |a: &usize, b: &usize| *a + *b,
        };
        let mut rng = seeded(4);
        let pop = test.run(&mut rng).unwrap();
        assert_eq!(pop.len(), n);
    }
}

#[test]
fn zero_generations_return_initial_population() {
    let test = Genetic {
        population: 5,
        max_generation: 0,
        pc: PROB_ONE,
        pm: PROB_ONE,
        get_random_agent: || 42usize,
        f_fitness: |a: &usize| *a as i64,
        f_mutate: |a: &usize| *a + 1,
        f_offspring: |a: &usize, b: &usize| *a + *b,
    };
    let mut rng = seeded(5);
    let pop = test.run(&mut rng).unwrap();
    assert_eq!(pop, vec![42; 5]);
}

#[test]
fn get_best_picks_maximum() {
    let test = Genetic {
        population: 4,
        max_generation: 1,
        pc: 0,
        pm: 0,
        get_random_agent: || 0usize,
        f_fitness: |a: &usize| *a as i64,
        f_mutate: |a: &usize| *a,
        f_offspring: |a: &usize, _b: &usize| *a,
    };
    let u = vec![3usize, 9, 4, 1];
    assert_eq!(test.get_best(&u).unwrap(), 1);
}

#[test]
fn get_best_breaks_ties_by_earliest_index() {
    let test = Genetic {
        population: 4,
        max_generation: 1,
        pc: 0,
        pm: 0,
        get_random_agent: || 0usize,
        f_fitness: |a: &usize| (*a % 10) as i64,
        f_mutate: |a: &usize| *a,
        f_offspring: |a: &usize, _b: &usize| *a,
    };
    // positions 1 and 3 both score 7; the earliest wins
    let u = vec![15usize, 7, 3, 17, 2];
    assert_eq!(test.get_best(&u).unwrap(), 1);
}

#[test]
fn get_best_rejects_empty_input() {
    let test = Genetic {
        population: 1,
        max_generation: 0,
        pc: 0,
        pm: 0,
        get_random_agent: || 0usize,
        f_fitness: |a: &usize| *a as i64,
        f_mutate: |a: &usize| *a,
        f_offspring: |a: &usize, _b: &usize| *a,
    };
    let u: Vec<usize> = Vec::new();
    assert_eq!(test.get_best(&u), Err(GeneticError::EmptyInput));
}

#[test]
fn run_rejects_bad_configurations() {
    let make = |population: usize, pc: usize, pm: usize| Genetic {
        population,
        max_generation: 1,
        pc,
        pm,
        get_random_agent: || 0usize,
        f_fitness: |a: &usize| *a as i64,
        f_mutate: |a: &usize| *a,
        f_offspring: |a: &usize, _b: &usize| *a,
    };
    let mut rng = seeded(6);
    assert_eq!(make(0, 0, 0).run(&mut rng), Err(GeneticError::Configuration));
    assert_eq!(
        make(3, PROB_ONE + 1, 0).run(&mut rng),
        Err(GeneticError::Configuration)
    );
    assert_eq!(
        make(3, 0, PROB_ONE + 1).run(&mut rng),
        Err(GeneticError::Configuration)
    );
}

#[test]
fn parents_are_distinct_partners_in_range() {
    let test = Genetic {
        population: 100,
        max_generation: 1,
        pc: PROB_ONE,
        pm: 0,
        get_random_agent: || 0usize,
        f_fitness: |a: &usize| *a as i64,
        f_mutate: |a: &usize| *a,
        f_offspring: |a: &usize, b: &usize| *a + *b,
    };
    let mut rng = seeded(7);
    let xg = test.get_population();
    let parents = test.generate_parents(&xg, &mut rng);
    assert_eq!(parents.len(), 100);
    for (x, y) in parents.iter().enumerate() {
        assert!(*y < 100);
        assert_ne!(*y, x);
    }
}

#[test]
fn crossover_doubles_at_most_and_selection_restores() {
    let test = Genetic {
        population: 4,
        max_generation: 1,
        pc: PROB_ONE,
        pm: 0,
        get_random_agent: || 3usize,
        f_fitness: |a: &usize| *a as i64,
        f_mutate: |a: &usize| *a + 1,
        f_offspring: |a: &usize, b: &usize| *a + *b,
    };
    let mut rng = seeded(8);
    let xg = test.get_population();
    let parents = test.generate_parents(&xg, &mut rng);
    let mut work = test.crossover(xg, &parents, &mut rng);
    // with certain crossover every pair adds one offspring: exactly 2 * population
    assert_eq!(work.len(), 8);
    assert!(work.len() <= 2 * test.population);
    // every offspring of two agents valued 3 is 6; the four best remain
    let next = test.selection(&mut work);
    assert_eq!(next, vec![6usize; 4]);
    assert_eq!(work.len(), 4);
}

#[test]
fn mutation_applies_to_every_member_when_certain() {
    let test = Genetic {
        population: 6,
        max_generation: 1,
        pc: 0,
        pm: PROB_ONE,
        get_random_agent: || 10usize,
        f_fitness: |a: &usize| *a as i64,
        f_mutate: |a: &usize| *a + 5,
        f_offspring: |a: &usize, b: &usize| *a + *b,
    };
    let mut rng = seeded(9);
    let mut work = test.get_population();
    test.mutate(&mut work, &mut rng);
    assert_eq!(work, vec![15usize; 6]);
}

#[test]
fn mutation_never_applies_when_impossible() {
    let test = Genetic {
        population: 6,
        max_generation: 1,
        pc: 0,
        pm: 0,
        get_random_agent: || 10usize,
        f_fitness: |a: &usize| *a as i64,
        f_mutate: |a: &usize| *a + 5,
        f_offspring: |a: &usize, b: &usize| *a + *b,
    };
    let mut rng = seeded(10);
    let mut work = test.get_population();
    test.mutate(&mut work, &mut rng);
    assert_eq!(work, vec![10usize; 6]);
}

#[test]
fn selection_keeps_descending_order_with_stable_ties() {
    let test = Genetic {
        population: 3,
        max_generation: 1,
        pc: 0,
        pm: 0,
        get_random_agent: || 0usize,
        f_fitness: |a: &usize| (*a % 10) as i64,
        f_mutate: |a: &usize| *a,
        f_offspring: |a: &usize, _b: &usize| *a,
    };
    // scores: 5, 8, 8, 1, 5 — the top three are 8 (pos 1), 8 (pos 2), 5 (pos 0)
    let mut work = vec![5usize, 18, 8, 21, 15];
    let next = test.selection(&mut work);
    assert_eq!(next, vec![18usize, 8, 5]);
    assert_eq!(work, vec![21usize, 15]);
}

#[test]
fn single_agent_population_still_runs() {
    let test = Genetic {
        population: 1,
        max_generation: 5,
        pc: PROB_ONE,
        pm: PROB_ONE,
        get_random_agent: || 0usize,
        f_fitness: |a: &usize| *a as i64,
        f_mutate: |a: &usize| *a + 1,
        f_offspring: |a: &usize, b: &usize| *a + *b,
    };
    let mut rng = seeded(11);
    let pop = test.run(&mut rng).unwrap();
    // no partner exists, so only mutation acts: once per generation
    assert_eq!(pop, vec![5usize]);
}
