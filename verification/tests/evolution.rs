use evo_engine::evolve::{
    best_index, decide_mutation, is_sound, pick_winner, population_target, Breeding, Pending,
    RunInternal, TOURNAMENT_SIZE,
};
use evo_engine::genome::Edit;
use evo_engine::genome::RealRequest;
use evo_engine::models::{Genome, Instruction, RunConfig};
use evo_engine::number::Real;
use rand::rngs::StdRng;
use rand::{Rng, SeedableRng};

fn fit(x: f64) -> Real {
    Real::from_bits(x.to_bits())
}

fn flt(r: Real) -> f64 {
    f64::from_bits(r.to_bits())
}

fn fits(values: &[f64]) -> Vec<Real> {
    values.iter().map(|&x| fit(x)).collect()
}

fn config(seed: i64, population: i64, mutation_rate: f64) -> RunConfig {
    RunConfig {
        seed,
        population,
        generations: 10,
        mutation_rate: fit(mutation_rate),
        task: "t".to_string(),
    }
}

fn shape(genome: &Genome) -> Vec<(String, Option<u64>)> {
    genome.instructions.iter().map(|i| (i.op.clone(), i.arg.map(|a| a.to_bits()))).collect()
}

fn shapes(population: &[Genome]) -> Vec<Vec<(String, Option<u64>)>> {
    population.iter().map(shape).collect()
}

fn drawn(rng: &mut StdRng, request: RealRequest) -> Real {
    fit(rng.gen_range(flt(request.low)..flt(request.high)))
}

fn seeded_run(cfg: RunConfig) -> RunInternal {
    let mut run = RunInternal::new(cfg);
    while let Some(request) = run.request() {
        let value = drawn(&mut run.rng, request);
        run.supply(value);
    }
    assert!(run.is_seeded());
    run
}

fn bred(run: &mut RunInternal) -> Vec<Genome> {
    let mut breeding: Breeding = run.next_population();
    while let Some(request) = breeding.request() {
        let value = drawn(&mut run.rng, request);
        run.resume_population(&mut breeding, value);
    }
    assert!(breeding.is_complete());
    breeding.finish()
}

fn ramp(n: usize) -> Vec<Real> {
    (0..n).map(|i| fit(i as f64)).collect()
}

fn scored_run(seed: i64, population: i64, mutation_rate: f64) -> RunInternal {
    let mut run = seeded_run(config(seed, population, mutation_rate));
    let scores = ramp(run.population.len());
    run.apply_fitness(scores);
    run
}

#[test]
fn the_best_is_the_first_of_the_greatest() {
    assert!(best_index(&fits(&[])).is_none());
    let (index, value) = best_index(&fits(&[1.0])).unwrap();
    assert_eq!((index, flt(value)), (0, 1.0));
    let (index, value) = best_index(&fits(&[1.0, 3.0, 2.0, 3.0])).unwrap();
    assert_eq!((index, flt(value)), (1, 3.0));
    let (index, value) = best_index(&fits(&[-5.0, -7.0, f64::NEG_INFINITY])).unwrap();
    assert_eq!((index, flt(value)), (0, -5.0));
    let (index, _) = best_index(&fits(&[0.0, -0.0, 0.0])).unwrap();
    assert_eq!(index, 0);
    let (index, value) = best_index(&fits(&[0.0, 1.0, 2.0, 3.0, 4.0, 5.0, 6.0, 7.0])).unwrap();
    assert_eq!((index, flt(value)), (7, 7.0));
}

#[test]
fn what_is_not_a_number_is_never_the_best() {
    let (index, value) = best_index(&fits(&[f64::NAN, 1.0, f64::NAN])).unwrap();
    assert_eq!((index, flt(value)), (1, 1.0));
    let (index, value) = best_index(&fits(&[2.0, f64::NAN])).unwrap();
    assert_eq!((index, flt(value)), (0, 2.0));
    let (index, value) = best_index(&fits(&[f64::NAN, f64::NEG_INFINITY])).unwrap();
    assert_eq!((index, flt(value)), (1, f64::NEG_INFINITY));
    let (index, value) = best_index(&fits(&[f64::NAN, f64::NAN])).unwrap();
    assert_eq!(index, 0);
    assert!(flt(value).is_nan());
}

#[test]
fn a_tournament_goes_to_the_greatest_fitness_drawn() {
    let fitness = fits(&[1.0, 5.0, 3.0, 5.0]);
    assert_eq!(pick_winner(&fitness, &vec![0, 2, 1]), 1);
    assert_eq!(pick_winner(&fitness, &vec![2, 0, 0]), 2);
    assert_eq!(pick_winner(&fitness, &vec![0]), 0);
    assert_eq!(pick_winner(&fitness, &vec![0, 0, 0]), 0);
}

#[test]
fn of_equal_fitnesses_the_first_drawn_wins() {
    let fitness = fits(&[1.0, 5.0, 3.0, 5.0]);
    assert_eq!(pick_winner(&fitness, &vec![3, 1, 0]), 3);
    assert_eq!(pick_winner(&fitness, &vec![1, 3, 0]), 1);
    assert_eq!(pick_winner(&fits(&[0.0, -0.0]), &vec![1, 0]), 1);
}

#[test]
fn missing_and_unordered_fitness_counts_as_zero() {
    let fitness = fits(&[-1.0, f64::NAN, 1.0]);
    assert_eq!(pick_winner(&fitness, &vec![0, 1, 0]), 1);
    assert_eq!(pick_winner(&fitness, &vec![1, 2, 0]), 2);
    assert_eq!(pick_winner(&fitness, &vec![0, 7, 0]), 7);
    assert_eq!(pick_winner(&fitness, &vec![7, 1, 0]), 7);
    assert_eq!(pick_winner(&fits(&[f64::NEG_INFINITY, -2.0]), &vec![0, 0, 0]), 0);
}

#[test]
fn population_size_is_the_configured_one_or_1() {
    assert_eq!(population_target(8), 8);
    assert_eq!(population_target(1), 1);
    assert_eq!(population_target(5000), 5000);
    assert_eq!(population_target(0), 1);
    assert_eq!(population_target(-3), 1);
    assert_eq!(population_target(i64::MIN), 1);
}

#[test]
fn mutation_is_decided_by_the_drawn_bits() {
    let mut words = StdRng::seed_from_u64(5);
    let mut floats = StdRng::seed_from_u64(5);
    for rate in [0.0, 0.1, 0.5, 1.0] {
        for _ in 0..500 {
            let word: u64 = words.gen();
            assert_eq!(decide_mutation(word, fit(rate)), floats.gen::<f64>() < rate);
        }
    }
    assert!(!decide_mutation(0, fit(0.0)));
    assert!(decide_mutation(0, fit(f64::MIN_POSITIVE)));
    assert!(decide_mutation(u64::MAX, fit(1.0)));
    assert!(!decide_mutation(1 << 63, fit(0.5)));
    assert!(decide_mutation((1 << 63) - 1, fit(0.5)));
    assert!(!decide_mutation(0, fit(f64::NAN)));
}

#[test]
fn a_new_run_has_its_population_and_nothing_else() {
    for (seed, population) in [(42, 8), (-1, 1), (7, 50)] {
        let run = seeded_run(config(seed, population, 0.1));
        assert_eq!(run.population.len(), population as usize);
        assert_eq!(run.generation, 0);
        assert!(run.fitness.is_empty());
        assert!(run.history.is_empty());
        assert!(run.best_genome.instructions.is_empty());
        for genome in &run.population {
            assert!((8..=32).contains(&genome.instructions.len()));
        }
    }
    assert_eq!(seeded_run(config(1, 0, 0.1)).population.len(), 1);
    assert_eq!(seeded_run(config(1, -5, 0.1)).population.len(), 1);
}

#[test]
fn the_first_population_is_drawn_genome_by_genome() {
    let run = seeded_run(config(42, 8, 0.1));
    let mut rng = StdRng::seed_from_u64(42);
    for genome in &run.population {
        let len = rng.gen_range(8usize..=32);
        assert_eq!(genome.instructions.len(), len);
        for made in &genome.instructions {
            let op = ["PUSH", "LOAD", "STORE", "ADD", "SUB", "MUL", "DIV", "DUP", "SWAP", "POP", "HALT", "NOP"]
                [rng.gen_range(0..12usize)];
            assert_eq!(made.op, op);
            match op {
                "PUSH" => assert_eq!(
                    made.arg.map(|a| a.to_bits()),
                    Some(rng.gen_range(-10.0..10.0f64).to_bits())
                ),
                "LOAD" | "STORE" => {
                    assert_eq!(made.arg.map(flt), Some(rng.gen_range(0..4usize) as f64))
                }
                _ => assert!(made.arg.is_none()),
            }
        }
    }
}

#[test]
fn scores_set_the_best_and_the_history() {
    let mut run = seeded_run(config(3, 4, 0.1));
    run.apply_fitness(fits(&[1.0, 9.0, 9.0, f64::NAN]));
    assert_eq!(flt(run.best_fitness), 9.0);
    assert_eq!(shape(&run.best_genome), shape(&run.population[1]));
    assert_eq!(run.fitness.len(), 4);
    assert_eq!(run.history.len(), 1);
    assert_eq!((run.history[0].0, flt(run.history[0].1)), (0, 9.0));
    assert_eq!(run.generation, 0);
}

#[test]
fn the_next_population_begins_with_the_best() {
    let mut run = scored_run(42, 8, 0.1);
    let before = shapes(&run.population);
    let next = bred(&mut run);
    assert_eq!(next.len(), 8);
    assert_eq!(shape(&next[0]), shape(&run.best_genome));
    assert_eq!(shapes(&run.population), before);
    assert_eq!(run.generation, 0);
    assert_eq!(run.history.len(), 1);
}

#[test]
fn without_mutation_children_are_copies() {
    let mut run = scored_run(9, 12, 0.0);
    let parents = shapes(&run.population);
    let next = bred(&mut run);
    for child in &next {
        assert!(parents.contains(&shape(child)));
    }
}

#[test]
fn with_every_child_mutated_lengths_stay_in_bounds() {
    let mut run = scored_run(10, 30, 1.0);
    for _ in 0..20 {
        let next = bred(&mut run);
        assert_eq!(next.len(), 30);
        for child in &next {
            assert!((1..=64).contains(&child.instructions.len()));
        }
        let scores = ramp(next.len());
        run.commit(next, scores);
    }
    assert_eq!(run.generation, 20);
}

#[test]
fn a_population_of_one_is_its_best() {
    let mut run = scored_run(5, 1, 1.0);
    let mut breeding = run.next_population();
    assert!(breeding.is_complete());
    assert!(breeding.request().is_none());
    let next = std::mem::replace(&mut breeding.offspring, Vec::new());
    assert_eq!(shapes(&next), vec![shape(&run.best_genome)]);
}

#[test]
fn a_tournament_draws_its_members_from_the_generator() {
    let mut run = scored_run(17, 8, 0.1);
    let mut rng = run.rng.clone();
    for _ in 0..100 {
        let winner = run.tournament_select(TOURNAMENT_SIZE);
        let draws: Vec<usize> = (0..3).map(|_| rng.gen_range(0..8usize)).collect();
        assert_eq!(winner, *draws.iter().max().unwrap());
    }
    assert_eq!(run.tournament_select(0), 0);
    assert_eq!(run.rng.gen::<u64>(), rng.gen::<u64>());
}

#[test]
fn a_step_counts_one_generation_and_adds_one_point() {
    let mut run = scored_run(42, 8, 0.1);
    for step in 1..=5u32 {
        let next = bred(&mut run);
        let expected = shapes(&next);
        run.commit(next, ramp(8));
        assert_eq!(run.generation, step);
        assert_eq!(run.population.len(), 8);
        assert_eq!(shapes(&run.population), expected);
        assert_eq!(run.history.len(), step as usize + 1);
        assert_eq!(run.history.last().map(|p| p.0), Some(step));
        assert_eq!(flt(run.best_fitness), 7.0);
        assert_eq!(shape(&run.best_genome), shape(&run.population[7]));
    }
    let generations: Vec<u32> = run.history.iter().map(|p| p.0).collect();
    assert_eq!(generations, vec![0, 1, 2, 3, 4, 5]);
}

#[test]
fn the_best_fitness_does_not_fall_while_the_elite_keeps_its_score() {
    let mut run = seeded_run(config(8, 6, 0.5));
    run.apply_fitness(fits(&[1.0, 4.0, 2.0, 0.0, 3.0, -1.0]));
    let mut best = flt(run.best_fitness);
    let mut seed: u64 = 99;
    for _ in 0..30 {
        let next = bred(&mut run);
        let mut scores = vec![fit(best)];
        for _ in 1..next.len() {
            seed = seed.wrapping_mul(6364136223846793005).wrapping_add(1442695040888963407);
            scores.push(fit((seed >> 40) as f64 / 1e6 - 5.0));
        }
        run.commit(next, scores);
        assert!(flt(run.best_fitness) >= best);
        best = flt(run.best_fitness);
    }
}

#[test]
fn a_run_is_shown_with_its_configuration() {
    let mut run = seeded_run(RunConfig {
        seed: -2,
        population: 3,
        generations: 77,
        mutation_rate: fit(0.25),
        task: "fit a line".to_string(),
    });
    run.apply_fitness(fits(&[0.5, 1.5, 1.0]));
    let state = run.to_state("000000000000002a");
    assert_eq!(state.run_id, "000000000000002a");
    assert_eq!(state.generation, 0);
    assert_eq!(flt(state.best_fitness), 1.5);
    assert_eq!(shape(&state.best_genome), shape(&run.population[1]));
    assert_eq!(state.seed, u64::MAX - 1);
    assert_eq!(state.population, 3);
    assert_eq!(state.generations, 77);
    assert_eq!(flt(state.mutation_rate), 0.25);
    assert_eq!(state.task, "fit a line");
}

#[test]
fn equal_seeds_and_scores_give_equal_runs() {
    let mut a = scored_run(42, 8, 0.3);
    let mut b = scored_run(42, 8, 0.3);
    let mut c = scored_run(43, 8, 0.3);
    assert_eq!(shapes(&a.population), shapes(&b.population));
    assert_ne!(shapes(&a.population), shapes(&c.population));
    for _ in 0..25 {
        let (next_a, next_b) = (bred(&mut a), bred(&mut b));
        assert_eq!(shapes(&next_a), shapes(&next_b));
        a.commit(next_a, ramp(8));
        b.commit(next_b, ramp(8));
        assert_eq!(shape(&a.best_genome), shape(&b.best_genome));
        assert_eq!(a.best_fitness.to_bits(), b.best_fitness.to_bits());
    }
    let history_a: Vec<(u32, u64)> = a.history.iter().map(|p| (p.0, p.1.to_bits())).collect();
    let history_b: Vec<(u32, u64)> = b.history.iter().map(|p| (p.0, p.1.to_bits())).collect();
    assert_eq!(history_a, history_b);
}

#[test]
fn breeding_follows_the_generator_draw_by_draw() {
    let mut run = scored_run(123, 10, 0.0);
    let mut rng = run.rng.clone();
    let fitness: Vec<f64> = run.fitness.iter().map(|&f| flt(f)).collect();
    let next = bred(&mut run);
    let mut expected = vec![shape(&run.best_genome)];
    while expected.len() < 10 {
        let mut winner = rng.gen_range(0..10usize);
        for _ in 1..3 {
            let challenger = rng.gen_range(0..10usize);
            if fitness[challenger] > fitness[winner] {
                winner = challenger;
            }
        }
        let _: f64 = rng.gen();
        expected.push(shape(&run.population[winner]));
    }
    assert_eq!(shapes(&next), expected);
    assert_eq!(run.rng.gen::<u64>(), rng.gen::<u64>());
}

#[test]
fn an_instruction_made_by_hand_is_kept_as_given() {
    let made = Instruction { op: "PUSH".to_string(), arg: Some(fit(2.0)) };
    let genome = Genome { instructions: vec![made] };
    assert_eq!(shape(&genome), vec![("PUSH".to_string(), Some(2.0f64.to_bits()))]);
}

#[test]
fn a_supplied_number_is_the_argument_of_the_next_push() {
    let mut run = RunInternal::new(config(6, 5, 0.1));
    let mut supplied = 0;
    while run.request().is_some() {
        let members = run.population.len();
        let (held, length) = {
            let draft = run.draft.as_ref().unwrap();
            (shape(&Genome { instructions: draft.instructions.clone() }), draft.length)
        };
        let value = fit(0.5 + supplied as f64);
        run.supply(value);
        supplied += 1;
        let made: Vec<(String, Option<u64>)> = if run.population.len() > members {
            assert_eq!(run.population[members].instructions.len(), length);
            shape(&run.population[members])
        } else {
            let draft = run.draft.as_ref().unwrap();
            assert_eq!(draft.length, length);
            assert!(draft.instructions.len() < length);
            shape(&Genome { instructions: draft.instructions.clone() })
        };
        assert!(made.len() > held.len());
        assert_eq!(&made[..held.len()], &held[..]);
        assert_eq!(made[held.len()], ("PUSH".to_string(), Some(value.to_bits())));
    }
    assert!(supplied > 0);
    assert!(run.is_seeded());
    assert_eq!(run.population.len(), 5);
}

#[test]
fn at_a_rate_of_zero_no_child_waits_or_changes() {
    for rate in [0.0, -0.0, -1.0, f64::NAN] {
        let mut run = scored_run(21, 16, rate);
        let parents = shapes(&run.population);
        for _ in 0..5 {
            let breeding = run.next_population();
            assert!(breeding.is_complete());
            assert!(breeding.request().is_none());
            let next = breeding.finish();
            assert_eq!(next.len(), 16);
            for child in &next {
                assert!(parents.contains(&shape(child)));
            }
        }
    }
}

#[test]
fn at_a_rate_of_one_every_child_is_mutated() {
    let mut run = scored_run(22, 40, 1.0);
    let mut rng = run.rng.clone();
    let mut breeding = run.next_population();
    let mut asked = 0;
    while let Some(request) = breeding.request() {
        asked += 1;
        let value = drawn(&mut run.rng, request);
        run.resume_population(&mut breeding, value);
    }
    assert!(asked > 0);
    for _ in 0..3 {
        let _ = rng.gen_range(0..40usize);
    }
    assert!(rng.gen::<f64>() < 1.0);
    let next = breeding.finish();
    let parents = shapes(&run.population);
    let changed = next[1..].iter().filter(|child| !parents.contains(&shape(child))).count();
    assert!(changed > 30);
}

#[test]
fn a_waiting_child_joins_with_its_mutation() {
    let mut run = scored_run(23, 6, 1.0);
    let mut breeding = run.next_population();
    let mut seen = 0;
    while breeding.request().is_some() {
        let at = breeding.offspring.len();
        let (before, tweak_at) = {
            let pending = breeding.pending.as_ref().unwrap();
            let tweak_at = match pending.edit {
                Edit::Tweak { index } => Some(index),
                _ => None,
            };
            (shape(&pending.child), tweak_at)
        };
        run.resume_population(&mut breeding, fit(0.25));
        assert!(breeding.offspring.len() > at);
        let joined = shape(&breeding.offspring[at]);
        match tweak_at {
            Some(index) => {
                let base = before[index].1.map(f64::from_bits).unwrap_or(0.0);
                assert_eq!(joined[index].1, Some((base + 0.25).clamp(-10.0, 10.0).to_bits()));
                assert_eq!(joined.len(), before.len());
            }
            None => {
                assert!(joined.contains(&("PUSH".to_string(), Some(0.25f64.to_bits()))));
            }
        }
        seen += 1;
    }
    assert!(seen > 0);
    assert!(is_sound(&breeding.offspring));
}

#[test]
fn a_number_that_is_not_finite_leaves_the_child_a_copy() {
    let mut run = scored_run(24, 6, 1.0);
    let mut breeding = run.next_population();
    assert!(breeding.request().is_some());
    let at = breeding.offspring.len();
    let before = {
        let Pending { child, .. } = breeding.pending.as_ref().unwrap();
        shape(child)
    };
    run.resume_population(&mut breeding, fit(f64::NAN));
    assert_eq!(shape(&breeding.offspring[at]), before);
    while let Some(request) = breeding.request() {
        let value = drawn(&mut run.rng, request);
        run.resume_population(&mut breeding, value);
    }
    assert!(is_sound(&breeding.offspring));
}

#[test]
fn runs_hold_well_formed_instructions() {
    let mut run = scored_run(25, 20, 0.7);
    assert!(is_sound(&run.population));
    for _ in 0..30 {
        let next = bred(&mut run);
        assert!(is_sound(&next));
        let scores = ramp(next.len());
        run.commit(next, scores);
        assert!(is_sound(&run.population));
    }
}

#[test]
fn scoring_and_stepping_do_not_draw() {
    let mut run = seeded_run(config(26, 5, 0.5));
    let mut rng = run.rng.clone();
    run.apply_fitness(ramp(5));
    assert_eq!(run.rng, rng);
    let next = bred(&mut run);
    rng = run.rng.clone();
    run.commit(next, ramp(5));
    assert_eq!(run.rng, rng);
}
