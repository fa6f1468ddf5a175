use evo_engine::genome::{
    apply_edit, apply_sound, delete_instruction, insert_instruction, is_all_well_formed,
    is_well_formed, make_instruction, make_push, make_slot, mutate_genome, mutate_with,
    operator_for, parse_register_index, point_mutate, push_indices, random_genome,
    random_instruction, register_real, try_tweak, tweak, tweak_push, Edit, Operator,
    RealRequest, Slot, ABS_MAX_LEN, MAX_LEN, MIN_LEN, REGISTER_COUNT,
};
use evo_engine::models::{Genome, Instruction, Opcode, OPCODE_COUNT};
use evo_engine::number::Real;
use evo_engine::rng::seeded_rng;
use rand::rngs::StdRng;
use rand::Rng;

const OPS: [&str; 12] = [
    "PUSH", "LOAD", "STORE", "ADD", "SUB", "MUL", "DIV", "DUP", "SWAP", "POP", "HALT", "NOP",
];

fn num(x: f64) -> Real {
    Real::from_bits(x.to_bits())
}

fn val(r: Real) -> f64 {
    f64::from_bits(r.to_bits())
}

fn instr(op: &str, arg: Option<f64>) -> Instruction {
    Instruction { op: op.to_string(), arg: arg.map(num) }
}

fn genome_of(ops: &[(&str, Option<f64>)]) -> Genome {
    Genome { instructions: ops.iter().map(|(op, arg)| instr(op, *arg)).collect() }
}

fn plain(genome: &Genome) -> Vec<(String, Option<u64>)> {
    genome.instructions.iter().map(|i| (i.op.clone(), i.arg.map(|a| a.to_bits()))).collect()
}

/// Draws the number that a request asks for.
fn answer(rng: &mut StdRng, request: RealRequest) -> Real {
    num(rng.gen_range(val(request.low)..val(request.high)))
}

/// An instruction drawn in one go, the argument of a `PUSH` with it.
fn direct_instruction(rng: &mut StdRng) -> (String, Option<u64>) {
    let op = OPS[rng.gen_range(0..OPS.len())];
    match op {
        "PUSH" => (op.to_string(), Some(rng.gen_range(-10.0..10.0f64).to_bits())),
        "LOAD" | "STORE" => {
            (op.to_string(), Some((rng.gen_range(0..REGISTER_COUNT) as f64).to_bits()))
        }
        _ => (op.to_string(), None),
    }
}

fn direct_genome(rng: &mut StdRng) -> Vec<(String, Option<u64>)> {
    let len = rng.gen_range(MIN_LEN..=MAX_LEN);
    (0..len).map(|_| direct_instruction(rng)).collect()
}

/// One mutation made in one go on plain values.
fn direct_mutation(genome: &mut Vec<(String, Option<u64>)>, rng: &mut StdRng) {
    fn point(genome: &mut Vec<(String, Option<u64>)>, rng: &mut StdRng) {
        let idx = rng.gen_range(0..genome.len());
        genome[idx] = direct_instruction(rng);
    }
    if genome.is_empty() {
        genome.push(direct_instruction(rng));
        return;
    }
    match rng.gen_range(0..4) {
        0 => point(genome, rng),
        1 => {
            let pushes: Vec<usize> =
                (0..genome.len()).filter(|&i| genome[i].0 == "PUSH").collect();
            if pushes.is_empty() {
                point(genome, rng);
            } else {
                let idx = pushes[rng.gen_range(0..pushes.len())];
                let noise: f64 = rng.gen_range(-1.0..1.0);
                let old = genome[idx].1.map(f64::from_bits).unwrap_or(0.0);
                genome[idx].1 = Some((old + noise).clamp(-10.0, 10.0).to_bits());
            }
        }
        2 => {
            if genome.len() >= ABS_MAX_LEN {
                point(genome, rng);
            } else {
                let idx = rng.gen_range(0..=genome.len());
                let made = direct_instruction(rng);
                genome.insert(idx, made);
            }
        }
        _ => {
            if genome.len() > 1 {
                let idx = rng.gen_range(0..genome.len());
                genome.remove(idx);
            }
        }
    }
    genome.truncate(ABS_MAX_LEN);
}

fn finished_genome(rng: &mut StdRng) -> Genome {
    let mut draft = random_genome(rng);
    while let Some(request) = draft.request() {
        let value = answer(rng, request);
        draft.supply(value, rng);
    }
    draft.finish()
}

fn mutated(genome: &mut Genome, rng: &mut StdRng) {
    let edit = mutate_genome(genome, rng);
    let value = match edit.request() {
        Some(request) => answer(rng, request),
        None => num(0.0),
    };
    apply_edit(genome, edit, value);
}

#[test]
fn register_numbers_are_read() {
    assert_eq!(parse_register_index(Some(num(0.0))), Ok(0));
    assert_eq!(parse_register_index(Some(num(-0.0))), Ok(0));
    assert_eq!(parse_register_index(Some(num(1.0))), Ok(1));
    assert_eq!(parse_register_index(Some(num(2.0))), Ok(2));
    assert_eq!(parse_register_index(Some(num(3.0))), Ok(3));
}

#[test]
fn other_numbers_select_no_register() {
    for x in [4.0, -1.0, 0.5, 2.0000000000000004, 1e-300, f64::NAN, f64::INFINITY] {
        assert_eq!(
            parse_register_index(Some(num(x))),
            Err("invalid register index".to_string()),
            "{x}"
        );
    }
    assert_eq!(parse_register_index(None), Err("invalid register index".to_string()));
}

#[test]
fn register_numbers_round_trip() {
    for index in 0..REGISTER_COUNT {
        assert_eq!(val(register_real(index)), index as f64);
        assert_eq!(parse_register_index(Some(register_real(index))), Ok(index));
    }
}

#[test]
fn opcodes_have_their_symbols() {
    assert_eq!(OPCODE_COUNT, OPS.len());
    for (index, symbol) in OPS.iter().enumerate() {
        let code = Opcode::from_index(index);
        assert_eq!(code.name(), *symbol);
        assert_eq!(Opcode::parse(symbol), Some(code));
    }
    for text in ["", "push", "PUSHX", "NOP ", "HAL"] {
        assert_eq!(Opcode::parse(text), None);
    }
}

#[test]
fn instructions_carry_what_their_operation_needs() {
    let load = make_instruction(Opcode::Load, 2);
    assert_eq!((load.op.as_str(), load.arg.map(val)), ("LOAD", Some(2.0)));
    let store = make_instruction(Opcode::Store, 3);
    assert_eq!((store.op.as_str(), store.arg.map(val)), ("STORE", Some(3.0)));
    let add = make_instruction(Opcode::Add, 1);
    assert_eq!((add.op.as_str(), add.arg.map(val)), ("ADD", None));
    let push = make_push(num(-2.5));
    assert_eq!((push.op.as_str(), push.arg.map(val)), ("PUSH", Some(-2.5)));
    assert!(matches!(make_slot(Opcode::Push, 0), Slot::Push));
    match make_slot(Opcode::Halt, 0) {
        Slot::Ready(made) => assert_eq!((made.op.as_str(), made.arg.map(val)), ("HALT", None)),
        Slot::Push => panic!("expected an instruction"),
    }
    assert_eq!(val(Slot::Push.fill(num(4.0)).arg.unwrap()), 4.0);
    assert!(Slot::Ready(instr("NOP", None)).fill(num(4.0)).arg.is_none());
}

#[test]
fn drawn_instructions_are_well_formed() {
    let mut rng = seeded_rng(5);
    let mut pushes = 0;
    for _ in 0..2000 {
        match random_instruction(&mut rng) {
            Slot::Push => pushes += 1,
            Slot::Ready(made) => match made.op.as_str() {
                "LOAD" | "STORE" => {
                    let index = parse_register_index(made.arg).unwrap();
                    assert!(index < REGISTER_COUNT);
                }
                symbol => {
                    assert!(OPS.contains(&symbol) && symbol != "PUSH");
                    assert!(made.arg.is_none());
                }
            },
        }
    }
    assert!(pushes > 100 && pushes < 250);
}

#[test]
fn drawn_genomes_follow_the_generator_draw_by_draw() {
    for seed in 0..200 {
        let mut ours = seeded_rng(seed);
        let mut theirs = seeded_rng(seed);
        let genome = finished_genome(&mut ours);
        assert_eq!(plain(&genome), direct_genome(&mut theirs), "seed {seed}");
        assert_eq!(ours.gen::<u64>(), theirs.gen::<u64>());
    }
}

#[test]
fn drawn_genomes_have_8_to_32_instructions() {
    let mut rng = seeded_rng(77);
    let mut shortest = usize::MAX;
    let mut longest = 0;
    for _ in 0..500 {
        let genome = finished_genome(&mut rng);
        let len = genome.instructions.len();
        assert!((MIN_LEN..=MAX_LEN).contains(&len));
        shortest = shortest.min(len);
        longest = longest.max(len);
        for made in &genome.instructions {
            if made.op == "PUSH" {
                let arg = val(made.arg.unwrap());
                assert!((-10.0..10.0).contains(&arg));
            }
        }
    }
    assert_eq!((shortest, longest), (MIN_LEN, MAX_LEN));
}

#[test]
fn a_draft_waits_only_for_push_arguments() {
    let mut rng = seeded_rng(9);
    for _ in 0..100 {
        let mut draft = random_genome(&mut rng);
        while !draft.is_complete() {
            let before = draft.instructions.len();
            match draft.request() {
                Some(RealRequest { low, high }) => {
                    assert_eq!((val(low), val(high)), (-10.0, 10.0));
                }
                None => panic!("expected a request"),
            }
            draft.supply(num(1.25), &mut rng);
            assert_eq!(draft.instructions[before].op, "PUSH");
            assert_eq!(draft.instructions[before].arg.map(val), Some(1.25));
            assert!(draft.instructions.len() > before);
        }
        assert!(draft.request().is_none());
        assert_eq!(draft.instructions.len(), draft.length);
    }
}

#[test]
fn operators_are_chosen_by_number() {
    assert_eq!(operator_for(0), Operator::Point);
    assert_eq!(operator_for(1), Operator::Tweak);
    assert_eq!(operator_for(2), Operator::Insert);
    assert_eq!(operator_for(3), Operator::Delete);
}

#[test]
fn push_positions_are_found_in_order() {
    let genome = genome_of(&[
        ("PUSH", Some(1.0)),
        ("ADD", None),
        ("PUSH", None),
        ("push", Some(1.0)),
        ("PUSH", Some(2.0)),
    ]);
    assert_eq!(push_indices(&genome), vec![0, 2, 4]);
    assert!(push_indices(&genome_of(&[("NOP", None)])).is_empty());
    assert!(push_indices(&genome_of(&[])).is_empty());
}

#[test]
fn edits_change_exactly_what_they_name() {
    let base = [("PUSH", Some(1.0)), ("ADD", None), ("HALT", None)];
    let mut genome = genome_of(&base);
    apply_edit(&mut genome, Edit::Replace { index: 1, slot: Slot::Push }, num(4.5));
    assert_eq!(
        plain(&genome),
        plain(&genome_of(&[("PUSH", Some(1.0)), ("PUSH", Some(4.5)), ("HALT", None)]))
    );
    let mut genome = genome_of(&base);
    apply_edit(
        &mut genome,
        Edit::Replace { index: 2, slot: Slot::Ready(instr("NOP", None)) },
        num(4.5),
    );
    assert_eq!(
        plain(&genome),
        plain(&genome_of(&[("PUSH", Some(1.0)), ("ADD", None), ("NOP", None)]))
    );
    let mut genome = genome_of(&base);
    apply_edit(&mut genome, Edit::Insert { index: 3, slot: Slot::Push }, num(-2.0));
    assert_eq!(
        plain(&genome),
        plain(&genome_of(&[
            ("PUSH", Some(1.0)),
            ("ADD", None),
            ("HALT", None),
            ("PUSH", Some(-2.0))
        ]))
    );
    let mut genome = genome_of(&base);
    apply_edit(
        &mut genome,
        Edit::Insert { index: 0, slot: Slot::Ready(instr("LOAD", Some(1.0))) },
        num(0.0),
    );
    assert_eq!(
        plain(&genome),
        plain(&genome_of(&[
            ("LOAD", Some(1.0)),
            ("PUSH", Some(1.0)),
            ("ADD", None),
            ("HALT", None)
        ]))
    );
    let mut genome = genome_of(&base);
    apply_edit(&mut genome, Edit::Remove { index: 0 }, num(0.0));
    assert_eq!(plain(&genome), plain(&genome_of(&[("ADD", None), ("HALT", None)])));
    let mut genome = genome_of(&base);
    apply_edit(&mut genome, Edit::Keep, num(0.0));
    assert_eq!(plain(&genome), plain(&genome_of(&base)));
}

#[test]
fn a_tweak_adds_the_noise_and_clamps() {
    for (arg, noise, expected) in [
        (Some(1.5), 0.25, 1.75),
        (Some(9.9), 0.6, 10.0),
        (Some(-9.5), -0.75, -10.0),
        (Some(9.5), 0.5, 10.0),
        (None, -0.5, -0.5),
        (Some(0.1), 0.2, 0.30000000000000004),
    ] {
        let mut genome = genome_of(&[("NOP", None), ("PUSH", arg)]);
        apply_edit(&mut genome, Edit::Tweak { index: 1 }, num(noise));
        assert_eq!(genome.instructions[1].op, "PUSH");
        assert_eq!(genome.instructions[1].arg.map(val), Some(expected));
        assert!(genome.instructions[0].arg.is_none());
        assert_eq!(val(tweak(arg.map(num), num(noise))), expected);
    }
}

#[test]
fn edits_ask_for_the_numbers_they_wait_for() {
    match (Edit::Tweak { index: 0 }).request() {
        Some(RealRequest { low, high }) => assert_eq!((val(low), val(high)), (-1.0, 1.0)),
        None => panic!("expected a request"),
    }
    for edit in [
        Edit::Insert { index: 0, slot: Slot::Push },
        Edit::Replace { index: 0, slot: Slot::Push },
    ] {
        match edit.request() {
            Some(RealRequest { low, high }) => assert_eq!((val(low), val(high)), (-10.0, 10.0)),
            None => panic!("expected a request"),
        }
    }
    assert!((Edit::Remove { index: 0 }).request().is_none());
    assert!(Edit::Keep.request().is_none());
    assert!((Edit::Replace { index: 0, slot: Slot::Ready(instr("NOP", None)) })
        .request()
        .is_none());
    assert!((Edit::Insert { index: 0, slot: Slot::Ready(instr("NOP", None)) })
        .request()
        .is_none());
}

#[test]
fn an_overlong_genome_is_cut_to_64() {
    let ops: Vec<(&str, Option<f64>)> = (0..70).map(|_| ("NOP", None)).collect();
    let mut genome = genome_of(&ops);
    apply_edit(&mut genome, Edit::Replace { index: 3, slot: Slot::Push }, num(1.0));
    assert_eq!(genome.instructions.len(), ABS_MAX_LEN);
    assert_eq!(genome.instructions[3].op, "PUSH");
}

#[test]
fn an_empty_genome_gets_one_instruction() {
    let mut rng = seeded_rng(4);
    for _ in 0..50 {
        let mut genome = genome_of(&[]);
        let edit = mutate_genome(&genome, &mut rng);
        assert!(matches!(edit, Edit::Insert { index: 0, .. }));
        mutated(&mut genome, &mut rng);
        assert_eq!(genome.instructions.len(), 1);
    }
}

#[test]
fn each_operator_settles_its_own_edit() {
    let mut rng = seeded_rng(21);
    let genome = genome_of(&[("NOP", None), ("PUSH", Some(1.0)), ("ADD", None)]);
    let single = genome_of(&[("NOP", None)]);
    let full_ops: Vec<(&str, Option<f64>)> = (0..64).map(|_| ("NOP", None)).collect();
    let full = genome_of(&full_ops);
    for _ in 0..100 {
        match point_mutate(&genome, &mut rng) {
            Edit::Replace { index, .. } => assert!(index < 3),
            other => panic!("unexpected edit {other:?}"),
        }
        match tweak_push(&genome, &mut rng) {
            Edit::Tweak { index } => assert_eq!(index, 1),
            other => panic!("unexpected edit {other:?}"),
        }
        assert!(matches!(tweak_push(&single, &mut rng), Edit::Replace { index: 0, .. }));
        match insert_instruction(&genome, &mut rng) {
            Edit::Insert { index, .. } => assert!(index <= 3),
            other => panic!("unexpected edit {other:?}"),
        }
        match insert_instruction(&full, &mut rng) {
            Edit::Replace { index, .. } => assert!(index < 64),
            other => panic!("unexpected edit {other:?}"),
        }
        match delete_instruction(&genome, &mut rng) {
            Edit::Remove { index } => assert!(index < 3),
            other => panic!("unexpected edit {other:?}"),
        }
        assert!(matches!(delete_instruction(&single, &mut rng), Edit::Keep));
    }
}

#[test]
fn mutations_follow_the_generator_draw_by_draw() {
    for seed in 0..100 {
        let mut ours = seeded_rng(seed);
        let mut theirs = seeded_rng(seed);
        let mut genome = finished_genome(&mut ours);
        let mut expected = direct_genome(&mut theirs);
        for round in 0..60 {
            mutated(&mut genome, &mut ours);
            direct_mutation(&mut expected, &mut theirs);
            assert_eq!(plain(&genome), expected, "seed {seed}, round {round}");
        }
        assert_eq!(ours.gen::<u64>(), theirs.gen::<u64>());
    }
}

#[test]
fn mutated_genomes_keep_1_to_64_instructions() {
    let mut rng = seeded_rng(31);
    let mut genome = finished_genome(&mut rng);
    let mut shortest = usize::MAX;
    let mut longest = 0;
    for _ in 0..5000 {
        mutated(&mut genome, &mut rng);
        let len = genome.instructions.len();
        assert!((1..=ABS_MAX_LEN).contains(&len));
        shortest = shortest.min(len);
        longest = longest.max(len);
        for made in &genome.instructions {
            if made.op == "PUSH" {
                let arg = val(made.arg.unwrap());
                assert!((-10.0..=10.0).contains(&arg));
            }
        }
    }
    assert!(shortest < MIN_LEN || longest > MAX_LEN);
}

#[test]
fn copies_hold_the_same_instructions() {
    let genome = genome_of(&[("PUSH", Some(1.5)), ("LOAD", Some(2.0)), ("HALT", None)]);
    assert_eq!(plain(&genome.clone()), plain(&genome));
    let one = instr("PUSH", Some(-0.0));
    let copy = one.clone();
    assert_eq!((copy.op, copy.arg.map(|a| a.to_bits())), (one.op, one.arg.map(|a| a.to_bits())));
}

#[test]
fn each_operator_makes_its_kind_of_edit() {
    let mut rng = seeded_rng(55);
    let genome = genome_of(&[("NOP", None), ("PUSH", Some(1.0)), ("ADD", None)]);
    let plain_genome = genome_of(&[("NOP", None), ("ADD", None)]);
    let single = genome_of(&[("HALT", None)]);
    let full_ops: Vec<(&str, Option<f64>)> = (0..64).map(|_| ("NOP", None)).collect();
    let full = genome_of(&full_ops);
    for _ in 0..50 {
        for g in [&genome, &plain_genome, &single, &full] {
            assert!(matches!(mutate_with(g, Operator::Point, &mut rng), Edit::Replace { .. }));
        }
        assert!(matches!(mutate_with(&genome, Operator::Tweak, &mut rng), Edit::Tweak { index: 1 }));
        assert!(matches!(
            mutate_with(&plain_genome, Operator::Tweak, &mut rng),
            Edit::Replace { .. }
        ));
        assert!(matches!(mutate_with(&genome, Operator::Insert, &mut rng), Edit::Insert { .. }));
        assert!(matches!(mutate_with(&full, Operator::Insert, &mut rng), Edit::Replace { .. }));
        assert!(matches!(mutate_with(&genome, Operator::Delete, &mut rng), Edit::Remove { .. }));
        assert!(matches!(mutate_with(&single, Operator::Delete, &mut rng), Edit::Keep));
    }
}

#[test]
fn a_tested_tweak_gives_nothing_for_a_sum_that_is_no_number() {
    assert_eq!(try_tweak(Some(num(1.5)), num(0.25)).map(val), Some(1.75));
    assert_eq!(try_tweak(Some(num(9.9)), num(0.6)).map(val), Some(10.0));
    assert_eq!(try_tweak(None, num(-0.5)).map(val), Some(-0.5));
    assert_eq!(try_tweak(Some(num(f64::INFINITY)), num(0.5)).map(val), Some(10.0));
    assert!(try_tweak(Some(num(f64::NAN)), num(0.5)).is_none());
    assert!(try_tweak(Some(num(1.0)), num(f64::NAN)).is_none());
    assert!(try_tweak(Some(num(f64::INFINITY)), num(f64::NEG_INFINITY)).is_none());
}

#[test]
fn an_edit_that_would_make_an_ill_formed_instruction_is_left_out() {
    let base = [("PUSH", Some(1.0)), ("ADD", None)];
    let mut genome = genome_of(&base);
    assert!(apply_sound(&mut genome, Edit::Tweak { index: 0 }, num(0.5)));
    assert_eq!(genome.instructions[0].arg.map(val), Some(1.5));
    assert!(!apply_sound(&mut genome, Edit::Tweak { index: 0 }, num(f64::NAN)));
    assert_eq!(genome.instructions[0].arg.map(val), Some(1.5));
    assert!(!apply_sound(&mut genome, Edit::Insert { index: 0, slot: Slot::Push }, num(f64::INFINITY)));
    assert!(!apply_sound(&mut genome, Edit::Replace { index: 1, slot: Slot::Push }, num(f64::NAN)));
    assert_eq!(plain(&genome), plain(&genome_of(&[("PUSH", Some(1.5)), ("ADD", None)])));
    assert!(apply_sound(&mut genome, Edit::Insert { index: 0, slot: Slot::Push }, num(2.0)));
    assert!(apply_sound(&mut genome, Edit::Remove { index: 2 }, num(f64::NAN)));
    assert!(apply_sound(
        &mut genome,
        Edit::Replace { index: 1, slot: Slot::Ready(instr("NOP", None)) },
        num(f64::NAN)
    ));
    assert_eq!(plain(&genome), plain(&genome_of(&[("PUSH", Some(2.0)), ("NOP", None)])));
    assert!(is_all_well_formed(&genome));
}

#[test]
fn well_formed_instructions_are_told_from_others() {
    for (op, arg) in [
        ("PUSH", Some(1.0)),
        ("PUSH", Some(-0.0)),
        ("LOAD", Some(0.0)),
        ("STORE", Some(3.0)),
        ("ADD", None),
        ("HALT", None),
        ("NOP", None),
    ] {
        assert!(is_well_formed(&instr(op, arg)), "{op} {arg:?}");
    }
    for (op, arg) in [
        ("PUSH", None),
        ("PUSH", Some(f64::NAN)),
        ("PUSH", Some(f64::INFINITY)),
        ("LOAD", None),
        ("LOAD", Some(4.0)),
        ("STORE", Some(0.5)),
        ("ADD", Some(1.0)),
        ("NOP", Some(0.0)),
        ("JUMP", None),
        ("", None),
    ] {
        assert!(!is_well_formed(&instr(op, arg)), "{op} {arg:?}");
    }
    assert!(is_all_well_formed(&genome_of(&[])));
    assert!(is_all_well_formed(&genome_of(&[("PUSH", Some(1.0)), ("ADD", None)])));
    assert!(!is_all_well_formed(&genome_of(&[("PUSH", Some(1.0)), ("ADD", Some(1.0))])));
}

#[test]
fn drawn_and_mutated_genomes_stay_well_formed() {
    let mut rng = seeded_rng(63);
    let mut genome = finished_genome(&mut rng);
    assert!(is_all_well_formed(&genome));
    for _ in 0..2000 {
        mutated(&mut genome, &mut rng);
        assert!(is_all_well_formed(&genome));
    }
}
