//! Runs: their state, selection and reproduction, and the registry that
//! holds them.

use vstd::prelude::*;
use vstd::string::*;
use rand::rngs::StdRng;
use crate::genome::{
    all_well_formed, apply_edit, apply_sound, is_all_well_formed, mutate_genome, push_of,
    random_genome, Edit, EditView, GenomeDraft, RealRequest, ABS_MAX_LEN, MAX_LEN, MIN_LEN,
};
use crate::models::{Genome, InstructionView, RunConfig, RunConfigView, RunState, RunStateView};
use crate::number::{Real, MINUS_TEN, ONE, TEN, ZERO};
use crate::rng::{
    gen_range_usize, gen_word, lemma_unit_fraction_denotes, seed_as_word, seed_word, seeded_rng,
    unit_from_word, unit_real,
};

verus! {

/// Whether `index` is where the best fitness stands: nothing beats it, and
/// it beats everything before it, so that of equals the first is the best.
pub open spec fn is_best(fitness: Seq<Real>, index: int) -> bool {
    &&& 0 <= index < fitness.len()
    &&& forall|j: int| 0 <= j < fitness.len() ==> !(#[trigger] fitness[j]).beats(fitness[index])
    &&& forall|j: int| 0 <= j < index ==> fitness[index].beats(#[trigger] fitness[j])
}

/// There is one best position at most.
pub proof fn lemma_best_unique(fitness: Seq<Real>, i: int, j: int)
    requires
        is_best(fitness, i),
        is_best(fitness, j),
    ensures
        i == j,
{
    if i < j {
        assert(fitness[j].beats(fitness[i]));
    } else if j < i {
        assert(fitness[i].beats(fitness[j]));
    }
}

/// Where the best fitness stands, and the fitness there; nothing for an
/// empty list.
pub fn best_index(fitness: &Vec<Real>) -> (best: Option<(usize, Real)>)
    ensures
        match best {
            Some((index, value)) => is_best(fitness@, index as int) && value == fitness@[index as int],
            None => fitness@.len() == 0,
        },
{
    if fitness.len() == 0 {
        return None;
    }
    let mut index: usize = 0;
    let mut i: usize = 1;
    while i < fitness.len()
        invariant
            1 <= i <= fitness@.len(),
            is_best(fitness@.subrange(0, i as int), index as int),
        decreases fitness@.len() - i,
    {
        let ghost seen = fitness@.subrange(0, i as int);
        let ghost more = fitness@.subrange(0, i + 1);
        if fitness[i].is_better_than(fitness[index]) {
            assert forall|j: int| 0 <= j < i implies more[i as int].beats(#[trigger] more[j]) by {
                assert(!seen[j].beats(seen[index as int]));
            }
            assert forall|j: int| 0 <= j < more.len() implies !(#[trigger] more[j]).beats(
                more[i as int],
            ) by {
                if j < i {
                    assert(!seen[j].beats(seen[index as int]));
                }
            }
            index = i;
        } else {
            assert forall|j: int| 0 <= j < more.len() implies !(#[trigger] more[j]).beats(
                more[index as int],
            ) by {
                if j < i {
                    assert(!seen[j].beats(seen[index as int]));
                }
            }
            assert forall|j: int| 0 <= j < index implies more[index as int].beats(
                #[trigger] more[j],
            ) by {
                assert(seen[index as int].beats(seen[j]));
            }
        }
        i += 1;
    }
    assert(fitness@.subrange(0, i as int) =~= fitness@);
    Some((index, fitness[index]))
}

/// The fitness that a tournament goes by: a fitness that is missing or not
/// a number counts as zero.
pub open spec fn contest_fitness(fitness: Seq<Real>, index: int) -> Real {
    if 0 <= index < fitness.len() && !fitness[index].nan() {
        fitness[index]
    } else {
        Real { bits: ZERO }
    }
}

/// Whether the draw at `position` wins the tournament among `draws`: no
/// draw has a larger fitness, and every earlier draw has a smaller one, so
/// that of equals the earliest wins.
pub open spec fn wins(fitness: Seq<Real>, draws: Seq<int>, position: int) -> bool {
    &&& 0 <= position < draws.len()
    &&& forall|j: int|
        0 <= j < draws.len() ==> !contest_fitness(fitness, draws[position]).less(
            contest_fitness(fitness, #[trigger] draws[j]),
        )
    &&& forall|j: int|
        0 <= j < position ==> contest_fitness(fitness, #[trigger] draws[j]).less(
            contest_fitness(fitness, draws[position]),
        )
}

/// The indices of a list as mathematical integers.
pub open spec fn as_ints(indices: Seq<usize>) -> Seq<int> {
    Seq::new(indices.len(), |i: int| indices[i] as int)
}

fn contest_value(fitness: &Vec<Real>, index: usize) -> (value: Real)
    ensures
        value == contest_fitness(fitness@, index as int),
        !value.nan(),
{
    if index < fitness.len() && !fitness[index].is_nan() {
        fitness[index]
    } else {
        Real::from_bits(ZERO)
    }
}

/// The winner of a tournament among the drawn indices.
pub fn pick_winner(fitness: &Vec<Real>, draws: &Vec<usize>) -> (winner: usize)
    requires
        draws@.len() > 0,
    ensures
        exists|position: int|
            wins(fitness@, as_ints(draws@), position) && winner == #[trigger] draws@[position],
{
    let ghost drawn = as_ints(draws@);
    let mut position: usize = 0;
    let mut i: usize = 1;
    while i < draws.len()
        invariant
            1 <= i <= draws@.len(),
            drawn == as_ints(draws@),
            wins(fitness@, drawn.subrange(0, i as int), position as int),
        decreases draws@.len() - i,
    {
        let ghost seen = drawn.subrange(0, i as int);
        let ghost more = drawn.subrange(0, i + 1);
        let leader = contest_value(fitness, draws[position]);
        let challenger = contest_value(fitness, draws[i]);
        assert(drawn[i as int] == draws@[i as int]);
        assert(drawn[position as int] == draws@[position as int]);
        if leader.less_than(challenger) {
            assert forall|j: int| 0 <= j < i implies contest_fitness(
                fitness@,
                #[trigger] more[j],
            ).less(contest_fitness(fitness@, more[i as int])) by {
                assert(seen[j] == more[j]);
                assert(!contest_fitness(fitness@, seen[position as int]).less(
                    contest_fitness(fitness@, seen[j]),
                ));
            }
            position = i;
        } else {
            assert forall|j: int| 0 <= j < more.len() implies !contest_fitness(
                fitness@,
                more[position as int],
            ).less(contest_fitness(fitness@, #[trigger] more[j])) by {
                if j < i {
                    assert(seen[j] == more[j]);
                }
            }
            assert forall|j: int| 0 <= j < position implies contest_fitness(
                fitness@,
                #[trigger] more[j],
            ).less(contest_fitness(fitness@, more[position as int])) by {
                assert(seen[j] == more[j]);
            }
        }
        i += 1;
    }
    assert(drawn.subrange(0, i as int) =~= drawn);
    draws[position]
}

/// The size of a run's population: the configured one where it is at least
/// 1 and a length that this machine can hold, else 1.
pub open spec fn population_size(configured: i64) -> int {
    if 1 <= configured <= usize::MAX {
        configured as int
    } else {
        1
    }
}

pub fn population_target(configured: i64) -> (size: usize)
    ensures
        size == population_size(configured),
{
    if configured >= 1 && configured as u64 <= usize::MAX as u64 {
        configured as usize
    } else {
        1
    }
}

/// Whether the generations of a history rise strictly.
pub open spec fn rising(history: Seq<(u32, Real)>) -> bool {
    forall|i: int, j: int| 0 <= i < j < history.len() ==> history[i].0 < history[j].0
}

/// The genomes of a list, each as plain values.
pub open spec fn genome_views(genomes: Seq<Genome>) -> Seq<Seq<InstructionView>> {
    Seq::new(genomes.len(), |i: int| genomes[i]@)
}

/// Whether every genome of a list has from 1 to 64 instructions.
pub open spec fn sized(genomes: Seq<Seq<InstructionView>>) -> bool {
    forall|i: int| 0 <= i < genomes.len() ==> 1 <= (#[trigger] genomes[i]).len() <= ABS_MAX_LEN
}

/// Whether every genome of a list has the length of a freshly drawn one,
/// from 8 to 32 instructions.
pub open spec fn fresh(genomes: Seq<Seq<InstructionView>>) -> bool {
    forall|i: int| 0 <= i < genomes.len() ==> MIN_LEN <= (#[trigger] genomes[i]).len() <= MAX_LEN
}

/// Whether every instruction of every genome of a list is well formed.
pub open spec fn sound(genomes: Seq<Seq<InstructionView>>) -> bool {
    forall|i: int| 0 <= i < genomes.len() ==> all_well_formed(#[trigger] genomes[i])
}

/// One evolutionary search: its configuration, its population with the
/// fitness of each member, the best member so far, and its generator. While
/// the first population is being drawn, `draft` holds the genome that waits
/// for a number.
#[derive(Debug)]
pub struct RunInternal {
    pub cfg: RunConfig,
    pub generation: u32,
    pub population: Vec<Genome>,
    pub fitness: Vec<Real>,
    pub best_fitness: Real,
    pub best_genome: Genome,
    pub rng: StdRng,
    pub history: Vec<(u32, Real)>,
    pub draft: Option<GenomeDraft>,
}

/// What a run holds, as plain values, its generator left out.
pub ghost struct RunView {
    pub cfg: RunConfigView,
    pub generation: u32,
    pub population: Seq<Seq<InstructionView>>,
    pub fitness: Seq<Real>,
    pub best_fitness: Real,
    pub best_genome: Seq<InstructionView>,
    pub history: Seq<(u32, Real)>,
}

impl View for RunInternal {
    type V = RunView;

    open spec fn view(&self) -> RunView {
        RunView {
            cfg: self.cfg@,
            generation: self.generation,
            population: genome_views(self.population@),
            fitness: self.fitness@,
            best_fitness: self.best_fitness,
            best_genome: self.best_genome@,
            history: self.history@,
        }
    }
}

impl RunView {
    /// The population is as large as configured, and each member has from 1
    /// to 64 instructions.
    pub open spec fn populated(self) -> bool {
        &&& self.population.len() == population_size(self.cfg.population)
        &&& sized(self.population)
    }

    /// The run has been scored: each member has its fitness, the best
    /// fitness is the greatest of them and the best genome the first member
    /// that has it, and the history ends with this generation and its best
    /// fitness, its generations rising.
    pub open spec fn scored(self) -> bool {
        &&& self.populated()
        &&& self.fitness.len() == self.population.len()
        &&& exists|best: int| #[trigger]
            is_best(self.fitness, best) && self.best_fitness == self.fitness[best]
                && self.best_genome == self.population[best]
        &&& self.history.len() > 0
        &&& self.history.last() == (self.generation, self.best_fitness)
        &&& rising(self.history)
    }

    /// The run after its members have been given the fitnesses `fitness`:
    /// the best of them is the run's best, and the history has one point
    /// more.
    pub open spec fn with_fitness(self, fitness: Seq<Real>, best: int) -> RunView {
        RunView {
            fitness,
            best_fitness: fitness[best],
            best_genome: self.population[best],
            history: self.history.push((self.generation, fitness[best])),
            ..self
        }
    }

    /// What the readers of a run are shown of it.
    pub open spec fn state(self, run_id: Seq<char>) -> RunStateView {
        RunStateView {
            run_id,
            generation: self.generation as i64,
            best_fitness: self.best_fitness,
            best_genome: self.best_genome,
            seed: seed_word(self.cfg.seed),
            population: self.cfg.population as u32,
            generations: self.cfg.generations as u32,
            mutation_rate: self.cfg.mutation_rate,
            task: self.cfg.task,
        }
    }
}

impl RunInternal {
    /// The first population is as far as it has been drawn, and a draft is
    /// held exactly while a member is missing.
    pub open spec fn wf(&self) -> bool {
        &&& sized(self@.population)
        &&& match self.draft {
            Some(draft) => draft.wf() && !draft.complete() && self.population@.len()
                < population_size(self.cfg.population),
            None => self.population@.len() == population_size(self.cfg.population),
        }
    }

    /// The first population is complete.
    pub open spec fn seeded(&self) -> bool {
        self.wf() && self.draft is None
    }

    /// Every instruction that the run holds is well formed, those of the
    /// genome in the making too.
    pub open spec fn sound(&self) -> bool {
        &&& sound(self@.population)
        &&& self.draft matches Some(draft) ==> all_well_formed(draft@)
    }

    /// Draws members until the population is complete or a genome waits for
    /// a number. A draft that is held goes first: complete, it becomes the
    /// next member; waiting, it stays held and nothing is drawn.
    fn seed(&mut self)
        requires
            sized(old(self)@.population),
            old(self).population@.len() <= population_size(old(self).cfg.population),
            match old(self).draft {
                Some(draft) => draft.wf() && old(self).population@.len() < population_size(
                    old(self).cfg.population,
                ),
                None => true,
            },
        ensures
            final(self).wf(),
            final(self).cfg == old(self).cfg,
            final(self).generation == old(self).generation,
            final(self).fitness == old(self).fitness,
            final(self).best_fitness == old(self).best_fitness,
            final(self).best_genome == old(self).best_genome,
            final(self).history == old(self).history,
            old(self)@.population.is_prefix_of(final(self)@.population),
            fresh(old(self)@.population) ==> fresh(final(self)@.population),
            old(self).sound() ==> final(self).sound(),
            old(self).draft matches Some(held) ==> if held.complete() {
                &&& final(self).population@.len() > old(self).population@.len()
                &&& final(self)@.population[old(self).population@.len() as int] == held@
            } else {
                &&& final(self).draft == Some(held)
                &&& final(self)@.population == old(self)@.population
            },
    {
        let size = population_target(self.cfg.population);
        loop
            invariant
                size == population_size(self.cfg.population),
                sized(self@.population),
                self.population@.len() <= size,
                match self.draft {
                    Some(draft) => draft.wf() && self.population@.len() < size,
                    None => true,
                },
                self.cfg == old(self).cfg,
                self.generation == old(self).generation,
                self.fitness == old(self).fitness,
                self.best_fitness == old(self).best_fitness,
                self.best_genome == old(self).best_genome,
                self.history == old(self).history,
                old(self)@.population.is_prefix_of(self@.population),
                fresh(old(self)@.population) ==> fresh(self@.population),
                old(self).sound() ==> self.sound(),
                old(self).draft matches Some(held) ==> {
                    ||| self.draft == Some(held) && self@.population == old(self)@.population
                    ||| {
                        &&& held.complete()
                        &&& self.population@.len() > old(self).population@.len()
                        &&& self@.population[old(self).population@.len() as int] == held@
                    }
                },
            ensures
                self.wf(),
            decreases
                    size - self.population@.len(),
                    if self.draft is Some {
                        1int
                    } else {
                        0int
                    },
        {
            let ghost before = self@.population;
            let held = self.draft.take();
            let draft = match held {
                Some(draft) => draft,
                None => {
                    if self.population.len() >= size {
                        break;
                    }
                    random_genome(&mut self.rng)
                },
            };
            if draft.is_complete() {
                let genome = draft.finish();
                self.population.push(genome);
                assert(self@.population =~= before.push(genome@));
            } else {
                self.draft = Some(draft);
                break;
            }
        }
    }

    /// Begins a run: seeds its generator with the configured seed, and draws
    /// its first population, member by member, as far as that goes without a
    /// number from the caller.
    pub fn new(cfg: RunConfig) -> (run: RunInternal)
        ensures
            run.wf(),
            run.cfg == cfg,
            run.generation == 0,
            run.fitness@.len() == 0,
            run.history@.len() == 0,
            fresh(run@.population),
            run.sound(),
    {
        let rng = seeded_rng(seed_as_word(cfg.seed));
        let mut run = RunInternal {
            cfg,
            generation: 0,
            population: Vec::new(),
            fitness: Vec::new(),
            best_fitness: Real::from_bits(ZERO),
            best_genome: Genome { instructions: Vec::new() },
            rng,
            history: Vec::new(),
            draft: None,
        };
        run.seed();
        run
    }

    /// The number that the drawing of the first population waits for, if it
    /// does: the argument of a `PUSH`.
    pub fn request(&self) -> (asked: Option<RealRequest>)
        ensures
            asked == match self.draft {
                Some(_) => Some(crate::genome::push_request()),
                None => None,
            },
    {
        match &self.draft {
            Some(_) => Some(
                RealRequest { low: Real::from_bits(MINUS_TEN), high: Real::from_bits(TEN) },
            ),
            None => None,
        }
    }

    /// Hands over the number that the first population waited for, and draws
    /// on: the genome in the making gets a `PUSH` with that number behind
    /// the instructions it has. Where that and the draws after it complete
    /// the genome, it is the next member of the population; else it is held
    /// again, and waits for the next number. The members drawn before stay
    /// as they are, and with a finite number every instruction stays well
    /// formed.
    pub fn supply(&mut self, value: Real)
        requires
            old(self).wf(),
            old(self).draft is Some,
        ensures
            final(self).wf(),
            final(self).cfg == old(self).cfg,
            final(self).generation == old(self).generation,
            final(self).fitness == old(self).fitness,
            final(self).history == old(self).history,
            old(self)@.population.is_prefix_of(final(self)@.population),
            fresh(old(self)@.population) ==> fresh(final(self)@.population),
            old(self).sound() && value.finite() ==> final(self).sound(),
            ({
                let draft = old(self).draft->Some_0;
                let made = draft@.push(push_of(value));
                let at = old(self).population@.len() as int;
                if final(self).population@.len() > at {
                    &&& made.is_prefix_of(final(self)@.population[at])
                    &&& final(self)@.population[at].len() == draft.length
                } else {
                    &&& final(self).draft matches Some(grown)
                    &&& grown.length == draft.length
                    &&& made.is_prefix_of(grown@)
                    &&& final(self)@.population == old(self)@.population
                }
            }),
    {
        let held = self.draft.take();
        let mut draft = held.unwrap();
        draft.supply(value, &mut self.rng);
        self.draft = Some(draft);
        self.seed();
    }

    pub fn is_seeded(&self) -> (done: bool)
        ensures
            done == (self.draft is None),
    {
        self.draft.is_none()
    }
}

/// How many members a tournament draws.
pub const TOURNAMENT_SIZE: usize = 3;

/// Whether a child is mutated: the generator's next 64 bits, made a number
/// in `[0, 1)`, lie below the mutation rate.
pub open spec fn mutates(word: u64, rate: Real) -> bool {
    unit_real(word).less(rate)
}

pub fn decide_mutation(word: u64, rate: Real) -> (mutate: bool)
    ensures
        mutate == mutates(word, rate),
{
    unit_from_word(word).less_than(rate)
}

/// Whether a mutation rate lets no child be mutated: it is not above 0.
pub open spec fn never_mutates(rate: Real) -> bool {
    !(Real { bits: ZERO }).less(rate)
}

/// Whether a mutation rate has every child mutated: it is 1 or more.
pub open spec fn always_mutates(rate: Real) -> bool {
    (Real { bits: ONE }).at_most(rate)
}

/// The number made of the drawn bits lies in `[0, 1)`: it is below no rate
/// that is not above 0, and below every rate from 1 on.
pub proof fn lemma_rate_settles(word: u64, rate: Real)
    ensures
        never_mutates(rate) ==> !mutates(word, rate),
        always_mutates(rate) ==> mutates(word, rate),
{
    lemma_unit_fraction_denotes(word as int / 0x800);
}

/// Whether `child` is a mutation of `parent`: one edit that fits the parent,
/// made of what the draws can give, carried out on it.
pub open spec fn mutation_of(parent: Seq<InstructionView>, child: Seq<InstructionView>) -> bool {
    exists|edit: EditView, value: Real|
        edit.fits(parent) && edit.drawn() && child == #[trigger] edit.applied(parent, value)
}

/// Whether `child` comes from the population: it is one of its members, or
/// a mutation of one.
pub open spec fn bred_from(
    population: Seq<Seq<InstructionView>>,
    child: Seq<InstructionView>,
) -> bool {
    exists|parent: int|
        0 <= parent < population.len() && (child == #[trigger] population[parent] || mutation_of(
            population[parent],
            child,
        ))
}

/// Whether `child` is a member of the population, copied.
pub open spec fn member_of(
    population: Seq<Seq<InstructionView>>,
    child: Seq<InstructionView>,
) -> bool {
    exists|parent: int| 0 <= parent < population.len() && child == #[trigger] population[parent]
}

/// Whether `child` is a mutation of a member of the population.
pub open spec fn mutant_of(
    population: Seq<Seq<InstructionView>>,
    child: Seq<InstructionView>,
) -> bool {
    exists|parent: int|
        0 <= parent < population.len() && mutation_of(#[trigger] population[parent], child)
}

/// Whether the children from the position `from` on are copies of members.
pub open spec fn copies_from(
    population: Seq<Seq<InstructionView>>,
    offspring: Seq<Seq<InstructionView>>,
    from: int,
) -> bool {
    forall|i: int| from <= i < offspring.len() ==> member_of(population, #[trigger] offspring[i])
}

/// Whether the children from the position `from` on are mutations of
/// members.
pub open spec fn mutants_from(
    population: Seq<Seq<InstructionView>>,
    offspring: Seq<Seq<InstructionView>>,
    from: int,
) -> bool {
    forall|i: int| from <= i < offspring.len() ==> mutant_of(population, #[trigger] offspring[i])
}

/// Whether every instruction of every genome of a list is well formed.
pub fn is_sound(population: &Vec<Genome>) -> (well: bool)
    ensures
        well == sound(genome_views(population@)),
{
    let mut i: usize = 0;
    while i < population.len()
        invariant
            i <= population@.len(),
            forall|j: int| 0 <= j < i ==> all_well_formed(#[trigger] genome_views(population@)[j]),
        decreases population@.len() - i,
    {
        assert(genome_views(population@)[i as int] == population@[i as int]@);
        if !is_all_well_formed(&population[i]) {
            return false;
        }
        i += 1;
    }
    true
}

/// A child that waits for a number before its mutation can be carried out.
#[derive(Debug)]
pub struct Pending {
    pub child: Genome,
    pub edit: Edit,
}

impl Pending {
    /// The child once the number it waited for is there: mutated where that
    /// makes a well-formed instruction, else the copy it is.
    pub open spec fn settled(&self, value: Real) -> Seq<InstructionView> {
        if self.edit@.sound_with(self.child@, value) {
            self.edit@.applied(self.child@, value)
        } else {
            self.child@
        }
    }
}

/// The next population in the making: the members it has so far, the size
/// it is to reach, and the child that waits for a number, if one does.
#[derive(Debug)]
pub struct Breeding {
    pub offspring: Vec<Genome>,
    pub size: usize,
    pub pending: Option<Pending>,
}

impl Breeding {
    /// The members that the next population has so far come from `run`: the
    /// first is the run's best genome, every other one is bred from the
    /// run's population, and they are well formed where the run's are.
    pub open spec fn bred(&self, run: RunView) -> bool {
        let offspring = genome_views(self.offspring@);
        &&& self.size == run.population.len()
        &&& 1 <= offspring.len() <= self.size
        &&& offspring[0] == run.best_genome
        &&& sized(offspring)
        &&& forall|i: int| 1 <= i < offspring.len() ==> bred_from(run.population, #[trigger] offspring[i])
        &&& sound(run.population) ==> sound(offspring)
    }

    /// The next population, as far as it is made, comes from `run`, and a
    /// child waits exactly while a member is missing.
    pub open spec fn wf(&self, run: RunView) -> bool {
        let offspring = genome_views(self.offspring@);
        &&& self.bred(run)
        &&& match self.pending {
            Some(pending) => {
                &&& offspring.len() < self.size
                &&& 1 <= pending.child@.len() <= ABS_MAX_LEN
                &&& exists|parent: int|
                    0 <= parent < run.population.len() && pending.child@
                        == #[trigger] run.population[parent]
                &&& pending.edit@.fits(pending.child@)
                &&& pending.edit@.drawn()
                &&& pending.edit@.request() is Some
            },
            None => offspring.len() == self.size,
        }
    }

    pub open spec fn complete(&self) -> bool {
        self.pending is None
    }

    pub fn is_complete(&self) -> (done: bool)
        ensures
            done == self.complete(),
    {
        self.pending.is_none()
    }

    /// The number that the waiting child asks for, if one waits.
    pub fn request(&self) -> (asked: Option<RealRequest>)
        ensures
            asked == match self.pending {
                Some(pending) => pending.edit@.request(),
                None => None,
            },
    {
        match &self.pending {
            Some(pending) => pending.edit.request(),
            None => None,
        }
    }

    /// The next population, once it is complete.
    pub fn finish(self) -> (population: Vec<Genome>)
        requires
            self.complete(),
        ensures
            population == self.offspring,
    {
        self.offspring
    }
}

impl RunInternal {
    /// What the readers of the run are shown of it.
    pub fn to_state(&self, run_id: &str) -> (state: RunState)
        ensures
            state@ == self@.state(run_id@),
    {
        RunState {
            run_id: String::from_str(run_id),
            generation: self.generation as i64,
            best_fitness: self.best_fitness,
            best_genome: self.best_genome.clone(),
            seed: seed_as_word(self.cfg.seed),
            population: #[verifier::truncate]
            (self.cfg.population as u32),
            generations: #[verifier::truncate]
            (self.cfg.generations as u32),
            mutation_rate: self.cfg.mutation_rate,
            task: self.cfg.task.clone(),
        }
    }

    /// Gives the members their fitnesses: the greatest becomes the run's
    /// best fitness and the first member that has it the best genome, and
    /// the history gets a point for this generation. The generator is not
    /// drawn from.
    pub fn apply_fitness(&mut self, fitness: Vec<Real>)
        requires
            old(self).seeded(),
            fitness@.len() == old(self).population@.len(),
            rising(old(self).history@),
            old(self).history@.len() > 0 ==> old(self).history@.last().0 < old(self).generation,
        ensures
            final(self).seeded(),
            final(self)@.scored(),
            exists|best: int| #[trigger]
                is_best(fitness@, best) && final(self)@ == old(self)@.with_fitness(fitness@, best),
            final(self).rng == old(self).rng,
            final(self).population == old(self).population,
    {
        let ghost before = self@;
        assert(fitness@.len() >= 1);
        self.fitness = fitness;
        match best_index(&self.fitness) {
            Some((index, best)) => {
                self.best_fitness = best;
                self.best_genome = self.population[index].clone();
                self.history.push((self.generation, self.best_fitness));
                assert(self@.population == before.population);
                assert(self@.population[index as int] == self.population@[index as int]@);
                assert(self@ == before.with_fitness(self.fitness@, index as int));
                assert(is_best(self@.fitness, index as int));
            },
            None => {},
        }
    }

    /// Draws `k` members, each alike and any of them again, and picks the
    /// one with the greatest fitness, of equals the one drawn first. Where
    /// nothing is drawn, the first member is picked.
    pub fn tournament_select(&mut self, k: usize) -> (winner: usize)
        requires
            old(self).population@.len() > 0,
        ensures
            winner < old(self).population@.len(),
            final(self)@ == old(self)@,
            final(self).population == old(self).population,
            final(self).draft == old(self).draft,
            k == 0 ==> winner == 0,
            k > 0 ==> exists|draws: Seq<int>, position: int|
                {
                    &&& draws.len() == k
                    &&& forall|i: int|
                        0 <= i < k ==> 0 <= #[trigger] draws[i] < old(self).population@.len()
                    &&& wins(old(self).fitness@, draws, position)
                    &&& winner == #[trigger] draws[position]
                },
    {
        if k == 0 {
            return 0;
        }
        let size = self.population.len();
        let mut draws: Vec<usize> = Vec::new();
        while draws.len() < k
            invariant
                draws@.len() <= k,
                size == self.population@.len(),
                size > 0,
                forall|i: int| 0 <= i < draws@.len() ==> #[trigger] draws@[i] < size,
                self@ == old(self)@,
                self.population == old(self).population,
                self.draft == old(self).draft,
            decreases k - draws@.len(),
        {
            let drawn = gen_range_usize(&mut self.rng, size);
            draws.push(drawn);
        }
        let winner = pick_winner(&self.fitness, &draws);
        proof {
            let position = choose|position: int|
                wins(self.fitness@, as_ints(draws@), position) && winner
                    == #[trigger] draws@[position];
            assert(as_ints(draws@)[position] == winner);
        }
        winner
    }

    /// Breeds until the next population is complete or a child waits for a
    /// number: a parent is picked by tournament and copied, and the copy is
    /// mutated where the next draw falls below the mutation rate. At a rate
    /// not above 0 every child is a copy and none waits; at a rate of 1 or
    /// more every child is a mutation.
    fn breed(&mut self, breeding: &mut Breeding)
        requires
            old(self)@.scored(),
            old(self).seeded(),
            old(breeding).pending is None,
            old(breeding).bred(old(self)@),
        ensures
            final(self)@ == old(self)@,
            final(self).seeded(),
            final(breeding).wf(final(self)@),
            genome_views(old(breeding).offspring@).is_prefix_of(
                genome_views(final(breeding).offspring@),
            ),
            never_mutates(old(self).cfg.mutation_rate) ==> final(breeding).pending is None
                && copies_from(
                old(self)@.population,
                genome_views(final(breeding).offspring@),
                old(breeding).offspring@.len() as int,
            ),
            always_mutates(old(self).cfg.mutation_rate) ==> mutants_from(
                old(self)@.population,
                genome_views(final(breeding).offspring@),
                old(breeding).offspring@.len() as int,
            ),
    {
        let ghost run = self@;
        let ghost began = breeding.offspring@.len() as int;
        while breeding.offspring.len() < breeding.size
            invariant
                self@ == run,
                run == old(self)@,
                self.cfg.mutation_rate == old(self).cfg.mutation_rate,
                began == old(breeding).offspring@.len(),
                run.scored(),
                self.seeded(),
                breeding.pending is None,
                breeding.bred(run),
                genome_views(old(breeding).offspring@).is_prefix_of(
                    genome_views(breeding.offspring@),
                ),
                never_mutates(self.cfg.mutation_rate) ==> copies_from(
                    run.population,
                    genome_views(breeding.offspring@),
                    began,
                ),
                always_mutates(self.cfg.mutation_rate) ==> mutants_from(
                    run.population,
                    genome_views(breeding.offspring@),
                    began,
                ),
            decreases breeding.size - breeding.offspring@.len(),
        {
            let ghost made = genome_views(breeding.offspring@);
            let parent = self.tournament_select(TOURNAMENT_SIZE);
            let mut child = self.population[parent].clone();
            assert(child@ == run.population[parent as int]);
            let ghost copied = child@;
            let word = gen_word(&mut self.rng);
            proof {
                lemma_rate_settles(word, self.cfg.mutation_rate);
            }
            if decide_mutation(word, self.cfg.mutation_rate) {
                let edit = mutate_genome(&child, &mut self.rng);
                if edit.request().is_some() {
                    breeding.pending = Some(Pending { child, edit });
                    return;
                }
                let ghost planned = edit@;
                apply_edit(&mut child, edit, Real::from_bits(ZERO));
                assert(child@ == planned.applied(copied, Real { bits: ZERO }));
                assert(mutation_of(copied, child@));
                assert(mutant_of(run.population, child@));
            } else {
                assert(member_of(run.population, child@));
            }
            assert(bred_from(run.population, child@));
            breeding.offspring.push(child);
            assert(genome_views(breeding.offspring@) =~= made.push(child@));
        }
    }

    /// Begins the next population: the best genome goes in first, then
    /// children are bred until the population is complete or a child waits
    /// for a number. At a mutation rate not above 0 every child is a copy of
    /// a member and none waits; at a rate of 1 or more every child is a
    /// mutation of a member. The run itself changes in its generator only.
    pub fn next_population(&mut self) -> (breeding: Breeding)
        requires
            old(self)@.scored(),
            old(self).seeded(),
        ensures
            final(self)@ == old(self)@,
            final(self).seeded(),
            breeding.wf(final(self)@),
            never_mutates(old(self).cfg.mutation_rate) ==> breeding.complete() && copies_from(
                old(self)@.population,
                genome_views(breeding.offspring@),
                1,
            ),
            always_mutates(old(self).cfg.mutation_rate) ==> mutants_from(
                old(self)@.population,
                genome_views(breeding.offspring@),
                1,
            ),
    {
        let mut offspring: Vec<Genome> = Vec::new();
        let elite = self.best_genome.clone();
        offspring.push(elite);
        assert(genome_views(offspring@) =~= seq![self.best_genome@]);
        let mut breeding = Breeding { offspring, size: self.population.len(), pending: None };
        self.breed(&mut breeding);
        breeding
    }

    /// Hands over the number that a child waited for: its mutation is
    /// carried out, it joins the next population, and breeding goes on. A
    /// mutation that would make an instruction that is not well formed (a
    /// `PUSH` with an argument that is not finite, a tweak whose sum is no
    /// number) is not carried out: the child joins as the copy it is.
    pub fn resume_population(&mut self, breeding: &mut Breeding, value: Real)
        requires
            old(self)@.scored(),
            old(self).seeded(),
            old(breeding).wf(old(self)@),
            old(breeding).pending is Some,
        ensures
            final(self)@ == old(self)@,
            final(self).seeded(),
            final(breeding).wf(final(self)@),
            genome_views(old(breeding).offspring@).is_prefix_of(
                genome_views(final(breeding).offspring@),
            ),
            final(breeding).offspring@.len() > old(breeding).offspring@.len(),
            genome_views(final(breeding).offspring@)[old(breeding).offspring@.len() as int]
                == old(breeding).pending->Some_0.settled(value),
            never_mutates(old(self).cfg.mutation_rate) ==> final(breeding).pending is None
                && copies_from(
                old(self)@.population,
                genome_views(final(breeding).offspring@),
                (old(breeding).offspring@.len() + 1) as int,
            ),
            always_mutates(old(self).cfg.mutation_rate) ==> mutants_from(
                old(self)@.population,
                genome_views(final(breeding).offspring@),
                (old(breeding).offspring@.len() + 1) as int,
            ),
    {
        let ghost made = genome_views(breeding.offspring@);
        let held = breeding.pending.take();
        let Pending { child, edit } = held.unwrap();
        let mut child = child;
        let ghost copied = child@;
        let ghost planned = edit@;
        let applied = apply_sound(&mut child, edit, value);
        proof {
            if applied {
                assert(child@ == planned.applied(copied, value));
                assert(mutation_of(copied, child@));
            }
            assert(bred_from(self@.population, child@));
        }
        breeding.offspring.push(child);
        assert(genome_views(breeding.offspring@) =~= made.push(child@));
        let ghost grown = genome_views(breeding.offspring@);
        self.breed(breeding);
        assert(genome_views(breeding.offspring@)[made.len() as int] == grown[made.len() as int]);
    }
}

impl RunView {
    /// The run one generation on: the population `population`, scored with
    /// `fitness`, of which the one at `best` is the best.
    pub open spec fn stepped(
        self,
        population: Seq<Seq<InstructionView>>,
        fitness: Seq<Real>,
        best: int,
    ) -> RunView {
        RunView { generation: (self.generation + 1) as u32, population, ..self }.with_fitness(
            fitness,
            best,
        )
    }
}

impl RunInternal {
    /// Ends a step: the next population takes the place of the population,
    /// the generation goes up by one, and the members get their fitnesses.
    /// The population keeps its size, the history gets the new generation's
    /// point, and where the first member, the best genome of before, is
    /// scored no worse than before, the best fitness is no worse either.
    pub fn commit(&mut self, population: Vec<Genome>, fitness: Vec<Real>)
        requires
            old(self).seeded(),
            old(self)@.scored(),
            old(self).generation < u32::MAX,
            population@.len() == old(self).population@.len(),
            fitness@.len() == population@.len(),
            sized(genome_views(population@)),
        ensures
            final(self).seeded(),
            final(self)@.scored(),
            final(self).generation == old(self).generation + 1,
            final(self)@.population.len() == old(self)@.population.len(),
            exists|best: int| #[trigger]
                is_best(fitness@, best) && final(self)@ == old(self)@.stepped(
                    genome_views(population@),
                    fitness@,
                    best,
                ),
            final(self).history@ == old(self).history@.push(
                (final(self).generation, final(self).best_fitness),
            ),
            !old(self).best_fitness.beats(fitness@[0]) ==> !old(self).best_fitness.beats(
                final(self).best_fitness,
            ),
            final(self).rng == old(self).rng,
            final(self).population == population,
            sound(genome_views(population@)) ==> sound(final(self)@.population),
    {
        let ghost before = self@;
        self.population = population;
        self.generation = self.generation + 1;
        assert(self@ == RunView {
            generation: (before.generation + 1) as u32,
            population: genome_views(population@),
            ..before
        });
        self.apply_fitness(fitness);
    }
}

/// A run's next state is settled by its state, its next population and
/// the scores: two runs alike, stepped with the same population and the
/// same scores, are alike again, in population, fitness, best genome, best
/// fitness, generation and history.
pub proof fn lemma_step_determined(
    a: RunView,
    b: RunView,
    population: Seq<Seq<InstructionView>>,
    fitness: Seq<Real>,
    best_a: int,
    best_b: int,
)
    requires
        a == b,
        is_best(fitness, best_a),
        is_best(fitness, best_b),
    ensures
        a.stepped(population, fitness, best_a) == b.stepped(population, fitness, best_b),
{
    lemma_best_unique(fitness, best_a, best_b);
}

/// A scored run of a configuration that asks for 1 to 5000 members has as
/// many members as configured, a fitness for each, and is shown with that
/// number; a step keeps all that.
pub proof fn lemma_population_is_configured(
    run: RunView,
    run_id: Seq<char>,
    population: Seq<Seq<InstructionView>>,
    fitness: Seq<Real>,
    best: int,
)
    requires
        run.scored(),
        1 <= run.cfg.population <= crate::api::MAX_POPULATION,
        population.len() == run.population.len(),
        fitness.len() == population.len(),
    ensures
        run.population.len() == run.cfg.population,
        run.fitness.len() == run.cfg.population,
        run.state(run_id).population == run.cfg.population,
        run.stepped(population, fitness, best).population.len() == run.cfg.population,
        run.stepped(population, fitness, best).fitness.len() == run.cfg.population,
        run.stepped(population, fitness, best).cfg == run.cfg,
        run.stepped(population, fitness, best).state(run_id).population == run.cfg.population,
{
}

/// Elitism: where the scorer gives equal genomes equal scores, a step does
/// not let the best fitness fall. The run's fitnesses are the scorer's, the
/// next population begins with the run's best genome, and its fitnesses are
/// the scorer's again.
pub proof fn lemma_best_does_not_fall(
    run: RunView,
    population: Seq<Seq<InstructionView>>,
    fitness: Seq<Real>,
    best: int,
    scorer: spec_fn(Seq<InstructionView>) -> Real,
)
    requires
        run.scored(),
        forall|i: int| 0 <= i < run.population.len() ==> #[trigger] run.fitness[i] == scorer(
            run.population[i],
        ),
        population.len() == fitness.len(),
        population.len() > 0,
        population[0] == run.best_genome,
        forall|i: int| 0 <= i < population.len() ==> #[trigger] fitness[i] == scorer(population[i]),
        is_best(fitness, best),
    ensures
        fitness[0] == run.best_fitness,
        !run.best_fitness.beats(run.stepped(population, fitness, best).best_fitness),
{
    let old_best = choose|old_best: int| #[trigger]
        is_best(run.fitness, old_best) && run.best_fitness == run.fitness[old_best]
            && run.best_genome == run.population[old_best];
    assert(run.fitness[old_best] == scorer(run.population[old_best]));
    assert(fitness[0] == scorer(population[0]));
    assert(!fitness[0].beats(fitness[best]));
}

/// A generation's history point never falls behind: the generations of a
/// scored run's history rise strictly up to the run's own.
pub proof fn lemma_history_rises(run: RunView, i: int)
    requires
        run.scored(),
        0 <= i < run.history.len(),
    ensures
        run.history[i].0 <= run.generation,
        i < run.history.len() - 1 ==> run.history[i].0 < run.generation,
{
    if i < run.history.len() - 1 {
        assert(run.history[i].0 < run.history[run.history.len() - 1].0);
    }
}

} // verus!
