//! The registry of runs, and what one request does to it.
//!
//! Scoring is not done here: a step is begun, the caller has the next
//! population scored, and the step is ended with the scores.

use vstd::prelude::*;
use vstd::string::*;
use std::collections::HashMap;
use crate::error::{internal_error, not_found, EngineError, EngineErrorView};
use crate::evolve::{
    always_mutates, copies_from, genome_views, is_best, mutants_from, never_mutates, sized,
    sound, Breeding, RunInternal,
};
use crate::models::{Genome, RunState};
use crate::number::Real;
use crate::rng::gen_word;
use crate::run_id::{format_run_id, key_of, parse_run_id, run_id_text};

verus! {

broadcast use vstd::std_specs::hash::group_hash_axioms;

/// The runs, each under its number.
#[derive(Debug)]
pub struct RunStore {
    pub runs: HashMap<u64, RunInternal>,
}

impl RunStore {
    /// Every run in the registry has its whole population, of well-formed
    /// instructions, and is scored.
    pub open spec fn wf(&self) -> bool {
        forall|word: u64| #[trigger]
            self.runs@.contains_key(word) ==> {
                &&& self.runs@[word].seeded()
                &&& self.runs@[word]@.scored()
                &&& sound(self.runs@[word]@.population)
            }
    }

    /// The run that `name` names, if the registry holds it.
    pub open spec fn found(&self, name: Seq<char>) -> Option<RunInternal> {
        match key_of(name) {
            Some(word) => if self.runs@.contains_key(word) {
                Some(self.runs@[word])
            } else {
                None
            },
            None => None,
        }
    }
}

/// An empty registry.
pub fn new_store() -> (runs: RunStore)
    ensures
        runs.wf(),
        runs.runs@ == Map::<u64, RunInternal>::empty(),
{
    RunStore { runs: HashMap::new() }
}

/// Enters a new run: its first population, complete, gets the scores that
/// the caller had made for it, the run's name is drawn from the run's own
/// generator, and the run goes into the registry under it, in the place of
/// any run of that name. Scores that are not one for each member are
/// refused.
pub fn create_run(run: RunInternal, scores: Vec<Real>, runs: &mut RunStore) -> (created: Result<
    String,
    EngineError,
>)
    requires
        old(runs).wf(),
        run.seeded(),
        run.sound(),
        run.generation == 0,
        run.history@.len() == 0,
    ensures
        final(runs).wf(),
        match created {
            Ok(name) => {
                &&& scores@.len() == run.population@.len()
                &&& exists|word: u64, best: int|
                    {
                        &&& name@ == #[trigger] run_id_text(word)
                        &&& #[trigger] is_best(scores@, best)
                        &&& final(runs).runs@.dom() == old(runs).runs@.dom().insert(word)
                        &&& final(runs).runs@[word]@ == run@.with_fitness(scores@, best)
                        &&& forall|other: u64|
                            other != word && old(runs).runs@.contains_key(other)
                                ==> final(runs).runs@[other] == old(runs).runs@[other]
                    }
            },
            Err(e) => {
                &&& scores@.len() != run.population@.len()
                &&& e@ == EngineErrorView::InternalError("fitness size mismatch"@)
                &&& final(runs).runs@ == old(runs).runs@
            },
        },
{
    if scores.len() != run.population.len() {
        return Err(internal_error("fitness size mismatch"));
    }
    let mut run = run;
    let ghost fresh = run@;
    run.apply_fitness(scores);
    let word = gen_word(&mut run.rng);
    let name = format_run_id(word);
    let ghost entered = run;
    runs.runs.insert(word, run);
    proof {
        let best = choose|best: int| #[trigger]
            is_best(scores@, best) && entered@ == fresh.with_fitness(scores@, best);
        assert(final(runs).runs@.dom() =~= old(runs).runs@.dom().insert(word));
        assert(name@ == run_id_text(word) && is_best(scores@, best));
    }
    Ok(name)
}

/// What the readers of the run named `run_id` are shown of it.
pub fn get_run_state(runs: &RunStore, run_id: &str) -> (state: Option<RunState>)
    ensures
        match runs.found(run_id@) {
            Some(run) => state matches Some(shown) && shown@ == run@.state(run_id@),
            None => state is None,
        },
{
    match parse_run_id(run_id) {
        Some(word) => match runs.runs.get(&word) {
            Some(run) => Some(run.to_state(run_id)),
            None => None,
        },
        None => None,
    }
}

/// The history of the run named `run_id`: for each generation so far, the
/// best fitness that the run had reached then.
pub fn get_history(runs: &RunStore, run_id: &str) -> (history: Option<Vec<(u32, Real)>>)
    ensures
        match runs.found(run_id@) {
            Some(run) => history matches Some(points) && points@ == run.history@,
            None => history is None,
        },
{
    match parse_run_id(run_id) {
        Some(word) => match runs.runs.get(&word) {
            Some(run) => {
                let mut points: Vec<(u32, Real)> = Vec::new();
                let mut i: usize = 0;
                while i < run.history.len()
                    invariant
                        i <= run.history@.len(),
                        points@ == run.history@.subrange(0, i as int),
                    decreases run.history@.len() - i,
                {
                    let point = run.history[i];
                    points.push(point);
                    assert(points@ =~= run.history@.subrange(0, i + 1));
                    i += 1;
                }
                assert(points@ =~= run.history@);
                Some(points)
            },
            None => None,
        },
        None => None,
    }
}

/// Begins a step of the run named `run_id`: its next population is bred as
/// far as that goes without a number from the caller, and handed out with
/// the run's task. At a mutation rate not above 0 every child is a copy of
/// a member and none waits; at a rate of 1 or more every child is a
/// mutation of a member. The run itself changes in its generator only.
pub fn begin_step(runs: &mut RunStore, run_id: &str) -> (begun: Result<
    (Breeding, String),
    EngineError,
>)
    requires
        old(runs).wf(),
    ensures
        final(runs).wf(),
        final(runs).runs@.dom() == old(runs).runs@.dom(),
        match old(runs).found(run_id@) {
            Some(run) => {
                &&& begun matches Ok((breeding, task))
                &&& task@ == run.cfg.task@
                &&& breeding.wf(run@)
                &&& never_mutates(run.cfg.mutation_rate) ==> breeding.complete() && copies_from(
                    run@.population,
                    genome_views(breeding.offspring@),
                    1,
                )
                &&& always_mutates(run.cfg.mutation_rate) ==> mutants_from(
                    run@.population,
                    genome_views(breeding.offspring@),
                    1,
                )
                &&& final(runs).found(run_id@) matches Some(after)
                &&& after@ == run@
                &&& forall|other: u64|
                    key_of(run_id@) != Some(other) && old(runs).runs@.contains_key(other)
                        ==> final(runs).runs@[other] == old(runs).runs@[other]
            },
            None => {
                &&& begun matches Err(e)
                &&& e@ == EngineErrorView::NotFound("run not found"@)
                &&& final(runs).runs@ == old(runs).runs@
            },
        },
{
    let word = match parse_run_id(run_id) {
        Some(word) => word,
        None => {
            return Err(not_found("run not found"));
        },
    };
    match runs.runs.remove(&word) {
        Some(run) => {
            let mut run = run;
            let breeding = run.next_population();
            let task = run.cfg.task.clone();
            runs.runs.insert(word, run);
            assert(final(runs).runs@.dom() =~= old(runs).runs@.dom());
            Ok((breeding, task))
        },
        None => {
            assert(final(runs).runs@ =~= old(runs).runs@);
            Err(not_found("run not found"))
        },
    }
}

/// Goes on with a step of the run named `run_id`: the child that waited
/// gets its number and its mutation, joins the next population, and
/// breeding goes on. A mutation that would make an instruction that is not
/// well formed is not carried out: the child joins as the copy it is.
pub fn resume_step(runs: &mut RunStore, run_id: &str, breeding: &mut Breeding, value: Real) -> (resumed:
    Result<(), EngineError>)
    requires
        old(runs).wf(),
        old(breeding).pending is Some,
        old(runs).found(run_id@) matches Some(run) ==> old(breeding).wf(run@),
    ensures
        final(runs).wf(),
        final(runs).runs@.dom() == old(runs).runs@.dom(),
        match old(runs).found(run_id@) {
            Some(run) => {
                &&& resumed is Ok
                &&& final(breeding).wf(run@)
                &&& genome_views(old(breeding).offspring@).is_prefix_of(
                    genome_views(final(breeding).offspring@),
                )
                &&& final(breeding).offspring@.len() > old(breeding).offspring@.len()
                &&& genome_views(final(breeding).offspring@)[old(breeding).offspring@.len() as int]
                    == old(breeding).pending->Some_0.settled(value)
                &&& never_mutates(run.cfg.mutation_rate) ==> final(breeding).pending is None
                    && copies_from(
                    run@.population,
                    genome_views(final(breeding).offspring@),
                    (old(breeding).offspring@.len() + 1) as int,
                )
                &&& always_mutates(run.cfg.mutation_rate) ==> mutants_from(
                    run@.population,
                    genome_views(final(breeding).offspring@),
                    (old(breeding).offspring@.len() + 1) as int,
                )
                &&& final(runs).found(run_id@) matches Some(after)
                &&& after@ == run@
                &&& forall|other: u64|
                    key_of(run_id@) != Some(other) && old(runs).runs@.contains_key(other)
                        ==> final(runs).runs@[other] == old(runs).runs@[other]
            },
            None => {
                &&& resumed matches Err(e)
                &&& e@ == EngineErrorView::NotFound("run not found"@)
                &&& final(runs).runs@ == old(runs).runs@
                &&& *final(breeding) == *old(breeding)
            },
        },
{
    let word = match parse_run_id(run_id) {
        Some(word) => word,
        None => {
            return Err(not_found("run not found"));
        },
    };
    match runs.runs.remove(&word) {
        Some(run) => {
            let mut run = run;
            run.resume_population(breeding, value);
            runs.runs.insert(word, run);
            assert(final(runs).runs@.dom() =~= old(runs).runs@.dom());
            Ok(())
        },
        None => {
            assert(final(runs).runs@ =~= old(runs).runs@);
            Err(not_found("run not found"))
        },
    }
}

/// Why a step cannot be ended, if it cannot: the next population has not
/// the size of the run's population, the scores are not one for each
/// member, or the generations cannot be counted further.
pub open spec fn step_refusal(run: RunInternal, population: int, scores: int) -> Option<
    Seq<char>,
> {
    if population != run.population@.len() {
        Some("population size mismatch"@)
    } else if scores != population {
        Some("fitness size mismatch"@)
    } else if run.generation == u32::MAX {
        Some("generation overflow"@)
    } else {
        None
    }
}

/// Ends a step of the run named `run_id`: the next population takes the
/// place of the run's population, the generation goes up by one, the
/// members get their scores, and the run is shown as it then is. A step
/// that is refused leaves the registry as it is.
pub fn step_run(runs: &mut RunStore, run_id: &str, population: Vec<Genome>, scores: Vec<Real>) -> (stepped:
    Result<RunState, EngineError>)
    requires
        old(runs).wf(),
        sized(genome_views(population@)),
        sound(genome_views(population@)),
    ensures
        final(runs).wf(),
        final(runs).runs@.dom() == old(runs).runs@.dom(),
        match old(runs).found(run_id@) {
            Some(run) => match step_refusal(run, population@.len() as int, scores@.len() as int) {
                Some(reason) => {
                    &&& stepped matches Err(e)
                    &&& e@ == EngineErrorView::InternalError(reason)
                    &&& final(runs).runs@ == old(runs).runs@
                },
                None => {
                    &&& stepped matches Ok(shown)
                    &&& final(runs).found(run_id@) matches Some(after)
                    &&& shown@ == after@.state(run_id@)
                    &&& after.generation == run.generation + 1
                    &&& after.rng == run.rng
                    &&& after@.cfg == run@.cfg
                    &&& after@.population.len() == run@.population.len()
                    &&& after@.fitness.len() == after@.population.len()
                    &&& after@.population == genome_views(population@)
                    &&& shown.best_fitness == after.best_fitness
                    &&& exists|best: int| #[trigger]
                        is_best(scores@, best) && after@ == run@.stepped(
                            genome_views(population@),
                            scores@,
                            best,
                        )
                    &&& !run.best_fitness.beats(scores@[0]) ==> !run.best_fitness.beats(
                        after.best_fitness,
                    )
                    &&& forall|other: u64|
                        key_of(run_id@) != Some(other) && old(runs).runs@.contains_key(other)
                            ==> final(runs).runs@[other] == old(runs).runs@[other]
                },
            },
            None => {
                &&& stepped matches Err(e)
                &&& e@ == EngineErrorView::NotFound("run not found"@)
                &&& final(runs).runs@ == old(runs).runs@
            },
        },
{
    let word = match parse_run_id(run_id) {
        Some(word) => word,
        None => {
            return Err(not_found("run not found"));
        },
    };
    match runs.runs.get(&word) {
        Some(run) => {
            if population.len() != run.population.len() {
                return Err(internal_error("population size mismatch"));
            }
            if scores.len() != population.len() {
                return Err(internal_error("fitness size mismatch"));
            }
            if run.generation == u32::MAX {
                return Err(internal_error("generation overflow"));
            }
        },
        None => {
            return Err(not_found("run not found"));
        },
    }
    let held = runs.runs.remove(&word);
    let mut run = held.unwrap();
    run.commit(population, scores);
    let shown = run.to_state(run_id);
    runs.runs.insert(word, run);
    assert(final(runs).runs@.dom() =~= old(runs).runs@.dom());
    Ok(shown)
}

/// Several steps of one run in a row: how many are still to be made, and
/// the run as the last one left it.
#[derive(Debug)]
pub struct Advance {
    pub remaining: u32,
    pub last: Option<RunState>,
}

/// Begins an advance of `steps` steps.
pub fn advance_run(steps: u32) -> (advance: Advance)
    ensures
        advance.remaining == steps,
        advance.last is None,
{
    Advance { remaining: steps, last: None }
}

impl Advance {
    /// Whether another step is to be made.
    pub fn wants_step(&self) -> (more: bool)
        ensures
            more == (self.remaining > 0),
    {
        self.remaining > 0
    }

    /// Takes note of a step that was made.
    pub fn record(&mut self, state: RunState)
        requires
            old(self).remaining > 0,
        ensures
            final(self).remaining == old(self).remaining - 1,
            final(self).last == Some(state),
    {
        self.remaining = self.remaining - 1;
        self.last = Some(state);
    }

    /// The outcome of the advance: the run as the last step left it; an
    /// advance without a step has none.
    pub fn finish(self) -> (outcome: Result<RunState, EngineError>)
        ensures
            match self.last {
                Some(state) => outcome == Ok::<RunState, EngineError>(state),
                None => outcome matches Err(e) && e@ == EngineErrorView::InternalError(
                    "no steps executed"@,
                ),
            },
    {
        match self.last {
            Some(state) => Ok(state),
            None => Err(internal_error("no steps executed")),
        }
    }
}

/// A text without the slashes at its end.
pub open spec fn without_trailing_slashes(text: Seq<char>) -> Seq<char>
    decreases text.len(),
{
    if text.len() > 0 && text.last() == '/' {
        without_trailing_slashes(text.drop_last())
    } else {
        text
    }
}

/// The address that scores are asked at: the scorer's address without the
/// slashes at its end, then `/score`.
pub fn score_url(fitness_url: &str) -> (url: String)
    ensures
        url@ == without_trailing_slashes(fitness_url@) + "/score"@,
{
    let mut kept = fitness_url.unicode_len();
    assert(fitness_url@.subrange(0, kept as int) =~= fitness_url@);
    while kept > 0 && fitness_url.get_char(kept - 1) == '/'
        invariant
            kept <= fitness_url@.len(),
            without_trailing_slashes(fitness_url@) == without_trailing_slashes(
                fitness_url@.subrange(0, kept as int),
            ),
        decreases kept,
    {
        assert(fitness_url@.subrange(0, kept as int).drop_last() =~= fitness_url@.subrange(
            0,
            kept - 1,
        ));
        kept = kept - 1;
    }
    String::from_str(fitness_url.substring_char(0, kept)).concat("/score")
}

} // verus!
