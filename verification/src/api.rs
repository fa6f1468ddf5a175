//! What is asked of a request before the engine acts on it, and how a
//! run's history is shown.

use vstd::prelude::*;
use vstd::string::*;
use crate::error::{bad_request, EngineError, EngineErrorView};
use crate::models::{RunAdvanceRequest, RunConfig, RunConfigView, RunHistoryPoint, RunHistoryResponse};
use crate::number::{Real, ONE, ZERO};

verus! {

/// The greatest population that a run may be created with.
pub const MAX_POPULATION: i64 = 5000;

/// The greatest number of generations that a run may be created for.
pub const MAX_GENERATIONS: i64 = 1_000_000;

/// The greatest number of steps that one request may ask for.
pub const MAX_ADVANCE_STEPS: u32 = 10_000;

/// Why a configuration is refused, if it is: the first of its faults, in
/// the order population, generations, mutation rate, task.
pub open spec fn config_fault(cfg: RunConfigView) -> Option<Seq<char>> {
    if !(1 <= cfg.population <= MAX_POPULATION) {
        Some("population out of range"@)
    } else if !(1 <= cfg.generations <= MAX_GENERATIONS) {
        Some("generations out of range"@)
    } else if !(Real { bits: ZERO }.at_most(cfg.mutation_rate) && cfg.mutation_rate.at_most(
        Real { bits: ONE },
    )) {
        Some("mutation_rate must be between 0 and 1"@)
    } else if cfg.task.len() == 0 {
        Some("task must be non-empty"@)
    } else {
        None
    }
}

/// Accepts a configuration whose population is from 1 to 5000, whose
/// generations are from 1 to 1,000,000, whose mutation rate is from 0 to 1
/// and whose task is not empty.
pub fn validate_run_config(cfg: &RunConfig) -> (checked: Result<(), EngineError>)
    ensures
        match checked {
            Ok(_) => config_fault(cfg@) is None,
            Err(e) => config_fault(cfg@) matches Some(reason) && e@ == EngineErrorView::BadRequest(
                reason,
            ),
        },
{
    if !(1 <= cfg.population && cfg.population <= MAX_POPULATION) {
        return Err(bad_request("population out of range"));
    }
    if !(1 <= cfg.generations && cfg.generations <= MAX_GENERATIONS) {
        return Err(bad_request("generations out of range"));
    }
    if !(Real::from_bits(ZERO).less_or_equal(cfg.mutation_rate)
        && cfg.mutation_rate.less_or_equal(Real::from_bits(ONE))) {
        return Err(bad_request("mutation_rate must be between 0 and 1"));
    }
    if cfg.task.as_str().is_empty() {
        return Err(bad_request("task must be non-empty"));
    }
    Ok(())
}

/// A run made from an accepted configuration has as many members as the
/// configuration asks for.
pub proof fn lemma_accepted_population(cfg: RunConfigView)
    requires
        config_fault(cfg) is None,
    ensures
        crate::evolve::population_size(cfg.population) == cfg.population,
{
}

/// Accepts a request for 1 to 10,000 steps.
pub fn validate_advance(req: &RunAdvanceRequest) -> (checked: Result<(), EngineError>)
    ensures
        match checked {
            Ok(_) => 1 <= req.steps <= MAX_ADVANCE_STEPS,
            Err(e) => !(1 <= req.steps <= MAX_ADVANCE_STEPS) && e@ == EngineErrorView::BadRequest(
                "steps must be between 1 and 10000"@,
            ),
        },
{
    if !(1 <= req.steps && req.steps <= MAX_ADVANCE_STEPS) {
        return Err(bad_request("steps must be between 1 and 10000"));
    }
    Ok(())
}

/// A run's history as its readers are shown it: the run's name and task,
/// and a point for each generation, in their order.
pub fn history_response(run_id: String, task: String, history: Vec<(u32, Real)>) -> (shown:
    RunHistoryResponse)
    ensures
        shown.run_id == run_id,
        shown.task == task,
        shown.points@.len() == history@.len(),
        forall|i: int|
            0 <= i < history@.len() ==> (#[trigger] shown.points@[i]).generation == history@[i].0
                && shown.points@[i].best_fitness == history@[i].1,
{
    let mut points: Vec<RunHistoryPoint> = Vec::new();
    let mut i: usize = 0;
    while i < history.len()
        invariant
            i <= history@.len(),
            points@.len() == i,
            forall|j: int|
                0 <= j < i ==> (#[trigger] points@[j]).generation == history@[j].0
                    && points@[j].best_fitness == history@[j].1,
        decreases history@.len() - i,
    {
        let point = history[i];
        points.push(RunHistoryPoint { generation: point.0, best_fitness: point.1 });
        i += 1;
    }
    RunHistoryResponse { run_id, task, points }
}

} // verus!
