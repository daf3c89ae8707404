//! A job's runs: each one searches wider than the last, and whatever nested
//! best across all of them is kept.
//!
//! The search itself happens elsewhere. This module decides what to run next
//! and what to make of what came back: the caller asks [`Escalation::next_run`]
//! for a run, drives it with [`RunProgress::next_generation`] and
//! [`RunProgress::record`], hands it back to [`Escalation::finish_run`], and
//! takes the outcome from [`Escalation::finish`].

use vstd::prelude::*;
use crate::config::{job_problem, NestConfigDto};
use crate::order::{ascending, reversed, sort_ids};
use crate::placement::{PlaceModel, PlaceResult};
use crate::ranking::{is_better, law_beats_compares_every_number, score, score_of, Score};
use crate::scalar::Scalar;

verus! {

/// How much each run adds to the population of the one before.
pub const RUN_POPULATION_STEP: usize = 4;

/// How many generations each run adds to the one before.
pub const RUN_GENERATIONS_STEP: usize = 5;

/// How many generations a run may go without an improvement before its
/// rotation grid is widened.
pub const ROTATION_STAGNATION_LIMIT: usize = 60;

/// The widest rotation grid that widening leads to.
pub const ROTATION_CAP: u32 = 32;

/// What the genetic search is started with.
#[derive(Clone, Copy, PartialEq, Eq, Structural, Debug)]
pub struct GaConfig {
    pub population_size: usize,
    pub mutation_rate: Scalar,
    pub rotations: u32,
    pub mirror: bool,
}

impl NestConfigDto {
    /// The search settings of a job, before any escalation.
    pub fn ga_config(&self) -> (r: GaConfig)
        ensures
            r.population_size == self.population_size,
            r.mutation_rate == self.mutation_rate,
            r.rotations == self.rotations,
            r.mirror == self.mirror,
    {
        GaConfig {
            population_size: self.population_size,
            mutation_rate: self.mutation_rate,
            rotations: self.rotations,
            mirror: self.mirror,
        }
    }
}

/// The search settings and the generation budget of one run, by its index.
/// Each run tries one more rotation and is given more population and more
/// generations. With mirroring on, the first of several runs is still done
/// without it, so that there is an unflipped result to compare against; a job
/// of a single run mirrors in that one.
pub fn escalated_run_config(
    base_ga_config: &GaConfig,
    base_generations: usize,
    run_index: usize,
    total_runs: usize,
) -> (r: (GaConfig, usize))
    requires
        base_ga_config.rotations + run_index <= u32::MAX,
        base_ga_config.population_size + run_index * RUN_POPULATION_STEP <= usize::MAX,
        base_generations + run_index * RUN_GENERATIONS_STEP <= usize::MAX,
    ensures
        r.0.rotations == base_ga_config.rotations + run_index,
        r.0.population_size == base_ga_config.population_size + run_index * RUN_POPULATION_STEP,
        r.0.mutation_rate == base_ga_config.mutation_rate,
        r.0.mirror == (base_ga_config.mirror && (run_index > 0 || total_runs == 1)),
        r.1 == base_generations + run_index * RUN_GENERATIONS_STEP,
{
    let ga_config = GaConfig {
        population_size: base_ga_config.population_size + run_index * RUN_POPULATION_STEP,
        mutation_rate: base_ga_config.mutation_rate,
        rotations: base_ga_config.rotations + run_index as u32,
        mirror: base_ga_config.mirror && (run_index > 0 || total_runs == 1),
    };
    (ga_config, base_generations + run_index * RUN_GENERATIONS_STEP)
}

/// A nest that beat everything before it, and the generation that found it.
#[derive(Debug)]
pub struct Attempt {
    pub generation: usize,
    pub result: PlaceResult,
}

/// What an [`Attempt`] holds.
#[verifier::ext_equal]
pub struct AttemptModel {
    pub generation: int,
    pub result: PlaceModel,
}

impl View for Attempt {
    type V = AttemptModel;

    open spec fn view(&self) -> AttemptModel {
        AttemptModel { generation: self.generation as int, result: self.result@ }
    }
}

/// What a list of attempts holds.
pub open spec fn attempts_view(attempts: Seq<Attempt>) -> Seq<AttemptModel> {
    attempts.map_values(|a: Attempt| a@)
}

/// One generation's results as candidate attempts.
pub open spec fn candidates(generation: int, results: Seq<PlaceResult>) -> Seq<AttemptModel> {
    results.map_values(|r: PlaceResult| AttemptModel { generation, result: r@ })
}

/// A run's attempts renumbered to follow the generations before the run.
pub open spec fn renumbered(attempts: Seq<AttemptModel>, offset: int) -> Seq<AttemptModel> {
    attempts.map_values(
        |a: AttemptModel| AttemptModel { generation: offset + a.generation, result: a.result },
    )
}

/// Whether a candidate belongs at the end of a history: it is the first, or
/// beats the last.
pub open spec fn advances(history: Seq<AttemptModel>, candidate: AttemptModel) -> bool {
    history.len() == 0 || score_of(candidate.result).beats(score_of(history.last().result))
}

/// The history after the candidates have been tried against it in turn.
pub open spec fn keep_better(
    history: Seq<AttemptModel>,
    tried: Seq<AttemptModel>,
) -> Seq<AttemptModel>
    decreases tried.len(),
{
    if tried.len() == 0 {
        history
    } else {
        let before = keep_better(history, tried.drop_last());
        if advances(before, tried.last()) {
            before.push(tried.last())
        } else {
            before
        }
    }
}

/// Whether every entry beats every earlier one.
pub open spec fn improving(history: Seq<AttemptModel>) -> bool {
    forall|i: int, j: int|
        0 <= i < j < history.len() ==> score_of((#[trigger] history[j]).result).beats(
            score_of((#[trigger] history[i]).result),
        )
}

/// Whether the generation labels lie in `low..=high` and never go back.
pub open spec fn labelled_within(history: Seq<AttemptModel>, low: int, high: int) -> bool {
    &&& forall|i: int| 0 <= i < history.len() ==> low <= (#[trigger] history[i]).generation <= high
    &&& forall|i: int, j: int|
        0 <= i <= j < history.len() ==> (#[trigger] history[i]).generation <= (
        #[trigger] history[j]).generation
}

/// Whether nothing that was seen beats the last entry of the history.
pub open spec fn unbeaten(seen: Seq<Score>, history: Seq<AttemptModel>) -> bool {
    &&& seen.len() > 0 ==> history.len() > 0
    &&& forall|i: int|
        0 <= i < seen.len() ==> !(#[trigger] seen[i]).beats(score_of(history.last().result))
}

/// Whether every utilisation that was seen is a number.
pub open spec fn all_numbers(seen: Seq<Score>) -> bool {
    forall|i: int| 0 <= i < seen.len() ==> !(#[trigger] seen[i]).utilisation.nan()
}

/// The scores of a list of results.
pub open spec fn scores(results: Seq<PlaceResult>) -> Seq<Score> {
    results.map_values(|r: PlaceResult| score_of(r@))
}

/// Trying candidates only ever appends, keeps the history improving, and leaves
/// no candidate that beats its end.
pub proof fn law_keeping_is_improving(history: Seq<AttemptModel>, tried: Seq<AttemptModel>)
    requires
        improving(history),
    ensures
        improving(keep_better(history, tried)),
        history.is_prefix_of(keep_better(history, tried)),
        tried.len() > 0 ==> keep_better(history, tried).len() > 0,
        forall|i: int|
            0 <= i < tried.len() ==> !score_of((#[trigger] tried[i]).result).beats(
                score_of(keep_better(history, tried).last().result),
            ),
        history.len() > 0 ==> !score_of(history.last().result).beats(
            score_of(keep_better(history, tried).last().result),
        ),
        keep_better(history, tried).len() > history.len() ==> (history.len() == 0 || score_of(
            keep_better(history, tried).last().result,
        ).beats(score_of(history.last().result))),
    decreases tried.len(),
{
    if tried.len() > 0 {
        let rest = tried.drop_last();
        law_keeping_is_improving(history, rest);
        let before = keep_better(history, rest);
        let after = keep_better(history, tried);
        assert forall|i: int, j: int| 0 <= i < j < after.len() implies score_of(
            (#[trigger] after[j]).result,
        ).beats(score_of((#[trigger] after[i]).result)) by {
            if j == before.len() && i < before.len() - 1 {
                assert(score_of(before[before.len() - 1].result).beats(score_of(before[i].result)));
            }
        }
        assert forall|i: int| 0 <= i < tried.len() implies !score_of(
            (#[trigger] tried[i]).result,
        ).beats(score_of(after.last().result)) by {
            if i < rest.len() {
                assert(rest[i] == tried[i]);
            }
        }
    }
}

/// The labels of what is kept come from the history and the candidates.
proof fn lemma_kept_labels(
    history: Seq<AttemptModel>,
    tried: Seq<AttemptModel>,
    low: int,
    mid: int,
    high: int,
)
    requires
        labelled_within(history, low, mid),
        labelled_within(tried, mid, high),
        low <= mid <= high,
    ensures
        labelled_within(keep_better(history, tried), low, high),
        forall|i: int|
            history.len() <= i < keep_better(history, tried).len() ==> exists|k: int|
                0 <= k < tried.len() && (#[trigger] tried[k]) == #[trigger] keep_better(
                    history,
                    tried,
                )[i],
    decreases tried.len(),
{
    if tried.len() > 0 {
        let rest = tried.drop_last();
        assert forall|i: int| 0 <= i < rest.len() implies (#[trigger] rest[i]) == tried[i] by {}
        lemma_kept_labels(history, rest, low, mid, high);
        let before = keep_better(history, rest);
        let after = keep_better(history, tried);
        lemma_kept_prefix(history, rest);
        assert forall|i: int| history.len() <= i < after.len() implies exists|k: int|
            0 <= k < tried.len() && (#[trigger] tried[k]) == #[trigger] after[i] by {
            if i < before.len() {
                let k = choose|k: int| 0 <= k < rest.len() && (#[trigger] rest[k]) == before[i];
                assert(tried[k] == after[i]);
            } else {
                assert(tried[tried.len() - 1] == after[i]);
            }
        }
        assert forall|i: int, j: int| 0 <= i <= j < after.len() implies (
        #[trigger] after[i]).generation <= (#[trigger] after[j]).generation by {
            if j == before.len() && i < before.len() {
                if i >= history.len() {
                    let k = choose|k: int| 0 <= k < rest.len() && (#[trigger] rest[k]) == before[i];
                    assert(tried[k].generation <= tried[tried.len() - 1].generation);
                } else {
                    assert(history[i] == before[i]);
                    assert(mid <= tried[tried.len() - 1].generation);
                }
            }
        }
    }
}

/// Whether no two entries have the same generation label, and labels rise.
pub open spec fn rising_labels(history: Seq<AttemptModel>) -> bool {
    forall|i: int, j: int|
        0 <= i < j < history.len() ==> (#[trigger] history[i]).generation < (
        #[trigger] history[j]).generation
}

/// Where no generation offers more than one candidate, and every generation
/// follows those of the history, no two entries that are kept have the same
/// label.
pub proof fn law_single_candidates_are_told_apart(
    history: Seq<AttemptModel>,
    tried: Seq<AttemptModel>,
)
    requires
        rising_labels(history),
        rising_labels(tried),
        forall|i: int, j: int|
            0 <= i < history.len() && 0 <= j < tried.len() ==> (#[trigger] history[i]).generation
                < (#[trigger] tried[j]).generation,
    ensures
        rising_labels(keep_better(history, tried)),
        forall|i: int|
            0 <= i < keep_better(history, tried).len() ==> history.contains(
                #[trigger] keep_better(history, tried)[i],
            ) || tried.contains(keep_better(history, tried)[i]),
    decreases tried.len(),
{
    if tried.len() > 0 {
        let rest = tried.drop_last();
        assert forall|i: int| 0 <= i < rest.len() implies (#[trigger] rest[i]) == tried[i] by {}
        law_single_candidates_are_told_apart(history, rest);
        let before = keep_better(history, rest);
        let after = keep_better(history, tried);
        assert forall|i: int| 0 <= i < before.len() implies (#[trigger] before[i]).generation
            < tried.last().generation by {
            if history.contains(before[i]) {
                let k = choose|k: int| 0 <= k < history.len() && history[k] == before[i];
                assert(history[k].generation < tried[tried.len() - 1].generation);
            } else {
                let k = choose|k: int| 0 <= k < rest.len() && rest[k] == before[i];
                assert(tried[k].generation < tried[tried.len() - 1].generation);
            }
        }
        assert forall|i: int| 0 <= i < after.len() implies history.contains(#[trigger] after[i])
            || tried.contains(after[i]) by {
            if i < before.len() {
                assert(after[i] == before[i]);
                if rest.contains(before[i]) {
                    let k = choose|k: int| 0 <= k < rest.len() && rest[k] == before[i];
                    assert(tried[k] == before[i]);
                }
            } else {
                assert(tried[tried.len() - 1] == after[i]);
            }
        }
    } else {
        assert forall|i: int| 0 <= i < history.len() implies history.contains(
            #[trigger] history[i],
        ) by {}
    }
}

/// However many nests of one generation are kept, they carry its label, and
/// every nest kept before carries a lower one.
pub proof fn law_generations_are_told_apart(
    history: Seq<AttemptModel>,
    generation: int,
    tried: Seq<AttemptModel>,
)
    requires
        labelled_within(history, 1, generation - 1),
        forall|i: int| 0 <= i < tried.len() ==> (#[trigger] tried[i]).generation == generation,
    ensures
        history.is_prefix_of(keep_better(history, tried)),
        forall|i: int|
            0 <= i < keep_better(history, tried).len() ==> {
                let label = (#[trigger] keep_better(history, tried)[i]).generation;
                if i < history.len() {
                    label == history[i].generation && label < generation
                } else {
                    label == generation
                }
            },
    decreases tried.len(),
{
    if tried.len() > 0 {
        let rest = tried.drop_last();
        assert forall|i: int| 0 <= i < rest.len() implies (#[trigger] rest[i]).generation
            == generation by {
            assert(rest[i] == tried[i]);
        }
        law_generations_are_told_apart(history, generation, rest);
        let before = keep_better(history, rest);
        let after = keep_better(history, tried);
        assert(tried[tried.len() - 1].generation == generation);
        assert forall|i: int| 0 <= i < after.len() implies {
            let label = (#[trigger] after[i]).generation;
            if i < history.len() {
                label == history[i].generation && label < generation
            } else {
                label == generation
            }
        } by {
            if i < before.len() {
                assert(after[i] == before[i]);
            }
        }
    }
}

/// One run as it went: its budget of generations, and what each generation that
/// was recorded came back with.
pub struct RunTrace {
    pub budget: nat,
    pub generations: Seq<Seq<PlaceResult>>,
}

/// What a run's generations leave in its history.
pub open spec fn run_found(generations: Seq<Seq<PlaceResult>>) -> Seq<AttemptModel>
    decreases generations.len(),
{
    if generations.len() == 0 {
        Seq::empty()
    } else {
        keep_better(
            run_found(generations.drop_last()),
            candidates(generations.len() as int, generations.last()),
        )
    }
}

/// The generation budgets of some runs, together.
pub open spec fn elapsed(runs: Seq<RunTrace>) -> int
    decreases runs.len(),
{
    if runs.len() == 0 {
        0
    } else {
        elapsed(runs.drop_last()) + runs.last().budget
    }
}

/// What a job's history holds once a run with these generations was folded into
/// it, after some earlier runs.
pub open spec fn found_by(earlier: Seq<RunTrace>, generations: Seq<Seq<PlaceResult>>) -> Seq<
    AttemptModel,
>
    decreases earlier.len(), 1int,
{
    keep_better(job_found(earlier), renumbered(run_found(generations), elapsed(earlier)))
}

/// What a job's runs leave in its history.
pub open spec fn job_found(runs: Seq<RunTrace>) -> Seq<AttemptModel>
    decreases runs.len(), 0int,
{
    if runs.len() == 0 {
        Seq::empty()
    } else {
        found_by(runs.drop_last(), runs.last().generations)
    }
}

/// Whether no run went past its budget.
pub open spec fn within_budget(runs: Seq<RunTrace>) -> bool {
    forall|i: int|
        0 <= i < runs.len() ==> (#[trigger] runs[i]).generations.len() <= runs[i].budget
}

/// Whether each of a run's generations has at most one nest in the job's
/// history.
pub open spec fn one_nest_each(
    earlier: Seq<RunTrace>,
    generations: Seq<Seq<PlaceResult>>,
) -> bool
    decreases generations.len(),
{
    generations.len() > 0 ==> {
        &&& one_nest_each(earlier, generations.drop_last())
        &&& found_by(earlier, generations).len() <= found_by(
            earlier,
            generations.drop_last(),
        ).len() + 1
    }
}

/// Whether each generation of each run has at most one nest in the job's
/// history.
pub open spec fn one_nest_per_generation(runs: Seq<RunTrace>) -> bool
    decreases runs.len(),
{
    runs.len() > 0 ==> {
        &&& one_nest_per_generation(runs.drop_last())
        &&& one_nest_each(runs.drop_last(), runs.last().generations)
    }
}

proof fn lemma_keep_in_turn(
    history: Seq<AttemptModel>,
    first: Seq<AttemptModel>,
    then_tried: Seq<AttemptModel>,
)
    ensures
        keep_better(history, first + then_tried) == keep_better(
            keep_better(history, first),
            then_tried,
        ),
    decreases then_tried.len(),
{
    if then_tried.len() == 0 {
        assert(first + then_tried == first);
    } else {
        lemma_keep_in_turn(history, first, then_tried.drop_last());
        assert((first + then_tried).drop_last() == first + then_tried.drop_last());
    }
}

proof fn lemma_run_labels(generations: Seq<Seq<PlaceResult>>)
    ensures
        labelled_within(run_found(generations), 1, generations.len() as int),
    decreases generations.len(),
{
    if generations.len() > 0 {
        let n = generations.len() as int;
        let before = run_found(generations.drop_last());
        lemma_run_labels(generations.drop_last());
        law_generations_are_told_apart(before, n, candidates(n, generations.last()));
        let after = run_found(generations);
        assert forall|i: int, j: int| 0 <= i <= j < after.len() implies (
        #[trigger] after[i]).generation <= (#[trigger] after[j]).generation by {
            if j < before.len() {
                assert(after[i] == before[i] && after[j] == before[j]);
            }
        }
    }
}

/// One more generation of a run puts nothing but nests of its own label behind
/// a job's history.
proof fn lemma_found_step(earlier: Seq<RunTrace>, generations: Seq<Seq<PlaceResult>>)
    requires
        generations.len() > 0,
        elapsed(earlier) >= 0,
        labelled_within(
            found_by(earlier, generations.drop_last()),
            1,
            elapsed(earlier) + generations.len() - 1,
        ),
    ensures
        labelled_within(
            found_by(earlier, generations),
            1,
            elapsed(earlier) + generations.len(),
        ),
        rising_labels(found_by(earlier, generations)) <==> {
            &&& rising_labels(found_by(earlier, generations.drop_last()))
            &&& found_by(earlier, generations).len() <= found_by(
                earlier,
                generations.drop_last(),
            ).len() + 1
        },
{
    let n = generations.len() as int;
    let offset = elapsed(earlier);
    let label = offset + n;
    let run_before = run_found(generations.drop_last());
    let run_after = run_found(generations);
    lemma_run_labels(generations.drop_last());
    law_generations_are_told_apart(run_before, n, candidates(n, generations.last()));
    let fresh = run_after.subrange(run_before.len() as int, run_after.len() as int);
    assert(run_after =~= run_before + fresh);
    let tried = renumbered(fresh, offset);
    assert(renumbered(run_after, offset) =~= renumbered(run_before, offset) + tried);
    lemma_keep_in_turn(job_found(earlier), renumbered(run_before, offset), tried);
    let before = found_by(earlier, generations.drop_last());
    let after = found_by(earlier, generations);
    assert(after == keep_better(before, tried));
    assert forall|i: int| 0 <= i < tried.len() implies (#[trigger] tried[i]).generation
        == label by {
        assert(fresh[i] == run_after[run_before.len() + i]);
    }
    law_generations_are_told_apart(before, label, tried);
    assert forall|i: int, j: int| 0 <= i <= j < after.len() implies (
    #[trigger] after[i]).generation <= (#[trigger] after[j]).generation by {
        if j < before.len() {
            assert(after[i] == before[i] && after[j] == before[j]);
        }
    }
    if rising_labels(after) {
        assert forall|i: int, j: int| 0 <= i < j < before.len() implies (
        #[trigger] before[i]).generation < (#[trigger] before[j]).generation by {
            assert(after[i] == before[i] && after[j] == before[j]);
        }
        if after.len() > before.len() + 1 {
            let first = before.len() as int;
            assert(after[first].generation < after[first + 1].generation);
        }
    }
    if rising_labels(before) && after.len() <= before.len() + 1 {
        assert forall|i: int, j: int| 0 <= i < j < after.len() implies (
        #[trigger] after[i]).generation < (#[trigger] after[j]).generation by {
            assert(after[i] == before[i]);
            if j < before.len() {
                assert(after[j] == before[j]);
            }
        }
    }
}

proof fn lemma_found_by(earlier: Seq<RunTrace>, generations: Seq<Seq<PlaceResult>>)
    requires
        elapsed(earlier) >= 0,
        labelled_within(job_found(earlier), 1, elapsed(earlier)),
    ensures
        labelled_within(
            found_by(earlier, generations),
            1,
            elapsed(earlier) + generations.len(),
        ),
        rising_labels(found_by(earlier, generations)) <==> rising_labels(job_found(earlier))
            && one_nest_each(earlier, generations),
    decreases generations.len(),
{
    if generations.len() == 0 {
        assert(renumbered(run_found(generations), elapsed(earlier)) =~= Seq::empty());
    } else {
        lemma_found_by(earlier, generations.drop_last());
        lemma_found_step(earlier, generations);
    }
}

/// Over a whole job the labels of the history never fall, whatever its runs
/// came back with. They rise from each entry to the next exactly where no
/// generation has two nests in the history: nests of different generations, of
/// one run or of several, never share a label.
pub proof fn law_history_labels_rise(runs: Seq<RunTrace>)
    requires
        within_budget(runs),
    ensures
        labelled_within(job_found(runs), 1, elapsed(runs)),
        rising_labels(job_found(runs)) <==> one_nest_per_generation(runs),
        elapsed(runs) >= 0,
    decreases runs.len(),
{
    if runs.len() > 0 {
        let earlier = runs.drop_last();
        assert forall|i: int| 0 <= i < earlier.len() implies (
        #[trigger] earlier[i]).generations.len() <= earlier[i].budget by {
            assert(earlier[i] == runs[i]);
        }
        law_history_labels_rise(earlier);
        lemma_found_by(earlier, runs.last().generations);
        assert(runs[runs.len() - 1].generations.len() <= runs[runs.len() - 1].budget);
    }
}

/// Trying candidates leaves the history in place.
proof fn lemma_kept_prefix(history: Seq<AttemptModel>, tried: Seq<AttemptModel>)
    ensures
        history.is_prefix_of(keep_better(history, tried)),
    decreases tried.len(),
{
    if tried.len() > 0 {
        lemma_kept_prefix(history, tried.drop_last());
    }
}

/// Adds a candidate to a history where it belongs at its end.
fn offer(history: &mut Vec<Attempt>, generation: usize, result: PlaceResult) -> (kept: bool)
    ensures
        kept == advances(
            attempts_view(old(history)@),
            AttemptModel { generation: generation as int, result: result@ },
        ),
        attempts_view(final(history)@) == if kept {
            attempts_view(old(history)@).push(
                AttemptModel { generation: generation as int, result: result@ },
            )
        } else {
            attempts_view(old(history)@)
        },
{
    let kept = history.len() == 0 || is_better(
        score(&result),
        score(&history[history.len() - 1].result),
    );
    if kept {
        history.push(Attempt { generation, result });
    }
    kept
}

/// Announces a run that is about to start.
#[derive(Clone, Copy, PartialEq, Eq, Structural, Debug)]
pub struct NestRunStartDto {
    pub run: usize,
    pub total_runs: usize,
    pub rotations: u32,
    pub population_size: usize,
    pub generations: usize,
}

/// Reports a run that has ended with a result.
#[derive(Clone, Copy, PartialEq, Eq, Structural, Debug)]
pub struct NestRunCompleteDto {
    pub run: usize,
    pub total_runs: usize,
    pub rotations: u32,
    pub population_size: usize,
    pub generations: usize,
    pub sheets_used: usize,
    pub unplaced_count: usize,
    pub utilisation: Scalar,
    /// Whether this run's best beats every run before it.
    pub improved: bool,
}

/// A run in progress.
pub struct RunProgress {
    /// Which run of the job this is, from 1.
    pub run: usize,
    pub total_runs: usize,
    /// What the search of this run was started with.
    pub config: GaConfig,
    /// The generations this run may use.
    pub generations: usize,
    /// The rotation grid in use, which widens when the run stalls.
    pub rotations: u32,
    /// The generations begun so far.
    pub generation: usize,
    /// Whether a generation has begun and not been recorded.
    pub in_generation: bool,
    /// The generations since the last improvement or widening.
    pub stale: usize,
    /// What beat everything before it in this run.
    pub history: Vec<Attempt>,
    pub cancelled: bool,
    /// Every score this run has produced.
    pub seen: Ghost<Seq<Score>>,
    /// What each generation that was recorded came back with.
    pub tried: Ghost<Seq<Seq<PlaceResult>>>,
}

impl RunProgress {
    /// What holds of a run at every step.
    pub open spec fn wf(&self) -> bool {
        &&& 1 <= self.run <= self.total_runs
        &&& self.generation <= self.generations
        &&& self.in_generation ==> self.generation >= 1 && !self.cancelled
        &&& self.stale + (if self.in_generation {
            1int
        } else {
            0int
        }) <= self.generation
        &&& self.config.rotations <= self.rotations
        &&& self.rotations <= self.config.rotations || self.rotations <= ROTATION_CAP
        &&& improving(attempts_view(self.history@))
        &&& labelled_within(attempts_view(self.history@), 1, self.recorded())
        &&& self.tried@.len() == self.recorded()
        &&& attempts_view(self.history@) == run_found(self.tried@)
        &&& all_numbers(self.seen@) ==> unbeaten(self.seen@, attempts_view(self.history@))
        &&& self.history@.len() > 0 ==> self.seen@.contains(
            score_of(self.history@.last().result@),
        )
    }

    /// The generations recorded so far: one that is open is not among them.
    pub open spec fn recorded(&self) -> int {
        if self.in_generation {
            self.generation - 1
        } else {
            self.generation as int
        }
    }

    /// Whether two states are of the same run, with the same budget.
    pub open spec fn same_run(&self, other: RunProgress) -> bool {
        &&& self.run == other.run
        &&& self.total_runs == other.total_runs
        &&& self.config == other.config
        &&& self.generations == other.generations
    }

    /// The announcement of this run.
    pub fn start(&self) -> (r: NestRunStartDto)
        ensures
            r == (NestRunStartDto {
                run: self.run,
                total_runs: self.total_runs,
                rotations: self.config.rotations,
                population_size: self.config.population_size,
                generations: self.generations,
            }),
    {
        NestRunStartDto {
            run: self.run,
            total_runs: self.total_runs,
            rotations: self.config.rotations,
            population_size: self.config.population_size,
            generations: self.generations,
        }
    }

    /// The best nest of this run so far.
    pub fn best(&self) -> (r: Option<&PlaceResult>)
        ensures
            match r {
                None => self.history@.len() == 0,
                Some(best) => self.history@.len() > 0 && *best == self.history@.last().result,
            },
    {
        if self.history.len() == 0 {
            None
        } else {
            Some(&self.history[self.history.len() - 1].result)
        }
    }

    /// Begins the next generation and says which it is, or says that there is
    /// none: the budget is used up, the run was stopped, or a stop is asked for
    /// now.
    pub fn next_generation(&mut self, stop: bool) -> (r: Option<usize>)
        requires
            old(self).wf(),
            !old(self).in_generation,
        ensures
            final(self).wf(),
            final(self).same_run(*old(self)),
            final(self).history == old(self).history,
            final(self).seen == old(self).seen,
            final(self).tried == old(self).tried,
            final(self).rotations == old(self).rotations,
            final(self).stale == old(self).stale,
            ({
                let more = !old(self).cancelled && old(self).generation < old(self).generations;
                &&& final(self).in_generation == (more && !stop)
                &&& final(self).cancelled == (old(self).cancelled || (more && stop))
                &&& final(self).generation == old(self).generation + (if more && !stop {
                    1int
                } else {
                    0int
                })
                &&& r == if more && !stop {
                    Some(final(self).generation)
                } else {
                    None
                }
            }),
    {
        if self.cancelled || self.generation >= self.generations {
            return None;
        }
        if stop {
            self.cancelled = true;
            return None;
        }
        self.generation = self.generation + 1;
        self.in_generation = true;
        Some(self.generation)
    }

    /// Takes in one generation's results. Where the run has gone too long
    /// without an improvement its rotation grid doubles, up to the cap, and the
    /// new grid is returned for the search to use. A stop asked for during the
    /// generation ends the run instead.
    pub fn record(&mut self, results: Vec<PlaceResult>, stop: bool) -> (widened: Option<u32>)
        requires
            old(self).wf(),
            old(self).in_generation,
        ensures
            final(self).wf(),
            final(self).same_run(*old(self)),
            final(self).generation == old(self).generation,
            !final(self).in_generation,
            final(self).cancelled == stop,
            attempts_view(final(self).history@) == keep_better(
                attempts_view(old(self).history@),
                candidates(old(self).generation as int, results@),
            ),
            final(self).seen@ == old(self).seen@ + scores(results@),
            final(self).tried@ == old(self).tried@.push(results@),
            forall|i: int, j: int|
                0 <= i < old(self).history@.len() <= j < final(self).history@.len()
                    ==> (#[trigger] final(self).history@[i]).generation < (
                #[trigger] final(self).history@[j]).generation,
            forall|j: int|
                old(self).history@.len() <= j < final(self).history@.len() ==> (
                #[trigger] final(self).history@[j]).generation == old(self).generation,
            ({
                let improved = final(self).history@.len() > old(self).history@.len();
                let stale = old(self).stale + 1;
                let widens = !stop && !improved && stale >= ROTATION_STAGNATION_LIMIT && old(
                    self,
                ).rotations < ROTATION_CAP;
                &&& widened == if widens {
                    Some(final(self).rotations)
                } else {
                    None
                }
                &&& final(self).rotations == if !widens {
                    old(self).rotations as int
                } else if 2 * old(self).rotations <= ROTATION_CAP {
                    2 * old(self).rotations
                } else {
                    ROTATION_CAP as int
                }
                &&& final(self).stale == if stop {
                    old(self).stale as int
                } else if improved || widens {
                    0
                } else {
                    stale
                }
            }),
    {
        let generation: usize = self.generation;
        let before: usize = self.history.len();
        let ghost fed = results@;
        let ghost start = attempts_view(self.history@);
        let ghost tried = candidates(generation as int, fed);
        let mut history: Vec<Attempt> = Vec::new();
        std::mem::swap(&mut history, &mut self.history);
        let mut rest = reversed(results);
        proof {
            assert(tried.subrange(0, 0) == Seq::<AttemptModel>::empty());
        }
        while rest.len() > 0
            invariant
                rest@.len() <= fed.len(),
                forall|k: int|
                    0 <= k < rest@.len() ==> #[trigger] rest@[k] == fed[fed.len() - 1 - k],
                tried == candidates(generation as int, fed),
                attempts_view(history@) == keep_better(
                    start,
                    tried.subrange(0, fed.len() - rest@.len()),
                ),
            decreases rest.len(),
        {
            let ghost done = fed.len() - rest@.len();
            match rest.pop() {
                Some(result) => {
                    proof {
                        assert(result == fed[done]);
                        assert(tried[done] == (AttemptModel {
                            generation: generation as int,
                            result: result@,
                        }));
                        assert(tried.subrange(0, done + 1).drop_last() == tried.subrange(0, done));
                        assert(tried.subrange(0, done + 1).last() == tried[done]);
                    }
                    let _ = offer(&mut history, generation, result);
                },
                None => {},
            }
        }
        proof {
            assert(tried.subrange(0, fed.len() as int) == tried);
            lemma_record(*self, start, fed, history@);
            self.seen@ = self.seen@ + scores(fed);
            assert(self.tried@.push(fed).drop_last() =~= self.tried@);
            self.tried@ = self.tried@.push(fed);
        }
        std::mem::swap(&mut history, &mut self.history);
        self.in_generation = false;
        if stop {
            self.cancelled = true;
            return None;
        }
        if self.history.len() > before {
            self.stale = 0;
            return None;
        }
        self.stale = self.stale + 1;
        if self.stale >= ROTATION_STAGNATION_LIMIT && self.rotations < ROTATION_CAP {
            let doubled: u32 = self.rotations * 2;
            self.rotations = if doubled <= ROTATION_CAP {
                doubled
            } else {
                ROTATION_CAP
            };
            self.stale = 0;
            return Some(self.rotations);
        }
        None
    }
}


/// What recording a generation keeps of a run's invariant.
proof fn lemma_record(
    run: RunProgress,
    start: Seq<AttemptModel>,
    fed: Seq<PlaceResult>,
    after: Seq<Attempt>,
)
    requires
        improving(start),
        labelled_within(start, 1, run.generation - 1),
        run.generation >= 1,
        all_numbers(run.seen@) ==> unbeaten(run.seen@, start),
        start.len() > 0 ==> run.seen@.contains(score_of(start.last().result)),
        attempts_view(after) == keep_better(start, candidates(run.generation as int, fed)),
    ensures
        improving(attempts_view(after)),
        labelled_within(attempts_view(after), 1, run.generation as int),
        after.len() >= start.len(),
        forall|i: int| 0 <= i < start.len() ==> (#[trigger] after[i]).generation < run.generation,
        forall|j: int|
            start.len() <= j < after.len() ==> (#[trigger] after[j]).generation == run.generation,
        all_numbers(run.seen@ + scores(fed)) ==> unbeaten(
            run.seen@ + scores(fed),
            attempts_view(after),
        ),
        after.len() > 0 ==> (run.seen@ + scores(fed)).contains(score_of(after.last().result@)),
{
    let tried = candidates(run.generation as int, fed);
    let end = attempts_view(after);
    let seen = run.seen@ + scores(fed);
    law_keeping_is_improving(start, tried);
    assert(labelled_within(tried, run.generation as int, run.generation as int));
    lemma_kept_labels(
        start,
        tried,
        1,
        run.generation as int,
        run.generation as int,
    );
    law_generations_are_told_apart(start, run.generation as int, tried);
    assert forall|i: int| 0 <= i < start.len() implies (#[trigger] after[i]).generation
        < run.generation by {
        assert(end[i] == after[i]@);
    }
    assert forall|j: int| start.len() <= j < after.len() implies (
    #[trigger] after[j]).generation == run.generation by {
        assert(end[j] == after[j]@);
    }
    if all_numbers(seen) {
        assert forall|i: int| 0 <= i < run.seen@.len() implies !(
        #[trigger] run.seen@[i]).utilisation.nan() by {
            assert(seen[i] == run.seen@[i]);
        }
        assert forall|i: int| 0 <= i < seen.len() implies !(#[trigger] seen[i]).beats(
            score_of(end.last().result),
        ) by {
            if i < run.seen@.len() {
                assert(seen[i] == run.seen@[i]);
                assert(!run.seen@[i].beats(score_of(start.last().result)));
            } else {
                assert(seen[i] == score_of(tried[i - run.seen@.len()].result));
            }
        }
    }
    if after.len() > 0 {
        assert(end.last().result == after.last().result@);
        if after.len() > start.len() {
            let last = end.len() - 1;
            let k = choose|k: int| 0 <= k < tried.len() && (#[trigger] tried[k]) == end[last];
            assert(seen[run.seen@.len() + k] == score_of(fed[k]@));
        } else {
            assert(end == start);
            let k = choose|k: int|
                0 <= k < run.seen@.len() && run.seen@[k] == score_of(start.last().result);
            assert(seen[k] == run.seen@[k]);
        }
    }
}

/// A whole job: its runs so far and what they found.
pub struct Escalation {
    pub base: GaConfig,
    pub base_generations: usize,
    pub total_runs: usize,
    pub runs_done: usize,
    /// The generation budgets of the runs done, together.
    pub generations_elapsed: usize,
    /// What beat everything before it across all runs.
    pub history: Vec<Attempt>,
    pub cancelled: bool,
    /// The rotation grid at the end of the run that found the best nest.
    pub rotations: u32,
    /// Every score any run has produced.
    pub seen: Ghost<Seq<Score>>,
    /// The runs done, as they went.
    pub runs: Ghost<Seq<RunTrace>>,
}

/// How a job ended.
pub struct Outcome {
    pub best: PlaceResult,
    pub history: Vec<Attempt>,
    pub cancelled: bool,
    pub rotations: u32,
}

/// The report of a finished run, or nothing where it found no nest at all.
pub open spec fn run_report(run: RunProgress, improved: bool) -> Option<NestRunCompleteDto> {
    if run.history@.len() == 0 {
        None
    } else {
        let best = run.history@.last().result@;
        Some(
            NestRunCompleteDto {
                run: run.run,
                total_runs: run.total_runs,
                rotations: run.config.rotations,
                population_size: run.config.population_size,
                generations: run.generations,
                sheets_used: best.placements.len() as usize,
                unplaced_count: best.unplaced_count,
                utilisation: best.utilisation,
                improved,
            },
        )
    }
}

/// Whether a result says that nothing was placed: no sheet, every figure zero,
/// and every part of the job left over, in ascending order.
pub open spec fn places_nothing(result: PlaceModel, job: Seq<usize>) -> bool {
    &&& result.placements.len() == 0
    &&& result.fitness == Scalar::zero()
    &&& result.area == Scalar::zero()
    &&& result.total_area == Scalar::zero()
    &&& result.utilisation == Scalar::zero()
    &&& result.unplaced_count == job.len()
    &&& ascending(result.unplaced_ids)
    &&& result.unplaced_ids.to_multiset() == job.to_multiset()
}

impl Escalation {
    /// What holds of a job between its runs.
    pub open spec fn wf(&self) -> bool {
        &&& 1 <= self.base.rotations <= 360
        &&& 2 <= self.base.population_size <= 1000
        &&& 1 <= self.base_generations <= 10_000
        &&& 1 <= self.total_runs <= 50
        &&& self.runs_done <= self.total_runs
        &&& self.generations_elapsed <= self.runs_done * 10_250
        &&& improving(attempts_view(self.history@))
        &&& labelled_within(attempts_view(self.history@), 1, self.generations_elapsed as int)
        &&& attempts_view(self.history@) == job_found(self.runs@)
        &&& self.generations_elapsed == elapsed(self.runs@)
        &&& self.runs@.len() == self.runs_done
        &&& within_budget(self.runs@)
        &&& all_numbers(self.seen@) ==> unbeaten(self.seen@, attempts_view(self.history@))
        &&& self.history@.len() > 0 ==> self.seen@.contains(
            score_of(self.history@.last().result@),
        )
    }

    /// Whether a run is the one this job is waiting for.
    pub open spec fn awaits(&self, run: RunProgress) -> bool {
        &&& self.runs_done < self.total_runs
        &&& run.run == self.runs_done + 1
        &&& run.total_runs == self.total_runs
        &&& run.config.rotations == self.base.rotations + self.runs_done
        &&& run.config.population_size == self.base.population_size + self.runs_done
            * RUN_POPULATION_STEP
        &&& run.config.mutation_rate == self.base.mutation_rate
        &&& run.config.mirror == (self.base.mirror && (self.runs_done > 0 || self.total_runs == 1))
        &&& run.generations == self.base_generations + self.runs_done * RUN_GENERATIONS_STEP
    }

    /// A job about to start, for settings that passed their check.
    pub fn new(config: &NestConfigDto) -> (r: Escalation)
        requires
            job_problem(1, 1, *config) is None,
        ensures
            r.wf(),
            r.base.population_size == config.population_size,
            r.base.mutation_rate == config.mutation_rate,
            r.base.rotations == config.rotations,
            r.base.mirror == config.mirror,
            r.base_generations == config.generations,
            r.total_runs == config.runs,
            r.runs_done == 0,
            r.generations_elapsed == 0,
            r.history@.len() == 0,
            !r.cancelled,
            r.rotations == config.rotations,
            r.seen@.len() == 0,
            r.runs@.len() == 0,
    {
        assert(attempts_view(Seq::<Attempt>::empty()) =~= Seq::<AttemptModel>::empty());
        Escalation {
            base: config.ga_config(),
            base_generations: config.generations,
            total_runs: config.runs,
            runs_done: 0,
            generations_elapsed: 0,
            history: Vec::new(),
            cancelled: false,
            rotations: config.rotations,
            seen: Ghost(Seq::empty()),
            runs: Ghost(Seq::empty()),
        }
    }

    /// The next run, fresh, or nothing: every run is done, the job was stopped,
    /// or a stop is asked for now.
    pub fn next_run(&mut self, stop: bool) -> (r: Option<RunProgress>)
        requires
            old(self).wf(),
        ensures
            final(self).wf(),
            ({
                let more = !old(self).cancelled && old(self).runs_done < old(self).total_runs;
                &&& *final(self) == (Escalation {
                    cancelled: old(self).cancelled || (more && stop),
                    ..*old(self)
                })
                &&& match r {
                    None => !more || stop,
                    Some(run) => {
                        &&& more && !stop
                        &&& run.wf()
                        &&& old(self).awaits(run)
                        &&& run.rotations == run.config.rotations
                        &&& run.generation == 0
                        &&& !run.in_generation
                        &&& run.stale == 0
                        &&& run.history@.len() == 0
                        &&& !run.cancelled
                        &&& run.seen@.len() == 0
                        &&& run.tried@.len() == 0
                    },
                }
            }),
    {
        if self.cancelled || self.runs_done >= self.total_runs {
            return None;
        }
        if stop {
            self.cancelled = true;
            return None;
        }
        let (config, generations) = escalated_run_config(
            &self.base,
            self.base_generations,
            self.runs_done,
            self.total_runs,
        );
        assert(attempts_view(Seq::<Attempt>::empty()) =~= Seq::<AttemptModel>::empty());
        Some(
            RunProgress {
                run: self.runs_done + 1,
                total_runs: self.total_runs,
                config,
                generations,
                rotations: config.rotations,
                generation: 0,
                in_generation: false,
                stale: 0,
                history: Vec::new(),
                cancelled: false,
                seen: Ghost(Seq::empty()),
                tried: Ghost(Seq::empty()),
            },
        )
    }

    /// Folds a finished run into the job: what beat the job's best joins the
    /// history, numbered after every generation before it, and the run's
    /// stopping stops the job.
    pub fn finish_run(&mut self, run: RunProgress) -> (report: Option<NestRunCompleteDto>)
        requires
            old(self).wf(),
            old(self).awaits(run),
            !old(self).cancelled,
            run.wf(),
            !run.in_generation,
        ensures
            final(self).wf(),
            final(self).base == old(self).base,
            final(self).base_generations == old(self).base_generations,
            final(self).total_runs == old(self).total_runs,
            final(self).runs_done == old(self).runs_done + 1,
            final(self).generations_elapsed == old(self).generations_elapsed + run.generations,
            attempts_view(final(self).history@) == keep_better(
                attempts_view(old(self).history@),
                renumbered(attempts_view(run.history@), old(self).generations_elapsed as int),
            ),
            final(self).cancelled == run.cancelled,
            final(self).rotations == if final(self).history@.len() > old(self).history@.len() {
                run.rotations
            } else {
                old(self).rotations
            },
            final(self).seen@ == old(self).seen@ + run.seen@,
            final(self).runs@ == old(self).runs@.push(
                RunTrace { budget: run.generations as nat, generations: run.tried@ },
            ),
            report == run_report(run, final(self).history@.len() > old(self).history@.len()),
            forall|i: int, j: int|
                0 <= i < old(self).history@.len() <= j < final(self).history@.len()
                    ==> (#[trigger] final(self).history@[i]).generation < (
                #[trigger] final(self).history@[j]).generation,
    {
        let improved = match run.best() {
            None => false,
            Some(best) => self.history.len() == 0 || is_better(
                score(best),
                score(&self.history[self.history.len() - 1].result),
            ),
        };
        let report = match run.best() {
            None => None,
            Some(best) => Some(
                NestRunCompleteDto {
                    run: run.run,
                    total_runs: run.total_runs,
                    rotations: run.config.rotations,
                    population_size: run.config.population_size,
                    generations: run.generations,
                    sheets_used: best.placements.len(),
                    unplaced_count: best.unplaced_count,
                    utilisation: best.utilisation,
                    improved,
                },
            ),
        };
        let offset: usize = self.generations_elapsed;
        let ghost start = attempts_view(self.history@);
        let ghost found = run.history@;
        let ghost tried = renumbered(attempts_view(found), offset as int);
        let rotations: u32 = run.rotations;
        let mut waiting = reversed(run.history);
        let mut history: Vec<Attempt> = Vec::new();
        std::mem::swap(&mut history, &mut self.history);
        let mut grid: u32 = self.rotations;
        proof {
            assert(tried.subrange(0, 0) == Seq::<AttemptModel>::empty());
        }
        while waiting.len() > 0
            invariant
                waiting@.len() <= found.len(),
                forall|k: int|
                    0 <= k < waiting@.len() ==> #[trigger] waiting@[k] == found[found.len() - 1
                        - k],
                tried == renumbered(attempts_view(found), offset as int),
                labelled_within(attempts_view(found), 1, run.generation as int),
                run.generation <= run.generations,
                offset + run.generations <= usize::MAX,
                attempts_view(history@) == keep_better(
                    start,
                    tried.subrange(0, found.len() - waiting@.len()),
                ),
                history@.len() >= start.len(),
                grid == if history@.len() > start.len() {
                    rotations
                } else {
                    old(self).rotations
                },
            decreases waiting.len(),
        {
            let ghost done = found.len() - waiting@.len();
            match waiting.pop() {
                Some(attempt) => {
                    proof {
                        assert(attempt == found[done]);
                        assert(attempts_view(found)[done] == attempt@);
                        assert(tried[done] == (AttemptModel {
                            generation: offset + attempt.generation,
                            result: attempt.result@,
                        }));
                        assert(tried.subrange(0, done + 1).drop_last() == tried.subrange(0, done));
                        assert(tried.subrange(0, done + 1).last() == tried[done]);
                    }
                    let ghost before = attempts_view(history@);
                    if offer(&mut history, offset + attempt.generation, attempt.result) {
                        grid = rotations;
                    }
                    assert(attempts_view(history@).len() == history@.len());
                    assert(before.len() <= history@.len());
                },
                None => {},
            }
        }
        proof {
            assert(tried.subrange(0, found.len() as int) == tried);
            lemma_finish_run(*old(self), run.seen@, found, run.generation as int, history@);
            self.seen@ = self.seen@ + run.seen@;
            let trace = RunTrace { budget: run.generations as nat, generations: run.tried@ };
            let more = self.runs@.push(trace);
            assert(more.drop_last() =~= self.runs@);
            assert forall|i: int| 0 <= i < more.len() implies (
            #[trigger] more[i]).generations.len() <= more[i].budget by {
                if i < self.runs@.len() {
                    assert(more[i] == self.runs@[i]);
                }
            }
            self.runs@ = more;
        }
        std::mem::swap(&mut history, &mut self.history);
        self.rotations = grid;
        self.generations_elapsed = offset + run.generations;
        self.runs_done = self.runs_done + 1;
        if run.cancelled {
            self.cancelled = true;
        }
        report
    }

    /// The outcome of a job: its best nest and the history that led there. A
    /// job that was stopped before anything was placed ends with every part
    /// left over, which is no error; one that was not stopped and still has
    /// nothing is.
    pub fn finish(self, adam: &Vec<usize>) -> (r: Result<Outcome, String>)
        requires
            self.wf(),
        ensures
            match r {
                Ok(outcome) => {
                    &&& self.history@.len() > 0 || self.cancelled
                    &&& outcome.history == self.history
                    &&& outcome.cancelled == self.cancelled
                    &&& outcome.rotations == self.rotations
                    &&& self.history@.len() > 0 ==> outcome.best@ == self.history@.last().result@
                    &&& self.history@.len() == 0 ==> places_nothing(outcome.best@, adam@)
                    &&& rising_labels(attempts_view(outcome.history@))
                        <==> one_nest_per_generation(self.runs@)
                },
                Err(message) => {
                    &&& self.history@.len() == 0 && !self.cancelled
                    &&& message@ == "ran zero generations"@
                },
            },
    {
        proof {
            law_history_labels_rise(self.runs@);
        }
        if self.history.len() > 0 {
            let best = self.history[self.history.len() - 1].result.clone();
            return Ok(
                Outcome {
                    best,
                    history: self.history,
                    cancelled: self.cancelled,
                    rotations: self.rotations,
                },
            );
        }
        if !self.cancelled {
            return Err("ran zero generations".to_owned());
        }
        let unplaced_ids = sort_ids(adam);
        let best = PlaceResult {
            placements: Vec::new(),
            fitness: Scalar::zero(),
            area: Scalar::zero(),
            total_area: Scalar::zero(),
            utilisation: Scalar::zero(),
            unplaced_count: unplaced_ids.len(),
            unplaced_ids,
        };
        Ok(
            Outcome {
                best,
                history: self.history,
                cancelled: self.cancelled,
                rotations: self.rotations,
            },
        )
    }
}

/// What folding in a run keeps of the job's invariant.
proof fn lemma_finish_run(
    job: Escalation,
    run_seen: Seq<Score>,
    found: Seq<Attempt>,
    last_generation: int,
    after: Seq<Attempt>,
)
    requires
        job.wf(),
        improving(attempts_view(found)),
        labelled_within(attempts_view(found), 1, last_generation),
        last_generation >= 0,
        all_numbers(run_seen) ==> unbeaten(run_seen, attempts_view(found)),
        found.len() > 0 ==> run_seen.contains(score_of(found.last().result@)),
        attempts_view(after) == keep_better(
            attempts_view(job.history@),
            renumbered(attempts_view(found), job.generations_elapsed as int),
        ),
    ensures
        improving(attempts_view(after)),
        labelled_within(
            attempts_view(after),
            1,
            job.generations_elapsed + last_generation,
        ),
        forall|i: int, j: int|
            0 <= i < job.history@.len() <= j < after.len() ==> (#[trigger] after[i]).generation < (
            #[trigger] after[j]).generation,
        after.len() >= job.history@.len(),
        all_numbers(job.seen@ + run_seen) ==> unbeaten(job.seen@ + run_seen, attempts_view(after)),
        after.len() > 0 ==> (job.seen@ + run_seen).contains(score_of(after.last().result@)),
        after.len() > job.history@.len() <==> (found.len() > 0 && advances(
            attempts_view(job.history@),
            attempts_view(found).last(),
        )),
{
    let start = attempts_view(job.history@);
    let offset = job.generations_elapsed as int;
    let mine = attempts_view(found);
    let tried = renumbered(mine, offset);
    let end = attempts_view(after);
    let seen = job.seen@ + run_seen;
    law_keeping_is_improving(start, tried);
    assert forall|i: int| 0 <= i < tried.len() implies offset <= (#[trigger] tried[i]).generation
        <= offset + last_generation by {
        assert(mine[i].generation >= 1);
    }
    assert forall|i: int, j: int| 0 <= i <= j < tried.len() implies (
    #[trigger] tried[i]).generation <= (#[trigger] tried[j]).generation by {
        assert(mine[i].generation <= mine[j].generation);
    }
    if start.len() == 0 {
        assert(labelled_within(start, 1, 1));
        assert forall|i: int| 0 <= i < tried.len() implies 1 <= (#[trigger] tried[i]).generation by {
            assert(mine[i].generation >= 1);
        }
        if tried.len() > 0 {
            assert(mine[0].generation >= 1);
            lemma_kept_labels(start, tried, 1, 1, offset + last_generation);
        }
    } else {
        assert(start[0].generation >= 1);
        lemma_kept_labels(start, tried, 1, offset, offset + last_generation);
    }
    assert forall|i: int, j: int| 0 <= i < start.len() <= j < after.len() implies (
    #[trigger] after[i]).generation < (#[trigger] after[j]).generation by {
        assert(end[i] == start[i]);
        assert(end[j].generation == after[j].generation);
        let k = choose|k: int| 0 <= k < tried.len() && (#[trigger] tried[k]) == end[j];
        assert(mine[k].generation >= 1);
        assert(start[i].generation <= offset);
        assert(end[i] == after[i]@);
    }
    if found.len() > 0 {
        let best = mine.last();
        assert(tried.last().result == best.result);
        assert(mine[mine.len() - 1] == found.last()@);
        if after.len() > start.len() && start.len() > 0 {
            let j = end.len() - 1;
            let k = choose|k: int| 0 <= k < tried.len() && (#[trigger] tried[k]) == end[j];
            assert(tried[k].result == mine[k].result);
            if k < mine.len() - 1 {
                assert(score_of(mine[mine.len() - 1].result).beats(score_of(mine[k].result)));
            }
        }
        if after.len() == start.len() {
            assert(end == start);
            assert(!score_of(tried[tried.len() - 1].result).beats(score_of(end.last().result)));
        }
    }
    if all_numbers(seen) {
        assert forall|i: int| 0 <= i < job.seen@.len() implies !(
        #[trigger] job.seen@[i]).utilisation.nan() by {
            assert(seen[i] == job.seen@[i]);
        }
        assert forall|i: int| 0 <= i < run_seen.len() implies !(
        #[trigger] run_seen[i]).utilisation.nan() by {
            assert(seen[job.seen@.len() + i] == run_seen[i]);
        }
        assert forall|i: int| 0 <= i < seen.len() implies !(#[trigger] seen[i]).beats(
            score_of(end.last().result),
        ) by {
            if i < job.seen@.len() {
                assert(seen[i] == job.seen@[i]);
                assert(!job.seen@[i].beats(score_of(start.last().result)));
            } else {
                let s = run_seen[i - job.seen@.len()];
                assert(seen[i] == s);
                let best = score_of(mine.last().result);
                assert(!s.beats(best));
                assert(tried[tried.len() - 1].result == mine.last().result);
                assert(!best.beats(score_of(end.last().result)));
                assert(run_seen.contains(best));
                if s.beats(score_of(end.last().result)) {
                    law_beats_compares_every_number(s, best, score_of(end.last().result));
                }
            }
        }
    }
    if after.len() > 0 {
        assert(end.last().result == after.last().result@);
        if after.len() > start.len() {
            let j = end.len() - 1;
            let k = choose|k: int| 0 <= k < tried.len() && (#[trigger] tried[k]) == end[j];
            assert(tried[k].result == mine[k].result);
            if k < mine.len() - 1 {
                assert(score_of(mine[mine.len() - 1].result).beats(score_of(mine[k].result)));
                assert(!score_of(tried[tried.len() - 1].result).beats(score_of(end.last().result)));
            }
            assert(k == mine.len() - 1);
            assert(end.last().result == found.last().result@);
            let i = choose|i: int|
                0 <= i < run_seen.len() && run_seen[i] == score_of(found.last().result@);
            assert(seen[job.seen@.len() + i] == run_seen[i]);
        } else {
            assert(end == start);
            let i = choose|i: int|
                0 <= i < job.seen@.len() && job.seen@[i] == score_of(start.last().result);
            assert(seen[i] == job.seen@[i]);
        }
    }
}

// --- what a search promises -----------------------------------------------

/// Whether a nest is better than another: fewer parts left over; of as many,
/// fewer sheets; of as many, a fuller one.
pub open spec fn outdoes(a: PlaceResult, b: PlaceResult) -> bool {
    ||| a.unplaced_count < b.unplaced_count
    ||| a.unplaced_count == b.unplaced_count && a.placements@.len() < b.placements@.len()
    ||| a.unplaced_count == b.unplaced_count && a.placements@.len() == b.placements@.len()
        && b.utilisation.below(a.utilisation)
}

proof fn lemma_outdoes(a: PlaceResult, b: PlaceResult)
    ensures
        outdoes(a, b) <==> score_of(a@).beats(score_of(b@)),
{
    crate::placement::law_a_model_holds_every_field(a);
    crate::placement::law_a_model_holds_every_field(b);
    assert(a.placements@.len() == a.placements.len());
    assert(b.placements@.len() == b.placements.len());
}

proof fn lemma_kept_is_tried(history: Seq<AttemptModel>, tried: Seq<AttemptModel>, j: int)
    requires
        history.len() <= j < keep_better(history, tried).len(),
    ensures
        tried.contains(keep_better(history, tried)[j]),
    decreases tried.len(),
{
    if tried.len() > 0 {
        let rest = tried.drop_last();
        let before = keep_better(history, rest);
        if j < before.len() {
            lemma_kept_is_tried(history, rest, j);
            let k = choose|k: int| 0 <= k < rest.len() && rest[k] == before[j];
            assert(tried[k] == before[j]);
        } else {
            assert(tried[tried.len() - 1] == tried.last());
        }
    }
}

/// Each run of a job is one step harder than the one before it: one more
/// rotation, four more individuals and five more generations, and all else as
/// it was. The first is the job's own settings. Flipping is tried from the second
/// run on, or in the only one, and only where the job allows it.
pub proof fn law_each_run_is_a_step_harder(
    base: &GaConfig,
    generations: usize,
    i: usize,
    next: usize,
    total: usize,
    a: (GaConfig, usize),
    b: (GaConfig, usize),
)
    requires
        next == i + 1,
        call_ensures(escalated_run_config, (base, generations, i, total), a),
        call_ensures(escalated_run_config, (base, generations, next, total), b),
    ensures
        b.0.rotations == a.0.rotations + 1,
        b.0.population_size == a.0.population_size + 4,
        b.1 == a.1 + 5,
        b.0.mutation_rate == a.0.mutation_rate,
        b.0.mirror == base.mirror,
        i == 0 ==> a.0.rotations == base.rotations && a.0.population_size == base.population_size
            && a.1 == generations && a.0.mutation_rate == base.mutation_rate,
        i == 0 && total == 1 ==> a.0.mirror == base.mirror,
        i == 0 && total != 1 ==> !a.0.mirror,
{
}

/// A recorded generation never makes a run worse. None of its nests is better
/// than the run's best after it, nor is the best before it; what the run held is
/// still held, as it was; and what is new comes from this generation, bears its
/// number, and is better than what stands before it.
pub proof fn law_a_generation_only_improves(
    run: &mut RunProgress,
    results: Vec<PlaceResult>,
    stop: bool,
    widened: Option<u32>,
    i: int,
    j: int,
)
    requires
        old(run).wf(),
        old(run).in_generation,
        call_ensures(RunProgress::record, (run, results, stop), widened),
    ensures
        old(run).history@.len() <= final(run).history@.len(),
        0 <= i < results@.len() ==> final(run).history@.len() > 0 && !outdoes(
            results@[i],
            final(run).history@.last().result,
        ),
        old(run).history@.len() > 0 ==> !outdoes(
            old(run).history@.last().result,
            final(run).history@.last().result,
        ),
        0 <= i < results@.len() && old(run).history@.len() > 0 && outdoes(
            results@[i],
            old(run).history@.last().result,
        ) ==> final(run).history@.len() > old(run).history@.len(),
        0 <= j < old(run).history@.len() ==> {
            &&& final(run).history@[j].generation == old(run).history@[j].generation
            &&& final(run).history@[j].result@ == old(run).history@[j].result@
        },
        old(run).history@.len() <= j < final(run).history@.len() ==> {
            &&& final(run).history@[j].generation == old(run).generation
            &&& exists|k: int|
                0 <= k < results@.len() && (#[trigger] results@[k])@
                    == final(run).history@[j].result@
            &&& j > 0 ==> outdoes(final(run).history@[j].result, final(run).history@[j - 1].result)
        },
        !final(run).in_generation,
        final(run).generation == old(run).generation,
        final(run).cancelled == stop,
{
    let before = old(run).history@;
    let after = final(run).history@;
    let b = attempts_view(before);
    let a = attempts_view(after);
    let tried = candidates(old(run).generation as int, results@);
    law_keeping_is_improving(b, tried);
    assert(a == keep_better(b, tried));
    assert(b.len() == before.len() && a.len() == after.len() && tried.len() == results@.len());
    if 0 <= i < results@.len() {
        assert(tried[i].result == results@[i]@);
        assert(a.last().result == after.last().result@);
        lemma_outdoes(results@[i], after.last().result);
        if before.len() > 0 {
            lemma_outdoes(results@[i], before.last().result);
            assert(b.last().result == before.last().result@);
            if a.len() == b.len() {
                assert(a =~= b);
            }
        }
    }
    if before.len() > 0 {
        lemma_outdoes(before.last().result, after.last().result);
        assert(b.last().result == before.last().result@);
        assert(a.last().result == after.last().result@);
    }
    if 0 <= j < before.len() {
        assert(b[j] == a[j]);
        assert(b[j] == before[j]@ && a[j] == after[j]@);
    }
    if before.len() <= j < after.len() {
        assert(a[j] == after[j]@);
        lemma_kept_is_tried(b, tried, j);
        let k = choose|k: int| 0 <= k < tried.len() && tried[k] == a[j];
        assert(tried[k].result == results@[k]@);
        if j > 0 {
            assert(a[j - 1] == after[j - 1]@);
            lemma_outdoes(after[j].result, after[j - 1].result);
        }
    }
}

/// A run widens its rotations only where sixty generations went by without a
/// better nest, and never beyond thirty-two: it doubles them, or takes the most
/// there may be. A better nest or a widening starts the count anew.
pub proof fn law_a_stalled_run_widens(
    run: &mut RunProgress,
    results: Vec<PlaceResult>,
    stop: bool,
    widened: Option<u32>,
)
    requires
        call_ensures(RunProgress::record, (run, results, stop), widened),
    ensures
        ({
            let better = final(run).history@.len() > old(run).history@.len();
            let stalled = !better && old(run).stale >= 59;
            &&& widened is Some <==> !stop && stalled && old(run).rotations < 32
            &&& widened matches Some(rotations) ==> {
                &&& final(run).rotations == rotations
                &&& rotations == 32 || rotations == 2 * old(run).rotations
                &&& rotations <= 32
                &&& 2 * old(run).rotations <= 32 ==> rotations == 2 * old(run).rotations
            }
            &&& widened is None ==> final(run).rotations == old(run).rotations
            &&& !stop && (better || widened is Some) ==> final(run).stale == 0
            &&& !stop && !better && widened is None ==> final(run).stale == old(run).stale + 1
            &&& stop ==> final(run).stale == old(run).stale
        }),
{
}

/// A run goes through its generations one by one, and no further than it may:
/// the next is the one after the last, and there is none once the run is out of
/// them or was stopped.
pub proof fn law_generations_come_one_by_one(
    run: &mut RunProgress,
    stop: bool,
    r: Option<usize>,
)
    requires
        call_ensures(RunProgress::next_generation, (run, stop), r),
    ensures
        r is Some <==> !stop && !old(run).cancelled && old(run).generation < old(run).generations,
        r matches Some(generation) ==> generation == old(run).generation + 1 && final(
            run).generation == generation && final(run).in_generation && !final(run).cancelled,
        r is None ==> final(run).generation == old(run).generation && !final(run).in_generation,
        old(run).cancelled ==> final(run).cancelled,
        final(run).history == old(run).history,
        final(run).rotations == old(run).rotations,
{
}

/// A job runs as often as it was asked to, one run after the other, until it is
/// stopped: the next run is the one after those done, starts with nothing found,
/// and is as many steps harder than the job's own settings as runs are done.
pub proof fn law_runs_come_one_by_one(
    job: &mut Escalation,
    stop: bool,
    r: Option<RunProgress>,
)
    requires
        call_ensures(Escalation::next_run, (job, stop), r),
    ensures
        r is Some <==> !stop && !old(job).cancelled && old(job).runs_done < old(job).total_runs,
        r matches Some(run) ==> {
            &&& run.run == old(job).runs_done + 1
            &&& run.total_runs == old(job).total_runs
            &&& run.config.rotations == old(job).base.rotations + old(job).runs_done
            &&& run.config.population_size == old(job).base.population_size + 4 * old(
                job).runs_done
            &&& run.generations == old(job).base_generations + 5 * old(job).runs_done
            &&& run.config.mutation_rate == old(job).base.mutation_rate
            &&& run.config.mirror <==> old(job).base.mirror && (old(job).runs_done > 0 || old(
                job).total_runs == 1)
            &&& run.rotations == run.config.rotations
            &&& run.generation == 0
            &&& run.history@.len() == 0
            &&& !run.cancelled
        },
        final(job).history == old(job).history,
        final(job).runs_done == old(job).runs_done,
        old(job).cancelled ==> final(job).cancelled,
{
}

/// A finished run never makes a job worse. Nothing the run found is better than
/// the job's best after it, nor is the job's best before it; what the job held
/// is still held; and what is new comes from the run, numbered on from the
/// generations of the runs before.
pub proof fn law_a_run_only_improves_a_job(
    job: &mut Escalation,
    run: RunProgress,
    report: Option<NestRunCompleteDto>,
    i: int,
    j: int,
)
    requires
        old(job).wf(),
        call_ensures(Escalation::finish_run, (job, run), report),
    ensures
        old(job).history@.len() <= final(job).history@.len(),
        0 <= i < run.history@.len() ==> final(job).history@.len() > 0 && !outdoes(
            run.history@[i].result,
            final(job).history@.last().result,
        ),
        old(job).history@.len() > 0 ==> !outdoes(
            old(job).history@.last().result,
            final(job).history@.last().result,
        ),
        0 <= j < old(job).history@.len() ==> {
            &&& final(job).history@[j].generation == old(job).history@[j].generation
            &&& final(job).history@[j].result@ == old(job).history@[j].result@
        },
        old(job).history@.len() <= j < final(job).history@.len() ==> exists|k: int|
            {
                &&& 0 <= k < run.history@.len()
                &&& (#[trigger] run.history@[k]).result@ == final(job).history@[j].result@
                &&& final(job).history@[j].generation == old(job).generations_elapsed
                    + run.history@[k].generation
            },
        final(job).generations_elapsed == old(job).generations_elapsed + run.generations,
        final(job).runs_done == old(job).runs_done + 1,
        final(job).cancelled == run.cancelled,
        final(job).history@.len() > old(job).history@.len() ==> final(job).rotations
            == run.rotations,
        final(job).history@.len() == old(job).history@.len() ==> final(job).rotations == old(
            job).rotations,
{
    let before = old(job).history@;
    let after = final(job).history@;
    let b = attempts_view(before);
    let a = attempts_view(after);
    let tried = renumbered(attempts_view(run.history@), old(job).generations_elapsed as int);
    law_keeping_is_improving(b, tried);
    assert(a == keep_better(b, tried));
    assert(b.len() == before.len() && a.len() == after.len());
    assert(tried.len() == run.history@.len());
    if 0 <= i < run.history@.len() {
        assert(attempts_view(run.history@)[i] == run.history@[i]@);
        assert(tried[i].result == run.history@[i].result@);
        assert(a.last().result == after.last().result@);
        lemma_outdoes(run.history@[i].result, after.last().result);
    }
    if before.len() > 0 {
        lemma_outdoes(before.last().result, after.last().result);
        assert(b.last().result == before.last().result@);
        assert(a.last().result == after.last().result@);
    }
    if 0 <= j < before.len() {
        assert(b[j] == a[j]);
        assert(b[j] == before[j]@ && a[j] == after[j]@);
    }
    if before.len() <= j < after.len() {
        assert(a[j] == after[j]@);
        lemma_kept_is_tried(b, tried, j);
        let k = choose|k: int| 0 <= k < tried.len() && tried[k] == a[j];
        assert(attempts_view(run.history@)[k] == run.history@[k]@);
        assert(run.history@[k].result@ == after[j].result@);
    }
}

/// A run that found something is reported by its own best nest, its own settings
/// and its own number, as better exactly where the job has got better by it; one
/// that found nothing is not reported.
pub proof fn law_a_run_is_reported_by_its_best(
    job: &mut Escalation,
    run: RunProgress,
    report: Option<NestRunCompleteDto>,
)
    requires
        call_ensures(Escalation::finish_run, (job, run), report),
    ensures
        report is Some <==> run.history@.len() > 0,
        report matches Some(told) ==> {
            let best = run.history@.last().result;
            &&& told.run == run.run
            &&& told.total_runs == run.total_runs
            &&& told.rotations == run.config.rotations
            &&& told.population_size == run.config.population_size
            &&& told.generations == run.generations
            &&& told.sheets_used == best.placements@.len()
            &&& told.unplaced_count == best.unplaced_count
            &&& told.utilisation == best.utilisation
            &&& told.improved <==> final(job).history@.len() > old(job).history@.len()
        },
{
    if run.history@.len() > 0 {
        let best = run.history@.last().result;
        crate::placement::law_a_model_holds_every_field(best);
        assert(best.placements@.len() == best.placements.len());
    }
}

/// A job that found something ends with the best it found, and one that was
/// stopped before it found anything ends with nothing placed and every part left
/// over. Only one that was not stopped and found nothing fails.
pub proof fn law_a_job_ends_with_its_best(
    job: Escalation,
    parts: &Vec<usize>,
    r: Result<Outcome, String>,
)
    requires
        call_ensures(Escalation::finish, (job, parts), r),
    ensures
        r is Ok <==> job.history@.len() > 0 || job.cancelled,
        r matches Ok(outcome) ==> {
            &&& outcome.history == job.history
            &&& outcome.cancelled == job.cancelled
            &&& outcome.rotations == job.rotations
            &&& job.history@.len() > 0 ==> outcome.best@ == job.history@.last().result@
            &&& job.history@.len() == 0 ==> {
                &&& outcome.best.placements@.len() == 0
                &&& outcome.best.unplaced_count == parts@.len()
                &&& outcome.best.unplaced_ids@.to_multiset() == parts@.to_multiset()
                &&& outcome.best.utilisation.bits == 0
                &&& outcome.best.fitness.bits == 0
            }
        },
{
    if let Ok(outcome) = r {
        crate::placement::law_a_model_holds_every_field(outcome.best);
    }
}

/// A search is set up with the settings of its job.
pub proof fn law_a_search_takes_the_settings(config: &NestConfigDto, r: Escalation, ga: GaConfig)
    requires
        call_ensures(Escalation::new, (config,), r),
        call_ensures(NestConfigDto::ga_config, (config,), ga),
    ensures
        r.base == ga,
        ga.population_size == config.population_size,
        ga.mutation_rate == config.mutation_rate,
        ga.rotations == config.rotations,
        ga.mirror == config.mirror,
        r.base_generations == config.generations,
        r.total_runs == config.runs,
        r.runs_done == 0,
        r.history@.len() == 0,
        !r.cancelled,
{
}

/// What an attempt holds, its model holds.
pub proof fn law_a_model_is_its_attempt(attempts: Seq<Attempt>, i: int)
    ensures
        attempts_view(attempts).len() == attempts.len(),
        0 <= i < attempts.len() ==> attempts_view(attempts)[i].generation
            == attempts[i].generation && attempts_view(attempts)[i].result == attempts[i].result@,
{
}

/// A run is announced by its own number and settings, and its best is the last
/// nest that it kept.
pub proof fn law_a_run_is_announced_as_it_is(
    run: &RunProgress,
    start: NestRunStartDto,
    best: Option<&PlaceResult>,
)
    requires
        call_ensures(RunProgress::start, (run,), start),
        call_ensures(RunProgress::best, (run,), best),
    ensures
        start.run == run.run,
        start.total_runs == run.total_runs,
        start.rotations == run.config.rotations,
        start.population_size == run.config.population_size,
        start.generations == run.generations,
        best is Some <==> run.history@.len() > 0,
        best is Some ==> *best->Some_0 == run.history@.last().result,
{
}

} // verus!
