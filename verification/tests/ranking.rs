//! Which result is the better one, and what is kept of a job's runs.

use rustynesting::config::{NestConfigDto, PlacementTypeDto};
use rustynesting::escalation::{escalated_run_config, Escalation, GaConfig, Outcome};
use rustynesting::placement::{PlaceResult, PlacedPartDto, SheetPlacementDto};
use rustynesting::ranking::{is_better, is_better_result, replaces_saved, score};
use rustynesting::result::{nest_response, RunNestResponse};
use rustynesting::scalar::Scalar;
use rustynesting::tidy::{TidyStep, Tidying, Totals};
use std::collections::HashMap;

fn s(value: f64) -> Scalar {
    Scalar { bits: value.to_bits() }
}

fn config(generations: usize) -> NestConfigDto {
    NestConfigDto {
        placement_type: PlacementTypeDto::Gravity,
        rotations: 1,
        population_size: 6,
        mutation_rate: s(15.0),
        dominant_part_area_threshold: s(0.9),
        curve_tolerance: s(0.3),
        generations,
        margin: s(0.0),
        spacing: s(0.0),
        kerf: s(0.0),
        max_threads: 0,
        seed: 0,
        runs: 1,
        cleanup_threshold_percent: None,
        mirror: false,
    }
}

/// A nest of so many sheets, each with one part, that leaves some parts over.
fn nest(sheets: usize, unplaced: usize, utilisation: f64) -> PlaceResult {
    PlaceResult {
        placements: (0..sheets)
            .map(|i| SheetPlacementDto {
                sheet_index: i,
                parts: vec![PlacedPartDto { id: i, x: s(0.0), y: s(0.0), rotation: s(0.0), locked: false }],
            })
            .collect(),
        fitness: s(100.0 - utilisation),
        area: s(1.0),
        total_area: s(2.0),
        utilisation: s(utilisation),
        unplaced_count: unplaced,
        unplaced_ids: (0..unplaced).map(|i| 100 + i).collect(),
    }
}

/// The figures of sheets so full.
fn totals(utilisation: f64) -> Totals {
    Totals { total_placed_area: s(5.0), total_usable_sheet_area: s(6.0), utilisation: s(utilisation) }
}

/// Tidies a job's outcome up: its last sheet is emptied where there are two or
/// more, every sheet counts as half full, and one packed anew is told by a part
/// of id 77.
fn tidied(outcome: Outcome, threshold: Option<Scalar>) -> (RunNestResponse, Vec<TidyStep>) {
    let mut tidy = Tidying::new(outcome, threshold);
    let mut steps = Vec::new();
    loop {
        steps.push(tidy.step);
        match tidy.step {
            TidyStep::Consolidate => {
                let mut placements = tidy.outcome.best.placements.clone();
                let changed = placements.len() > 1;
                if changed {
                    placements.pop();
                }
                tidy.consolidated(placements, changed, totals(95.0));
            }
            TidyStep::Weigh(_) => tidy.weighed(false, s(50.0)),
            TidyStep::Repack(index) => {
                let packed = PlacedPartDto { id: 77, x: s(0.0), y: s(0.0), rotation: s(0.0), locked: false };
                let sheet_index = tidy.outcome.best.placements[index].sheet_index;
                tidy.repacked(Some(SheetPlacementDto { sheet_index, parts: vec![packed] }));
            }
            TidyStep::Total => tidy.totalled(totals(97.0)),
            TidyStep::Done => return (tidy.finish(HashMap::new(), HashMap::new()), steps),
        }
    }
}

/// The fields of an answer must be the last entry of its history.
fn ends_with_the_answer(response: &RunNestResponse) {
    let last = response.history.last().expect("a nest was found");
    assert_eq!(last.fitness, response.fitness, "history's last entry should be the same result reported at the top level");
    assert_eq!(last.utilisation, response.utilisation);
    assert_eq!(last.unplaced_count, response.unplaced_count);
    assert_eq!(last.unplaced_ids, response.unplaced_ids);
    assert_eq!(last.placements.len(), response.placements.len());
    for (a, b) in last.placements.iter().zip(&response.placements) {
        assert_eq!((a.sheet_index, &a.parts), (b.sheet_index, &b.parts));
    }
}

#[test]
fn is_better_result_prefers_fewer_unplaced_parts_above_all_else() {
    assert!(is_better_result(0, 10, s(50.0), 1, 3, s(99.0)));
    assert!(!is_better_result(1, 3, s(99.0), 0, 10, s(50.0)));
}

#[test]
fn is_better_result_then_prefers_fewer_sheets() {
    assert!(is_better_result(0, 3, s(50.0), 0, 5, s(99.0)));
    assert!(!is_better_result(0, 5, s(99.0), 0, 3, s(50.0)));
}

#[test]
fn is_better_result_finally_prefers_higher_utilisation() {
    assert!(is_better_result(0, 3, s(91.0), 0, 3, s(90.0)));
    assert!(!is_better_result(0, 3, s(90.0), 0, 3, s(90.0)));
}

#[test]
fn a_utilisation_that_is_not_a_number_beats_nothing() {
    assert!(!is_better_result(0, 3, s(f64::NAN), 0, 3, s(90.0)));
    assert!(!is_better_result(0, 3, s(90.0), 0, 3, s(f64::NAN)));
    assert!(is_better_result(0, 3, s(0.5), 0, 3, s(-0.0)));
    assert!(!is_better_result(0, 3, s(0.0), 0, 3, s(-0.0)));
}

#[test]
fn only_a_better_result_replaces_the_saved_one() {
    let good = score(&nest(2, 0, 80.0));
    let worse = score(&nest(3, 0, 95.0));
    assert!(replaces_saved(worse, None));
    assert!(replaces_saved(good, Some(worse)));
    assert!(!replaces_saved(worse, Some(good)));
    assert!(!replaces_saved(good, Some(good)));
    assert!(is_better(good, worse));
}

#[test]
fn mirror_leaves_the_first_run_of_several_un_mirrored() {
    let base = GaConfig { population_size: 6, mutation_rate: s(10.0), rotations: 2, mirror: true };
    let mirrors: Vec<bool> = (0..3).map(|i| escalated_run_config(&base, 5, i, 3).0.mirror).collect();
    assert_eq!(mirrors, vec![false, true, true]);
    assert!(escalated_run_config(&base, 5, 0, 1).0.mirror, "a single-run job must still honour the setting");

    let off = GaConfig { population_size: 6, mutation_rate: s(10.0), rotations: 2, mirror: false };
    assert!((0..3).all(|i| !escalated_run_config(&off, 5, i, 3).0.mirror));
}

#[test]
fn run_nest_with_progress_calls_the_hook_once_per_generation() {
    let mut job = Escalation::new(&config(4));
    let mut run = job.next_run(false).expect("one run");
    let mut seen_generations = Vec::new();
    while let Some(generation) = run.next_generation(false) {
        run.record(vec![nest(1, 0, 50.0)], false);
        assert_eq!(run.generations, 4);
        assert!(run.best().is_some());
        seen_generations.push(generation);
    }
    assert_eq!(seen_generations, vec![1, 2, 3, 4]);
    job.finish_run(run);
    assert!(job.next_run(false).is_none());
    let outcome = job.finish(&vec![0]).expect("a nest was found");
    assert_eq!(outcome.best.unplaced_count, 0);
    assert!(!outcome.cancelled);
}

#[test]
fn run_nest_with_progress_escalates_rotations_population_and_generations_across_runs() {
    let mut cfg = config(8);
    cfg.runs = 3;
    cfg.rotations = 2;
    cfg.population_size = 2;
    cfg.mutation_rate = s(90.0);

    let mut job = Escalation::new(&cfg);
    let mut starts = Vec::new();
    let mut completes = Vec::new();
    let mut utilisation = 10.0;
    while let Some(mut run) = job.next_run(false) {
        starts.push(run.start());
        while let Some(generation) = run.next_generation(false) {
            // Every third generation finds something better.
            if generation % 3 == 1 {
                utilisation += 1.0;
            }
            run.record(vec![nest(2, 0, utilisation)], false);
        }
        if let Some(complete) = job.finish_run(run) {
            completes.push(complete);
        }
    }

    assert_eq!(starts.len(), 3);
    assert_eq!(completes.len(), 3);
    for (i, start) in starts.iter().enumerate() {
        assert_eq!(start.run, i + 1);
        assert_eq!(start.total_runs, 3);
        assert_eq!(start.rotations, 2 + i as u32);
        assert_eq!(start.population_size, 2 + i * 4);
        assert_eq!(start.generations, 8 + i * 5);
    }
    for (i, complete) in completes.iter().enumerate() {
        assert_eq!(complete.run, i + 1);
        assert_eq!(complete.rotations, 2 + i as u32);
        assert!(complete.improved);
    }

    let outcome = job.finish(&vec![0, 1]).expect("a nest was found");
    assert_eq!(outcome.best.unplaced_count, 0);
    assert!(!outcome.history.is_empty());
    let generations_seen: Vec<usize> = outcome.history.iter().map(|h| h.generation).collect();
    for pair in generations_seen.windows(2) {
        assert!(pair[0] < pair[1], "labels must be strictly increasing across the whole escalation, got {:?}", generations_seen);
    }
    // The second run's generations follow the eight of the first.
    assert_eq!(generations_seen, vec![1, 4, 7, 9, 12, 15, 18, 21, 22, 25, 28, 31, 34, 37]);
}

#[test]
fn history_never_contains_an_entry_worse_than_an_earlier_run_already_achieved() {
    let mut cfg = config(10);
    cfg.runs = 2;
    cfg.rotations = 2;
    cfg.population_size = 10;
    cfg.mutation_rate = s(50.0);

    let mut job = Escalation::new(&cfg);
    let mut first = job.next_run(false).expect("a first run");
    assert_eq!(first.next_generation(false), Some(1));
    first.record(vec![nest(3, 0, 60.0), nest(2, 0, 70.0)], false);
    while first.next_generation(false).is_some() {
        first.record(Vec::new(), false);
    }
    assert!(job.finish_run(first).expect("the first run found something").improved);

    // The second run starts over, and never gets as far as the first.
    let mut second = job.next_run(false).expect("a second run");
    assert_eq!(second.next_generation(false), Some(1));
    second.record(vec![nest(4, 1, 90.0), nest(3, 0, 99.0)], false);
    while second.next_generation(false).is_some() {
        second.record(Vec::new(), false);
    }
    assert!(!job.finish_run(second).expect("the second run found something").improved);

    let outcome = job.finish(&vec![0, 1, 2]).expect("a nest was found");
    assert!(!outcome.history.is_empty());
    let (response, _) = tidied(outcome, None);
    ends_with_the_answer(&response);
    assert_eq!(response.history.len(), 2);
    for pair in response.history.windows(2) {
        let (earlier, later) = (&pair[0], &pair[1]);
        assert!(
            later.unplaced_count < earlier.unplaced_count
                || (later.unplaced_count == earlier.unplaced_count && later.placements.len() < earlier.placements.len())
                || (later.unplaced_count == earlier.unplaced_count
                    && later.placements.len() == earlier.placements.len()
                    && f64::from_bits(later.utilisation.bits) > f64::from_bits(earlier.utilisation.bits))
        );
    }
}

#[test]
fn run_nest_history_ends_with_the_same_result_as_the_top_level_fields() {
    let mut job = Escalation::new(&config(5));
    let mut run = job.next_run(false).expect("one run");
    let mut utilisation = 10.0;
    while run.next_generation(false).is_some() {
        utilisation += 5.0;
        run.record(vec![nest(2, 0, utilisation), nest(1, 0, utilisation)], false);
    }
    job.finish_run(run);
    let outcome = job.finish(&vec![0, 1, 2]).expect("a nest was found");
    let untidied = outcome.best.utilisation;
    let (response, _) = tidied(outcome, Some(s(60.0)));

    assert!(!response.history.is_empty(), "at least the first placed individual should count as an improvement");
    ends_with_the_answer(&response);
    assert_ne!(response.utilisation, untidied, "the nest was tidied up after it was recorded");
    assert_eq!(response.placements[0].parts[0].id, 77);
    assert_ne!(response.history[0].placements[0].parts[0].id, 77, "earlier attempts stay as they were found");
    for pair in response.history.windows(2) {
        assert!(pair[0].generation <= pair[1].generation);
    }
}

#[test]
fn run_nest_with_progress_stops_early_when_cancelled() {
    let mut job = Escalation::new(&config(20));
    let mut run = job.next_run(false).expect("one run");
    assert_eq!(run.next_generation(false), Some(1));
    run.record(vec![nest(1, 0, 40.0)], true);
    assert_eq!(run.next_generation(false), None);
    job.finish_run(run);
    assert!(job.next_run(false).is_none());
    let outcome = job.finish(&vec![0]).expect("should still return the best result found so far");
    assert!(outcome.cancelled);
    assert_eq!(outcome.best.placements.len(), 1);
}

#[test]
fn run_nest_with_progress_reports_a_graceful_cancelled_result_when_stopped_before_any_placement() {
    let mut job = Escalation::new(&config(20));
    assert!(job.next_run(true).is_none());
    let outcome = job.finish(&vec![2, 0, 1]).expect("an immediate cancel must still succeed gracefully");
    let response = nest_response(outcome.best, &outcome.history, outcome.cancelled, HashMap::new(), HashMap::new());
    assert!(response.cancelled);
    assert_eq!(response.placements.len(), 0);
    assert_eq!(response.unplaced_count, 3);
    assert_eq!(response.unplaced_ids, vec![0, 1, 2]);
    assert!(response.history.is_empty());
}

#[test]
fn a_job_without_a_single_nest_is_an_error() {
    let mut job = Escalation::new(&config(1));
    let mut run = job.next_run(false).expect("one run");
    assert_eq!(run.next_generation(false), Some(1));
    run.record(Vec::new(), false);
    assert!(job.finish_run(run).is_none(), "a run without a result has nothing to report");
    match job.finish(&vec![0]) {
        Ok(_) => panic!("nothing was found"),
        Err(message) => assert_eq!(message, "ran zero generations"),
    }
}

#[test]
fn a_stalled_run_widens_its_rotation_grid() {
    let mut cfg = config(70);
    cfg.rotations = 4;
    let mut job = Escalation::new(&cfg);
    let mut run = job.next_run(false).expect("one run");
    let mut widened = Vec::new();
    let mut generation = 0;
    while run.next_generation(false).is_some() {
        generation += 1;
        if let Some(rotations) = run.record(vec![nest(1, 0, 40.0)], false) {
            widened.push((generation, rotations));
        }
    }
    // The first generation improves on nothing at all; sixty do not after it.
    assert_eq!(widened, vec![(61, 8)]);
}

#[test]
fn nests_of_one_generation_share_a_label_above_those_before() {
    let mut job = Escalation::new(&config(3));
    let mut run = job.next_run(false).expect("one run");
    let mut utilisation = 10.0;
    while run.next_generation(false).is_some() {
        let found = (0..3)
            .map(|_| {
                utilisation += 1.0;
                nest(1, 0, utilisation)
            })
            .collect();
        run.record(found, false);
    }
    let labels: Vec<usize> = run.history.iter().map(|attempt| attempt.generation).collect();
    assert_eq!(labels, vec![1, 1, 1, 2, 2, 2, 3, 3, 3]);
}

/// How a job ends whose only run found one nest.
fn ended(best: PlaceResult) -> Outcome {
    let mut job = Escalation::new(&config(1));
    let mut run = job.next_run(false).expect("one run");
    assert_eq!(run.next_generation(false), Some(1));
    run.record(vec![best], false);
    job.finish_run(run);
    job.finish(&vec![0, 1, 2]).expect("a nest was found")
}

#[test]
fn tidying_up_moves_then_packs_each_sheet_that_is_not_full_enough() {
    let (response, steps) = tidied(ended(nest(3, 1, 40.0)), Some(s(60.0)));
    assert_eq!(
        steps,
        vec![
            TidyStep::Consolidate,
            TidyStep::Weigh(0),
            TidyStep::Repack(0),
            TidyStep::Weigh(1),
            TidyStep::Repack(1),
            TidyStep::Total,
            TidyStep::Done,
        ]
    );
    assert_eq!(response.utilisation, s(97.0));
    assert_eq!((response.fitness, response.unplaced_count, response.unplaced_ids.clone()), (s(60.0), 1, vec![100]));
    assert_eq!(response.placements.iter().map(|p| (p.sheet_index, p.parts[0].id)).collect::<Vec<_>>(), vec![(0, 77), (1, 77)]);

    // A sheet at the threshold is full enough.
    let (response, steps) = tidied(ended(nest(2, 0, 40.0)), Some(s(50.0)));
    assert_eq!(steps, vec![TidyStep::Consolidate, TidyStep::Weigh(0), TidyStep::Total, TidyStep::Done]);
    assert_eq!((response.utilisation, response.placements[0].parts[0].id), (s(97.0), 0));
}

#[test]
fn without_a_threshold_only_what_moved_is_measured_anew() {
    let (response, steps) = tidied(ended(nest(2, 0, 40.0)), None);
    assert_eq!(steps, vec![TidyStep::Consolidate, TidyStep::Done]);
    assert_eq!((response.utilisation, response.placements.len()), (s(95.0), 1));
    let (response, _) = tidied(ended(nest(1, 0, 40.0)), None);
    assert_eq!((response.utilisation, response.placements.len()), (s(40.0), 1));
}

#[test]
fn a_stop_ends_the_packing_but_not_the_measuring() {
    let mut tidy = Tidying::new(ended(nest(2, 0, 40.0)), Some(s(60.0)));
    let sheets = tidy.outcome.best.placements.clone();
    tidy.consolidated(sheets, false, totals(95.0));
    assert_eq!(tidy.step, TidyStep::Weigh(0));
    tidy.weighed(false, s(10.0));
    assert_eq!(tidy.step, TidyStep::Repack(0));
    tidy.repacked(None);
    assert_eq!((tidy.step, tidy.outcome.best.placements[0].parts[0].id), (TidyStep::Weigh(1), 0));
    tidy.weighed(true, s(10.0));
    assert_eq!(tidy.step, TidyStep::Total);
    tidy.totalled(totals(41.0));
    assert_eq!((tidy.step, tidy.outcome.best.utilisation), (TidyStep::Done, s(41.0)));

    // Nothing was placed, so there is nothing to move or to pack.
    let nothing = Tidying::new(ended(nest(0, 3, 0.0)), None);
    assert_eq!(nothing.step, TidyStep::Done);
    let nothing = Tidying::new(ended(nest(0, 3, 0.0)), Some(s(60.0)));
    assert_eq!(nothing.step, TidyStep::Total);
}
