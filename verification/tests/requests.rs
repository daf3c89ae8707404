//! Moving, checking, repacking and harvesting.

use rustynesting::audit::{audit_breakdown, audit_kind_key, audit_report, badge, report_audit, verdict, AuditIssueDto, AuditReportDto, Badge, Finding, IssueKind};
use rustynesting::config::{NestConfigDto, PlacementTypeDto};
use rustynesting::placement::{PlacedPartDto, SheetPlacementDto};
use rustynesting::requests::{
    audit_sheets, mark_locked, move_obstacles, order_remnants, prepare_repack, remnant_sheets, repack_response, AuditRequest, RemnantDto,
    RemnantRequest, RepackSheetRequest, ValidatePlacementRequest,
};
use rustynesting::result::{best_candidate, should_save, BestResultDto, RunNestResponse};
use rustynesting::scalar::Scalar;
use rustynesting::shape::{PointDto, PolygonDto};
use std::collections::HashMap;

fn s(value: f64) -> Scalar {
    Scalar { bits: value.to_bits() }
}

fn rect(w: f64, h: f64) -> PolygonDto {
    let points = [(0.0, 0.0), (w, 0.0), (w, h), (0.0, h)];
    PolygonDto::new(points.iter().map(|&(x, y)| PointDto { x: s(x), y: s(y) }).collect(), "0".to_string(), None)
}

fn config() -> NestConfigDto {
    NestConfigDto {
        placement_type: PlacementTypeDto::Gravity,
        rotations: 1,
        population_size: 6,
        mutation_rate: s(15.0),
        dominant_part_area_threshold: s(0.9),
        curve_tolerance: s(0.3),
        generations: 6,
        margin: s(0.0),
        spacing: s(0.0),
        kerf: s(0.0),
        max_threads: 0,
        seed: 0,
        runs: 1,
        cleanup_threshold_percent: None,
        mirror: false,
    }
}

fn placed(id: usize, x: f64, y: f64, locked: bool) -> PlacedPartDto {
    PlacedPartDto { id, x: s(x), y: s(y), rotation: s(0.0), locked }
}

fn validate_request(x: f64, y: f64) -> ValidatePlacementRequest {
    ValidatePlacementRequest {
        sheet: rect(100.0, 100.0),
        placement: SheetPlacementDto { sheet_index: 0, parts: vec![placed(0, 0.0, 0.0, false), placed(1, 50.0, 0.0, false)] },
        parts_by_id: HashMap::from([(0, rect(20.0, 20.0)), (1, rect(20.0, 20.0))]),
        moved_id: 1,
        x: s(x),
        y: s(y),
        rotation: s(0.0),
        config: config(),
    }
}

#[test]
fn a_part_is_never_an_obstacle_to_itself() {
    let request = validate_request(50.0, 0.0);
    let others = move_obstacles(&request, true, true).expect("a legal question");
    assert_eq!(others.iter().map(|p| p.id).collect::<Vec<_>>(), vec![0]);
}

#[test]
fn drag_validation_rejects_an_unknown_part_rather_than_panicking() {
    let mut request = validate_request(10.0, 10.0);
    request.moved_id = 99;
    assert_eq!(move_obstacles(&request, true, true), Err("unknown part id 99".to_string()));
}

#[test]
fn a_move_on_a_sheet_without_room_is_refused() {
    let request = validate_request(10.0, 10.0);
    assert_eq!(move_obstacles(&request, false, true), Err("margin/spacing leaves the sheet with no usable area".to_string()));
    assert_eq!(move_obstacles(&request, true, false), Err("spacing leaves a part with no usable outline".to_string()));
}

fn repack_request() -> RepackSheetRequest {
    RepackSheetRequest {
        sheet: rect(120.0, 120.0),
        placement: SheetPlacementDto {
            sheet_index: 4,
            parts: vec![placed(0, 33.5, 61.25, true), placed(1, 0.0, 0.0, false), placed(2, 0.0, 40.0, false)],
        },
        parts_by_id: HashMap::from([(0, rect(70.0, 25.0)), (1, rect(50.0, 35.0)), (2, rect(30.0, 30.0))]),
        config: config(),
        part_rules: HashMap::new(),
    }
}

#[test]
fn repacking_a_sheet_leaves_every_locked_part_untouched_and_reports_them_back() {
    let locked = prepare_repack(&repack_request(), true, true).expect("repacks around the pinned part");
    assert_eq!(locked, vec![0]);
    // The engine moved the two free parts and handed the pinned one back.
    let parts = vec![placed(0, 33.5, 61.25, false), placed(1, 5.0, 0.0, false), placed(2, 60.0, 0.0, false)];
    let response = repack_response(repack_request(), Some((parts, s(44.0))), &locked, s(40.0));

    assert_eq!(response.placement.sheet_index, 4, "the real sheet index is restored");
    assert_eq!(response.placement.parts.len(), 3, "nothing may be dropped");
    let pinned = response.placement.parts.iter().find(|p| p.id == 0).unwrap();
    assert_eq!((pinned.x, pinned.y), (s(33.5), s(61.25)), "a pinned part must not move");
    assert!(pinned.locked, "and must come back still pinned, so the next repack sees it too");
    assert!(response.placement.parts.iter().filter(|p| p.id != 0).all(|p| !p.locked));
}

#[test]
fn a_repack_that_finds_nothing_leaves_the_sheet_as_it_was() {
    let response = repack_response(repack_request(), None, &vec![0], s(40.0));
    assert!(!response.improved);
    assert_eq!(response.utilisation, s(40.0));
    assert_eq!(response.placement.parts.len(), 3);
    assert_eq!(response.placement.parts[1].x, s(0.0));
}

#[test]
fn marking_pins_touches_nothing_else() {
    let marked = mark_locked(&vec![placed(3, 1.0, 2.0, false), placed(4, 5.0, 6.0, true)], &vec![3]);
    assert!(marked[0].locked && !marked[1].locked);
    assert_eq!((marked[1].id, marked[1].x), (4, s(5.0)));
}

#[test]
fn a_check_knows_only_the_parts_it_is_given() {
    let request = AuditRequest {
        sheets: vec![rect(100.0, 100.0)],
        placements: vec![SheetPlacementDto { sheet_index: 0, parts: vec![placed(0, 0.0, 0.0, false), placed(7, 0.0, 0.0, false)] }],
        parts_by_id: HashMap::from([(0, rect(10.0, 10.0))]),
        config: config(),
    };
    let sheets = audit_sheets(&request, None, &vec![true]).expect("a legal check");
    assert_eq!(sheets[0].parts.len(), 1);
    match audit_sheets(&request, Some(3), &vec![true]) {
        Ok(_) => panic!("a part without an outline cannot be checked"),
        Err(message) => assert_eq!(message, "spacing leaves part 3 with no usable outline"),
    }
}

fn remnant(sheet_index: usize, area: f64) -> RemnantDto {
    RemnantDto { sheet_index, polygon: rect(1.0, area), area: s(area), usable_width: s(1.0), usable_height: s(area) }
}

#[test]
fn the_largest_offcut_comes_first() {
    let ordered = order_remnants(vec![remnant(0, 5.0), remnant(1, 9.0), remnant(2, 9.0), remnant(3, 1.0)]);
    assert_eq!(ordered.iter().map(|r| r.sheet_index).collect::<Vec<_>>(), vec![1, 2, 0, 3]);
}

#[test]
fn offcuts_are_sought_on_every_sheet() {
    let request = RemnantRequest {
        sheets: vec![rect(100.0, 100.0), rect(100.0, 100.0)],
        placements: vec![
            SheetPlacementDto { sheet_index: 0, parts: vec![placed(0, 0.0, 0.0, false)] },
            SheetPlacementDto { sheet_index: 1, parts: vec![placed(1, 0.0, 0.0, false)] },
        ],
        parts_by_id: HashMap::from([(0, rect(10.0, 10.0)), (1, rect(10.0, 10.0))]),
        config: config(),
    };
    assert_eq!(remnant_sheets(&request).expect("a legal search").len(), 2);
}

fn issue(kind: &str, sheet: usize, parts: Vec<usize>) -> AuditIssueDto {
    AuditIssueDto { kind: kind.to_string(), fatal: true, sheet_index: sheet, part_ids: parts }
}

#[test]
fn audit_breakdown_separates_kinds_and_caps_the_id_list() {
    let mixed = vec![issue("overlap", 0, vec![1, 2]), issue("outside_sheet", 1, vec![7]), issue("overlap", 0, vec![2, 3])];
    let line = audit_breakdown(&mixed);
    assert!(line.contains("overlap x2 on sheet(s) 0 (parts 1,2,3)"), "got: {line}");
    assert!(line.contains("outside_sheet x1 on sheet(s) 1 (parts 7)"), "got: {line}");

    let wholesale: Vec<_> = (0..30).map(|id| issue("outside_sheet", 0, vec![id])).collect();
    let line = audit_breakdown(&wholesale);
    assert!(line.contains("outside_sheet x30"), "the count is never capped: {line}");
    assert!(line.contains("+22 more"), "only the id list is capped: {line}");

    assert_eq!(audit_breakdown(&Vec::new()), "", "a clean report adds nothing to the line");
}

#[test]
fn a_breakdown_names_every_sheet_and_cuts_off_only_the_parts() {
    let spread: Vec<_> = (0..9).map(|sheet| issue("overlap", sheet, vec![1])).collect();
    assert_eq!(audit_breakdown(&spread), "overlap x9 on sheet(s) 0,1,2,3,4,5,6,7,8 (parts 1)");
    let eight: Vec<_> = (0..8).map(|part| issue("overlap", 0, vec![part])).collect();
    assert_eq!(audit_breakdown(&eight), "overlap x8 on sheet(s) 0 (parts 0,1,2,3,4,5,6,7)");
    let nine: Vec<_> = (0..9).map(|part| issue("overlap", 0, vec![part])).collect();
    assert_eq!(audit_breakdown(&nine), "overlap x9 on sheet(s) 0 (parts 0,1,2,3,4,5,6,7,+1 more)");
}

#[test]
fn the_order_of_the_issues_does_not_change_the_breakdown() {
    let issues = |order: [usize; 4]| -> Vec<AuditIssueDto> {
        order
            .iter()
            .map(|&i| match i {
                0 => issue("overlap", 3, vec![9, 2]),
                1 => issue("below_spacing", 1, vec![2, 1]),
                2 => issue("overlap", 0, vec![5]),
                _ => issue("overlap", 3, vec![2, 9]),
            })
            .collect()
    };
    let line = audit_breakdown(&issues([0, 1, 2, 3]));
    assert_eq!(line, "below_spacing x1 on sheet(s) 1 (parts 1,2); overlap x3 on sheet(s) 0,3 (parts 2,5,9)");
    for order in [[3, 2, 1, 0], [1, 3, 0, 2], [2, 0, 3, 1]] {
        assert_eq!(audit_breakdown(&issues(order)), line);
    }
}

#[test]
fn a_breakdown_is_in_the_order_of_the_kinds() {
    let line = audit_breakdown(&vec![issue("overlap", 3, vec![9]), issue("below_spacing", 1, vec![2])]);
    assert_eq!(line, "below_spacing x1 on sheet(s) 1 (parts 2); overlap x1 on sheet(s) 3 (parts 9)");
}

#[test]
fn one_word_tells_the_whole_check() {
    let report = |fatal: usize, warning: usize| AuditReportDto {
        passed: fatal == 0,
        fatal_count: fatal,
        warning_count: warning,
        issues: Vec::new(),
    };
    assert_eq!(verdict(&report(1, 4)), "FAILED");
    assert_eq!(verdict(&report(0, 4)), "WARNED");
    assert_eq!(verdict(&report(0, 0)), "PASSED");
    assert_eq!(badge(&None, true), Badge::Checking);
    assert_eq!(badge(&None, false), Badge::Unknown);
    assert_eq!(badge(&Some(report(1, 0)), false), Badge::Failed);
    assert_eq!(badge(&Some(report(0, 2)), false), Badge::Warned);
    assert_eq!(badge(&Some(report(0, 0)), false), Badge::Passed);
}

#[test]
fn findings_are_named() {
    let findings = vec![Finding { kind: IssueKind::OutsideMargin, fatal: false, sheet_index: 2, part_ids: vec![5] }];
    let report = audit_report(true, 0, 1, &findings);
    assert_eq!(report.issues[0].kind, "outside_margin");
    assert_eq!(report.issues[0].part_ids, vec![5]);
    assert!(report.passed && report.warning_count == 1);
    assert_eq!(audit_kind_key("something new"), "something new");
}

#[test]
fn a_check_that_could_not_run_is_not_a_pass() {
    let block = report_audit(Err("no engine".to_string()));
    assert!(!block.passed);
    assert_eq!(block.headline, "NOT CHECKED - the manufacturability check could not run (no engine)");
    let clean = report_audit(Ok(AuditReportDto { passed: true, fatal_count: 0, warning_count: 0, issues: Vec::new() }));
    assert_eq!(clean.headline, "PASSED - no overlaps, every piece on its sheet, all clearances met.");
}

#[test]
fn an_empty_result_is_not_worth_saving() {
    let response = |placements: Vec<SheetPlacementDto>, cancelled: bool| RunNestResponse {
        placements,
        fitness: s(1.0),
        utilisation: s(50.0),
        unplaced_count: 0,
        unplaced_ids: Vec::new(),
        parts_by_id: HashMap::from([(0, rect(10.0, 10.0))]),
        part_rules: HashMap::new(),
        history: Vec::new(),
        cancelled,
    };
    let sheets = || vec![SheetPlacementDto { sheet_index: 0, parts: vec![placed(0, 0.0, 0.0, false)] }];
    assert!(best_candidate(&response(Vec::new(), false), vec![rect(100.0, 100.0)], Some(config())).is_none());
    assert!(best_candidate(&response(sheets(), true), vec![rect(100.0, 100.0)], Some(config())).is_none(), "a run that was stopped has nothing worth keeping");
    assert!(best_candidate(&response(Vec::new(), true), vec![rect(100.0, 100.0)], Some(config())).is_none());
    let candidate = best_candidate(&response(sheets(), false), vec![rect(100.0, 100.0)], Some(config())).expect("something was placed");
    assert_eq!(candidate.sheets.len(), 1);
    assert!(candidate.parts_by_id.contains_key(&0));
    assert!(should_save(&candidate, &None));
    assert!(!should_save(&candidate, &Some(best_again(&candidate))));
}

/// The same result, saved before.
fn best_again(candidate: &BestResultDto) -> BestResultDto {
    BestResultDto {
        placements: candidate.placements.clone(),
        fitness: candidate.fitness,
        utilisation: candidate.utilisation,
        unplaced_count: candidate.unplaced_count,
        unplaced_ids: candidate.unplaced_ids.clone(),
        parts_by_id: HashMap::new(),
        sheets: Vec::new(),
        part_rules: HashMap::new(),
        config: None,
    }
}

/// A result to save, told by its fitness.
fn saving(fitness: f64, unplaced: usize, sheets: usize, utilisation: f64) -> BestResultDto {
    BestResultDto {
        placements: (0..sheets).map(|i| SheetPlacementDto { sheet_index: i, parts: Vec::new() }).collect(),
        fitness: s(fitness),
        utilisation: s(utilisation),
        unplaced_count: unplaced,
        unplaced_ids: Vec::new(),
        parts_by_id: HashMap::new(),
        sheets: Vec::new(),
        part_rules: HashMap::new(),
        config: None,
    }
}

#[test]
fn saving_results_in_turn_keeps_the_first_that_none_beats() {
    let candidates = [
        saving(1.0, 2, 3, 70.0),
        saving(2.0, 0, 4, 60.0),
        saving(3.0, 0, 3, 50.0),
        saving(4.0, 0, 3, 50.0),
        saving(5.0, 1, 1, 99.0),
        saving(6.0, 0, 3, 49.0),
    ];
    let mut saved: Option<BestResultDto> = None;
    let mut held = Vec::new();
    for candidate in candidates {
        if should_save(&candidate, &saved) {
            saved = Some(candidate);
        }
        held.push(saved.as_ref().map_or(0.0, |best| f64::from_bits(best.fitness.bits)));
    }
    assert_eq!(held, vec![1.0, 2.0, 3.0, 3.0, 3.0, 3.0]);
}
