//! The screens' shared state, from an empty table to an exported result.

use rustynesting::audit::{AuditIssueDto, AuditReportDto};
use rustynesting::chart::{fullness, Fullness};
use rustynesting::config::NestConfigDto;
use rustynesting::console::Kind;
use rustynesting::editing::Landing;
use rustynesting::escalation::{Attempt, NestRunCompleteDto, NestRunStartDto, Outcome};
use rustynesting::events::{Figures, Msg, ReadShape};
use rustynesting::export::ExportFormat;
use rustynesting::exporting::ExportChoices;
use rustynesting::i18n::{load_dicts, Dicts, Lang};
use rustynesting::library::ShownSize;
use rustynesting::parts::RunNestRequest;
use rustynesting::placement::{PlaceResult, PlacedPartDto, SheetPlacementDto};
use rustynesting::requests::{RemnantDto, RepackSheetResponse, ValidatePlacementResponse};
use rustynesting::result::{BestResultDto, NestSnapshotDto, RunNestResponse};
use rustynesting::scalar::Scalar;
use rustynesting::session::{App, AuditReason, Drag, Effects, Progress};
use rustynesting::shape::{PointDto, PolygonDto};
use rustynesting::state::{MirrorRule, Role, RotRule};
use rustynesting::store::{ShapeStore, StoredKind};
use rustynesting::table::{asks_for_unit, sort_dropped, unit_choice};
use rustynesting::tidy::{TidyStep, Tidying, Totals};
use rustynesting::update::Release;
use std::collections::HashMap;

const MIRROR_BIT: usize = 1 << 30;

fn s(value: f64) -> Scalar {
    Scalar { bits: value.to_bits() }
}

fn square(size: f64) -> PolygonDto {
    let points = [(0.0, 0.0), (size, 0.0), (size, size), (0.0, size)];
    PolygonDto::new(points.iter().map(|&(x, y)| PointDto { x: s(x), y: s(y) }).collect(), "0".to_string(), None)
}

const ENGLISH: &str = r#"{
    "import_status_ok": "{n} new, {total} in all",
    "import_importing": "reading {n}",
    "import_size_guessed": "{file} has no size",
    "run_invalid_config_field": "bad {field}",
    "pin_locked": "pinned {id}",
    "pin_unlocked": "freed {id}",
    "drag_placed": "moved {id}",
    "drag_failed": "broke: {err}",
    "repack_status_failed": "sheet {n} failed",
    "library_saved": "kept {n}",
    "offcut_name": "offcut {sheet} ({w} x {h})",
    "history_option": "{i}: gen {gen}{best}, {fitness}, {unplaced}",
    "history_best_suffix": " best",
    "chart_readout": "{i}/{gen}/{util}/{unplaced}",
    "bottom_bar_summary": "{sheets} sheets, {unplaced} left, {util}%"
}"#;

fn dicts() -> Dicts {
    load_dicts(&[ENGLISH, "{}", "{}", "{}", "{}", "{}", "{}", "{}", "{}"])
}

fn app() -> App {
    App::new(Lang::En, false).0
}

fn lines(effects: &Effects) -> Vec<(Kind, &str)> {
    effects.log.iter().map(|l| (l.kind, l.text.as_str())).collect()
}

fn shapes(sizes: &[f64]) -> Vec<ReadShape> {
    sizes.iter().map(|&w| ReadShape { polygon: square(w), area: s(w * w) }).collect()
}

fn import(app: &mut App, sizes: &[f64]) {
    app.handle(Msg::Imported { file: "a.dxf".to_string(), shapes: shapes(sizes), size_guessed: false }, &dicts());
}

fn placed(id: usize, x: f64) -> PlacedPartDto {
    PlacedPartDto { id, x: s(x), y: s(0.0), rotation: s(0.0), locked: false }
}

fn figures() -> Figures {
    Figures { fitness: "12.5".to_string(), utilisation: "71.0".to_string() }
}

fn response(sheets: Vec<SheetPlacementDto>) -> RunNestResponse {
    RunNestResponse {
        history: vec![
            NestSnapshotDto {
                generation: 1,
                placements: Vec::new(),
                fitness: s(20.0),
                utilisation: s(10.0),
                unplaced_count: 2,
                unplaced_ids: vec![0, 1],
            },
            NestSnapshotDto {
                generation: 3,
                placements: sheets.clone(),
                fitness: s(12.5),
                utilisation: s(71.0),
                unplaced_count: 0,
                unplaced_ids: Vec::new(),
            },
        ],
        placements: sheets,
        fitness: s(12.5),
        utilisation: s(71.0),
        unplaced_count: 0,
        unplaced_ids: Vec::new(),
        parts_by_id: HashMap::from([(0, square(10.0)), (1, square(10.0))]),
        part_rules: HashMap::new(),
        cancelled: false,
    }
}

/// A job of one sheet and two copies of one part, up to its request.
fn ready() -> (App, RunNestRequest, Vec<Option<usize>>) {
    let mut app = app();
    import(&mut app, &[100.0, 10.0]);
    app.shapes[0].role = Role::Sheet;
    app.shapes[1].qty = 2;
    let (request, origin) = match app.build_request(None, &dicts()) {
        Ok(made) => made,
        Err(message) => panic!("{message}"),
    };
    (app, request, origin)
}

/// The same job, run to its end.
fn nested() -> App {
    let (mut app, request, origin) = ready();
    app.start_run(&request, origin, Ok(()), &dicts());
    let sheets = vec![SheetPlacementDto { sheet_index: 0, parts: vec![placed(0, 0.0), placed(1, 20.0)] }];
    app.handle(Msg::NestDone { result: Ok(response(sheets)), figures: figures() }, &dicts());
    app
}

#[test]
fn the_state_starts_empty() {
    let (app, effects) = App::new(Lang::Fr, true);
    assert_eq!(lines(&effects), vec![(Kind::Run, "Nestor started")]);
    assert!(app.shapes.is_empty() && app.snapshot.is_none() && !app.running);
    assert_eq!((app.next_ui_id, app.current_generations), (1, 1));
    assert_eq!(app.audit_reason.words(), "startup");
    assert!(app.live_view && app.lang == Lang::Fr);
}

#[test]
fn imported_shapes_become_rows() {
    let mut app = app();
    app.preset_qty = Some(12);
    let effects =
        app.handle(Msg::Imported { file: "a.dxf".to_string(), shapes: shapes(&[100.0, 10.0]), size_guessed: false }, &dicts());
    assert_eq!(lines(&effects), vec![(Kind::Plain, "imported 2 shape(s) from a.dxf")]);
    assert_eq!(app.shapes.iter().map(|r| (r.ui_id, r.qty, r.role)).collect::<Vec<_>>(), vec![(1, 12, Role::Part), (2, 12, Role::Part)]);
    app.handle(Msg::ImportFailed { file: "b.dxf".to_string(), error: "torn".to_string() }, &dicts());
    let effects = app.handle(Msg::ImportBatchDone { ok: 1, failed: 1 }, &dicts());
    assert_eq!(lines(&effects), vec![(Kind::Error, "1 file(s) failed to import - see lines above")]);
    assert_eq!(app.import_status.text, "2 new, 2 in all");
    assert!(app.preset_qty.is_none() && app.importing == 0 && app.imported_this_batch == 0);
    app.handle(Msg::ImportBatchDone { ok: 0, failed: 0 }, &dicts());
    assert!(app.import_status.error);
}

#[test]
fn a_guessed_size_is_said_loudly() {
    let mut app = app();
    let effects = app.handle(Msg::Imported { file: "a.svg".to_string(), shapes: shapes(&[1.0]), size_guessed: true }, &dicts());
    assert_eq!(lines(&effects), vec![(Kind::Plain, "imported 1 shape(s) from a.svg"), (Kind::Error, "a.svg has no size")]);
    assert!(app.import_status.error && app.import_status.text == "a.svg has no size");
}

#[test]
fn dropped_files_are_sorted_by_extension() {
    let ext = |text: &str| Some(text.to_string());
    let (usable, effects) = sort_dropped(&vec![ext("dxf"), ext("pdf"), ext("SVG"), None]);
    assert_eq!(usable, vec![0, 2]);
    assert_eq!(lines(&effects), vec![(Kind::Plain, "ignored 2 dropped file(s) that were not .dxf/.svg")]);
    let (usable, effects) = sort_dropped(&vec![ext("DXF")]);
    assert!(usable == vec![0] && effects.log.is_empty());
    assert!(asks_for_unit(&vec![ext("dxf"), ext("Svg")]));
    assert!(!asks_for_unit(&vec![ext("dxf"), None]));
    assert_eq!(unit_choice("mm"), ext("mm"));
    assert_eq!(unit_choice(""), None);

    let mut app = app();
    app.begin_import(3, &dicts());
    assert!(app.importing == 3 && app.import_status.text == "reading 3");
    assert_eq!(lines(&app.cancel_import()), vec![(Kind::Plain, "import cancelled at the SVG unit prompt")]);
}

#[test]
fn a_built_rectangle_has_the_requested_size() {
    let mut app = app();
    app.add_rectangle(s(2440.0), s(1220.0), "  ", s(2440.0 * 1220.0), &dicts());
    let row = &app.shapes[0];
    assert_eq!((row.file.as_str(), row.poly.layer.as_str()), ("CUSTOM", "CUSTOM"));
    assert_eq!(row.poly.points[2], PointDto { x: s(2440.0), y: s(1220.0) });
    assert_eq!(row.area, s(2440.0 * 1220.0));
    assert_eq!(app.import_status.text, "1 new, 1 in all");
    app.add_rectangle(s(0.0), s(10.0), "x", s(0.0), &dicts());
    assert!(app.shapes.len() == 1 && app.import_status.error);
    app.add_rectangle(s(f64::NAN), s(10.0), "x", s(0.0), &dicts());
    assert_eq!(app.shapes.len(), 1);
    app.add_rectangle(s(5.0), s(6.0), " steel ", s(30.0), &dicts());
    assert_eq!(app.shapes[1].file, "steel");
}

#[test]
fn rows_are_marked_selected_and_removed() {
    let mut app = app();
    import(&mut app, &[100.0, 50.0, 10.0]);
    app.mark_all(Role::Sheet);
    assert!(app.shapes.iter().all(|r| r.role == Role::Sheet));
    assert_eq!(app.largest_sheet_area(), s(10_000.0));
    app.shapes[0].role = Role::Skip;
    assert_eq!(app.largest_sheet_area(), s(2_500.0));
    app.select_every(true);
    assert!(app.select_all && app.selected_count() == 3);
    app.shapes[1].selected = false;
    app.remove_selected();
    assert_eq!(app.shapes.iter().map(|r| r.ui_id).collect::<Vec<_>>(), vec![2]);
    assert!(!app.select_all);
}

#[test]
fn a_table_must_hold_a_sheet_and_a_part() {
    let mut app = app();
    let problem = |app: &App| app.build_request(None, &dicts()).err();
    assert_eq!(problem(&app), Some("run_need_sheet".to_string()));
    import(&mut app, &[100.0, 10.0]);
    app.shapes[0].role = Role::Sheet;
    app.shapes[1].qty = 0;
    assert_eq!(problem(&app), Some("run_need_part".to_string()));
    app.shapes[1].qty = 1;
    app.cfg.spacing = s(f64::NAN);
    assert_eq!(problem(&app), Some("bad cfg_spacing".to_string()));
    app.cfg.spacing = s(0.0);
    assert_eq!(problem(&app), None);
}

#[test]
fn every_sheet_of_a_job_knows_its_origin() {
    let mut app = app();
    import(&mut app, &[100.0, 10.0, 50.0]);
    app.shapes[0].role = Role::Sheet;
    app.shapes[0].qty = 2;
    app.shapes[2].role = Role::Sheet;
    app.shapes[2].from_store = Some(9);
    app.shapes[1].rot = RotRule::Half;
    app.shapes[1].mirror = MirrorRule::Deny;
    let (request, origin) = match app.build_request(Some(s(30.0)), &dicts()) {
        Ok(made) => made,
        Err(message) => panic!("{message}"),
    };
    assert_eq!(origin, vec![None, None, Some(9)]);
    assert_eq!(request.sheets.len(), 3);
    assert_eq!(request.parts.len(), 1);
    assert_eq!(request.parts[0].mirror, Some(false));
    assert_eq!(request.parts[0].allowed_rotations, Some(vec![s(0.0), s(180.0)]));
    assert_eq!(request.config.cleanup_threshold_percent, Some(s(30.0)));
}

#[test]
fn a_run_that_is_refused_changes_no_switch() {
    let (mut app, request, origin) = ready();
    app.settings_open = true;
    let effects = app.start_run(&request, origin, Err("a nest is already running".to_string()), &dicts());
    assert!(!app.running && app.settings_open && effects.log.is_empty());
    assert!(app.run_status.error && app.run_status.text == "a nest is already running");
}

#[test]
fn a_run_is_narrated() {
    let (mut app, request, origin) = ready();
    let effects = app.start_run(&request, origin, Ok(()), &dicts());
    assert_eq!(lines(&effects), vec![(Kind::Run, "nest started")]);
    assert!(app.controls_locked() && app.shapes_collapsed);
    let start = NestRunStartDto { run: 1, total_runs: 2, rotations: 4, population_size: 10, generations: 5 };
    let effects = app.handle(Msg::RunStart(start), &dicts());
    assert_eq!(lines(&effects), vec![(Kind::Run, "run 1/2: rotations 4, population 10, 5 generations")]);
    let effects = app.handle(
        Msg::Progress { generation: 2, generations: 5, sheets_used: 3, unplaced_count: 1, figures: figures() },
        &dicts(),
    );
    assert_eq!(lines(&effects), vec![(Kind::Plain, "gen 2/5: fitness 12.5, 3 sheet(s), 1 unplaced, 71.0% used")]);
    assert_eq!(app.progress, Progress::Generations { done: 2, of: 5 });
    let complete = NestRunCompleteDto {
        run: 1,
        total_runs: 2,
        rotations: 4,
        population_size: 10,
        generations: 5,
        sheets_used: 3,
        unplaced_count: 1,
        utilisation: s(71.0),
        improved: true,
    };
    let effects = app.handle(Msg::RunComplete { complete, figures: figures() }, &dicts());
    assert_eq!(effects.log[0].text, "run 1/2 done: 3 sheet(s), 1 unplaced, 71.0% used (new best)");
}

#[test]
fn a_finished_nest_is_shown_and_checked() {
    let app = nested();
    assert!(!app.running && app.auditing);
    assert_eq!(app.audit_reason, AuditReason::NestRun);
    assert_eq!((app.history.len(), app.history_index), (2, 1));
    assert_eq!(app.snapshot.as_ref().unwrap().placements[0].parts.len(), 2);
    assert_eq!(app.run_status.text, "run_status_done");
    assert_eq!(app.attempt_label(0, "20.0", &dicts()), "1: gen 1, 20.0, 2");
    assert_eq!(app.attempt_label(1, "12.5", &dicts()), "2: gen 3 best, 12.5, 0");
    assert_eq!(app.readout(1, "71.0", &dicts()), "2/3/71.0/0");
    assert_eq!(app.bottom_summary("71.0", &dicts()), Some("1 sheets, 0 left, 71.0%".to_string()));
}

#[test]
fn a_failed_nest_keeps_the_result_before_it() {
    let mut app = nested();
    let request = RunNestRequest { sheets: Vec::new(), parts: Vec::new(), config: app.cfg.to_dto(None) };
    app.start_run(&request, Vec::new(), Ok(()), &dicts());
    let effects = app.handle(Msg::NestDone { result: Err("no room".to_string()), figures: figures() }, &dicts());
    assert_eq!(lines(&effects), vec![(Kind::Error, "nest failed: no room")]);
    assert!(app.snapshot.is_some() && !app.running && app.run_status.error);
}

#[test]
fn switching_attempts_drops_the_pins() {
    let mut app = nested();
    app.toggle_pin(1, &dicts());
    assert_eq!(app.run_status.text, "pinned 1");
    assert!(app.show_attempt(0).is_some());
    assert!(app.snapshot.as_ref().unwrap().locked.is_empty());
    assert_eq!(app.history_index, 0);
    assert!(app.show_attempt(0).is_none(), "the attempt is on display already");
    assert!(app.show_attempt(7).is_none());
    assert_eq!(app.history_index, 0);
}

#[test]
fn a_verdict_is_logged_with_what_brought_it_about() {
    let mut app = nested();
    let bad = AuditReportDto {
        passed: false,
        fatal_count: 1,
        warning_count: 0,
        issues: vec![AuditIssueDto { kind: "overlap".to_string(), fatal: true, sheet_index: 0, part_ids: vec![0, 1] }],
    };
    let effects = app.handle(Msg::Audited(Ok(bad)), &dicts());
    assert_eq!(
        lines(&effects),
        vec![(
            Kind::Error,
            "audit after a nest run: 1 fatal issue(s), 0 warning(s) - overlap x1 on sheet(s) 0 (parts 0,1)"
        )]
    );
    assert!(!app.auditing && app.audit.is_some());
}

fn dragged(app: &mut App, part_id: usize) {
    app.drag = Some(Drag {
        sheet: 0,
        part_id,
        dx: s(5.0),
        dy: s(0.0),
        drot: s(0.0),
        moved: true,
        clear: true,
        awaiting: false,
    });
}

#[test]
fn a_moved_part_lands_only_where_the_engine_lets_it() {
    let mut app = nested();
    dragged(&mut app, 1);
    let question = app.commit_drag(0, &dicts()).expect("the engine is asked");
    assert_eq!((question.part.id, question.drag.dx), (1, s(5.0)));
    assert!(app.drag.unwrap().awaiting);
    let landing = Landing { x: s(25.0), y: s(0.0), rotation: s(0.0) };
    let effects = app.handle(Msg::Validated { result: Ok(ValidatePlacementResponse { valid: false }), landing }, &dicts());
    assert!(app.drag.is_none() && app.undo_stack.is_empty() && effects.audit.is_none());
    assert_eq!(app.run_status.text, "drag_rejected");
    assert_eq!(app.snapshot.as_ref().unwrap().placements[0].parts[1].x, s(20.0));

    dragged(&mut app, 1);
    app.commit_drag(0, &dicts());
    let effects = app.handle(Msg::Validated { result: Ok(ValidatePlacementResponse { valid: true }), landing }, &dicts());
    let now = app.snapshot.as_ref().unwrap();
    assert_eq!(now.placements[0].parts[1].x, s(25.0));
    assert_eq!(now.locked, vec![1], "what was placed by hand is pinned");
    assert!(effects.audit.is_some());
    assert_eq!((app.undo_stack.len(), app.run_status.text.as_str()), (1, "moved 1"));

    assert!(app.undo(&dicts()).is_some());
    assert_eq!(app.snapshot.as_ref().unwrap().placements[0].parts[1].x, s(20.0));
    assert!(app.redo(&dicts()).is_some());
    assert_eq!(app.snapshot.as_ref().unwrap().placements[0].parts[1].x, s(25.0));

    dragged(&mut app, 0);
    app.commit_drag(0, &dicts());
    let effects = app.handle(Msg::Validated { result: Err("engine gone".to_string()), landing }, &dicts());
    assert_eq!(lines(&effects), vec![(Kind::Error, "placement check failed: engine gone")]);
    assert_eq!(app.run_status.text, "broke: engine gone");
}

#[test]
fn keys_move_the_part_under_the_pointer() {
    let mut app = nested();
    assert_eq!(app.nudge_target(0, Some(1), true, false), Some(1));
    assert_eq!(app.nudge_target(0, Some(1), true, true), None, "a field that is typed into owns the keys");
    assert_eq!(app.nudge_target(0, Some(1), false, false), None);
    let start = app.nudge_start(0, 1).expect("nothing is asked about it");
    app.nudge_to(start, s(1.0), s(0.0), s(0.0));
    assert_eq!(app.nudge_target(0, None, false, false), Some(1), "the part being moved comes first");
    app.update_drag_hint(false);
    assert!(!app.drag.unwrap().clear && app.drag.unwrap().moved);
    app.commit_drag(0, &dicts());
    assert!(app.nudge_start(0, 1).is_none(), "the engine has not answered yet");
}

#[test]
fn a_pull_of_a_hundredth_is_still_a_click() {
    let mut app = nested();
    app.drag_to(s(9.0), s(9.0));
    assert!(app.drag.is_none(), "nothing is held");
    app.grab(0, 1);
    app.drag_to(s(0.01), s(-0.01));
    assert!(!app.drag.unwrap().moved);
    app.drag_to(s(0.0), s(-0.011));
    assert!(app.drag.unwrap().moved);
    app.drag_to(s(0.0), s(0.0));
    assert!(app.drag.unwrap().moved, "what has been moved stays moved");
    app.grab(0, 0);
    assert_eq!(app.drag.unwrap().part_id, 0);
    assert!(app.commit_drag(0, &dicts()).is_none() && app.drag.is_none(), "a click asks nothing");
}

#[test]
fn a_sheet_is_good_from_three_quarters() {
    assert_eq!(fullness(s(75.0)), Fullness::Good);
    assert_eq!(fullness(s(74.9)), Fullness::Fair);
    assert_eq!(fullness(s(45.0)), Fullness::Fair);
    assert_eq!(fullness(s(44.9)), Fullness::Poor);
    assert_eq!(fullness(s(f64::NAN)), Fullness::Poor);
}

#[test]
fn a_repack_replaces_one_sheet() {
    let mut app = nested();
    let request = app.start_repack(0, &dicts()).expect("there is a sheet to repack");
    assert_eq!(request.placement.parts.len(), 2);
    assert_eq!(app.repacking, Some(0));
    let repacked = RepackSheetResponse {
        placement: SheetPlacementDto { sheet_index: 0, parts: vec![placed(0, 0.0), placed(1, 10.0)] },
        improved: true,
        utilisation: s(80.0),
    };
    let effects = app.handle(Msg::Repacked { result: Ok(repacked), figures: figures() }, &dicts());
    assert!(effects.audit.is_some() && app.repacking.is_none());
    assert_eq!(app.snapshot.as_ref().unwrap().placements[0].parts[1].x, s(10.0));
    assert_eq!(app.undo_stack.len(), 1);

    app.start_repack(0, &dicts());
    let effects = app.handle(Msg::Repacked { result: Err("stuck".to_string()), figures: figures() }, &dicts());
    assert_eq!(lines(&effects), vec![(Kind::Error, "repack failed: stuck")]);
    assert_eq!(app.run_status.text, "sheet 1 failed");
}

#[test]
fn an_export_is_made_from_the_result_on_display() {
    let mut app = nested();
    let choices = ExportChoices { spacing: s(20.0), outline: true, unplaced: false };
    assert!(!app.export_ready(ExportChoices { spacing: s(-1.0), ..choices }, &dicts()));
    assert!(app.export_status.error);
    assert!(!app.export_ready(ExportChoices { spacing: s(f64::NAN), ..choices }, &dicts()));
    assert!(app.export_ready(choices, &dicts()));
    let (request, report, effects) = app.do_export(ExportFormat::Dxf, choices, None, MIRROR_BIT, &dicts());
    assert!(report.is_none());
    assert_eq!(lines(&effects), vec![(Kind::Plain, "exporting DXF")]);
    assert_eq!((request.placements.len(), request.parts_by_id.len(), request.sheets.len()), (1, 2, 1));
    assert!(request.include_sheet_outline && !request.include_unplaced);

    let (_, report, _) = app.do_export(ExportFormat::Pdf, choices, None, MIRROR_BIT, &dicts());
    let report = report.expect("a job report lists its parts");
    assert_eq!(report.parts.iter().map(|p| (p.name.as_str(), p.quantity, p.nested)).collect::<Vec<_>>(), vec![("a.dxf-1", 2, 2)]);
    let effects = app.handle(Msg::Exported { format: ExportFormat::Pdf, result: Ok(()) }, &dicts());
    assert_eq!(lines(&effects), vec![(Kind::Plain, "exported PDF REPORT")]);
    let effects = app.handle(Msg::Exported { format: ExportFormat::Pdf, result: Err("disk full".to_string()) }, &dicts());
    assert_eq!(lines(&effects), vec![(Kind::Error, "export failed: disk full")]);
    assert!(app.export_status.error);
}

fn best() -> BestResultDto {
    BestResultDto {
        placements: vec![SheetPlacementDto { sheet_index: 0, parts: vec![placed(0, 0.0)] }],
        fitness: s(1.0),
        utilisation: s(50.0),
        unplaced_count: 0,
        unplaced_ids: Vec::new(),
        parts_by_id: HashMap::from([(0, square(10.0))]),
        sheets: vec![square(100.0)],
        part_rules: HashMap::new(),
        config: None,
    }
}

#[test]
fn an_earlier_result_is_recovered_or_forgotten() {
    let mut app = app();
    let config: NestConfigDto = app.cfg.to_dto(None);
    let effects = app.handle(
        Msg::Loaded { config: Some(config), threshold: String::new(), best: Some(best()), errors: vec!["odd file".to_string()] },
        &dicts(),
    );
    assert_eq!(lines(&effects), vec![(Kind::Error, "odd file"), (Kind::Plain, "restored saved config")]);
    let (effects, forget) = app.answer_recover(true);
    assert!(!forget && app.recover_prompt.is_none() && app.snapshot.is_some());
    assert_eq!(lines(&effects), vec![(Kind::Best, "recovered the best result from a previous session")]);
    assert!(effects.audit.is_none(), "a result saved without its settings cannot be checked");

    app.recover_prompt = Some(best());
    let (effects, forget) = app.answer_recover(false);
    assert!(forget && app.recover_prompt.is_none() && effects.log.is_empty());

    let effects = app.reset();
    assert_eq!(lines(&effects), vec![(Kind::Run, "reset")]);
    assert!(app.snapshot.is_none() && app.parts_by_id.is_empty() && app.shapes.is_empty());
}

#[test]
fn parts_and_offcuts_go_into_the_library_and_come_back() {
    let mut app = app();
    let effects = app.save_selected_parts("000000000001", &dicts());
    assert!(app.run_status.error && !effects.save_store);
    import(&mut app, &[100.0, 10.0, 20.0]);
    app.select_every(true);
    app.shapes[0].role = Role::Sheet;
    app.shapes[1].qty = 0;
    app.shapes[1].rot = RotRule::Fixed90;
    app.shapes[2].mirror = MirrorRule::Allow;
    let effects = app.save_selected_parts("000000000002", &dicts());
    assert!(effects.save_store && app.run_status.text == "kept 2");
    let kept: Vec<(usize, usize, &str)> = app.store.shapes.iter().map(|e| (e.id, e.default_qty, e.created.as_str())).collect();
    assert_eq!(kept, vec![(1, 1, "000000000002-000"), (2, 1, "000000000002-001")]);
    assert_eq!(app.store.next_id, 3);

    app.remnants = vec![RemnantDto {
        sheet_index: 4,
        polygon: square(30.0),
        area: s(900.0),
        usable_width: s(30.0),
        usable_height: s(30.0),
    }];
    let sizes = vec![ShownSize { width: "30".to_string(), height: "30".to_string() }];
    let effects = app.keep_all("000000000003", &sizes, &dicts());
    assert_eq!(lines(&effects), vec![(Kind::Plain, "offcuts: kept 1")]);
    assert!(app.remnants.is_empty());
    assert_eq!(app.store.shapes[2].name, "offcut 5 (30 x 30)");
    assert_eq!(app.store.shapes[2].kind, StoredKind::Remnant);
    assert_eq!(app.store.next_id, 4);

    let (id, name) = (app.store.shapes[0].id, app.store.shapes[0].name.clone());
    let entry = app.store.shapes.remove(0);
    app.add_stored(&entry, s(100.0));
    let row = app.shapes.last().unwrap();
    assert_eq!((row.file.clone(), row.from_store, row.rot, row.role), (name, Some(id), RotRule::Fixed90, Role::Part));
    let effects = app.delete_stored(2);
    assert!(effects.save_store && app.store.shapes.iter().all(|e| e.id != 2));
    assert_eq!((app.store.next_id, app.store.version), (4, 1), "a removed id is not given out again");
}

#[test]
fn a_refused_run_says_why_and_a_stopped_one_that_it_stops() {
    let (mut app, request, origin) = ready();
    app.refuse_run("nothing to cut from".to_string());
    assert!(app.run_status.error && app.run_status.text == "nothing to cut from" && !app.running);
    app.start_run(&request, origin, Ok(()), &dicts());
    app.stop_run(&dicts());
    assert!(app.running, "it runs until it has noticed");
    assert_eq!((app.run_status.error, app.run_status.text.as_str()), (false, "run_status_stopped"));
}

#[test]
fn the_nest_on_display_is_the_one_that_was_tidied_up() {
    let sheet = |index: usize, id: usize| SheetPlacementDto { sheet_index: index, parts: vec![placed(id, 0.0)] };
    let best = PlaceResult {
        placements: vec![sheet(0, 0), sheet(1, 1)],
        fitness: s(12.5),
        area: s(200.0),
        total_area: s(20_000.0),
        utilisation: s(1.0),
        unplaced_count: 0,
        unplaced_ids: Vec::new(),
    };
    let history = vec![Attempt { generation: 4, result: best.clone() }];
    let mut tidy = Tidying::new(Outcome { best, history, cancelled: false, rotations: 4 }, None);
    let moved = vec![SheetPlacementDto { sheet_index: 0, parts: vec![placed(0, 0.0), placed(1, 20.0)] }];
    tidy.consolidated(moved, true, Totals { total_placed_area: s(200.0), total_usable_sheet_area: s(10_000.0), utilisation: s(2.0) });
    assert_eq!(tidy.step, TidyStep::Done);
    let shapes = HashMap::from([(0, square(10.0)), (1, square(10.0))]);
    let answer = tidy.finish(shapes, HashMap::new());

    let mut app = app();
    app.handle(Msg::NestDone { result: Ok(answer), figures: figures() }, &dicts());
    let shown = app.snapshot.as_ref().expect("a result is on display");
    assert_eq!((shown.placements.len(), shown.placements[0].parts.len(), shown.utilisation), (1, 2, s(2.0)));
    assert_eq!((app.history.len(), app.history[0].generation), (1, 4));
}

#[test]
fn an_offcut_that_a_nest_used_is_no_longer_offered() {
    let mut app = app();
    let mut store = ShapeStore::default();
    store.add(StoredKind::Remnant, "left".to_string(), square(100.0), 1, None, None, "1".to_string());
    app.handle(Msg::StoreLoaded(Ok(store)), &dicts());
    let entry = app.store.shapes.pop().unwrap();
    app.add_stored(&entry, s(10_000.0));
    app.store.shapes.push(entry);
    import(&mut app, &[10.0]);
    let (request, origin) = match app.build_request(None, &dicts()) {
        Ok(made) => made,
        Err(message) => panic!("{message}"),
    };
    assert_eq!(origin, vec![Some(1)]);
    app.start_run(&request, origin, Ok(()), &dicts());
    let sheets = vec![SheetPlacementDto { sheet_index: 0, parts: vec![placed(0, 0.0)] }];
    let effects = app.handle(Msg::NestDone { result: Ok(response(sheets)), figures: figures() }, &dicts());
    assert!(effects.save_store);
    assert!(effects.log.iter().any(|l| l.text == "library: 1 offcut(s) consumed by this nest"));
    assert!(app.store.available(StoredKind::Remnant).is_empty());
}

#[test]
fn offcuts_are_sought_in_a_result_whose_settings_are_known() {
    let mut app = nested();
    let request = app.scan().expect("the result has its settings");
    assert!(app.harvesting);
    assert_eq!((request.placements.len(), request.sheets.len()), (1, 1));
    let effects = app.handle(Msg::RemnantsComputed(Ok(Vec::new())), &dicts());
    assert_eq!(lines(&effects), vec![(Kind::Plain, "offcuts: found 0")]);
    assert!(!app.harvesting);
    app.result_config = None;
    assert!(app.scan().is_none());
}

#[test]
fn news_and_lines_are_passed_on() {
    let mut app = app();
    let release = Release { version: "2.7.0".to_string(), url: "u".to_string() };
    let effects = app.handle(Msg::UpdateAvailable(release), &dicts());
    assert_eq!(lines(&effects), vec![(Kind::Plain, "update available: v2.7.0")]);
    assert_eq!(app.update.as_ref().unwrap().url, "u");
    let effects = app.handle(Msg::Log("hello".to_string()), &dicts());
    assert_eq!(lines(&effects), vec![(Kind::Plain, "hello")]);
    app.set_lang(Lang::De);
    assert!(app.lang == Lang::De && app.run_status.text.is_empty());
}
