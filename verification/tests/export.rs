//! What an export draws, and what it is called.

use rustynesting::audit::{AuditIssueDto, AuditReportDto};
use rustynesting::config::{NestConfigDto, PlacementTypeDto};
use rustynesting::export::{build_export_layouts, ExportFormat, ExportRequest};
use rustynesting::exporting::{export_file_name, export_name_at, LocalMoment, ReportRequest};
use rustynesting::job::ReportPartDto;
use rustynesting::placement::{PlacedPartDto, SheetPlacementDto};
use rustynesting::report::{export_report, Measures};
use rustynesting::scalar::Scalar;
use rustynesting::shape::{PointDto, PolygonDto, TextDto};
use std::collections::HashMap;

fn s(value: f64) -> Scalar {
    Scalar { bits: value.to_bits() }
}

fn square(size: f64) -> PolygonDto {
    let points = [(0.0, 0.0), (size, 0.0), (size, size), (0.0, size)];
    PolygonDto::new(points.iter().map(|&(x, y)| PointDto { x: s(x), y: s(y) }).collect(), "0".to_string(), None)
}

fn placed(id: usize, x: f64, y: f64) -> PlacedPartDto {
    PlacedPartDto { id, x: s(x), y: s(y), rotation: s(0.0), locked: false }
}

fn width(polygon: &PolygonDto) -> f64 {
    polygon.points.iter().map(|p| f64::from_bits(p.x.bits)).fold(f64::MIN, f64::max)
}

fn config() -> NestConfigDto {
    NestConfigDto {
        placement_type: PlacementTypeDto::Gravity,
        rotations: 1,
        population_size: 6,
        mutation_rate: s(15.0),
        dominant_part_area_threshold: s(0.9),
        curve_tolerance: s(0.3),
        generations: 1,
        margin: s(0.0),
        spacing: s(0.0),
        kerf: s(0.0),
        max_threads: 0,
        seed: 0,
        runs: 1,
        cleanup_threshold_percent: None,
        mirror: false,
    }
}

fn measures() -> Measures {
    Measures { margin: "0".to_string(), spacing: "0".to_string(), curve_tolerance: "0.3".to_string() }
}

/// What tells a flipped shape's id from its copy's.
const BIT: usize = 1 << 20;

fn clean() -> AuditReportDto {
    AuditReportDto { passed: true, fatal_count: 0, warning_count: 0, issues: Vec::new() }
}

#[test]
fn export_dxf_rejects_negative_sheet_spacing() {
    let request = ExportRequest {
        sheets: vec![square(100.0)],
        parts_by_id: HashMap::from([(0, square(10.0))]),
        placements: vec![SheetPlacementDto { sheet_index: 0, parts: vec![placed(0, 0.0, 0.0)] }],
        sheet_spacing: s(-5.0),
        include_sheet_outline: false,
        include_unplaced: false,
    };
    match build_export_layouts(request, BIT) {
        Ok(_) => panic!("a negative distance must be refused"),
        Err(message) => assert_eq!(message, "sheet spacing must be >= 0"),
    }
}

#[test]
fn export_dxf_writes_each_placement_using_its_own_ids_mapped_shape() {
    let request = ExportRequest {
        sheets: vec![square(100.0)],
        parts_by_id: HashMap::from([(0, square(10.0)), (1, square(30.0))]),
        placements: vec![SheetPlacementDto { sheet_index: 0, parts: vec![placed(0, 0.0, 0.0), placed(1, 50.0, 50.0)] }],
        sheet_spacing: s(20.0),
        include_sheet_outline: false,
        include_unplaced: false,
    };
    let plan = build_export_layouts(request, BIT).expect("export should succeed");
    let mut widths: Vec<f64> = plan.layouts[0].parts.iter().map(|p| width(&p.shape)).collect();
    widths.sort_by(f64::total_cmp);
    assert_eq!(widths.len(), 2);
    assert!((widths[0] - 10.0).abs() < 1e-6, "id 0's 10x10 part should export at its own size, got {widths:?}");
    assert!((widths[1] - 30.0).abs() < 1e-6, "id 1's 30x30 part should export at its own size, got {widths:?}");
}

#[test]
fn export_dxf_command_carries_a_parts_texts_through_the_dto_boundary() {
    let mut part = square(10.0);
    part.texts.push(TextDto {
        position: PointDto { x: s(1.0), y: s(1.0) },
        rotation_deg: s(0.0),
        height: s(1.5),
        value: "LABEL".to_string(),
        is_multiline: false,
    });
    let request = ExportRequest {
        sheets: vec![square(100.0)],
        parts_by_id: HashMap::from([(0, part)]),
        placements: vec![SheetPlacementDto { sheet_index: 0, parts: vec![placed(0, 20.0, 0.0)] }],
        sheet_spacing: s(20.0),
        include_sheet_outline: false,
        include_unplaced: false,
    };
    let plan = build_export_layouts(request, BIT).expect("export should succeed");
    let drawn = &plan.layouts[0].parts[0];
    assert_eq!(drawn.shape.texts.len(), 1);
    assert_eq!(drawn.shape.texts[0].value, "LABEL");
    assert_eq!(drawn.shape.texts[0].height, s(1.5));
    assert_eq!(drawn.x, s(20.0));
}

#[test]
fn never_placed_parts_are_exported_only_when_asked_for() {
    let request = |include_unplaced: bool| ExportRequest {
        sheets: vec![square(12.0)],
        parts_by_id: HashMap::from([(0, square(10.0)), (1, square(10.0)), (2, square(10.0))]),
        placements: vec![SheetPlacementDto { sheet_index: 0, parts: vec![placed(1, 0.0, 0.0)] }],
        sheet_spacing: s(20.0),
        include_sheet_outline: false,
        include_unplaced,
    };
    let plan = build_export_layouts(request(false), BIT).expect("export should succeed");
    assert_eq!(plan.layouts[0].parts.len(), 1);
    assert!(plan.unplaced.is_empty());

    let plan = build_export_layouts(request(true), BIT).expect("export should succeed");
    assert_eq!(plan.layouts[0].parts.len() + plan.unplaced.len(), 3);
    assert_eq!(plan.unplaced.iter().map(|u| u.0).collect::<Vec<_>>(), vec![0, 2]);
}

#[test]
fn a_flipped_shape_is_another_side_of_a_part_and_not_one_left_over() {
    let request = |placed_ids: &[usize]| ExportRequest {
        sheets: vec![square(100.0)],
        parts_by_id: (0..3).flat_map(|id| [(id, square(10.0)), (id ^ BIT, square(10.0))]).collect(),
        placements: vec![SheetPlacementDto { sheet_index: 0, parts: placed_ids.iter().map(|&id| placed(id, id as f64, 0.0)).collect() }],
        sheet_spacing: s(20.0),
        include_sheet_outline: false,
        include_unplaced: true,
    };
    let left = |placed_ids: &[usize]| -> Vec<usize> {
        let plan = build_export_layouts(request(placed_ids), BIT).expect("export should succeed");
        assert_eq!(plan.layouts[0].parts.len(), placed_ids.len());
        plan.unplaced.iter().map(|u| u.0).collect()
    };
    assert_eq!(left(&[0, 1, 2]), Vec::<usize>::new(), "everything was placed");
    assert_eq!(left(&[0, 1 ^ BIT, 2 ^ BIT]), Vec::<usize>::new(), "everything was placed, two of them flipped");
    assert_eq!(left(&[2 ^ BIT]), vec![0, 1]);
    assert_eq!(left(&[]), vec![0, 1, 2]);
}

#[test]
fn a_part_that_is_placed_twice_is_refused() {
    let request = ExportRequest {
        sheets: vec![square(100.0)],
        parts_by_id: HashMap::from([(0, square(10.0))]),
        placements: vec![SheetPlacementDto { sheet_index: 0, parts: vec![placed(0, 0.0, 0.0), placed(0, 20.0, 0.0)] }],
        sheet_spacing: s(0.0),
        include_sheet_outline: false,
        include_unplaced: false,
    };
    assert!(build_export_layouts(request, BIT).is_err());
}

#[test]
fn export_report_rejects_the_same_bad_input_the_other_exporters_do() {
    let request = ReportRequest {
        export: ExportRequest {
            sheets: vec![square(100.0)],
            parts_by_id: HashMap::new(),
            placements: vec![SheetPlacementDto { sheet_index: 0, parts: vec![placed(9, 0.0, 0.0)] }],
            sheet_spacing: s(0.0),
            include_sheet_outline: true,
            include_unplaced: false,
        },
        config: config(),
        parts: Vec::new(),
        title: None,
    };
    assert!(export_report(request, &measures(), Ok(clean())).is_err());
}

#[test]
fn a_report_lists_the_job_and_pictures_only_what_is_placed() {
    let request = ReportRequest {
        export: ExportRequest {
            sheets: vec![square(100.0)],
            parts_by_id: HashMap::from([(0, square(10.0)), (1, square(10.0)), (2, square(10.0))]),
            placements: vec![SheetPlacementDto { sheet_index: 0, parts: vec![placed(0, 0.0, 0.0), placed(1, 20.0, 0.0)] }],
            sheet_spacing: s(10.0),
            include_sheet_outline: true,
            include_unplaced: true,
        },
        config: NestConfigDto { mirror: true, seed: 7, ..config() },
        parts: vec![ReportPartDto { name: "bracket".to_string(), quantity: 2, nested: 2, polygon: square(10.0) }],
        title: Some("Job 42".to_string()),
    };
    let check = AuditReportDto {
        passed: false,
        fatal_count: 1,
        warning_count: 0,
        issues: vec![AuditIssueDto { kind: "overlap".to_string(), fatal: true, sheet_index: 0, part_ids: vec![0, 1] }],
    };
    let (plan, meta) = match export_report(request, &measures(), Ok(check)) {
        Ok(made) => made,
        Err(message) => panic!("{message}"),
    };
    assert_eq!(plan.layouts[0].parts.len(), 2);
    assert!(plan.unplaced.is_empty(), "what was never placed must not be drawn");
    assert_eq!(meta.title, "Job 42");
    assert_eq!(meta.parts, vec![("bracket".to_string(), 2)]);
    let settings: Vec<(&str, &str)> = meta.settings.iter().map(|(k, v)| (k.as_str(), v.as_str())).collect();
    assert_eq!(
        settings,
        vec![
            ("Margin", "0 mm"),
            ("Spacing", "0 mm"),
            ("Runs", "1"),
            ("Starting rotations", "1"),
            ("Mirroring", "allowed"),
            ("Curve tolerance", "0.3 mm"),
            ("Seed", "7"),
        ]
    );
    assert_eq!(meta.audit.headline, "FAILED - 1 fatal issue(s), 0 warning(s). DO NOT CUT.");
    assert_eq!(meta.audit.issues, vec!["OVERLAP - sheet 1, #0 + #1".to_string()]);
}

#[test]
fn every_export_is_named_for_the_moment_it_was_made() {
    let name = export_file_name("pdf");
    let stamp: String = name.chars().map(|c| if c.is_ascii_digit() { '0' } else { c }).collect();
    assert_eq!(stamp, "NEST00-00_0000-00-00.pdf", "got {name}");
}

#[test]
fn a_name_holds_every_field_of_its_moment() {
    let at = LocalMoment { year: 2026, month: 3, day: 9, hour: 8, minute: 5 };
    assert_eq!(export_name_at(at, "dxf"), "NEST08-05_2026-03-09.dxf");
    let late = LocalMoment { year: 12026, month: 12, day: 31, hour: 23, minute: 59 };
    assert_eq!(export_name_at(late, "svg"), "NEST23-59_+12026-12-31.svg");
    let early = LocalMoment { year: -7, month: 1, day: 1, hour: 0, minute: 0 };
    assert_eq!(export_name_at(early, "svg"), "NEST00-00_-0007-01-01.svg");
}

#[test]
fn every_format_has_its_label_and_extension() {
    let named: Vec<(&str, &str)> = ExportFormat::ALL.iter().map(|f| (f.ext(), f.label())).collect();
    assert_eq!(named, vec![("dxf", "DXF"), ("svg", "SVG"), ("pdf", "PDF REPORT")]);
}
