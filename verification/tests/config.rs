//! What a job must satisfy before anything is nested.

use rustynesting::config::{default_runs, one, validate_job, validate_nest_config, NestConfigDto, PlacementTypeDto};
use rustynesting::parts::{prepare_nest_inputs, Padding, PartDto, PartMeasure, RunNestRequest};
use rustynesting::placement::{PlacedPartDto, SheetPlacementDto};
use rustynesting::requests::{prepare_repack, validate_repack, RepackSheetRequest};
use rustynesting::scalar::Scalar;
use rustynesting::shape::{PointDto, PolygonDto};
use std::collections::HashMap;

fn s(value: f64) -> Scalar {
    Scalar { bits: value.to_bits() }
}

fn square(size: f64) -> PolygonDto {
    let points = [(0.0, 0.0), (size, 0.0), (size, size), (0.0, size)];
    PolygonDto::new(points.iter().map(|&(x, y)| PointDto { x: s(x), y: s(y) }).collect(), "0".to_string(), None)
}

fn part(polygon: PolygonDto, quantity: usize) -> PartDto {
    PartDto { polygon, quantity, allowed_rotations: None, mirror: None }
}

fn config(generations: usize) -> NestConfigDto {
    NestConfigDto {
        placement_type: PlacementTypeDto::Gravity,
        rotations: 1,
        population_size: 6,
        mutation_rate: s(15.0),
        dominant_part_area_threshold: s(0.9),
        curve_tolerance: s(0.3),
        generations,
        margin: s(0.0),
        spacing: s(0.0),
        kerf: s(0.0),
        max_threads: 0,
        seed: 0,
        runs: 1,
        cleanup_threshold_percent: None,
        mirror: false,
    }
}

/// Prepares a job whose outlines all survive their padding.
fn prepare(request: &RunNestRequest) -> Result<usize, String> {
    let sheets: Vec<bool> = request.sheets.iter().map(|_| true).collect();
    let paddings: Vec<Padding> = request.parts.iter().map(|_| Padding { usable: true, mirrored_usable: true }).collect();
    let measures: Vec<PartMeasure> =
        request.parts.iter().map(|p| PartMeasure { box_area: s(1.0), mirrored: p.polygon.clone() }).collect();
    prepare_nest_inputs(request, &sheets, &paddings, 1 << 30, &measures, &|a: Scalar| a, &|a: Scalar, b: Scalar| a == b)
        .map(|expanded| expanded.adam.len())
}

fn job(config: NestConfigDto) -> RunNestRequest {
    RunNestRequest { sheets: vec![square(100.0)], parts: vec![part(square(10.0), 1)], config }
}

#[test]
fn a_plain_job_is_accepted() {
    assert_eq!(prepare(&job(config(1))), Ok(1));
    assert_eq!(one(), 1);
    assert_eq!(default_runs(), 1);
}

#[test]
fn run_nest_rejects_negative_margin_or_spacing() {
    for (margin, spacing, message) in [(-1.0, 0.0, "margin must be >= 0"), (0.0, -1.0, "spacing must be >= 0")] {
        let mut cfg = config(1);
        cfg.margin = s(margin);
        cfg.spacing = s(spacing);
        assert_eq!(prepare(&job(cfg)), Err(message.to_string()), "margin={margin} spacing={spacing} should be rejected");
    }
}

#[test]
fn run_nest_rejects_out_of_range_mutation_rate_curve_tolerance_and_dominant_threshold() {
    for (mutation_rate, curve_tolerance, dominant) in [
        (-1.0, 0.3, 0.9),
        (101.0, 0.3, 0.9),
        (15.0, 0.0, 0.9),
        (15.0, -0.1, 0.9),
        (15.0, 0.3, 0.0),
        (15.0, 0.3, 1.5),
    ] {
        let mut cfg = config(1);
        cfg.mutation_rate = s(mutation_rate);
        cfg.curve_tolerance = s(curve_tolerance);
        cfg.dominant_part_area_threshold = s(dominant);
        assert!(
            prepare(&job(cfg)).is_err(),
            "mutation_rate={mutation_rate} curve_tolerance={curve_tolerance} dominant_part_area_threshold={dominant} should be rejected"
        );
    }
}

#[test]
fn every_limit_of_the_settings_has_its_message() {
    let cases: Vec<(NestConfigDto, &str)> = vec![
        (NestConfigDto { rotations: 0, ..config(1) }, "rotations must be between 1 and 360"),
        (NestConfigDto { rotations: 361, ..config(1) }, "rotations must be between 1 and 360"),
        (NestConfigDto { population_size: 1001, ..config(1) }, "population_size must be between 2 and 1000"),
        (NestConfigDto { generations: 10_001, ..config(1) }, "generations must be between 1 and 10000"),
        (NestConfigDto { max_threads: 257, ..config(1) }, "max_threads must be 256 or less (0 means uncapped)"),
        (NestConfigDto { mutation_rate: s(f64::NAN), ..config(1) }, "mutation_rate must be between 0 and 100"),
        (NestConfigDto { curve_tolerance: s(0.0), ..config(1) }, "curve_tolerance must be > 0"),
        (
            NestConfigDto { dominant_part_area_threshold: s(1.5), ..config(1) },
            "dominant_part_area_threshold must be between 0 (exclusive) and 1",
        ),
    ];
    for (cfg, message) in cases {
        assert_eq!(validate_nest_config(&cfg), Err(message.to_string()));
    }
    assert_eq!(validate_nest_config(&NestConfigDto { rotations: 360, population_size: 1000, max_threads: 256, ..config(10_000) }), Ok(()));
    assert_eq!(validate_job(1, 1, &NestConfigDto { runs: 51, ..config(1) }), Err("runs must be between 1 and 50".to_string()));
    assert_eq!(
        validate_job(1, 1, &NestConfigDto { cleanup_threshold_percent: Some(s(100.5)), ..config(1) }),
        Err("cleanup_threshold_percent must be between 0 and 100".to_string())
    );
    assert_eq!(validate_job(1, 1, &NestConfigDto { cleanup_threshold_percent: Some(s(100.0)), ..config(1) }), Ok(()));
}

#[test]
fn run_nest_rejects_empty_sheets() {
    let request = RunNestRequest { sheets: Vec::new(), parts: vec![part(square(10.0), 1)], config: config(1) };
    assert_eq!(prepare(&request), Err("at least one sheet is required".to_string()));
}

#[test]
fn run_nest_rejects_empty_parts() {
    let request = RunNestRequest { sheets: vec![square(100.0)], parts: Vec::new(), config: config(1) };
    assert_eq!(prepare(&request), Err("at least one part is required".to_string()));
}

#[test]
fn run_nest_excludes_zero_quantity_parts() {
    let request = RunNestRequest { sheets: vec![square(100.0)], parts: vec![part(square(10.0), 0)], config: config(1) };
    assert!(prepare(&request).is_err());
}

#[test]
fn run_nest_nests_only_the_non_zero_quantity_parts_in_a_mix() {
    let request =
        RunNestRequest { sheets: vec![square(100.0)], parts: vec![part(square(10.0), 2), part(square(20.0), 0)], config: config(2) };
    assert_eq!(prepare(&request), Ok(2), "only the 2 copies of the quantity=2 part should be nested");
}

#[test]
fn run_nest_rejects_zero_rotations() {
    let mut cfg = config(1);
    cfg.rotations = 0;
    assert!(prepare(&job(cfg)).is_err());
}

#[test]
fn run_nest_rejects_population_size_under_two() {
    for bad_size in [0, 1] {
        let mut cfg = config(1);
        cfg.population_size = bad_size;
        assert!(prepare(&job(cfg)).is_err(), "population_size {bad_size} should be rejected");
    }
}

#[test]
fn repack_sheet_rejects_the_same_bad_config_values_run_nest_does() {
    let base_request = |cfg: NestConfigDto| RepackSheetRequest {
        sheet: square(100.0),
        placement: SheetPlacementDto {
            sheet_index: 0,
            parts: vec![PlacedPartDto { id: 0, x: s(0.0), y: s(0.0), rotation: s(0.0), locked: false }],
        },
        parts_by_id: HashMap::from([(0, square(10.0))]),
        config: cfg,
        part_rules: HashMap::new(),
    };
    for bad_cfg in [
        NestConfigDto { margin: s(-1.0), ..config(1) },
        NestConfigDto { spacing: s(-1.0), ..config(1) },
        NestConfigDto { mutation_rate: s(-1.0), ..config(1) },
        NestConfigDto { curve_tolerance: s(0.0), ..config(1) },
        NestConfigDto { dominant_part_area_threshold: s(0.0), ..config(1) },
        NestConfigDto { rotations: 0, ..config(1) },
        NestConfigDto { population_size: 1, ..config(1) },
        config(0),
    ] {
        assert!(validate_repack(&base_request(bad_cfg)).is_err());
        assert!(prepare_repack(&base_request(bad_cfg), true, true).is_err());
    }
    assert_eq!(validate_repack(&base_request(config(1))), Ok(()));
}

#[test]
fn bands_are_tried_unless_the_switch_says_otherwise() {
    let cfg = config(1);
    assert!(cfg.placement_config(&None).banded_pass);
    assert!(cfg.placement_config(&Some("0".to_string())).banded_pass);
    assert!(!cfg.placement_config(&Some("1".to_string())).banded_pass);
    assert!(!cfg.placement_config(&Some(String::new())).banded_pass);
    assert_eq!(cfg.placement_config(&None).rotations, 1);
}
