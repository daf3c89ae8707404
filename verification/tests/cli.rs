//! The headless tool.

use rustynesting::audit::{AuditIssueDto, AuditReportDto};
use rustynesting::cli::{number, parse_args, parse_size, placement_type, split_size, Options, Reading, USAGE};
use rustynesting::config::PlacementTypeDto;
use rustynesting::export::ExportFormat;
use rustynesting::headless::{add_file, is_svg, output_format, placed_count, quantity_for, report_json, report_lines, size_warning, stock, Figures};
use rustynesting::placement::{PlacedPartDto, SheetPlacementDto};
use rustynesting::scalar::Scalar;
use rustynesting::shape::{PointDto, PolygonDto};

fn s(value: f64) -> Scalar {
    Scalar { bits: value.to_bits() }
}

fn measure(text: &str) -> Option<Scalar> {
    text.parse::<f64>().ok().map(s)
}

fn reading(text: &str) -> Reading {
    let sides = split_size(text);
    Reading {
        measure: measure(text),
        width: sides.and_then(|(w, _)| measure(w)),
        height: sides.and_then(|(_, h)| measure(h)),
    }
}

fn parse(line: &[&str]) -> Result<Option<Options>, String> {
    let args: Vec<String> = line.iter().map(|a| a.to_string()).collect();
    let readings: Vec<Reading> = line.iter().map(|a| reading(a)).collect();
    parse_args(&args, &readings)
}

fn options(line: &[&str]) -> Options {
    match parse(line) {
        Ok(Some(options)) => options,
        Ok(None) => panic!("help was not asked for"),
        Err(message) => panic!("{message}"),
    }
}

fn mistake(line: &[&str]) -> String {
    match parse(line) {
        Ok(_) => panic!("{line:?} should be refused"),
        Err(message) => message,
    }
}

#[test]
fn a_file_alone_takes_every_default() {
    let o = options(&["a.dxf"]);
    assert_eq!(o.files, vec![("a.dxf".to_string(), None)]);
    assert_eq!(o.sheet, (s(2440.0), s(1220.0)));
    assert_eq!((o.sheets, o.qty), (100, 1));
    assert_eq!((o.config.rotations, o.config.population_size, o.config.generations, o.config.runs), (4, 10, 5, 1));
    assert_eq!(o.config.placement_type, PlacementTypeDto::TightFit);
    assert_eq!((o.config.mutation_rate, o.config.curve_tolerance), (s(10.0), s(0.1)));
    assert_eq!(o.config.dominant_part_area_threshold, s(0.9));
    assert!(!o.json && !o.include_unplaced && o.out.is_none() && o.svg_unit.is_none());
}

#[test]
fn every_option_lands_in_its_place() {
    let o = options(&[
        "--sheet", "1000X500.5", "--sheets", "7", "--margin", "1.5", "--spacing", "2", "--kerf", "0.2", "--rotations", "8",
        "--generations", "9", "--population", "12", "--runs", "3", "--seed", "18446744073709551615", "--placement", "Convex-Hull",
        "--tolerance", "0.25", "--svg-unit", "mm", "--out", "out.svg", "--unplaced", "--json", "a.svg",
    ]);
    assert_eq!(o.sheet, (s(1000.0), s(500.5)));
    assert_eq!(o.sheets, 7);
    assert_eq!((o.config.margin, o.config.spacing, o.config.kerf), (s(1.5), s(2.0), s(0.2)));
    assert_eq!((o.config.rotations, o.config.generations, o.config.population_size, o.config.runs), (8, 9, 12, 3));
    assert_eq!(o.config.seed, u64::MAX);
    assert_eq!(o.config.placement_type, PlacementTypeDto::ConvexHull);
    assert_eq!(o.config.curve_tolerance, s(0.25));
    assert_eq!(o.svg_unit.as_deref(), Some("mm"));
    assert_eq!(o.out.as_deref(), Some("out.svg"));
    assert!(o.include_unplaced && o.json);
}

#[test]
fn quantities_can_be_mixed() {
    let o = options(&["--qty", "250", "a.dxf", "--qty", "50", "b.dxf"]);
    assert_eq!(o.files, vec![("a.dxf".to_string(), Some(250)), ("b.dxf".to_string(), Some(50))]);
    assert_eq!((quantity_for(&o, 0), quantity_for(&o, 1)), (250, 50));
    // A file before any --qty takes what the flag settles on.
    let o = options(&["a.dxf", "--qty", "250", "--qty", "3"]);
    assert_eq!(quantity_for(&o, 0), 3);
}

#[test]
fn mistakes_are_named() {
    assert_eq!(mistake(&["--qty"]), "--qty needs a value");
    assert_eq!(mistake(&["--qty", "many", "a.dxf"]), "--qty: 'many' is not a number");
    assert_eq!(mistake(&["--rotations", "4294967296", "a.dxf"]), "--rotations: '4294967296' is not a number");
    assert_eq!(mistake(&["--margin", "wide", "a.dxf"]), "--margin: 'wide' is not a number");
    assert_eq!(mistake(&["--sheet", "2440", "a.dxf"]), "--sheet: expected WxH, got '2440'");
    assert_eq!(mistake(&["--sheet", "wx10", "a.dxf"]), "--sheet: 'w' is not a number");
    assert_eq!(mistake(&["--sheet", "10x10x10", "a.dxf"]), "--sheet: '10x10' is not a number");
    assert_eq!(mistake(&["--placement", "Snug_Fit", "a.dxf"]), "--placement: unknown type 'snugfit'");
    assert_eq!(mistake(&["--nope", "a.dxf"]), format!("unknown option '--nope'\n\n{USAGE}"));
    assert_eq!(mistake(&["-"]), format!("unknown option '-'\n\n{USAGE}"));
    assert_eq!(mistake(&["--json"]), format!("no input files\n\n{USAGE}"));
    assert_eq!(mistake(&[]), format!("no input files\n\n{USAGE}"));
}

#[test]
fn help_wins_over_what_follows_it() {
    assert!(matches!(parse(&["-h", "--nope"]), Ok(None)));
    assert!(matches!(parse(&["a.dxf", "--help"]), Ok(None)));
    assert!(parse(&["--nope", "-h"]).is_err());
    assert!(USAGE.starts_with("nest - headless nesting\n\nUSAGE:\n    nest [OPTIONS]"));
    assert!(USAGE.ends_with("    -h, --help         this\n"));
}

#[test]
fn values_are_read_one_by_one() {
    assert_eq!(number("+7", "--sheets", 100), Ok(7));
    assert_eq!(number("", "--sheets", 100), Err("--sheets: '' is not a number".to_string()));
    assert_eq!(parse_size("3x4", reading("3x4")), Ok((s(3.0), s(4.0))));
    for (name, kind) in [
        ("gravity", PlacementTypeDto::Gravity),
        ("BOX", PlacementTypeDto::Box),
        ("convex_hull", PlacementTypeDto::ConvexHull),
        ("tight-fit", PlacementTypeDto::TightFit),
        ("GravityTightFit", PlacementTypeDto::GravityTightFit),
        ("gravity-corrective", PlacementTypeDto::GravityCorrective),
    ] {
        assert_eq!(placement_type(name), Ok(kind));
    }
}

fn square(size: f64) -> PolygonDto {
    let points = [(0.0, 0.0), (size, 0.0), (size, size), (0.0, size)];
    PolygonDto::new(points.iter().map(|&(x, y)| PointDto { x: s(x), y: s(y) }).collect(), "0".to_string(), None)
}

#[test]
fn every_shape_of_a_file_is_a_part() {
    let mut parts = Vec::new();
    assert_eq!(add_file(&mut parts, "a.dxf", vec![square(1.0), square(2.0)], 5), Ok(()));
    assert_eq!(add_file(&mut parts, "b.dxf", vec![square(3.0)], 1), Ok(()));
    assert_eq!(parts.len(), 3);
    assert_eq!(parts.iter().map(|p| p.quantity).collect::<Vec<_>>(), vec![5, 5, 1]);
    assert_eq!(parts[1].polygon.points[2].x, s(2.0));
    assert!(parts.iter().all(|p| p.allowed_rotations.is_none() && p.mirror.is_none()));
    assert_eq!(add_file(&mut parts, "empty.dxf", Vec::new(), 1), Err("empty.dxf: no closed profiles found".to_string()));
    assert_eq!(parts.len(), 3);
}

#[test]
fn the_stock_is_so_many_sheets_of_one_size() {
    let sheets = stock(&options(&["--sheet", "30x20", "--sheets", "2", "a.dxf"]));
    assert_eq!(sheets.len(), 2);
    let corners: Vec<(Scalar, Scalar)> = sheets[1].points.iter().map(|p| (p.x, p.y)).collect();
    assert_eq!(corners, vec![(s(0.0), s(0.0)), (s(30.0), s(0.0)), (s(30.0), s(20.0)), (s(0.0), s(20.0))]);
    assert_eq!(sheets[0].layer, "sheet");
}

#[test]
fn the_format_comes_from_the_extension() {
    let ext = |text: &str| Some(text.to_string());
    assert_eq!(output_format(&ext("SVG")), Ok(ExportFormat::Svg));
    assert_eq!(output_format(&ext("dxf")), Ok(ExportFormat::Dxf));
    assert_eq!(output_format(&ext("PDF")), Err("--out: don't know how to write 'pdf'".to_string()));
    assert_eq!(output_format(&None), Err("--out: don't know how to write 'a file with no extension'".to_string()));
    assert!(is_svg(&ext("Svg")) && !is_svg(&ext("dxf")) && !is_svg(&None));
    assert_eq!(
        size_warning("a.svg"),
        "a.svg does not say how big it is (viewBox but no width/height) - assuming 96dpi. Use --svg-unit."
    );
}

fn sheet(index: usize, count: usize) -> SheetPlacementDto {
    SheetPlacementDto {
        sheet_index: index,
        parts: (0..count).map(|id| PlacedPartDto { id, x: s(0.0), y: s(0.0), rotation: s(0.0), locked: false }).collect(),
    }
}

fn figures() -> Figures {
    Figures {
        utilisation: "71.50".to_string(),
        best: "80.00".to_string(),
        mean: "71.50".to_string(),
        fitness: "12.00".to_string(),
        elapsed: "1.250".to_string(),
        per_sheet: vec!["80.00".to_string(), "63.00".to_string()],
    }
}

#[test]
fn the_report_has_a_fixed_shape() {
    let placements = vec![sheet(0, 3), sheet(1, 2)];
    let warned = AuditReportDto {
        passed: true,
        fatal_count: 0,
        warning_count: 1,
        issues: vec![AuditIssueDto { kind: "below_spacing".to_string(), fatal: false, sheet_index: 1, part_ids: vec![0, 1] }],
    };
    assert_eq!(placed_count(&placements), 5);
    assert_eq!(
        report_json(&placements, 4, &warned, &figures()),
        "{\"sheets\":2,\"placed\":5,\"unplaced\":4,\"utilisation\":71.50,\"best_sheet\":80.00,\"mean_sheet\":71.50,\"fitness\":12.00,\"audit\":\"WARNED\",\"seconds\":1.250,\"per_sheet\":[80.00,63.00],\"per_sheet_parts\":[3,2]}"
    );
    assert_eq!(
        report_lines(&placements, 4, &warned, &figures()),
        vec![
            "sheets used   2",
            "parts placed  5",
            "unplaced      4",
            "utilisation   71.50%",
            "best sheet    80.00%",
            "mean sheet    71.50%",
            "audit         WARNED",
            "  warn  below_spacing on sheet 2: [0, 1]",
            "elapsed       1.250",
        ]
    );
}
