//! The library of shapes, the rules of a row, the settings form, the status
//! lines and the live view.

use rustynesting::bounds::bounds_of;
use rustynesting::live::{step_history, CandidateMark, GhostSet, LiveFrame, Snapshot, LIVE_FRAME};
use rustynesting::placement::PlacedPartDto;
use rustynesting::scalar::Scalar;
use rustynesting::shape::{PointDto, PolygonDto};
use rustynesting::state::{ConfigForm, MirrorRule, Role, RotRule, Status};
use rustynesting::store::{now_stamp, stamp_of, ShapeStore, StoredKind};
use rustynesting::text::comes_before;

fn s(value: f64) -> Scalar {
    Scalar { bits: value.to_bits() }
}

fn f(value: Scalar) -> f64 {
    f64::from_bits(value.bits)
}

fn points(w: f64, h: f64) -> Vec<PointDto> {
    [(0.0, 0.0), (w, 0.0), (w, h), (0.0, h)].iter().map(|&(x, y)| PointDto { x: s(x), y: s(y) }).collect()
}

fn square(size: f64) -> PolygonDto {
    PolygonDto::new(points(size, size), "0".to_string(), None)
}

fn keep(store: &mut ShapeStore, kind: StoredKind, created: &str) -> usize {
    store.add(kind, format!("kept at {created}"), square(10.0), 1, None, None, created.to_string())
}

#[test]
fn every_rotation_rule_survives_a_store_round_trip() {
    for rule in RotRule::ALL {
        let stored = rule.angles();
        assert_eq!(RotRule::from_angles(&stored), rule, "{rule:?} did not survive the round trip");
    }
}

#[test]
fn every_mirror_rule_survives_a_store_round_trip() {
    for rule in MirrorRule::ALL {
        assert_eq!(MirrorRule::from_option(rule.as_option()), rule, "{rule:?} did not survive the round trip");
    }
}

#[test]
fn an_unknown_angle_set_falls_back_to_unconstrained() {
    assert_eq!(RotRule::from_angles(&Some(vec![s(17.0), s(191.0)])), RotRule::Any);
}

#[test]
fn every_rule_and_role_has_its_key() {
    let mut keys: Vec<&str> = Role::ALL.iter().map(|r| r.key()).collect();
    keys.extend(RotRule::ALL.iter().map(|r| r.key()));
    keys.extend(MirrorRule::ALL.iter().map(|r| r.key()));
    let count = keys.len();
    keys.sort();
    keys.dedup();
    assert_eq!(keys.len(), count, "two of them share a key");
}

/// The number in the cleaning pass's field, if there is one to be read.
fn cleanup(form: &ConfigForm) -> Option<Scalar> {
    form.cleanup_entry().parse::<f64>().ok().map(s)
}

#[test]
fn a_blank_cleanup_threshold_means_off() {
    let mut form = ConfigForm::default();
    assert_eq!(form.to_dto(cleanup(&form)).cleanup_threshold_percent, None);
    form.cleanup_threshold = "  ".to_string();
    assert_eq!(form.to_dto(cleanup(&form)).cleanup_threshold_percent, None);
    form.cleanup_threshold = "40".to_string();
    assert_eq!(form.to_dto(cleanup(&form)).cleanup_threshold_percent, Some(s(40.0)));
    form.cleanup_threshold = " 40\t".to_string();
    assert_eq!(form.to_dto(cleanup(&form)).cleanup_threshold_percent, Some(s(40.0)));
    form.cleanup_threshold = "forty".to_string();
    assert_eq!(form.to_dto(cleanup(&form)).cleanup_threshold_percent, None);
}

#[test]
fn loading_a_saved_config_never_restores_the_mirror_switch() {
    let mut form = ConfigForm::default();
    let mut saved = form.to_dto(None);
    saved.mirror = true;
    saved.spacing = s(6.5);
    form.from_dto(&saved, String::new());
    assert_eq!(form.spacing, s(6.5), "ordinary fields must round-trip");
    assert!(!form.mirror, "mirror must always start off, however it was saved");
}

#[test]
fn the_nan_sweep_names_the_offending_field() {
    let mut form = ConfigForm::default();
    assert_eq!(form.first_nan_field(), None);
    form.spacing = s(f64::NAN);
    assert_eq!(form.first_nan_field(), Some("cfg_spacing"));
}

#[test]
fn a_status_says_one_thing_at_a_time() {
    let mut status = Status::default();
    status.err("no".to_string());
    assert!(status.error && status.text == "no");
    status.ok("yes".to_string());
    assert!(!status.error && status.text == "yes");
    status.clear();
    assert!(!status.error && status.text.is_empty());
}

#[test]
fn library_ids_are_never_reused() {
    let mut store = ShapeStore::default();
    let a = keep(&mut store, StoredKind::Part, "1");
    let b = keep(&mut store, StoredKind::Part, "2");
    assert_eq!((a, b), (1, 2));
    assert!(store.remove(b));
    assert!(!store.remove(b));
    let c = keep(&mut store, StoredKind::Part, "3");
    assert_eq!(c, 3, "the id of a removed entry must not come back");
}

#[test]
fn no_id_is_given_out_twice_whatever_happens_in_between() {
    let mut store = ShapeStore::default();
    let mut given = Vec::new();
    for round in 0..5 {
        given.push(keep(&mut store, StoredKind::Remnant, "1"));
        given.push(keep(&mut store, StoredKind::Part, "2"));
        let newest = *given.last().unwrap();
        if round % 2 == 0 {
            assert!(store.remove(newest));
        } else {
            assert!(store.consume(newest));
        }
        assert!(store.shapes.iter().all(|e| e.id < store.next_id));
    }
    for id in given.clone() {
        store.remove(id);
    }
    assert!(store.shapes.is_empty());
    given.push(keep(&mut store, StoredKind::Part, "3"));
    assert_eq!(given, (1..=11).collect::<Vec<_>>());

    // A file that does not say which id comes next still gets a free one, and
    // removing it does not free it.
    store.next_id = 0;
    assert!(store.remove(11));
    assert_eq!(store.next_id, 12);
    assert_eq!(keep(&mut store, StoredKind::Part, "4"), 12);
}

#[test]
fn a_library_says_how_many_more_ids_it_has() {
    let mut store = ShapeStore::default();
    assert!(store.has_room(usize::MAX - 2));
    assert!(!store.has_room(usize::MAX - 1));
    keep(&mut store, StoredKind::Part, "1");
    assert!(store.has_room(usize::MAX - 3));
    assert!(!store.has_room(usize::MAX - 2));
    store.shapes[0].id = usize::MAX - 2;
    assert!(store.has_room(0));
    assert!(!store.has_room(1));
    store.shapes[0].id = usize::MAX;
    assert!(!store.has_room(0));
}

#[test]
fn offcuts_are_offered_oldest_first_and_only_once() {
    let mut store = ShapeStore::default();
    let newer = keep(&mut store, StoredKind::Remnant, "000000000200");
    let older = keep(&mut store, StoredKind::Remnant, "000000000100");
    keep(&mut store, StoredKind::Part, "000000000050");
    let offered: Vec<usize> = store.available(StoredKind::Remnant).iter().map(|e| e.id).collect();
    assert_eq!(offered, vec![older, newer]);
    assert!(store.consume(older));
    let offered: Vec<usize> = store.available(StoredKind::Remnant).iter().map(|e| e.id).collect();
    assert_eq!(offered, vec![newer], "a used offcut is not offered again");
    assert!(!store.consume(99));
}

#[test]
fn stamps_sort_as_their_moments_do() {
    assert_eq!(stamp_of(42), "000000000042");
    assert!(comes_before(&stamp_of(99), &stamp_of(100)));
    let now = now_stamp();
    assert_eq!(now.len(), 12);
    assert!(comes_before(&stamp_of(1_600_000_000), &now), "the clock stands before 2020: {now}");
}

fn snap(fitness: f64) -> Snapshot {
    Snapshot {
        placements: Vec::new(),
        fitness: s(fitness),
        utilisation: s(0.0),
        unplaced_count: 0,
        unplaced_ids: Vec::new(),
        locked: Vec::new(),
    }
}

#[test]
fn undo_and_redo_are_inverse() {
    let (mut undo, mut redo) = (vec![snap(1.0), snap(2.0)], Vec::new());
    let mut current = Some(snap(3.0));

    assert!(step_history(&mut undo, &mut redo, &mut current));
    assert_eq!(f(current.as_ref().unwrap().fitness), 2.0);
    assert!(step_history(&mut undo, &mut redo, &mut current));
    assert_eq!(f(current.as_ref().unwrap().fitness), 1.0);
    assert!(!step_history(&mut undo, &mut redo, &mut current), "nothing left to undo");
    assert_eq!(f(current.as_ref().unwrap().fitness), 1.0, "a failed step must not move anything");

    assert!(step_history(&mut redo, &mut undo, &mut current));
    assert!(step_history(&mut redo, &mut undo, &mut current));
    assert_eq!(f(current.as_ref().unwrap().fitness), 3.0, "back where it started");
    assert!(redo.is_empty());
    assert_eq!(undo.len(), 2, "the undo stack must be rebuilt, not duplicated");
    assert!(!step_history(&mut redo, &mut undo, &mut current));
}

#[test]
fn toggling_a_pin_twice_changes_nothing() {
    let mut snapshot = snap(1.0);
    assert!(snapshot.toggle_pin(4));
    assert_eq!(snapshot.locked, vec![4]);
    assert!(!snapshot.toggle_pin(4));
    assert!(snapshot.locked.is_empty());
}

fn part(id: usize, x: f64, y: f64) -> PlacedPartDto {
    PlacedPartDto { id, x: s(x), y: s(y), rotation: s(0.0), locked: false }
}

#[test]
fn accumulates_parts_onto_their_own_sheets() {
    let mut frame = LiveFrame::default();
    frame.push(0, &part(1, 10.0, 20.0));
    frame.push(2, &part(2, 30.0, 40.0));

    assert_eq!(frame.sheets.len(), 3, "sheet 2 must create the empty sheet 1 before it");
    assert_eq!(frame.sheets[0].parts.len(), 1);
    assert!(frame.sheets[1].parts.is_empty());
    assert_eq!(frame.sheets[2].parts[0].id, 2);
    assert_eq!(f(frame.sheets[2].parts[0].x), 30.0);
    assert_eq!(frame.sheets.iter().map(|s| s.sheet_index).collect::<Vec<_>>(), vec![0, 1, 2]);
}

#[test]
fn a_landed_part_clears_the_ghosts_that_preceded_it() {
    let mut frame = LiveFrame::default();
    frame.marks = Some(GhostSet {
        sheet: 0,
        part_id: 7,
        positions: vec![CandidateMark { x: s(0.0), y: s(0.0), rotation: s(0.0), accepted: true }],
    });
    frame.push(0, &part(7, 1.0, 2.0));
    assert!(frame.marks.is_none());
}

#[test]
fn reset_drops_the_previous_individuals_layout() {
    let mut frame = LiveFrame::default();
    frame.push(0, &part(1, 0.0, 0.0));
    frame.reset();
    assert!(frame.sheets.is_empty());
    assert!(frame.marks.is_none());
}

#[test]
fn frames_are_rate_limited_but_never_lose_the_accumulated_layout() {
    let mut frame = LiveFrame::default();
    let t0: u64 = 5_000_000_000;
    frame.push(0, &part(1, 0.0, 0.0));

    let (placements, _) = frame.due(t0).expect("first frame should send immediately");
    assert_eq!(placements[0].parts.len(), 1);

    frame.push(0, &part(2, 5.0, 5.0));
    assert!(frame.due(t0 + LIVE_FRAME / 2).is_none(), "a second frame inside the window must be withheld");

    let (placements, _) = frame.due(t0 + LIVE_FRAME).expect("the window has passed");
    assert_eq!(placements[0].parts.len(), 2);
}

#[test]
fn the_box_of_a_known_rectangle() {
    let b = bounds_of(&points(3.0, 4.0));
    assert_eq!((f(b.minx), f(b.miny), f(b.maxx), f(b.maxy)), (0.0, 0.0, 3.0, 4.0));
    let mut reversed = points(3.0, 4.0);
    reversed.reverse();
    assert_eq!(bounds_of(&reversed), b);
    let empty = bounds_of(&Vec::new());
    assert_eq!((f(empty.minx), f(empty.miny), f(empty.maxx), f(empty.maxy)), (0.0, 0.0, 0.0, 0.0));
}

#[test]
fn the_box_leaves_out_what_is_not_a_number() {
    let odd = vec![PointDto { x: s(f64::NAN), y: s(1.0) }, PointDto { x: s(-2.0), y: s(f64::NAN) }];
    let b = bounds_of(&odd);
    assert_eq!((f(b.minx), f(b.maxx), f(b.miny), f(b.maxy)), (-2.0, -2.0, 1.0, 1.0));
}
