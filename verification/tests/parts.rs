//! How the parts of a job are numbered and constrained.

use rustynesting::parts::{expand_parts, normalize_angles, sort_angles, ExpandedParts, PartDto, PartMeasure};
use rustynesting::scalar::Scalar;
use rustynesting::shape::{PointDto, PolygonDto};

const MIRROR_BIT: usize = 1 << 30;

fn s(value: f64) -> Scalar {
    Scalar { bits: value.to_bits() }
}

fn floats(values: &[Scalar]) -> Vec<f64> {
    values.iter().map(|v| f64::from_bits(v.bits)).collect()
}

fn square(size: f64) -> PolygonDto {
    let points = [(0.0, 0.0), (size, 0.0), (size, size), (0.0, size)];
    PolygonDto::new(points.iter().map(|&(x, y)| PointDto { x: s(x), y: s(y) }).collect(), "0".to_string(), None)
}

/// An angle in one turn.
fn wrap(angle: Scalar) -> Scalar {
    s(f64::from_bits(angle.bits).rem_euclid(360.0))
}

/// Whether two angles are less than a degree apart.
fn near(a: Scalar, b: Scalar) -> bool {
    (f64::from_bits(a.bits) - f64::from_bits(b.bits)).abs() < 1.0
}

fn normalized(angles: &[f64]) -> Vec<f64> {
    let given: Vec<Scalar> = angles.iter().map(|&a| s(a)).collect();
    floats(&normalize_angles(&given, &wrap, &near))
}

fn expanded(parts: &Vec<PartDto>, areas: &[f64], mirror: bool) -> ExpandedParts {
    let measures: Vec<PartMeasure> =
        parts.iter().zip(areas).map(|(p, &a)| PartMeasure { box_area: s(a), mirrored: p.polygon.clone() }).collect();
    expand_parts(parts, mirror, MIRROR_BIT, &measures, &wrap, &near)
}

#[test]
fn authored_angles_are_deduped_at_the_cache_keys_own_resolution() {
    let kept = normalized(&[22.5, 22.7, 45.0]);
    assert_eq!(kept, vec![22.5, 45.0], "22.7 is not separable from 22.5");

    let mut keys: Vec<i64> = kept.iter().map(|&a| a as i64).collect();
    let before = keys.len();
    keys.dedup();
    assert_eq!(keys.len(), before, "every surviving angle must own a distinct cache key");
}

#[test]
fn each_angle_is_kept_or_near_one_that_is() {
    assert_eq!(normalized(&[23.1, 22.9]), vec![22.9], "less than a degree apart, on two sides of a whole one");
    assert_eq!(normalized(&[1.2, 0.6, 0.0]), vec![0.0, 1.2], "what was dropped keeps nothing else out");
    assert!(normalized(&[f64::NAN, f64::INFINITY]).is_empty());
    let authored = [359.5, -0.25, 10.0, 10.5, 11.0, 721.0, 0.75];
    let kept = normalized(&authored);
    assert_eq!(kept, vec![0.75, 10.0, 11.0, 359.5]);
    for pair in kept.windows(2) {
        assert!(pair[1] - pair[0] >= 1.0);
    }
    for angle in authored {
        let turned = angle.rem_euclid(360.0);
        assert!(kept.iter().any(|k| (k - turned).abs() < 1.0), "{angle}");
    }
}

#[test]
fn angles_a_degree_or_more_apart_all_survive() {
    assert_eq!(normalized(&[0.0, 90.0, 180.0, 270.0]).len(), 4);
    assert_eq!(normalized(&[0.0, 1.0, 2.0]).len(), 3);
    assert_eq!(normalized(&[360.0, -90.0, 0.0, f64::NAN]), vec![0.0, 270.0]);
}

#[test]
fn authored_angles_are_normalised_and_a_degenerate_list_means_unconstrained() {
    let parts = vec![PartDto {
        polygon: square(10.0),
        quantity: 1,
        allowed_rotations: Some(vec![s(540.0), s(-90.0), s(180.0), s(180.0), s(f64::NAN)]),
        mirror: None,
    }];
    let made = expanded(&parts, &[100.0], false);
    assert_eq!(floats(&made.part_rules[&0].angles), vec![180.0, 270.0], "540 -> 180 (deduped), -90 -> 270, NaN dropped");

    let parts = vec![PartDto { polygon: square(10.0), quantity: 1, allowed_rotations: Some(Vec::new()), mirror: None }];
    assert!(expanded(&parts, &[100.0], false).part_rules.is_empty(), "an empty allow-list means unconstrained, not unplaceable");
}

#[test]
fn sorted_angles_rise_and_keep_every_angle() {
    let sorted = sort_angles(&vec![s(270.0), s(0.0), s(90.0), s(0.0)]);
    assert_eq!(floats(&sorted), vec![0.0, 0.0, 90.0, 270.0]);
}

#[test]
fn copies_of_a_part_are_numbered_in_one_block() {
    let parts = vec![
        PartDto { polygon: square(10.0), quantity: 2, allowed_rotations: None, mirror: None },
        PartDto { polygon: square(20.0), quantity: 3, allowed_rotations: None, mirror: None },
    ];
    let made = expanded(&parts, &[100.0, 400.0], false);
    let mut ids: Vec<usize> = made.parts_by_id.keys().copied().collect();
    ids.sort();
    assert_eq!(ids, vec![0, 1, 2, 3, 4]);
    assert_eq!(made.shape_ids[&0], made.shape_ids[&1]);
    assert_eq!(made.shape_ids[&2], made.shape_ids[&4]);
    assert_ne!(made.shape_ids[&0], made.shape_ids[&2]);
    // The larger part comes first.
    assert_eq!(made.adam, vec![2, 3, 4, 0, 1]);
}

#[test]
fn a_parts_own_mirror_setting_decides_which_shapes_exist() {
    let parts = vec![
        PartDto { polygon: square(10.0), quantity: 4, allowed_rotations: None, mirror: Some(false) },
        PartDto { polygon: square(8.0), quantity: 4, allowed_rotations: None, mirror: None },
    ];
    let made = expanded(&parts, &[100.0, 64.0], true);
    assert!(made.parts_by_id.keys().all(|id| !(id & MIRROR_BIT != 0 && id & !MIRROR_BIT < 4)));
    assert!((4..8).all(|id| made.parts_by_id.contains_key(&(id | MIRROR_BIT))));
    assert!(!made.part_rules[&0].mirror);

    let parts = vec![
        PartDto { polygon: square(20.0), quantity: 2, allowed_rotations: None, mirror: Some(true) },
        PartDto { polygon: square(15.0), quantity: 2, allowed_rotations: None, mirror: None },
    ];
    let made = expanded(&parts, &[400.0, 225.0], false);
    let mirrored: Vec<usize> = made.parts_by_id.keys().copied().filter(|id| id & MIRROR_BIT != 0).collect();
    assert_eq!(mirrored.len(), 2, "the opted-in part should have mirrored variants");
    assert!(mirrored.iter().all(|id| id & !MIRROR_BIT < 2), "only the opted-in part, got {mirrored:?}");
}
