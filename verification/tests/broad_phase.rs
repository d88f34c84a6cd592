use collision::particle::{Particle, Rgba};
use collision::sweep::{sort_by_left_extent, sweep_candidates};

fn tint(r: u8) -> Rgba {
    Rgba { r, g: 50, b: 80, a: 125 }
}

fn still(x: i64, radius: i64, id: usize) -> Particle {
    Particle { x, y: 0, vx: 0, vy: 0, radius, color: tint(id as u8), id }
}

fn has_pair(pairs: &Vec<(usize, usize)>, a: usize, b: usize) -> bool {
    pairs.iter().any(|&(x, y)| (x, y) == (a, b) || (x, y) == (b, a))
}

#[test]
fn sort_orders_by_left_extent() {
    let mut v = vec![still(40_000, 14_000, 0), still(0, 20_000, 1), still(-5_000, 13_000, 2)];
    sort_by_left_extent(&mut v);
    assert!(v[0].x - v[0].radius <= v[1].x - v[1].radius);
    assert!(v[1].x - v[1].radius <= v[2].x - v[2].radius);
    assert_eq!(v.len(), 3);
}

#[test]
fn sweep_reports_every_true_overlap() {
    // equal radii of 15 units at x = 0, 25, 26 and 200 units: the first
    // three pairwise overlap, the last is far away
    let mut v = vec![still(26_000, 15_000, 2), still(0, 15_000, 0), still(200_000, 15_000, 3),
        still(25_000, 15_000, 1)];
    sort_by_left_extent(&mut v);
    let pairs = sweep_candidates(&v);
    assert!(has_pair(&pairs, 0, 1));
    assert!(has_pair(&pairs, 0, 2));
    assert!(has_pair(&pairs, 1, 2));
    assert!(!has_pair(&pairs, 3, 0));
    assert!(!has_pair(&pairs, 3, 1));
    assert!(!has_pair(&pairs, 3, 2));
}

#[test]
fn mixed_radii_reachback_pair_is_found() {
    // a wide particle whose left extent reaches back past a small one
    // that an interposed particle has already passed: the pair of the
    // small and the wide one truly overlaps and must be reported
    let mut v = vec![still(0, 13_000, 0), still(27_000, 13_000, 1), still(32_000, 20_000, 2)];
    sort_by_left_extent(&mut v);
    let pairs = sweep_candidates(&v);
    assert!(has_pair(&pairs, 0, 2));
    assert!(has_pair(&pairs, 1, 2));
}

#[test]
fn sweep_of_one_particle_has_no_candidates() {
    let v = vec![still(10_000, 15_000, 0)];
    let pairs = sweep_candidates(&v);
    assert_eq!(pairs.len(), 0);
}

#[test]
fn sorting_keeps_id_binding() {
    let bodies = vec![
        Particle { x: 90_000, y: 1, vx: 10, vy: -20, radius: 14_000, color: tint(9), id: 0 },
        Particle { x: 10_000, y: 2, vx: 30, vy: 40, radius: 19_000, color: tint(8), id: 1 },
        Particle { x: 50_000, y: 3, vx: -50, vy: 60, radius: 13_000, color: tint(7), id: 2 },
    ];
    let mut sorted = bodies.clone();
    sort_by_left_extent(&mut sorted);
    for orig in bodies.iter() {
        let found = sorted.iter().find(|p| p.id == orig.id).unwrap();
        assert_eq!(found, orig);
    }
}

#[test]
fn false_positive_candidate_is_rejected_by_narrow_phase() {
    // x extents overlap but the circles are far apart vertically: the
    // sweep may report the pair, the resolution must leave it untouched
    let a = Particle { x: 0, y: 0, vx: 500, vy: 600, radius: 15_000, color: tint(1), id: 0 };
    let p = Particle {
        x: 20_000,
        y: 100_000,
        vx: -700,
        vy: 800,
        radius: 15_000,
        color: tint(2),
        id: 1,
    };
    let mut v = vec![a, p];
    sort_by_left_extent(&mut v);
    let pairs = sweep_candidates(&v);
    assert!(has_pair(&pairs, 0, 1));
    collision::collide::resolve_collision(&mut v, 1, 0);
    let q0 = v.iter().find(|q| q.id == 0).unwrap();
    let q1 = v.iter().find(|q| q.id == 1).unwrap();
    assert_eq!(*q0, a);
    assert_eq!(*q1, p);
}
