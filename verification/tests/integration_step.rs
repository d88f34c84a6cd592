use collision::particle::{Particle, Rgba};

const W: i64 = 800_000;
const H: i64 = 600_000;
const MS: i64 = 5_600;

fn moving(x: i64, y: i64, vx: i64, vy: i64) -> Particle {
    Particle { x, y, vx, vy, radius: 13_000, color: Rgba { r: 1, g: 2, b: 3, a: 125 }, id: 0 }
}

#[test]
fn integrate_slow_particle_just_moves() {
    let mut p = moving(400_000, 300_000, 3_000, -2_000);
    p.integrate(W, H, MS);
    assert_eq!(p.x, 403_000);
    assert_eq!(p.y, 298_000);
    assert_eq!(p.vx, 3_000);
    assert_eq!(p.vy, -2_000);
}

#[test]
fn integrate_clamps_speed_exactly() {
    // |v| = sqrt(2) * 5 units exceeds the 5.6 cap; the integer square
    // root of 50_000_000 is 7071, so each component becomes
    // 5000 * 5600 / 7072 = 3959
    let mut p = moving(400_000, 300_000, 5_000, 5_000);
    p.integrate(W, H, MS);
    assert_eq!(p.vx, 3_959);
    assert_eq!(p.vy, 3_959);
    assert_eq!(p.x, 403_959);
    assert_eq!(p.y, 303_959);
    assert!(p.vx * p.vx + p.vy * p.vy <= MS * MS);
}

#[test]
fn integrate_snaps_to_wall_and_bounces() {
    // 10 units per tick towards the right wall clamps to 5599 and still
    // overshoots; the circle snaps to the wall and the velocity flips
    let mut p = moving(795_000, 300_000, 10_000, 0);
    p.integrate(W, H, MS);
    assert_eq!(p.x, W - 13_000);
    assert_eq!(p.vx, -5_599);
    assert_eq!(p.y, 300_000);
    assert_eq!(p.vy, 0);
}

#[test]
fn integrate_snaps_to_near_walls() {
    let mut p = moving(14_000, 14_000, -3_000, -3_000);
    p.integrate(W, H, MS);
    // both axes hit the near wall: snap to the radius and flip
    assert_eq!(p.x, 13_000);
    assert_eq!(p.y, 13_000);
    assert_eq!(p.vx, 3_000);
    assert_eq!(p.vy, 3_000);
}

#[test]
fn integrate_keeps_circle_inside_arena() {
    let mut p = moving(780_000, 10_000, 5_000, -5_000);
    for _ in 0..50 {
        p.integrate(W, H, MS);
        assert!(13_000 <= p.x && p.x <= W - 13_000);
        assert!(13_000 <= p.y && p.y <= H - 13_000);
        assert!(p.vx * p.vx + p.vy * p.vy <= MS * MS);
    }
}
