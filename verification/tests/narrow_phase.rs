use collision::collide::resolve_collision;
use collision::particle::{Particle, Rgba};

fn grey() -> Rgba {
    Rgba { r: 100, g: 100, b: 100, a: 125 }
}

fn body(x: i64, y: i64, vx: i64, vy: i64, radius: i64, id: usize) -> Particle {
    Particle { x, y, vx, vy, radius, color: grey(), id }
}

#[test]
fn depenetration_separates_to_radius_sum() {
    // radii 10 and 20 units, centres 5 units apart on the x axis
    let mut v = vec![body(0, 0, 0, 0, 20_000, 0), body(5_000, 0, 0, 0, 10_000, 1)];
    resolve_collision(&mut v, 1, 0);
    assert_eq!(v[0].x, -8_334);
    assert_eq!(v[1].x, 21_666);
    // the new centre distance is exactly the sum of the radii
    assert_eq!(v[1].x - v[0].x, 30_000);
    // each body moves the other's radius' share: the smaller body (radius
    // 10 units) moves about twice as far as the larger (radius 20 units)
    let move_large = 8_334i64;
    let move_small = v[1].x - 5_000;
    assert_eq!(move_small, 16_666);
    assert!((move_small - 2 * move_large).abs() <= 2);
    // y coordinates and velocities are untouched
    assert_eq!(v[0].y, 0);
    assert_eq!(v[1].y, 0);
    assert_eq!((v[0].vx, v[0].vy, v[1].vx, v[1].vy), (0, 0, 0, 0));
}

#[test]
fn head_on_equal_mass_swaps_velocities() {
    // equal radii 10 units, at x = 0 and x = 19 units, moving at each
    // other with 3 units per tick
    let mut v = vec![body(0, 0, 3_000, 0, 10_000, 0), body(19_000, 0, -3_000, 0, 10_000, 1)];
    resolve_collision(&mut v, 1, 0);
    // velocities swap exactly
    assert_eq!(v[0].vx, -3_000);
    assert_eq!(v[1].vx, 3_000);
    assert_eq!(v[0].vy, 0);
    assert_eq!(v[1].vy, 0);
    // the pair is separated to tangency
    assert_eq!(v[0].x, -500);
    assert_eq!(v[1].x, 19_500);
    assert_eq!(v[1].x - v[0].x, 20_000);
}

#[test]
fn separated_pair_is_untouched() {
    let a = body(0, 0, 1_500, -2_000, 10_000, 0);
    let p = body(50_000, 0, -800, 300, 10_000, 1);
    let mut v = vec![a, p];
    resolve_collision(&mut v, 1, 0);
    assert_eq!(v[0], a);
    assert_eq!(v[1], p);
}

#[test]
fn diagonal_separation_is_just_outside_touching() {
    // centres 5 units apart on the diagonal, radii 10 and 20 units
    let mut v = vec![body(0, 0, 0, 0, 20_000, 0), body(3_000, 4_000, 0, 0, 10_000, 1)];
    resolve_collision(&mut v, 1, 0);
    let dx = v[1].x - v[0].x;
    let dy = v[1].y - v[0].y;
    let dist_sq = dx * dx + dy * dy;
    // integer rounding keeps the centres within a unit of exact tangency
    let lo = 29_000i64;
    let hi = 31_000i64;
    assert!(lo * lo <= dist_sq && dist_sq <= hi * hi);
}

#[test]
fn coincident_centres_fall_back_to_x_axis() {
    let mut v = vec![body(7_000, 9_000, 0, 0, 10_000, 0), body(7_000, 9_000, 0, 0, 20_000, 1)];
    resolve_collision(&mut v, 1, 0);
    // the pair separates deterministically along the positive x axis
    assert_eq!(v[0].x, -13_000);
    assert_eq!(v[1].x, 17_000);
    assert_eq!(v[0].y, 9_000);
    assert_eq!(v[1].y, 9_000);
    assert_eq!(v[1].x - v[0].x, 30_000);
}

#[test]
fn coincident_equal_mass_exchanges_x_velocities() {
    let mut v = vec![
        body(5_000, 5_000, 1_000, 700, 10_000, 0),
        body(5_000, 5_000, -400, 300, 10_000, 1),
    ];
    resolve_collision(&mut v, 1, 0);
    // the fallback normal is the x axis: x velocities swap, y velocities stay
    assert_eq!((v[0].vx, v[0].vy), (-400, 700));
    assert_eq!((v[1].vx, v[1].vy), (1_000, 300));
    assert_eq!(v[0].x, -5_000);
    assert_eq!(v[1].x, 15_000);
    assert_eq!(v[0].y, 5_000);
    assert_eq!(v[1].y, 5_000);
}
