use collision::particle::{Particle, Rgba};
use collision::sim::{Config, Simulation};

const W: i64 = 800_000;
const H: i64 = 600_000;

#[test]
fn standard_config_is_valid() {
    let cfg = Config::standard();
    assert!(cfg.validate());
    assert_eq!(cfg.population, 15);
    assert_eq!(cfg.radius_min, 13_000);
    assert_eq!(cfg.radius_max, 20_000);
    assert_eq!(cfg.speed_min, 2_000);
    assert_eq!(cfg.speed_max, 4_000);
    assert_eq!(cfg.max_speed, 5_600);
    assert_eq!(cfg.palette.len(), 5);
}

#[test]
fn validate_rejects_bad_configs() {
    let mut cfg = Config::standard();
    cfg.radius_min = 0;
    assert!(!cfg.validate());
    let mut cfg = Config::standard();
    cfg.speed_max = cfg.speed_min;
    assert!(!cfg.validate());
    let mut cfg = Config::standard();
    cfg.palette = Vec::new();
    assert!(!cfg.validate());
    let mut cfg = Config::standard();
    cfg.population = 100_000;
    assert!(!cfg.validate());
}

#[test]
fn create_draws_within_the_ranges() {
    macroquad::rand::srand(7);
    let color = Rgba { r: 30, g: 174, b: 66, a: 125 };
    for id in 0..20 {
        let p = Particle::create(15_000, color, id, W, H, 2_000, 4_000);
        assert_eq!(p.radius, 15_000);
        assert_eq!(p.color, color);
        assert_eq!(p.id, id);
        assert!(0 <= p.x && p.x < W);
        assert!(0 <= p.y && p.y < H);
        assert!(2_000 <= p.vx.abs() && p.vx.abs() <= 4_000);
        assert!(2_000 <= p.vy.abs() && p.vy.abs() <= 4_000);
    }
}

#[test]
fn new_simulation_assigns_ids_in_order() {
    macroquad::rand::srand(11);
    let cfg = Config::standard();
    let sim = Simulation::new(&cfg, W, H);
    assert_eq!(sim.particles.len(), 15);
    assert_eq!(sim.max_speed, 5_600);
    for (k, p) in sim.particles.iter().enumerate() {
        assert_eq!(p.id, k);
        assert!(cfg.radius_min <= p.radius && p.radius <= cfg.radius_max);
        assert!(cfg.palette.contains(&p.color));
        assert!(0 <= p.x && p.x < W);
        assert!(0 <= p.y && p.y < H);
    }
}

#[test]
fn ticks_keep_containment_speed_and_ids() {
    macroquad::rand::srand(23);
    let cfg = Config::standard();
    let mut sim = Simulation::new(&cfg, W, H);
    for _ in 0..20 {
        sim.tick(W, H);
        let mut ids: Vec<usize> = sim.particles.iter().map(|p| p.id).collect();
        ids.sort();
        let expected: Vec<usize> = (0..15).collect();
        assert_eq!(ids, expected);
        for p in sim.particles.iter() {
            assert!(p.radius <= p.x && p.x <= W - p.radius);
            assert!(p.radius <= p.y && p.y <= H - p.radius);
            assert!(p.vx * p.vx + p.vy * p.vy <= 5_600 * 5_600);
        }
    }
}

#[test]
fn empty_population_tick_is_a_noop() {
    let mut cfg = Config::standard();
    cfg.population = 0;
    assert!(cfg.validate());
    let mut sim = Simulation::new(&cfg, W, H);
    assert_eq!(sim.particles.len(), 0);
    sim.tick(W, H);
    assert_eq!(sim.particles.len(), 0);
}
