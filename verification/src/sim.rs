//! The simulation: the configuration surface, random particle creation and
//! the per-tick pipeline (sort, sweep, resolve, integrate).

use crate::collide::{
    circles_overlap, dist_sq, narrow_phase_step, resolve_collision, resolved_with_root,
};
use crate::math::{is_isqrt, lemma_isqrt_exists, mag};
use crate::particle::{
    in_arena, integrate_result, particle_bounded, speed_within, Particle, Rgba, MAX_ARENA,
    MAX_POPULATION, MAX_RADIUS, VEL_LIMIT,
};
use crate::rng::{pick_one, rand_in_range};
use crate::sweep::{
    sort_by_left_extent, sorted_by_left, sweep_candidates, sweep_complete, lemma_wf_ids_permuted,
    pair_from, sweep_sound, unique_ids,
};
use vstd::prelude::*;

verus! {

/// The configuration surface: population size, the radius range and launch
/// speed range new particles draw from, the per-tick speed cap and the
/// colour palette.  Lengths are thousandths of a world unit.
pub struct Config {
    pub population: usize,
    pub radius_min: i64,
    pub radius_max: i64,
    pub speed_min: i64,
    pub speed_max: i64,
    pub max_speed: i64,
    pub palette: Vec<Rgba>,
}

impl Config {
    /// Every field within the ranges the physics is proved safe for.
    pub open spec fn valid(&self) -> bool {
        &&& 0 < self.radius_min < self.radius_max <= MAX_RADIUS
        &&& 0 < self.speed_min < self.speed_max <= VEL_LIMIT
        &&& 0 < self.max_speed <= VEL_LIMIT
        &&& 0 < self.palette@.len() <= 64
        &&& self.population <= MAX_POPULATION
    }

    /// Check a configuration, once, at startup.
    pub fn validate(&self) -> (ok: bool)
        ensures
            ok == self.valid(),
    {
        0 < self.radius_min && self.radius_min < self.radius_max && self.radius_max <= MAX_RADIUS
            && 0 < self.speed_min && self.speed_min < self.speed_max && self.speed_max <= VEL_LIMIT
            && 0 < self.max_speed && self.max_speed <= VEL_LIMIT && 0 < self.palette.len()
            && self.palette.len() <= 64 && self.population <= MAX_POPULATION
    }

    /// The standard configuration: 15 particles, radii from 13 units,
    /// launch speeds from 2 units, a speed cap of 5.6 units per tick, and
    /// a palette of five colours.
    pub fn standard() -> (c: Config)
        ensures
            c.valid(),
            c.population == 15,
            c.radius_min == 13_000,
            c.radius_max == 20_000,
            c.speed_min == 2_000,
            c.speed_max == 4_000,
            c.max_speed == 5_600,
            c.palette@.len() == 5,
            c.palette@[0] == (Rgba { r: 30, g: 174, b: 66, a: 125 }),
            c.palette@[1] == (Rgba { r: 153, g: 53, b: 46, a: 125 }),
            c.palette@[2] == (Rgba { r: 64, g: 25, b: 159, a: 125 }),
            c.palette@[3] == (Rgba { r: 41, g: 90, b: 204, a: 125 }),
            c.palette@[4] == (Rgba { r: 113, g: 32, b: 193, a: 125 }),
    {
        let mut palette: Vec<Rgba> = Vec::new();
        palette.push(Rgba { r: 30, g: 174, b: 66, a: 125 });
        palette.push(Rgba { r: 153, g: 53, b: 46, a: 125 });
        palette.push(Rgba { r: 64, g: 25, b: 159, a: 125 });
        palette.push(Rgba { r: 41, g: 90, b: 204, a: 125 });
        palette.push(Rgba { r: 113, g: 32, b: 193, a: 125 });
        Config {
            population: 15,
            radius_min: 13_000,
            radius_max: 20_000,
            speed_min: 2_000,
            speed_max: 4_000,
            max_speed: 5_600,
            palette,
        }
    }
}

impl Particle {
    /// Create a particle at a uniformly random position inside the arena,
    /// with a velocity whose components are drawn from the launch speed
    /// range and sign-flipped with even odds.
    pub fn create(
        radius: i64,
        color: Rgba,
        id: usize,
        arena_width: i64,
        arena_height: i64,
        speed_min: i64,
        speed_max: i64,
    ) -> (p: Particle)
        requires
            0 < radius <= MAX_RADIUS,
            0 < arena_width <= MAX_ARENA,
            0 < arena_height <= MAX_ARENA,
            0 < speed_min < speed_max <= VEL_LIMIT,
        ensures
            particle_bounded(p),
            p.radius == radius,
            p.color == color,
            p.id == id,
            0 <= p.x < arena_width,
            0 <= p.y < arena_height,
            speed_min <= mag(p.vx as int) < speed_max,
            speed_min <= mag(p.vy as int) < speed_max,
    {
        let x = rand_in_range(0, arena_width);
        let y = rand_in_range(0, arena_height);
        // the generator's bound is closed at the top; the launch range is
        // half-open, so a draw of the upper end is pulled one under it
        let mut sx = rand_in_range(speed_min, speed_max);
        if sx == speed_max {
            sx = speed_max - 1;
        }
        let mut sy = rand_in_range(speed_min, speed_max);
        if sy == speed_max {
            sy = speed_max - 1;
        }
        let mut signs: Vec<i64> = Vec::new();
        signs.push(-1);
        signs.push(1);
        let gx = pick_one(&signs);
        let gy = pick_one(&signs);
        proof {
            let vx0 = gx.unwrap();
            let ix = choose|ix: int| 0 <= ix < signs@.len() && signs@[ix] == vx0;
            assert(vx0 == -1 || vx0 == 1);
            let vy0 = gy.unwrap();
            let iy = choose|iy: int| 0 <= iy < signs@.len() && signs@[iy] == vy0;
            assert(vy0 == -1 || vy0 == 1);
        }
        let vx = if gx.unwrap() < 0 {
            -sx
        } else {
            sx
        };
        let vy = if gy.unwrap() < 0 {
            -sy
        } else {
            sy
        };
        Particle { x, y, vx, vy, radius, color, id }
    }
}

/// The particle list is well formed: every particle within the proved
/// bounds, its centre within the largest arena, every id below the length
/// and all ids pairwise distinct.
pub open spec fn particles_wf(s: Seq<Particle>) -> bool {
    &&& s.len() <= MAX_POPULATION
    &&& forall|k: int| 0 <= k < s.len() ==> particle_bounded(#[trigger] s[k])
    &&& forall|k: int|
        0 <= k < s.len() ==> -MAX_ARENA <= (#[trigger] s[k]).x <= MAX_ARENA && -MAX_ARENA <= s[k].y
            <= MAX_ARENA
    &&& forall|k: int| 0 <= k < s.len() ==> (#[trigger] s[k]).id < s.len()
    &&& unique_ids(s)
}

/// Every particle of `s1` has, somewhere in `s2`, a particle with the same
/// id, radius and colour: reordering and motion never create, drop or
/// re-bind an identity.
/// Somewhere in `s2` sits a particle with the id, radius and colour that
/// `s1` holds at position `k`.
pub open spec fn id_kept(s1: Seq<Particle>, s2: Seq<Particle>, k: int) -> bool {
    exists|l: int|
        0 <= l < s2.len() && (#[trigger] s2[l]).id == s1[k].id && s2[l].radius == s1[k].radius
            && s2[l].color == s1[k].color
}

pub open spec fn keeps_every_id(s1: Seq<Particle>, s2: Seq<Particle>) -> bool {
    forall|k: int| 0 <= k < s1.len() ==> #[trigger] id_kept(s1, s2, k)
}

/// One narrow-phase step for a candidate pair of ids: the two ids locate
/// the bodies in the pre state, the later particle of the sweep first.
pub open spec fn narrow_phase_step_for(
    pre: Seq<Particle>,
    post: Seq<Particle>,
    pr: (usize, usize),
) -> bool {
    exists|pi: int, ai: int|
        0 <= pi < pre.len() && 0 <= ai < pre.len() && pre[pi].id == pr.0 && pre[ai].id == pr.1
            && #[trigger] narrow_phase_step(pre, post, pi, ai)
}

/// The whole narrow phase: `states` is the chain of particle lists, one
/// resolution step per candidate pair, starting from the sorted list.
pub open spec fn narrow_phase_run(
    sorted: Seq<Particle>,
    pairs: Seq<(usize, usize)>,
    states: Seq<Seq<Particle>>,
) -> bool {
    &&& states.len() == pairs.len() + 1
    &&& states[0] == sorted
    &&& forall|t: int|
        0 <= t < pairs.len() ==> narrow_phase_step_for(#[trigger] states[t], states[t + 1], pairs[t])
}

/// `q` is `p` advanced by one integration step inside the `w` by `h`
/// arena under speed cap `ms`.
pub open spec fn integrated_one(p: Particle, q: Particle, w: int, h: int, ms: int) -> bool {
    exists|sv: int|
        #[trigger] is_isqrt(sv, p.vx * p.vx + p.vy * p.vy) && (
        q.x as int,
        q.y as int,
        q.vx as int,
        q.vy as int,
        ) == integrate_result(p, w, h, ms, sv) && q.radius == p.radius && q.color == p.color
            && q.id == p.id
}

/// Every particle of `mid` was integrated into the matching position of
/// `after`.
pub open spec fn integrated_from(
    mid: Seq<Particle>,
    after: Seq<Particle>,
    w: int,
    h: int,
    ms: int,
) -> bool {
    &&& after.len() == mid.len()
    &&& forall|k: int| 0 <= k < mid.len() ==> integrated_one(#[trigger] mid[k], after[k], w, h, ms)
}

/// The whole tick as a relation between the particle list before and
/// after: some permutation of the old list, sorted by left extent, was
/// swept for candidates (soundly and completely), the candidates were
/// resolved in recorded order, and every particle of the resulting state
/// was integrated.
pub open spec fn tick_pipeline(
    before: Seq<Particle>,
    after: Seq<Particle>,
    w: int,
    h: int,
    ms: int,
) -> bool {
    exists|sorted: Seq<Particle>, pairs: Seq<(usize, usize)>, states: Seq<Seq<Particle>>|
        #![trigger narrow_phase_run(sorted, pairs, states)]
        {
            &&& sorted.to_multiset() == before.to_multiset()
            &&& sorted_by_left(sorted)
            &&& sweep_sound(sorted, pairs)
            &&& sweep_complete(sorted, pairs)
            &&& narrow_phase_run(sorted, pairs, states)
            &&& integrated_from(states[pairs.len() as int], after, w, h, ms)
        }
}

/// The running simulation: the particle list it exclusively owns, and the
/// per-tick speed cap it was configured with.
pub struct Simulation {
    pub particles: Vec<Particle>,
    pub max_speed: i64,
}

impl Simulation {
    /// The simulation is well formed.
    pub open spec fn wf(&self) -> bool {
        &&& particles_wf(self.particles@)
        &&& 0 < self.max_speed <= VEL_LIMIT
    }

    /// Build a simulation from a valid configuration: `population`
    /// particles with ids assigned in creation order, each with a random
    /// radius from the radius range, a random palette colour, a random
    /// position inside the arena and a random launch velocity.
    pub fn new(cfg: &Config, arena_width: i64, arena_height: i64) -> (sim: Simulation)
        requires
            cfg.valid(),
            0 < arena_width <= MAX_ARENA,
            0 < arena_height <= MAX_ARENA,
        ensures
            sim.wf(),
            sim.particles@.len() == cfg.population,
            sim.max_speed == cfg.max_speed,
            forall|k: int| 0 <= k < cfg.population ==> (#[trigger] sim.particles@[k]).id == k,
            forall|k: int|
                0 <= k < cfg.population ==> cfg.radius_min <= (#[trigger] sim.particles@[k]).radius
                    <= cfg.radius_max,
            forall|k: int|
                0 <= k < cfg.population ==> cfg.palette@.contains(
                    (#[trigger] sim.particles@[k]).color,
                ),
            forall|k: int|
                0 <= k < cfg.population ==> 0 <= (#[trigger] sim.particles@[k]).x < arena_width
                    && 0 <= sim.particles@[k].y < arena_height,
    {
        let mut particles: Vec<Particle> = Vec::new();
        let mut id: usize = 0;
        while id < cfg.population
            invariant
                cfg.valid(),
                0 < arena_width <= MAX_ARENA,
                0 < arena_height <= MAX_ARENA,
                id <= cfg.population,
                particles@.len() == id,
                forall|k: int| 0 <= k < id as int ==> (#[trigger] particles@[k]).id == k,
                forall|k: int| 0 <= k < id as int ==> particle_bounded(#[trigger] particles@[k]),
                forall|k: int|
                    0 <= k < id as int ==> cfg.radius_min <= (#[trigger] particles@[k]).radius
                        <= cfg.radius_max,
                forall|k: int|
                    0 <= k < id as int ==> cfg.palette@.contains((#[trigger] particles@[k]).color),
                forall|k: int|
                    0 <= k < id as int ==> 0 <= (#[trigger] particles@[k]).x < arena_width && 0
                        <= particles@[k].y < arena_height,
            decreases cfg.population - id,
        {
            let radius = rand_in_range(cfg.radius_min, cfg.radius_max);
            let color_opt = pick_one(&cfg.palette);
            let color = color_opt.unwrap();
            let pnew = Particle::create(
                radius,
                color,
                id,
                arena_width,
                arena_height,
                cfg.speed_min,
                cfg.speed_max,
            );
            particles.push(pnew);
            id = id + 1;
        }
        Simulation { particles, max_speed: cfg.max_speed }
    }

    /// One simulation tick inside the current `width` by `height` arena:
    /// sort the particles by rightmost x extent, sweep for candidate
    /// pairs, resolve each candidate in recorded order (later pairs see
    /// the mutations of earlier ones), then integrate every particle.  An
    /// empty population is a no-op.
    pub fn tick(&mut self, width: i64, height: i64)
        requires
            old(self).wf(),
            0 < width <= MAX_ARENA,
            0 < height <= MAX_ARENA,
            forall|k: int|
                0 <= k < old(self).particles@.len() ==> 2 * (#[trigger] old(
                    self,
                ).particles@[k]).radius <= width && 2 * old(self).particles@[k].radius <= height,
        ensures
            final(self).wf(),
            final(self).max_speed == old(self).max_speed,
            final(self).particles@.len() == old(self).particles@.len(),
            // containment: every particle's circle ends inside the arena
            forall|k: int|
                0 <= k < final(self).particles@.len() ==> in_arena(
                    #[trigger] final(self).particles@[k],
                    width as int,
                    height as int,
                ),
            // speed bound: every particle ends at or below the speed cap
            forall|k: int|
                0 <= k < final(self).particles@.len() ==> speed_within(
                    #[trigger] final(self).particles@[k],
                    old(self).max_speed as int,
                ),
            // every id survives the tick with its radius and colour
            keeps_every_id(old(self).particles@, final(self).particles@),
            // an empty population is a no-op
            old(self).particles@.len() == 0 ==> final(self).particles@ == old(self).particles@,
            // the final state really comes from the pipeline: sort, sweep,
            // resolve every candidate in order, then integrate
            old(self).particles@.len() > 0 ==> tick_pipeline(
                old(self).particles@,
                final(self).particles@,
                width as int,
                height as int,
                old(self).max_speed as int,
            ),
    {
        let n = self.particles.len();
        if n == 0 {
            return ;
        }
        let ghost before = self.particles@;
        let ghost ms0 = self.max_speed;
        // broad phase: sort, then sweep for candidates
        sort_by_left_extent(&mut self.particles);
        let ghost sorted0 = self.particles@;
        proof {
            lemma_wf_ids_permuted(before, sorted0, n as int);
            broadcast use vstd::seq_lib::group_to_multiset_ensures;

            assert forall|j: int| 0 <= j < sorted0.len() implies -MAX_ARENA <= (
            #[trigger] sorted0[j]).x <= MAX_ARENA && -MAX_ARENA <= sorted0[j].y <= MAX_ARENA && 2
                * sorted0[j].radius <= width && 2 * sorted0[j].radius <= height by {
                assert(sorted0.contains(sorted0[j]));
                assert(before.to_multiset().count(sorted0[j]) > 0);
                assert(before.contains(sorted0[j]));
                let kk = choose|kk: int| 0 <= kk < before.len() && before[kk] == sorted0[j];
            }
        }
        let pairs = sweep_candidates(&self.particles);
        // index the sorted list by id
        let mut slot: Vec<usize> = Vec::new();
        let mut k: usize = 0;
        while k < n
            invariant
                slot@.len() == k,
                k <= n,
            decreases n - k,
        {
            slot.push(0);
            k = k + 1;
        }
        let mut k2: usize = 0;
        while k2 < n
            invariant
                k2 <= n,
                n == self.particles@.len(),
                self.particles@ == sorted0,
                slot@.len() == n,
                forall|j: int| 0 <= j < n ==> (#[trigger] sorted0[j]).id < n,
                forall|j: int|
                    0 <= j < k2 as int ==> (#[trigger] slot@[sorted0[j].id as int]) as int == j,
                unique_ids(sorted0),
            decreases n - k2,
        {
            let idv = self.particles[k2].id;
            slot[idv] = k2;
            k2 = k2 + 1;
        }
        // narrow phase: resolve the candidates in recorded order
        let ghost mut states: Seq<Seq<Particle>> = seq![sorted0];
        let mut t: usize = 0;
        proof {
            assert(n as int * n as int <= 1_000_000) by (nonlinear_arith)
                requires
                    0 <= n as int <= 1000,
            ;
        }
        while t < pairs.len()
            invariant
                t <= pairs@.len(),
                pairs@.len() <= 1_000_000,
                n == self.particles@.len(),
                n == sorted0.len(),
                n <= 1000,
                slot@.len() == n,
                sweep_sound(sorted0, pairs@),
                unique_ids(sorted0),
                forall|j: int| 0 <= j < n ==> (#[trigger] sorted0[j]).id < n,
                forall|j: int|
                    0 <= j < n ==> (#[trigger] slot@[sorted0[j].id as int]) as int == j,
                forall|j: int|
                    0 <= j < n ==> (#[trigger] self.particles@[j]).id == sorted0[j].id
                        && self.particles@[j].radius == sorted0[j].radius
                        && self.particles@[j].color == sorted0[j].color,
                forall|j: int|
                    0 <= j < n ==> 0 < (#[trigger] self.particles@[j]).radius <= MAX_RADIUS,
                forall|j: int|
                    0 <= j < n ==> mag((#[trigger] self.particles@[j]).x as int) <= MAX_ARENA + t
                        as int * (MAX_RADIUS + 2) && mag(self.particles@[j].y as int) <= MAX_ARENA
                        + t as int * (MAX_RADIUS + 2),
                forall|j: int|
                    0 <= j < n ==> mag((#[trigger] self.particles@[j]).vx as int) <= VEL_LIMIT
                        && mag(self.particles@[j].vy as int) <= VEL_LIMIT,
                self.max_speed == ms0,
                states.len() == t as int + 1,
                states[0] == sorted0,
                states[t as int] == self.particles@,
                forall|u: int|
                    0 <= u < t as int ==> narrow_phase_step_for(
                        #[trigger] states[u],
                        states[u + 1],
                        pairs@[u],
                    ),
            decreases pairs@.len() - t,
        {
            let pr = pairs[t];
            let pid = pr.0;
            let aid = pr.1;
            proof {
                assert(pair_from(sorted0, pairs@[t as int]));
                let (io, jo): (int, int) = choose|io: int, jo: int|
                    0 <= jo < io < sorted0.len() && pairs@[t as int] == (
                    sorted0[io].id,
                    sorted0[jo].id,
                    ) && crate::particle::left_ext(sorted0[io]) <= crate::particle::right_ext(
                        sorted0[jo],
                    );
                assert(sorted0[io].id != sorted0[jo].id);
                assert((slot@[sorted0[io].id as int]) as int == io);
                assert((slot@[sorted0[jo].id as int]) as int == jo);
                assert(t as int * (MAX_RADIUS + 2) <= 1_000_000 * (MAX_RADIUS as int + 2))
                    by (nonlinear_arith)
                    requires
                        0 <= t as int <= 1_000_000,
                ;
            }
            let ii = slot[pid];
            let jj = slot[aid];
            let ghost pre = self.particles@;
            resolve_collision(&mut self.particles, ii, jj);
            proof {
                assert((t as int + 1) * (MAX_RADIUS + 2) == t as int * (MAX_RADIUS + 2) + (
                MAX_RADIUS + 2)) by (nonlinear_arith);
                assert(t as int * (MAX_RADIUS + 2) >= 0) by (nonlinear_arith)
                    requires
                        t as int >= 0,
                ;
                let cur = self.particles@;
                assert(pair_from(sorted0, pairs@[t as int]));
                let (io, jo): (int, int) = choose|io: int, jo: int|
                    0 <= jo < io < sorted0.len() && pairs@[t as int] == (
                    sorted0[io].id,
                    sorted0[jo].id,
                    ) && crate::particle::left_ext(sorted0[io]) <= crate::particle::right_ext(
                        sorted0[jo],
                    );
                assert((slot@[sorted0[io].id as int]) as int == io);
                assert((slot@[sorted0[jo].id as int]) as int == jo);
                assert(ii as int == io && jj as int == jo);
                assert(pre[ii as int].id == pid && pre[jj as int].id == aid);
                assert(narrow_phase_step(pre, cur, ii as int, jj as int)) by {
                    if circles_overlap(pre[jj as int], pre[ii as int]) && dist_sq(
                        pre[jj as int],
                        pre[ii as int],
                    ) != 0 {
                        assert forall|sv: int|
                            is_isqrt(
                                sv,
                                dist_sq(pre[jj as int], pre[ii as int]),
                            ) implies #[trigger] resolved_with_root(
                            pre,
                            cur,
                            ii as int,
                            jj as int,
                            sv,
                        ) by {}
                    }
                }
                assert(narrow_phase_step_for(pre, cur, pairs@[t as int]));
                states = states.push(cur);
            }
            t = t + 1;
        }
        // integration: move, clamp and bounce every particle
        let ghost mid0 = self.particles@;
        let mut k3: usize = 0;
        proof {
            assert(t as int * (MAX_RADIUS + 2) <= 1_000_000 * (MAX_RADIUS as int + 2))
                by (nonlinear_arith)
                requires
                    0 <= t as int <= 1_000_000,
            ;
            assert(narrow_phase_run(sorted0, pairs@, states));
            assert(states[pairs@.len() as int] == mid0);
        }
        while k3 < n
            invariant
                k3 <= n,
                n == self.particles@.len(),
                n == sorted0.len(),
                n <= 1000,
                0 < width <= MAX_ARENA,
                0 < height <= MAX_ARENA,
                forall|j: int|
                    0 <= j < n ==> 2 * (#[trigger] sorted0[j]).radius <= width && 2
                        * sorted0[j].radius <= height,
                0 < ms0 <= VEL_LIMIT,
                self.max_speed == ms0,
                forall|j: int|
                    0 <= j < n ==> (#[trigger] self.particles@[j]).id == sorted0[j].id
                        && self.particles@[j].radius == sorted0[j].radius
                        && self.particles@[j].color == sorted0[j].color,
                forall|j: int|
                    k3 as int <= j < n ==> particle_bounded(#[trigger] self.particles@[j]),
                forall|j: int|
                    0 <= j < k3 as int ==> particle_bounded(#[trigger] self.particles@[j])
                        && in_arena(self.particles@[j], width as int, height as int)
                        && speed_within(self.particles@[j], ms0 as int),
                mid0.len() == n,
                forall|j: int| k3 as int <= j < n ==> self.particles@[j] == mid0[j],
                forall|j: int|
                    0 <= j < k3 as int ==> integrated_one(
                        #[trigger] mid0[j],
                        self.particles@[j],
                        width as int,
                        height as int,
                        ms0 as int,
                    ),
            decreases n - k3,
        {
            let mut moving = self.particles[k3];
            moving.integrate(width, height, self.max_speed);
            self.particles[k3] = moving;
            proof {
                let pold = mid0[k3 as int];
                assert(pold.vx * pold.vx + pold.vy * pold.vy >= 0) by (nonlinear_arith);
                lemma_isqrt_exists(pold.vx * pold.vx + pold.vy * pold.vy);
                let sv = choose|sv: int|
                    #[trigger] is_isqrt(sv, pold.vx * pold.vx + pold.vy * pold.vy);
                assert(integrated_one(
                    mid0[k3 as int],
                    self.particles@[k3 as int],
                    width as int,
                    height as int,
                    ms0 as int,
                ));
            }
            k3 = k3 + 1;
        }
        proof {
            assert(unique_ids(self.particles@)) by {
                assert forall|i1: int, j1: int|
                    0 <= i1 < j1 < self.particles@.len() implies self.particles@[i1].id
                    != self.particles@[j1].id by {
                    assert(sorted0[i1].id != sorted0[j1].id);
                }
            }
            broadcast use vstd::seq_lib::group_to_multiset_ensures;

            let ghost cur = self.particles@;
            assert forall|k4: int| 0 <= k4 < before.len() implies #[trigger] id_kept(
                before,
                cur,
                k4,
            ) by {
                assert(before.contains(before[k4]));
                assert(sorted0.to_multiset().count(before[k4]) > 0);
                assert(sorted0.contains(before[k4]));
                let l = choose|l: int| 0 <= l < sorted0.len() && sorted0[l] == before[k4];
                assert(0 <= l < cur.len() && cur[l].id == before[k4].id && cur[l].radius
                    == before[k4].radius && cur[l].color == before[k4].color);
            }
            assert(keeps_every_id(before, cur));
            assert(integrated_from(mid0, cur, width as int, height as int, ms0 as int));
            assert(narrow_phase_run(sorted0, pairs@, states));
            assert(integrated_from(
                states[pairs@.len() as int],
                cur,
                width as int,
                height as int,
                ms0 as int,
            ));
            assert(tick_pipeline(before, cur, width as int, height as int, ms0 as int));
        }
    }
}

} // verus!
