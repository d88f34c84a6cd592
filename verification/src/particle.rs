//! The particle entity and its per-tick integration step.
//!
//! All lengths are integers in thousandths of a world unit, so a radius of
//! `13_000` is 13 units and the standard speed cap of `5_600` is 5.6 units
//! per tick.

use crate::math::{clamp_mag, is_isqrt, isqrt_u128, lemma_isqrt_dominates, mag, tdiv, tdiv_i128};
use vstd::prelude::*;

verus! {

/// Largest radius the physics accepts.
pub const MAX_RADIUS: i64 = 100_000;

/// Largest arena side length.
pub const MAX_ARENA: i64 = 1_000_000_000;

/// Hard bound on coordinate magnitude while a tick is in flight; collision
/// resolution may push a particle outside the arena before the integration
/// step clamps it back.
pub const POS_LIMIT: i64 = 1_000_000_000_000;

/// Hard bound on the magnitude of a velocity component.
pub const VEL_LIMIT: i64 = 1_000_000_000;

/// Largest population a simulation may hold.
pub const MAX_POPULATION: usize = 1000;

/// A display colour; the physics never reads it.
#[derive(Clone, Copy, PartialEq, Eq, Structural, Debug)]
pub struct Rgba {
    pub r: u8,
    pub g: u8,
    pub b: u8,
    pub a: u8,
}

/// A circular body: position, velocity, fixed radius, display colour and a
/// stable identity.
#[derive(Clone, Copy, PartialEq, Eq, Structural, Debug)]
pub struct Particle {
    pub x: i64,
    pub y: i64,
    pub vx: i64,
    pub vy: i64,
    pub radius: i64,
    pub color: Rgba,
    pub id: usize,
}

/// Rightmost x extent of a particle's circle.
pub open spec fn right_ext(p: Particle) -> int {
    p.x + p.radius
}

/// Leftmost x extent of a particle's circle.
pub open spec fn left_ext(p: Particle) -> int {
    p.x - p.radius
}

/// All fields within the magnitudes the integer physics is proved safe for.
pub open spec fn particle_bounded(p: Particle) -> bool {
    &&& 0 < p.radius <= MAX_RADIUS
    &&& -POS_LIMIT <= p.x <= POS_LIMIT
    &&& -POS_LIMIT <= p.y <= POS_LIMIT
    &&& -VEL_LIMIT <= p.vx <= VEL_LIMIT
    &&& -VEL_LIMIT <= p.vy <= VEL_LIMIT
}

/// The particle's circle lies fully inside the `w` by `h` arena.
pub open spec fn in_arena(p: Particle, w: int, h: int) -> bool {
    &&& p.radius <= p.x <= w - p.radius
    &&& p.radius <= p.y <= h - p.radius
}

/// The velocity's magnitude is at most `ms`.
pub open spec fn speed_within(p: Particle, ms: int) -> bool {
    p.vx * p.vx + p.vy * p.vy <= ms * ms
}

/// Velocity after the magnitude clamp, given `s`, the integer square root of
/// the squared speed: left alone when already within `ms`, otherwise scaled
/// down by `ms / (s + 1)` componentwise.
pub open spec fn clamped_vel(vx: int, vy: int, ms: int, s: int) -> (int, int) {
    if vx * vx + vy * vy <= ms * ms {
        (vx, vy)
    } else {
        (tdiv(vx * ms, s + 1), tdiv(vy * ms, s + 1))
    }
}

/// One axis of the position clamp: snap to the far wall first, else to the
/// near wall, else leave in place.
pub open spec fn clamp_axis(pos: int, r: int, hi: int) -> int {
    if pos + r >= hi {
        hi - r
    } else if pos - r <= 0 {
        r
    } else {
        pos
    }
}

/// The whole integration step as `(x, y, vx, vy)`, given `s`, the integer
/// square root of the incoming squared speed: clamp the velocity to `ms`,
/// advance the position, clamp the circle into the arena, and flip a
/// velocity component whose axis ended exactly on a wall.
pub open spec fn integrate_result(p: Particle, w: int, h: int, ms: int, s: int) -> (
    int,
    int,
    int,
    int,
) {
    let (cvx, cvy) = clamped_vel(p.vx as int, p.vy as int, ms, s);
    let nx = clamp_axis(p.x + cvx, p.radius as int, w);
    let ny = clamp_axis(p.y + cvy, p.radius as int, h);
    let fvx = if nx + p.radius == w || nx - p.radius == 0 {
        -cvx
    } else {
        cvx
    };
    let fvy = if ny + p.radius == h || ny - p.radius == 0 {
        -cvy
    } else {
        cvy
    };
    (nx, ny, fvx, fvy)
}

/// Scale a velocity component: `v * ms / (s + 1)` rounded towards zero.
fn scale_component(v: i64, ms: i64, s: i128) -> (r: i64)
    requires
        -VEL_LIMIT <= v <= VEL_LIMIT,
        0 < ms <= VEL_LIMIT,
        0 <= s <= 0x1_0000_0000_0000_0000,
        mag(v as int) <= s,
    ensures
        r == tdiv(v as int * ms, s + 1),
        mag(r as int) <= ms,
{
    proof {
        assert(-1_000_000_000_000_000_000 <= (v as int) * (ms as int) <= 1_000_000_000_000_000_000)
            by (nonlinear_arith)
            requires
                -1_000_000_000 <= v as int <= 1_000_000_000,
                0 < ms as int <= 1_000_000_000,
        ;
    }
    let num: i128 = (v as i128) * (ms as i128);
    let q = tdiv_i128(num, s + 1);
    proof {
        assert(-(ms as int * (s as int + 1)) <= num as int <= ms as int * (s as int + 1))
            by (nonlinear_arith)
            requires
                -(s as int) <= v as int <= s as int,
                0 < ms as int,
                num as int == v as int * ms as int,
        ;
        crate::math::lemma_tdiv_in(num as int, s as int + 1, ms as int);
    }
    q as i64
}

impl Particle {
    /// Advance this particle by one tick inside a `width` by `height` arena:
    /// clamp the speed to `max_speed`, move, clamp the circle back inside
    /// the walls, and reflect the velocity component of any axis that ended
    /// exactly on a wall.
    pub fn integrate(&mut self, width: i64, height: i64, max_speed: i64)
        requires
            particle_bounded(*old(self)),
            0 < max_speed <= VEL_LIMIT,
            2 * old(self).radius <= width,
            2 * old(self).radius <= height,
            0 < width <= MAX_ARENA,
            0 < height <= MAX_ARENA,
        ensures
            particle_bounded(*final(self)),
            in_arena(*final(self), width as int, height as int),
            speed_within(*final(self), max_speed as int),
            final(self).radius == old(self).radius,
            final(self).color == old(self).color,
            final(self).id == old(self).id,
            forall|s: int|
                is_isqrt(s, old(self).vx * old(self).vx + old(self).vy * old(self).vy)
                    ==> (final(self).x as int, final(self).y as int, final(self).vx as int,
                    final(self).vy as int) == integrate_result(
                    *old(self),
                    width as int,
                    height as int,
                    max_speed as int,
                    s,
                ),
    {
        let ghost p0 = *self;
        // (1) clamp the velocity magnitude
        let vxw: i128 = self.vx as i128;
        let vyw: i128 = self.vy as i128;
        let msw: i128 = max_speed as i128;
        proof {
            assert(0 <= vxw * vxw <= 1_000_000_000_000_000_000 && 0 <= vyw * vyw
                <= 1_000_000_000_000_000_000 && 0 <= msw * msw <= 1_000_000_000_000_000_000)
                by (nonlinear_arith)
                requires
                    -1_000_000_000 <= vxw <= 1_000_000_000,
                    -1_000_000_000 <= vyw <= 1_000_000_000,
                    0 <= msw <= 1_000_000_000,
            ;
        }
        let sq: i128 = vxw * vxw + vyw * vyw;
        let msq: i128 = msw * msw;
        let ghost mut s_used: int = 0;
        if sq > msq {
            let s = isqrt_u128(sq as u128) as i128;
            proof {
                s_used = s as int;
                lemma_isqrt_dominates(self.vx as int, s as int, sq as int);
                lemma_isqrt_dominates(self.vy as int, s as int, sq as int);
            }
            let nvx = scale_component(self.vx, max_speed, s);
            let nvy = scale_component(self.vy, max_speed, s);
            proof {
                lemma_scaled_speed_within(
                    self.vx as int,
                    self.vy as int,
                    max_speed as int,
                    s as int,
                    nvx as int,
                    nvy as int,
                );
            }
            self.vx = nvx;
            self.vy = nvy;
        }
        assert(speed_within(*self, max_speed as int));
        let ghost cvx = self.vx as int;
        let ghost cvy = self.vy as int;
        // (2) advance the position
        self.x = self.x + self.vx;
        self.y = self.y + self.vy;
        // (3) clamp the circle inside the arena
        if self.x + self.radius >= width {
            self.x = width - self.radius;
        } else if self.x - self.radius <= 0 {
            self.x = self.radius;
        }
        if self.y + self.radius >= height {
            self.y = height - self.radius;
        } else if self.y - self.radius <= 0 {
            self.y = self.radius;
        }
        // (4) bounce off any wall that is now exactly touched
        if self.x + self.radius == width || self.x - self.radius == 0 {
            self.vx = -self.vx;
        }
        if self.y + self.radius == height || self.y - self.radius == 0 {
            self.vy = -self.vy;
        }
        proof {
            assert((-cvx) * (-cvx) == cvx * cvx && (-cvy) * (-cvy) == cvy * cvy)
                by (nonlinear_arith);
        }
        proof {
            assert(forall|s: int|
                is_isqrt(s, p0.vx * p0.vx + p0.vy * p0.vy)
                    ==> (self.x as int, self.y as int, self.vx as int, self.vy as int)
                    == integrate_result(p0, width as int, height as int, max_speed as int, s)) by {
                if p0.vx * p0.vx + p0.vy * p0.vy > max_speed * max_speed {
                    assert forall|s: int|
                        is_isqrt(s, p0.vx * p0.vx + p0.vy * p0.vy) implies (
                    self.x as int,
                    self.y as int,
                    self.vx as int,
                    self.vy as int,
                    ) == integrate_result(p0, width as int, height as int, max_speed as int, s) by {
                        crate::math::lemma_isqrt_unique(
                            s,
                            s_used,
                            p0.vx * p0.vx + p0.vy * p0.vy,
                        );
                    }
                }
            }
        }
    }
}

/// Componentwise downscaling by `ms / (s + 1)` brings the squared speed
/// under `ms * ms` whenever `s` is the integer square root of the squared
/// speed.
proof fn lemma_scaled_speed_within(vx: int, vy: int, ms: int, s: int, nx: int, ny: int)
    requires
        0 < ms,
        is_isqrt(s, vx * vx + vy * vy),
        nx == tdiv(vx * ms, s + 1),
        ny == tdiv(vy * ms, s + 1),
    ensures
        nx * nx + ny * ny <= ms * ms,
{
    let d = s + 1;
    crate::math::lemma_tdiv_mul_le(vx * ms, d);
    crate::math::lemma_tdiv_mul_le(vy * ms, d);
    assert(nx * nx * (d * d) <= (vx * ms) * (vx * ms)) by (nonlinear_arith)
        requires
            d >= 1,
            (vx * ms >= 0 ==> 0 <= nx * d <= vx * ms) && (vx * ms < 0 ==> vx * ms <= nx * d <= 0),
    ;
    assert(ny * ny * (d * d) <= (vy * ms) * (vy * ms)) by (nonlinear_arith)
        requires
            d >= 1,
            (vy * ms >= 0 ==> 0 <= ny * d <= vy * ms) && (vy * ms < 0 ==> vy * ms <= ny * d <= 0),
    ;
    assert((nx * nx + ny * ny) * (d * d) <= (vx * vx + vy * vy) * (ms * ms)) by (nonlinear_arith)
        requires
            nx * nx * (d * d) <= (vx * ms) * (vx * ms),
            ny * ny * (d * d) <= (vy * ms) * (vy * ms),
    ;
    assert(nx * nx + ny * ny <= ms * ms) by (nonlinear_arith)
        requires
            (nx * nx + ny * ny) * (d * d) <= (vx * vx + vy * vy) * (ms * ms),
            vx * vx + vy * vy < d * d,
            0 < ms,
    ;
}

} // verus!
