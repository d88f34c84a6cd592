//! Narrow phase: exact circle-overlap test, de-penetration and
//! mass-weighted elastic velocity exchange for one candidate pair.
//!
//! The contact normal is the line between the two centres.  Writing `d` for
//! the centre offset from body `A` to body `P`, `q` for its squared length
//! and `s` for the integer square root of `q`, the de-penetration places
//! both circles tangent around a contact point weighted so that the larger
//! body moves less (each body is displaced by the opposite body's share of
//! the radii), and the
//! velocity exchange applies the one-dimensional elastic-collision formula,
//! with `mass = radius^3`, to the velocity components along `d`, leaving
//! the tangential components unchanged.  Two coincident centres have no
//! normal direction; that degenerate case deterministically falls back to
//! the unit normal along the positive x axis.

use crate::math::{
    clamp_mag, is_isqrt, isqrt_u128, lemma_isqrt_dominates, lemma_isqrt_unique, lemma_tdiv_between,
    lemma_tdiv_in, lemma_tdiv_mag_le, mag, imax, tdiv, tdiv_i128, clamp_i128,
};
use crate::particle::{particle_bounded, Particle, MAX_RADIUS, POS_LIMIT, VEL_LIMIT};
use vstd::prelude::*;

verus! {

/// Mass of a body of radius `r`, a stand-in for volume at uniform density.
pub open spec fn mass_of(r: int) -> int {
    r * r * r
}

/// Dot product of two plane vectors.
pub open spec fn dot2(ax: int, ay: int, bx: int, by: int) -> int {
    ax * bx + ay * by
}

/// Squared distance between the centres of `a` and `p`.
pub open spec fn dist_sq(a: Particle, p: Particle) -> int {
    (p.x - a.x) * (p.x - a.x) + (p.y - a.y) * (p.y - a.y)
}

/// The circles of `a` and `p` touch or overlap.
pub open spec fn circles_overlap(a: Particle, p: Particle) -> bool {
    dist_sq(a, p) <= (a.radius + p.radius) * (a.radius + p.radius)
}

/// Distance from `a`'s centre to the contact point along the centre line:
/// the centre distance `s`, weighted by the opposite body's share of the
/// two radii, so that the correction falls more on the smaller body.
pub open spec fn touch_len(a: Particle, p: Particle, s: int) -> int {
    tdiv(s * p.radius, a.radius + p.radius)
}

/// New coordinate of body `A` on one axis after de-penetration: the contact
/// coordinate, backed off along the normal by `r_off`, the opposite body's
/// radius.  `ac` is `A`'s old coordinate, `d` the centre offset component
/// on this axis.
pub open spec fn depen_a_coord(ac: int, d: int, r_off: int, t: int, s: int) -> int {
    ac + tdiv(d * t, s) - tdiv(d * r_off, s)
}

/// New coordinate of body `P` on one axis after de-penetration: the contact
/// coordinate, advanced along the normal by `r_off`, the opposite body's
/// radius.
pub open spec fn depen_p_coord(ac: int, d: int, r_off: int, t: int, s: int) -> int {
    ac + tdiv(d * t, s) + tdiv(d * r_off, s)
}

/// New normal velocity of body `A`, scaled by the normal length: the
/// one-dimensional elastic-collision formula over `mass = radius^3`,
/// applied to the velocity components along the centre offset `(dx, dy)`.
pub open spec fn impulse_a(a: Particle, p: Particle, dx: int, dy: int) -> int {
    let da = dot2(a.vx as int, a.vy as int, dx, dy);
    let dp = dot2(p.vx as int, p.vy as int, dx, dy);
    let ma = mass_of(a.radius as int);
    let mp = mass_of(p.radius as int);
    tdiv(da * (ma - mp) + 2 * mp * dp, ma + mp)
}

/// New normal velocity of body `P`, scaled by the normal length.
pub open spec fn impulse_p(a: Particle, p: Particle, dx: int, dy: int) -> int {
    let da = dot2(a.vx as int, a.vy as int, dx, dy);
    let dp = dot2(p.vx as int, p.vy as int, dx, dy);
    let ma = mass_of(a.radius as int);
    let mp = mass_of(p.radius as int);
    tdiv(dp * (mp - ma) + 2 * ma * da, ma + mp)
}

/// One cartesian component of a body's velocity after the exchange: the old
/// component, corrected along the normal by the impulse difference and
/// saturated into the global velocity limit.  `v` is the old component,
/// `d` the normal component on this axis, `imp` the body's impulse,
/// `before` its old normal velocity scaled by the normal length, `q` the
/// squared normal length.
pub open spec fn exch_comp(v: int, d: int, imp: int, before: int, q: int) -> int {
    clamp_mag(v + tdiv((imp - before) * d, q), VEL_LIMIT as int)
}

/// All eight coordinates of the resolved pair, as `(ax, ay, px, py, avx,
/// avy, pvx, pvy)`, for normal data `(dx, dy, q, s)`.
pub open spec fn resolved_pair(a: Particle, p: Particle, dx: int, dy: int, q: int, s: int) -> (
    int,
    int,
    int,
    int,
    int,
    int,
    int,
    int,
) {
    let t = touch_len(a, p, s);
    let da = dot2(a.vx as int, a.vy as int, dx, dy);
    let dp = dot2(p.vx as int, p.vy as int, dx, dy);
    (
        depen_a_coord(a.x as int, dx, p.radius as int, t, s),
        depen_a_coord(a.y as int, dy, p.radius as int, t, s),
        depen_p_coord(a.x as int, dx, a.radius as int, t, s),
        depen_p_coord(a.y as int, dy, a.radius as int, t, s),
        exch_comp(a.vx as int, dx, impulse_a(a, p, dx, dy), da, q),
        exch_comp(a.vy as int, dy, impulse_a(a, p, dx, dy), da, q),
        exch_comp(p.vx as int, dx, impulse_p(a, p, dx, dy), dp, q),
        exch_comp(p.vy as int, dy, impulse_p(a, p, dx, dy), dp, q),
    )
}

/// The particles at `ai` and `pi` hold the given resolved coordinates and
/// keep their radius, colour and identity.
pub open spec fn holds_resolution(
    s2: Seq<Particle>,
    ai: int,
    pi: int,
    a: Particle,
    p: Particle,
    r: (int, int, int, int, int, int, int, int),
) -> bool {
    &&& s2[ai].x as int == r.0
    &&& s2[ai].y as int == r.1
    &&& s2[pi].x as int == r.2
    &&& s2[pi].y as int == r.3
    &&& s2[ai].vx as int == r.4
    &&& s2[ai].vy as int == r.5
    &&& s2[pi].vx as int == r.6
    &&& s2[pi].vy as int == r.7
}

/// The resolution of the pair at `ai` and `pi` along the true normal,
/// with `sv` the integer square root of the squared centre distance.
pub open spec fn resolved_with_root(
    pre: Seq<Particle>,
    post: Seq<Particle>,
    pi: int,
    ai: int,
    sv: int,
) -> bool {
    holds_resolution(
        post,
        ai,
        pi,
        pre[ai],
        pre[pi],
        resolved_pair(
            pre[ai],
            pre[pi],
            pre[pi].x - pre[ai].x,
            pre[pi].y - pre[ai].y,
            dist_sq(pre[ai], pre[pi]),
            sv,
        ),
    )
}

/// One narrow-phase step as a relation between the particle list before
/// and after: exactly what `resolve_collision` ensures of its two indices.
pub open spec fn narrow_phase_step(
    pre: Seq<Particle>,
    post: Seq<Particle>,
    pi: int,
    ai: int,
) -> bool {
    &&& 0 <= pi < pre.len()
    &&& 0 <= ai < pre.len()
    &&& pi != ai
    &&& post.len() == pre.len()
    &&& forall|k: int| 0 <= k < pre.len() && k != ai && k != pi ==> post[k] == pre[k]
    &&& post[ai].radius == pre[ai].radius
    &&& post[ai].color == pre[ai].color
    &&& post[ai].id == pre[ai].id
    &&& post[pi].radius == pre[pi].radius
    &&& post[pi].color == pre[pi].color
    &&& post[pi].id == pre[pi].id
    &&& (!circles_overlap(pre[ai], pre[pi]) ==> post == pre)
    &&& (circles_overlap(pre[ai], pre[pi]) && dist_sq(pre[ai], pre[pi]) != 0 ==> forall|sv: int|
        is_isqrt(sv, dist_sq(pre[ai], pre[pi])) ==> #[trigger] resolved_with_root(
            pre,
            post,
            pi,
            ai,
            sv,
        ))
    &&& (dist_sq(pre[ai], pre[pi]) == 0 ==> holds_resolution(
        post,
        ai,
        pi,
        pre[ai],
        pre[pi],
        resolved_pair(pre[ai], pre[pi], 1, 0, 1, 1),
    ))
}

/// Test one candidate pair and, when the circles really overlap, separate
/// the bodies and exchange their normal velocities.  `pi` is the sweep's
/// current particle, `ai` the active partner the pair was recorded
/// against; the normal points from `ai`'s body towards `pi`'s.
#[verifier::rlimit(100)]
pub fn resolve_collision(ps: &mut Vec<Particle>, pi: usize, ai: usize)
    requires
        pi < old(ps)@.len(),
        ai < old(ps)@.len(),
        pi != ai,
        particle_bounded(old(ps)@[pi as int]),
        particle_bounded(old(ps)@[ai as int]),
    ensures
        final(ps)@.len() == old(ps)@.len(),
        forall|k: int|
            0 <= k < old(ps)@.len() && k != ai as int && k != pi as int ==> final(ps)@[k] == old(
                ps,
            )@[k],
        final(ps)@[ai as int].radius == old(ps)@[ai as int].radius,
        final(ps)@[ai as int].color == old(ps)@[ai as int].color,
        final(ps)@[ai as int].id == old(ps)@[ai as int].id,
        final(ps)@[pi as int].radius == old(ps)@[pi as int].radius,
        final(ps)@[pi as int].color == old(ps)@[pi as int].color,
        final(ps)@[pi as int].id == old(ps)@[pi as int].id,
        // a separated pair is left untouched
        !circles_overlap(old(ps)@[ai as int], old(ps)@[pi as int]) ==> final(ps)@ == old(ps)@,
        // an overlapping pair with distinct centres is resolved along the
        // true normal
        ({
            let a = old(ps)@[ai as int];
            let p = old(ps)@[pi as int];
            circles_overlap(a, p) && dist_sq(a, p) != 0 ==> forall|sv: int|
                is_isqrt(sv, dist_sq(a, p)) ==> holds_resolution(
                    final(ps)@,
                    ai as int,
                    pi as int,
                    a,
                    p,
                    resolved_pair(a, p, p.x - a.x, p.y - a.y, dist_sq(a, p), sv),
                )
        }),
        // coincident centres fall back to the unit normal along positive x
        ({
            let a = old(ps)@[ai as int];
            let p = old(ps)@[pi as int];
            dist_sq(a, p) == 0 ==> holds_resolution(
                final(ps)@,
                ai as int,
                pi as int,
                a,
                p,
                resolved_pair(a, p, 1, 0, 1, 1),
            )
        }),
        // the moved bodies stay near the pair and inside all hard bounds
        ({
            let a = old(ps)@[ai as int];
            let p = old(ps)@[pi as int];
            let bx = imax(mag(a.x as int), mag(p.x as int)) + MAX_RADIUS + 2;
            let by = imax(mag(a.y as int), mag(p.y as int)) + MAX_RADIUS + 2;
            &&& mag(final(ps)@[ai as int].x as int) <= bx
            &&& mag(final(ps)@[pi as int].x as int) <= bx
            &&& mag(final(ps)@[ai as int].y as int) <= by
            &&& mag(final(ps)@[pi as int].y as int) <= by
            &&& mag(final(ps)@[ai as int].vx as int) <= VEL_LIMIT
            &&& mag(final(ps)@[ai as int].vy as int) <= VEL_LIMIT
            &&& mag(final(ps)@[pi as int].vx as int) <= VEL_LIMIT
            &&& mag(final(ps)@[pi as int].vy as int) <= VEL_LIMIT
        }),
{
    let a = ps[ai];
    let p = ps[pi];
    let dxw: i128 = p.x as i128 - a.x as i128;
    let dyw: i128 = p.y as i128 - a.y as i128;
    proof {
        assert(0 <= dxw * dxw <= 4_000_000_000_000_000_000_000_000 && 0 <= dyw * dyw
            <= 4_000_000_000_000_000_000_000_000) by (nonlinear_arith)
            requires
                -2_000_000_000_000 <= dxw <= 2_000_000_000_000,
                -2_000_000_000_000 <= dyw <= 2_000_000_000_000,
        ;
    }
    let q: i128 = dxw * dxw + dyw * dyw;
    let rs: i64 = a.radius + p.radius;
    let rsw: i128 = rs as i128;
    proof {
        assert(0 <= rsw * rsw <= 40_000_000_000) by (nonlinear_arith)
            requires
                2 <= rsw <= 200_000,
        ;
    }
    if q > rsw * rsw {
        return ;
    }
    let ghost a0 = a;
    let ghost p0 = p;
    let (dx, dy, qe, s): (i128, i128, i128, i128) = if q == 0 {
        (1, 0, 1, 1)
    } else {
        let sr = isqrt_u128(q as u128);
        proof {
            assert(sr as int <= 2_900_000_000_000) by (nonlinear_arith)
                requires
                    0 <= sr as int,
                    (sr as int) * (sr as int) <= 8_000_000_000_000_000_000_000_000,
            ;
            lemma_isqrt_dominates(dxw as int, sr as int, q as int);
            lemma_isqrt_dominates(dyw as int, sr as int, q as int);
            assert(sr as int >= 1) by (nonlinear_arith)
                requires
                    q as int >= 1,
                    0 <= sr as int,
                    (sr as int) * (sr as int) <= q as int,
                    (q as int) < (sr as int + 1) * (sr as int + 1),
            ;
        }
        (dxw, dyw, q, sr as i128)
    };
    proof {
        assert(1 <= s <= 2_900_000_000_000);
        assert(mag(dx as int) <= s && mag(dy as int) <= s);
        assert(-2_000_000_000_000 <= dx <= 2_000_000_000_000);
        assert(1 <= qe <= 8_000_000_000_000_000_000_000_000);
    }
    // --- de-penetration around the radius-weighted contact point ---
    let ar: i128 = a.radius as i128;
    let pr: i128 = p.radius as i128;
    proof {
        assert(0 <= s * ar <= 290_000_000_000_000_000 && 0 <= s * pr <= 290_000_000_000_000_000
            && s * pr <= s * rsw && -(s * rsw) <= s * pr) by (nonlinear_arith)
            requires
                1 <= s <= 2_900_000_000_000,
                1 <= ar <= 100_000,
                1 <= pr <= 100_000,
                pr <= rsw,
        ;
    }
    let t = tdiv_i128(s * pr, rsw);
    proof {
        lemma_tdiv_in(s as int * pr as int, rsw as int, s as int);
        vstd::arithmetic::div_mod::lemma_div_pos_is_pos(s as int * pr as int, rsw as int);
        assert(0 <= t <= s);
        lemma_tdiv_between(dx as int, t as int, s as int);
        lemma_tdiv_between(dy as int, t as int, s as int);
        assert(-(s * 2_000_000_000_000) <= dx * t <= s * 2_000_000_000_000 && -(s
            * 2_000_000_000_000) <= dy * t <= s * 2_000_000_000_000) by (nonlinear_arith)
            requires
                0 <= t <= s,
                -2_000_000_000_000 <= dx <= 2_000_000_000_000,
                -2_000_000_000_000 <= dy <= 2_000_000_000_000,
                1 <= s,
        ;
        assert(-(s * ar) <= dx * ar <= s * ar && -(s * ar) <= dy * ar <= s * ar && -(s * pr) <= dx
            * pr <= s * pr && -(s * pr) <= dy * pr <= s * pr) by (nonlinear_arith)
            requires
                mag(dx as int) <= s,
                mag(dy as int) <= s,
                1 <= ar,
                1 <= pr,
                -(s as int) <= dx as int <= s as int,
                -(s as int) <= dy as int <= s as int,
        ;
    }
    let cox = tdiv_i128(dx * t, s);
    let coy = tdiv_i128(dy * t, s);
    proof {
        lemma_tdiv_in(dx as int * ar as int, s as int, ar as int);
        lemma_tdiv_in(dy as int * ar as int, s as int, ar as int);
        lemma_tdiv_in(dx as int * pr as int, s as int, pr as int);
        lemma_tdiv_in(dy as int * pr as int, s as int, pr as int);
    }
    let offax = tdiv_i128(dx * pr, s);
    let offay = tdiv_i128(dy * pr, s);
    let offpx = tdiv_i128(dx * ar, s);
    let offpy = tdiv_i128(dy * ar, s);
    let naxw: i128 = a.x as i128 + cox - offax;
    let nayw: i128 = a.y as i128 + coy - offay;
    let npxw: i128 = a.x as i128 + cox + offpx;
    let npyw: i128 = a.y as i128 + coy + offpy;
    // --- elastic velocity exchange along the normal ---
    proof {
        assert(1 <= ar * ar <= 10_000_000_000 && 1 <= pr * pr <= 10_000_000_000)
            by (nonlinear_arith)
            requires
                1 <= ar <= 100_000,
                1 <= pr <= 100_000,
        ;
        assert((1 <= ar * ar <= 10_000_000_000 && 1 <= ar <= 100_000 ==> 1 <= (ar * ar) * ar
            <= 1_000_000_000_000_000) && (1 <= pr * pr <= 10_000_000_000 && 1 <= pr <= 100_000 ==> 1
            <= (pr * pr) * pr <= 1_000_000_000_000_000)) by (nonlinear_arith);
    }
    let m_a: i128 = (ar * ar) * ar;
    let m_p: i128 = (pr * pr) * pr;
    let msum: i128 = m_a + m_p;
    proof {
        assert(-2_000_000_000_000_000_000_000 <= (a.vx as i128) * dx <= 2_000_000_000_000_000_000_000
            && -2_000_000_000_000_000_000_000 <= (a.vy as i128) * dy
            <= 2_000_000_000_000_000_000_000 && -2_000_000_000_000_000_000_000 <= (p.vx as i128)
            * dx <= 2_000_000_000_000_000_000_000 && -2_000_000_000_000_000_000_000 <= (p.vy
            as i128) * dy <= 2_000_000_000_000_000_000_000) by (nonlinear_arith)
            requires
                -1_000_000_000 <= a.vx as int <= 1_000_000_000,
                -1_000_000_000 <= a.vy as int <= 1_000_000_000,
                -1_000_000_000 <= p.vx as int <= 1_000_000_000,
                -1_000_000_000 <= p.vy as int <= 1_000_000_000,
                -2_000_000_000_000 <= dx as int <= 2_000_000_000_000,
                -2_000_000_000_000 <= dy as int <= 2_000_000_000_000,
        ;
    }
    let da: i128 = (a.vx as i128) * dx + (a.vy as i128) * dy;
    let dp: i128 = (p.vx as i128) * dx + (p.vy as i128) * dy;
    proof {
        assert((-(12_000_000_000_000_000_000_000 * msum) <= da * (m_a - m_p) + 2 * m_p * dp
            <= 12_000_000_000_000_000_000_000 * msum) && (-(12_000_000_000_000_000_000_000 * msum)
            <= dp * (m_p - m_a) + 2 * m_a * da <= 12_000_000_000_000_000_000_000 * msum))
            by (nonlinear_arith)
            requires
                -4_000_000_000_000_000_000_000 <= da <= 4_000_000_000_000_000_000_000,
                -4_000_000_000_000_000_000_000 <= dp <= 4_000_000_000_000_000_000_000,
                1 <= m_a <= 1_000_000_000_000_000,
                1 <= m_p <= 1_000_000_000_000_000,
                msum == m_a + m_p,
        ;
        assert((-40_000_000_000_000_000_000_000_000_000_000_000_000 <= da * (m_a - m_p)
            <= 40_000_000_000_000_000_000_000_000_000_000_000_000) && (-40_000_000_000_000_000_000_000_000_000_000_000_000
            <= 2 * m_p * dp <= 40_000_000_000_000_000_000_000_000_000_000_000_000) && (-40_000_000_000_000_000_000_000_000_000_000_000_000
            <= dp * (m_p - m_a) <= 40_000_000_000_000_000_000_000_000_000_000_000_000) && (-40_000_000_000_000_000_000_000_000_000_000_000_000
            <= 2 * m_a * da <= 40_000_000_000_000_000_000_000_000_000_000_000_000))
            by (nonlinear_arith)
            requires
                -4_000_000_000_000_000_000_000 <= da <= 4_000_000_000_000_000_000_000,
                -4_000_000_000_000_000_000_000 <= dp <= 4_000_000_000_000_000_000_000,
                1 <= m_a <= 1_000_000_000_000_000,
                1 <= m_p <= 1_000_000_000_000_000,
        ;
    }
    let na = tdiv_i128(da * (m_a - m_p) + 2 * m_p * dp, msum);
    let np = tdiv_i128(dp * (m_p - m_a) + 2 * m_a * da, msum);
    proof {
        lemma_tdiv_in(
            da as int * (m_a as int - m_p as int) + 2 * m_p as int * dp as int,
            msum as int,
            12_000_000_000_000_000_000_000,
        );
        lemma_tdiv_in(
            dp as int * (m_p as int - m_a as int) + 2 * m_a as int * da as int,
            msum as int,
            12_000_000_000_000_000_000_000,
        );
        assert((-32_000_000_000_000_000_000_000_000_000_000_000 <= (na - da) * dx
            <= 32_000_000_000_000_000_000_000_000_000_000_000) && (-32_000_000_000_000_000_000_000_000_000_000_000
            <= (na - da) * dy <= 32_000_000_000_000_000_000_000_000_000_000_000) && (-32_000_000_000_000_000_000_000_000_000_000_000
            <= (np - dp) * dx <= 32_000_000_000_000_000_000_000_000_000_000_000) && (-32_000_000_000_000_000_000_000_000_000_000_000
            <= (np - dp) * dy <= 32_000_000_000_000_000_000_000_000_000_000_000))
            by (nonlinear_arith)
            requires
                -16_000_000_000_000_000_000_000 <= na - da <= 16_000_000_000_000_000_000_000,
                -16_000_000_000_000_000_000_000 <= np - dp <= 16_000_000_000_000_000_000_000,
                -2_000_000_000_000 <= dx <= 2_000_000_000_000,
                -2_000_000_000_000 <= dy <= 2_000_000_000_000,
        ;
        lemma_tdiv_mag_le((na as int - da as int) * dx as int, qe as int);
        lemma_tdiv_mag_le((na as int - da as int) * dy as int, qe as int);
        lemma_tdiv_mag_le((np as int - dp as int) * dx as int, qe as int);
        lemma_tdiv_mag_le((np as int - dp as int) * dy as int, qe as int);
    }
    let navx = clamp_i128(a.vx as i128 + tdiv_i128((na - da) * dx, qe), VEL_LIMIT);
    let navy = clamp_i128(a.vy as i128 + tdiv_i128((na - da) * dy, qe), VEL_LIMIT);
    let npvx = clamp_i128(p.vx as i128 + tdiv_i128((np - dp) * dx, qe), VEL_LIMIT);
    let npvy = clamp_i128(p.vy as i128 + tdiv_i128((np - dp) * dy, qe), VEL_LIMIT);
    ps[ai] = Particle {
        x: naxw as i64,
        y: nayw as i64,
        vx: navx,
        vy: navy,
        radius: a.radius,
        color: a.color,
        id: a.id,
    };
    ps[pi] = Particle {
        x: npxw as i64,
        y: npyw as i64,
        vx: npvx,
        vy: npvy,
        radius: p.radius,
        color: p.color,
        id: p.id,
    };
    proof {
        if dist_sq(a0, p0) != 0 {
            assert forall|sv: int| is_isqrt(sv, dist_sq(a0, p0)) implies holds_resolution(
                ps@,
                ai as int,
                pi as int,
                a0,
                p0,
                resolved_pair(a0, p0, p0.x - a0.x, p0.y - a0.y, dist_sq(a0, p0), sv),
            ) by {
                lemma_isqrt_unique(sv, s as int, dist_sq(a0, p0));
            }
        }
    }
}

/// De-penetration along the x axis: with both centres on one horizontal
/// line and the true centre distance as normal length, the separated
/// centres end exactly the sum of the radii apart, each body displaced by
/// the opposite body's share of the correction (so the larger body moves
/// less), and the y coordinates are untouched.
pub proof fn lemma_depen_axis_aligned(a: Particle, p: Particle)
    requires
        a.y == p.y,
        a.x < p.x,
        0 < a.radius,
        0 < p.radius,
    ensures
        ({
            let dx = p.x - a.x;
            let t = touch_len(a, p, dx);
            &&& depen_a_coord(a.x as int, dx, p.radius as int, t, dx) == a.x + t - p.radius
            &&& depen_p_coord(a.x as int, dx, a.radius as int, t, dx) == a.x + t + a.radius
            &&& depen_p_coord(a.x as int, dx, a.radius as int, t, dx) - depen_a_coord(
                a.x as int,
                dx,
                p.radius as int,
                t,
                dx,
            ) == a.radius + p.radius
            &&& depen_a_coord(a.y as int, 0, p.radius as int, t, dx) == a.y
            &&& depen_p_coord(a.y as int, 0, a.radius as int, t, dx) == a.y
        }),
{
    let dx = p.x - a.x;
    let t = touch_len(a, p, dx);
    assert(dx * t == t * dx && dx * (a.radius as int) == (a.radius as int) * dx && dx * (
    p.radius as int) == (p.radius as int) * dx) by (nonlinear_arith);
    crate::math::lemma_tdiv_exact(t, dx as int);
    crate::math::lemma_tdiv_exact(a.radius as int, dx as int);
    crate::math::lemma_tdiv_exact(p.radius as int, dx as int);
    crate::math::lemma_tdiv_exact(0, dx as int);
}

/// With equal masses the elastic exchange is an exact swap of the normal
/// velocities: each body's impulse along the contact line equals the
/// other's incoming normal velocity.
pub proof fn lemma_equal_mass_impulse(a: Particle, p: Particle, dx: int, dy: int)
    requires
        a.radius == p.radius,
        0 < a.radius,
    ensures
        impulse_a(a, p, dx, dy) == dot2(p.vx as int, p.vy as int, dx, dy),
        impulse_p(a, p, dx, dy) == dot2(a.vx as int, a.vy as int, dx, dy),
{
    let ma = mass_of(a.radius as int);
    let da = dot2(a.vx as int, a.vy as int, dx, dy);
    let dp = dot2(p.vx as int, p.vy as int, dx, dy);
    assert(ma >= 1) by (nonlinear_arith)
        requires
            a.radius as int >= 1,
            ma == (a.radius as int) * (a.radius as int) * (a.radius as int),
    ;
    assert(da * (ma - ma) + 2 * ma * dp == dp * (ma + ma) && dp * (ma - ma) + 2 * ma * da == da * (
    ma + ma)) by (nonlinear_arith);
    crate::math::lemma_tdiv_exact(dp, ma + ma);
    crate::math::lemma_tdiv_exact(da, ma + ma);
}

/// A head-on collision between equal-mass bodies on one horizontal line
/// swaps the two velocities exactly: each body leaves with the other's
/// incoming velocity.
pub proof fn lemma_head_on_swap(a: Particle, p: Particle)
    requires
        a.radius == p.radius,
        particle_bounded(a),
        particle_bounded(p),
        a.y == p.y,
        a.x != p.x,
        a.vy == 0,
        p.vy == 0,
    ensures
        ({
            let dx = p.x - a.x;
            let q = dist_sq(a, p);
            let da = dot2(a.vx as int, a.vy as int, dx, 0);
            let dp = dot2(p.vx as int, p.vy as int, dx, 0);
            &&& exch_comp(a.vx as int, dx, impulse_a(a, p, dx, 0), da, q) == p.vx
            &&& exch_comp(p.vx as int, dx, impulse_p(a, p, dx, 0), dp, q) == a.vx
            &&& exch_comp(a.vy as int, 0, impulse_a(a, p, dx, 0), da, q) == 0
            &&& exch_comp(p.vy as int, 0, impulse_p(a, p, dx, 0), dp, q) == 0
        }),
{
    let dx = p.x - a.x;
    let q = dist_sq(a, p);
    let da = dot2(a.vx as int, a.vy as int, dx, 0);
    let dp = dot2(p.vx as int, p.vy as int, dx, 0);
    lemma_equal_mass_impulse(a, p, dx, 0);
    assert(q == dx * dx);
    assert(q >= 1) by (nonlinear_arith)
        requires
            dx != 0,
            q == dx * dx,
    ;
    assert((dp - da) * dx == ((p.vx as int) - (a.vx as int)) * q && (da - dp) * dx == ((a.vx as int)
        - (p.vx as int)) * q) by (nonlinear_arith)
        requires
            q == dx * dx,
            da == (a.vx as int) * dx + (a.vy as int) * 0,
            dp == (p.vx as int) * dx + (p.vy as int) * 0,
    ;
    crate::math::lemma_tdiv_exact((p.vx as int) - (a.vx as int), q);
    crate::math::lemma_tdiv_exact((a.vx as int) - (p.vx as int), q);
    crate::math::lemma_tdiv_exact(0, q);
}

} // verus!
