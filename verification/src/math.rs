//! Integer helpers for the collision arithmetic: magnitudes, truncating
//! division (the rounding of Rust's `/` on signed integers) and an integer
//! square root.

use vstd::arithmetic::div_mod::{
    lemma_div_is_ordered, lemma_div_multiples_vanish, lemma_div_pos_is_pos,
    lemma_fundamental_div_mod,
};
use vstd::prelude::*;

verus! {

/// Magnitude of an integer.
pub open spec fn mag(a: int) -> int {
    if a >= 0 {
        a
    } else {
        -a
    }
}

/// The larger of two integers.
pub open spec fn imax(a: int, b: int) -> int {
    if a >= b {
        a
    } else {
        b
    }
}

/// Quotient rounded towards zero, which is what Rust's `/` computes on
/// signed integers; spec-level `/` on `int` is Euclidean, so the two differ
/// on negative dividends.
pub open spec fn tdiv(a: int, b: int) -> int {
    if a >= 0 {
        a / b
    } else {
        -((-a) / b)
    }
}

/// Dividing a magnitude-bounded dividend keeps the quotient bounded:
/// `|a| <= c * b` gives `|a / b| <= c` for truncating division.
pub proof fn lemma_tdiv_in(a: int, b: int, c: int)
    requires
        b >= 1,
        c >= 0,
        -(c * b) <= a <= c * b,
    ensures
        -c <= tdiv(a, b) <= c,
{
    assert(c * b == b * c) by (nonlinear_arith);
    if a >= 0 {
        lemma_div_pos_is_pos(a, b);
        lemma_div_is_ordered(a, b * c, b);
        lemma_div_multiples_vanish(c, b);
    } else {
        lemma_div_pos_is_pos(-a, b);
        lemma_div_is_ordered(-a, b * c, b);
        lemma_div_multiples_vanish(c, b);
    }
}

/// Truncating division is exact on multiples of the divisor.
pub proof fn lemma_tdiv_exact(k: int, b: int)
    requires
        b >= 1,
    ensures
        tdiv(k * b, b) == k,
{
    assert(k * b == b * k && -(k * b) == b * (-k)) by (nonlinear_arith);
    if k >= 0 {
        lemma_div_multiples_vanish(k, b);
    } else {
        lemma_div_multiples_vanish(-k, b);
    }
}

/// The quotient never grows past the true ratio: `tdiv(a, b) * b` stays
/// within `|a|`.
pub proof fn lemma_tdiv_mul_le(a: int, b: int)
    requires
        b >= 1,
    ensures
        a >= 0 ==> 0 <= tdiv(a, b) * b <= a,
        a < 0 ==> a <= tdiv(a, b) * b <= 0,
{
    if a >= 0 {
        lemma_fundamental_div_mod(a, b);
        lemma_div_pos_is_pos(a, b);
        let q = a / b;
        assert(q * b == b * q && (q >= 0 && b >= 1 ==> b * q >= 0)) by (nonlinear_arith);
    } else {
        lemma_fundamental_div_mod(-a, b);
        lemma_div_pos_is_pos(-a, b);
        let q = (-a) / b;
        assert((-q) * b == -(b * q) && (q >= 0 && b >= 1 ==> b * q >= 0)) by (nonlinear_arith);
    }
}

/// The truncating quotient never exceeds the dividend in magnitude.
pub proof fn lemma_tdiv_mag_le(a: int, b: int)
    requires
        b >= 1,
    ensures
        -mag(a) <= tdiv(a, b) <= mag(a),
{
    if a >= 0 {
        lemma_div_pos_is_pos(a, b);
        vstd::arithmetic::div_mod::lemma_div_nonincreasing(a, b);
    } else {
        lemma_div_pos_is_pos(-a, b);
        vstd::arithmetic::div_mod::lemma_div_nonincreasing(-a, b);
    }
}

/// Scaling `d` by a fraction `t / s` with `0 <= t <= s` keeps the result
/// between `0` and `d`.
pub proof fn lemma_tdiv_between(d: int, t: int, s: int)
    requires
        0 <= t <= s,
        1 <= s,
    ensures
        d >= 0 ==> 0 <= tdiv(d * t, s) <= d,
        d < 0 ==> d <= tdiv(d * t, s) <= 0,
{
    assert(d >= 0 ==> 0 <= d * t <= d * s) by (nonlinear_arith)
        requires
            0 <= t <= s,
    ;
    assert(d < 0 ==> d * s <= d * t <= 0) by (nonlinear_arith)
        requires
            0 <= t <= s,
    ;
    assert(d * s == s * d && (-d) * s == s * (-d) && -(d * t) == (-d) * t) by (nonlinear_arith);
    if d >= 0 {
        lemma_div_pos_is_pos(d * t, s);
        lemma_div_is_ordered(d * t, s * d, s);
        lemma_div_multiples_vanish(d, s);
    } else {
        if d * t < 0 {
            assert((-d) * t <= (-d) * s) by (nonlinear_arith)
                requires
                    d < 0,
                    0 <= t <= s,
            ;
            lemma_div_pos_is_pos((-d) * t, s);
            lemma_div_is_ordered((-d) * t, s * (-d), s);
            lemma_div_multiples_vanish(-d, s);
        } else {
            assert(d * t == 0);
            assert(tdiv(0, s) == 0) by {
                vstd::arithmetic::div_mod::lemma_div_of0(s);
            }
        }
    }
}

/// Truncating quotient of an `i128` pair, computed through unsigned
/// division so that the executable rounding provably matches `tdiv`.
pub fn tdiv_i128(a: i128, b: i128) -> (q: i128)
    requires
        b >= 1,
        a > i128::MIN,
    ensures
        q == tdiv(a as int, b as int),
{
    if a >= 0 {
        let q = (a as u128) / (b as u128);
        proof {
            lemma_div_pos_is_pos(a as int, b as int);
            lemma_div_is_ordered(a as int, a as int, b as int);
            lemma_div_nonincreasing_local(a as int, b as int);
        }
        q as i128
    } else {
        let m = ((-a) as u128) / (b as u128);
        proof {
            lemma_div_pos_is_pos(-(a as int), b as int);
            lemma_div_nonincreasing_local(-(a as int), b as int);
        }
        -(m as i128)
    }
}

proof fn lemma_div_nonincreasing_local(x: int, d: int)
    requires
        x >= 0,
        d >= 1,
    ensures
        0 <= x / d <= x,
{
    lemma_div_pos_is_pos(x, d);
    lemma_div_is_ordered(x, x, d);
    vstd::arithmetic::div_mod::lemma_div_nonincreasing(x, d);
}

/// `r` is the integer square root of `n`: the largest integer whose square
/// does not exceed `n`.
pub open spec fn is_isqrt(r: int, n: int) -> bool {
    0 <= r && r * r <= n && n < (r + 1) * (r + 1)
}

/// Every nonnegative integer has an integer square root.
pub proof fn lemma_isqrt_exists(n: int)
    requires
        n >= 0,
    ensures
        exists|r: int| #[trigger] is_isqrt(r, n),
    decreases n,
{
    if n == 0 {
        assert(is_isqrt(0, 0));
    } else {
        lemma_isqrt_exists(n - 1);
        let r = choose|r: int| #[trigger] is_isqrt(r, n - 1);
        if n < (r + 1) * (r + 1) {
            assert(is_isqrt(r, n));
        } else {
            assert(n == (r + 1) * (r + 1));
            assert((r + 1) * (r + 1) < (r + 2) * (r + 2)) by (nonlinear_arith)
                requires
                    r >= 0,
            ;
            assert(is_isqrt(r + 1, n));
        }
    }
}

/// There is at most one integer square root.
pub proof fn lemma_isqrt_unique(r1: int, r2: int, n: int)
    by (nonlinear_arith)
    requires
        0 <= r1,
        r1 * r1 <= n,
        n < (r1 + 1) * (r1 + 1),
        0 <= r2,
        r2 * r2 <= n,
        n < (r2 + 1) * (r2 + 1),
    ensures
        r1 == r2,
{
}

/// Taking square roots preserves order: if `a * a <= n < (s + 1) * (s + 1)`
/// then `|a| <= s`.
pub proof fn lemma_isqrt_dominates(a: int, s: int, n: int)
    by (nonlinear_arith)
    requires
        0 <= s,
        s * s <= n,
        n < (s + 1) * (s + 1),
        a * a <= n,
    ensures
        -s <= a <= s,
{
}

/// Integer square root by bisection.
pub fn isqrt_u128(n: u128) -> (r: u128)
    ensures
        is_isqrt(r as int, n as int),
        r < 0x1_0000_0000_0000_0000,
{
    let mut lo: u128 = 0;
    let mut hi: u128 = 0x1_0000_0000_0000_0000;
    proof {
        assert((0x1_0000_0000_0000_0000 as int) * (0x1_0000_0000_0000_0000 as int) > u128::MAX as int)
            by (nonlinear_arith);
    }
    while hi - lo > 1
        invariant
            0 <= lo < hi <= 0x1_0000_0000_0000_0000,
            (lo as int) * (lo as int) <= n as int,
            (n as int) < (hi as int) * (hi as int),
        decreases hi - lo,
    {
        let mid = lo + (hi - lo) / 2;
        proof {
            assert(lo < mid < hi);
            assert((mid as int) * (mid as int) <= u128::MAX as int) by (nonlinear_arith)
                requires
                    0 <= mid as int <= 0xFFFF_FFFF_FFFF_FFFF as int,
            ;
        }
        if mid * mid <= n {
            lo = mid;
        } else {
            hi = mid;
        }
    }
    lo
}

/// Clamp an `i128` into the symmetric interval `[-lim, lim]`.
pub open spec fn clamp_mag(v: int, lim: int) -> int {
    if v > lim {
        lim
    } else if v < -lim {
        -lim
    } else {
        v
    }
}

/// Executable clamp matching `clamp_mag`.
pub fn clamp_i128(v: i128, lim: i64) -> (r: i64)
    requires
        lim > 0,
    ensures
        r == clamp_mag(v as int, lim as int),
{
    if v > lim as i128 {
        lim
    } else if v < -(lim as i128) {
        -lim
    } else {
        v as i64
    }
}

} // verus!
