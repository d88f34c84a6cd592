//! Trusted wrappers around macroquad's random number generator, the
//! entropy source the simulation draws its initial state from.

use macroquad::rand::ChooseRandom;
use vstd::prelude::*;

verus! {

/// Relies on macroquad::rand::gen_range (quad_rand): the result is
/// `low + f * (high - low)` for a fraction `f` in `[0, 1)` computed in
/// double precision from one 32-bit draw, truncated towards zero.  For
/// `0 <= low < high <= 10^9` that value stays in `[low, high]`; the upper
/// end is reachable only by rounding of the final addition, which cannot
/// happen when `low == 0`.
#[verifier::external_body]
pub(crate) fn rand_in_range(low: i64, high: i64) -> (r: i64)
    requires
        0 <= low < high <= 1_000_000_000,
    ensures
        low <= r <= high,
        low == 0 ==> r < high,
{
    macroquad::rand::gen_range(low, high)
}

/// Relies on macroquad::rand::ChooseRandom::choose: draws an index below
/// the length (so the result is an element of the list) and yields `None`
/// exactly on an empty list.
#[verifier::external_body]
pub(crate) fn pick_one<T: Copy>(options: &Vec<T>) -> (r: Option<T>)
    requires
        options@.len() <= 1_000_000,
    ensures
        r is Some <==> options@.len() > 0,
        r is Some ==> options@.contains(r.unwrap()),
{
    options.choose().copied()
}

} // verus!
