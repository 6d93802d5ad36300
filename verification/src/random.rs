//! A bounded random walk of one scalar.

use vstd::prelude::*;
use crate::scalar::{
    clamp, clamped, div_round, lemma_div_toward_zero_bounds, mul_div, wide_mul, ONE,
};

verus! {

/// A source of random draws, owned by the caller. A draw is a fixed-point
/// number meant to be uniform between 0 and `ONE`; nothing is assumed of it:
/// a draw outside that range counts as the nearer end.
pub trait RandomSource {
    fn next_unit(&mut self) -> i64;
}

/// The offset that a draw gives to a walk of the given step: from minus half
/// the step for the draw 0 to half the step for the draw `ONE`.
pub open spec fn walk_offset(step: int, draw: int) -> int {
    mul_div(step, 2 * clamped(draw, 0, ONE as int) - ONE, 2 * ONE)
}

/// The value after one step of the walk: the offset is added and the sum is
/// clamped into `[min, max]`.
pub open spec fn random_walk(initial: int, step: int, min: int, max: int, draw: int) -> int {
    clamped(initial + walk_offset(step, draw), min, max)
}

/// An offset is no longer than half the step, and zero for the step zero.
pub proof fn lemma_walk_offset_bounded(step: int, draw: int)
    ensures
        step >= 0 ==> -(step / 2) <= walk_offset(step, draw) <= step / 2,
        step <= 0 ==> -((-step) / 2) <= -walk_offset(step, draw) <= (-step) / 2,
        step == 0 ==> walk_offset(step, draw) == 0,
{
    let k = 2 * clamped(draw, 0, ONE as int) - ONE;
    let q = walk_offset(step, draw);
    lemma_div_toward_zero_bounds(step * k, 2 * ONE);
    if step >= 0 {
        assert(-(step / 2) <= q <= step / 2) by (nonlinear_arith)
            requires
                step >= 0,
                -1000 <= k <= 1000,
                step * k >= 0 ==> 0 <= q * 2000 <= step * k,
                step * k <= 0 ==> step * k <= q * 2000 <= 0,
        ;
    } else {
        assert(-((-step) / 2) <= -q <= (-step) / 2) by (nonlinear_arith)
            requires
                step < 0,
                -1000 <= k <= 1000,
                step * k >= 0 ==> 0 <= q * 2000 <= step * k,
                step * k <= 0 ==> step * k <= q * 2000 <= 0,
        ;
    }
}

/// One step of the walk stays within its bounds, and a walk of step zero
/// that starts within them stays where it is.
pub proof fn lemma_random_walk_bounded(initial: int, step: int, min: int, max: int, draw: int)
    requires
        min <= max,
    ensures
        min <= random_walk(initial, step, min, max, draw) <= max,
        step == 0 && min <= initial <= max ==> random_walk(initial, step, min, max, draw)
            == initial,
{
    lemma_walk_offset_bounded(step, draw);
}

/// One step of the walk for a given draw.
pub fn scalar_random_walk_from(initial: i64, step: i64, min: i64, max: i64, draw: i64) -> (r: i64)
    requires
        min <= max,
    ensures
        r == random_walk(initial as int, step as int, min as int, max as int, draw as int),
        min <= r <= max,
        step == 0 && min <= initial <= max ==> r == initial,
{
    proof {
        lemma_random_walk_bounded(initial as int, step as int, min as int, max as int, draw as int);
        lemma_walk_offset_bounded(step as int, draw as int);
    }
    let unit: i64 = clamp(draw, 0, ONE);
    let factor: i64 = 2 * unit - ONE;
    let offset: i128 = div_round(wide_mul(step, factor), 2 * (ONE as i128));
    let next: i128 = (initial as i128) + offset;
    if next < (min as i128) {
        min
    } else if next > (max as i128) {
        max
    } else {
        next as i64
    }
}

/// One step of the walk, with a draw taken from `rng`.
pub fn scalar_random_walk<R: RandomSource>(
    initial: i64,
    step: i64,
    min: i64,
    max: i64,
    rng: &mut R,
) -> (r: i64)
    requires
        min <= max,
    ensures
        exists|draw: i64|
            r == random_walk(initial as int, step as int, min as int, max as int, draw as int),
        min <= r <= max,
        step == 0 && min <= initial <= max ==> r == initial,
{
    let draw: i64 = rng.next_unit();
    scalar_random_walk_from(initial, step, min, max, draw)
}

} // verus!
