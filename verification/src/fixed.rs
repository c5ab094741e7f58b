//! Fixed-point arithmetic used for every metric value.
//!
//! All scores and weights are integers scaled by `SCALE`, so a metric value
//! of `1.0` is stored as `SCALE` and a value of `0.5` as `SCALE / 2`.
use vstd::prelude::*;

verus! {

/// One whole unit in fixed-point representation.
pub const SCALE: i64 = 1_000_000;

/// Clamp a fixed-point value into `[0, SCALE]`, the range of a normalized score.
pub fn clamp_unit(x: i64) -> (r: i64)
    ensures
        r == clamp_unit_spec(x as int),
{
    if x < 0 {
        0
    } else if x > SCALE {
        SCALE
    } else {
        x
    }
}

/// Mathematical meaning of `clamp_unit`.
pub open spec fn clamp_unit_spec(x: int) -> int {
    if x < 0 {
        0
    } else if x > SCALE {
        SCALE as int
    } else {
        x
    }
}

/// Every clamped value lies in the unit range.
pub proof fn lemma_clamp_unit_bounds(x: int)
    ensures
        0 <= clamp_unit_spec(x) <= SCALE,
{
}

} // verus!
