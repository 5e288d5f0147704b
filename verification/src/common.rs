//! Small shared numeric helpers.

use crate::fixed::{tdiv, tdiv_i128, SCALE};
use vstd::prelude::*;

verus! {

/// The circle constant in micro-units, rounded to the nearest raw step.
pub const MICRO_PI: i64 = 3_141_593;

/// Converts an angle in micro-degrees to micro-radians: the angle times
/// `MICRO_PI`, divided by one hundred and eighty units, truncated toward
/// zero.
pub fn degrees_to_radians(degrees: i64) -> (r: i64)
    ensures
        r == tdiv((degrees as int) * (MICRO_PI as int), 180 * (SCALE as int)),
{
    proof {
        assert(crate::fixed::iabs((degrees as int) * (MICRO_PI as int)) <= (i64::MAX as int) * (
        180 * (SCALE as int))) by (nonlinear_arith)
            requires
                i64::MIN <= degrees <= i64::MAX,
                MICRO_PI == 3_141_593,
                SCALE == 1_000_000,
        ;
    }
    let q: i128 = tdiv_i128((degrees as i128) * (MICRO_PI as i128), 180 * (SCALE as i128));
    proof {
        crate::fixed::lemma_tdiv_abs_le(
            (degrees as int) * (MICRO_PI as int),
            180 * (SCALE as int),
            i64::MAX as int,
        );
    }
    q as i64
}

} // verus!
