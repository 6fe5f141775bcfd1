//! Fixed-point evaluation of the terrain height field.
//!
//! The generator's height formula is `round(10*sin(i/4) + 10*sin(j/4) + 100)`
//! per column. The library computes in integers only, so the sine is
//! evaluated in Q16.16 fixed point with Bhaskara I's rational approximation,
//! whose error (below 0.002) is far smaller than one height unit. The spec
//! functions here are the definition of the library's height field; the
//! executable code is proved to compute exactly these values.

use crate::coords::{floor_div_i64, floor_mod_i64, spec_round_div, FIX_ONE};
use vstd::prelude::*;

verus! {

/// `pi` in Q16.16, rounded to the nearest representable value.
pub const PI_Q16: i64 = 205887;

/// `2*pi` in Q16.16, rounded to the nearest representable value.
pub const TWO_PI_Q16: i64 = 411775;

/// The angle step between neighbouring columns: `1/4` in Q16.16.
pub const QUARTER_Q16: i64 = 16384;

/// Bhaskara I's half-wave sine on `[0, pi]`, all in Q16.16:
/// `sin(x) ~~ 16*x*(pi - x) / (5*pi^2 - 4*x*(pi - x))`, scaled by `FIX_ONE`
/// and rounded; clamped to `FIX_ONE` so the bound needs no argument.
pub open spec fn spec_half_sine_q16(x: int) -> int {
    let p = x * (PI_Q16 - x);
    let num = 16 * p * (FIX_ONE as int);
    let den = 5 * (PI_Q16 as int) * (PI_Q16 as int) - 4 * p;
    let q = spec_round_div(num, den);
    if q > FIX_ONE {
        FIX_ONE as int
    } else {
        q
    }
}

/// Full-circle sine in Q16.16 for an angle already reduced to
/// `[0, 2*pi)`: the second half-wave is the negated first.
pub open spec fn spec_sin_q16(a: int) -> int {
    if a < PI_Q16 {
        spec_half_sine_q16(a)
    } else {
        -spec_half_sine_q16(a - PI_Q16)
    }
}

/// The angle `c/4` radians of a column coordinate, reduced to
/// `[0, 2*pi)` in Q16.16.
pub open spec fn spec_coord_angle(c: int) -> int {
    (c * QUARTER_Q16) % (TWO_PI_Q16 as int)
}

/// `sin(c/4)` in Q16.16 for a column coordinate `c`.
pub open spec fn spec_coord_sine(c: int) -> int {
    spec_sin_q16(spec_coord_angle(c))
}

/// The terrain height field, in discrete height units: the smooth,
/// seed-independent function `100 + round(10*sin(i/4) + 10*sin(j/4))` of
/// the global column coordinates alone, which is what makes adjacent
/// chunks tile seamlessly. Always within `[80, 120]`.
pub open spec fn spec_column_height(i: int, j: int) -> int {
    100 + spec_round_div(10 * (spec_coord_sine(i) + spec_coord_sine(j)), FIX_ONE as int)
}

/// Executable Bhaskara half-wave sine; see [`spec_half_sine_q16`].
pub fn half_sine_q16(x: i64) -> (r: i64)
    requires
        0 <= x <= PI_Q16,
    ensures
        r == spec_half_sine_q16(x as int),
        0 <= r <= FIX_ONE,
{
    proof {
        assert(0 <= x as int * (PI_Q16 - x as int) && 4 * (x as int * (PI_Q16 - x as int)) <= (
        PI_Q16 as int) * (PI_Q16 as int)) by (nonlinear_arith)
            requires
                0 <= x <= PI_Q16,
        ;
    }
    let p = x * (PI_Q16 - x);
    let num = 16 * p * FIX_ONE;
    let den = 5 * PI_Q16 * PI_Q16 - 4 * p;
    let q = floor_div_i64(2 * num + den, 2 * den);
    proof {
        assert(q >= 0) by (nonlinear_arith)
            requires
                q == (2 * num + den) as int / (2 * den) as int,
                num >= 0,
                den > 0,
        ;
    }
    if q > FIX_ONE {
        FIX_ONE
    } else {
        q
    }
}

/// Executable full-circle sine; see [`spec_sin_q16`].
pub fn sin_q16(a: i64) -> (r: i64)
    requires
        0 <= a < TWO_PI_Q16,
    ensures
        r == spec_sin_q16(a as int),
        -FIX_ONE <= r <= FIX_ONE,
{
    if a < PI_Q16 {
        half_sine_q16(a)
    } else {
        -half_sine_q16(a - PI_Q16)
    }
}

/// Executable sine of a column coordinate's angle; see [`spec_coord_sine`].
pub fn coord_sine(c: i64) -> (r: i64)
    requires
        -0x100_0000_0000 <= c <= 0x100_0000_0000,
    ensures
        r == spec_coord_sine(c as int),
        -FIX_ONE <= r <= FIX_ONE,
{
    let a = floor_mod_i64(c * QUARTER_Q16, TWO_PI_Q16);
    sin_q16(a)
}

/// Executable terrain height field; see [`spec_column_height`].
pub fn column_height(i: i64, j: i64) -> (h: u16)
    requires
        -0x100_0000_0000 <= i <= 0x100_0000_0000,
        -0x100_0000_0000 <= j <= 0x100_0000_0000,
    ensures
        h as int == spec_column_height(i as int, j as int),
        80 <= h <= 120,
{
    let si = coord_sine(i);
    let sj = coord_sine(j);
    let t = floor_div_i64(2 * (10 * (si + sj)) + FIX_ONE, 2 * FIX_ONE);
    proof {
        assert(-20 <= t <= 20);
    }
    (100 + t) as u16
}

} // verus!
