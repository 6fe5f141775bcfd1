//! The coordinate system: axial hex coordinates, chunk indices, discrete
//! height units, and the conversions between them.
//!
//! Real-world lengths are represented in fixed point: an `i64` counts
//! units of `1/65536` (Q16.16 format, scale [`FIX_ONE`]).

use vstd::arithmetic::div_mod::{lemma_fundamental_div_mod, lemma_fundamental_div_mod_converse};
use vstd::prelude::*;

verus! {

/// Number of hex columns along each axis of a chunk.
pub const CHUNK_SIZE: usize = 16;

/// Fixed-point scale: `FIX_ONE` represents the real value `1.0`.
pub const FIX_ONE: i64 = 65536;

/// Outer radius of one hexagon (distance from center to a corner): `1.0`.
pub const HEX_OUTER_RADIUS: i64 = 65536;

/// Inner radius of one hexagon (distance from center to an edge):
/// `sqrt(3)/2` of the outer radius, rounded to the fixed-point grid.
pub const HEX_INNER_RADIUS: i64 = 56756;

/// Real-world height of one discrete vertical step: `1.0`.
pub const PILLAR_STEP_HEIGHT: i64 = 65536;

/// Integer hex coordinate `(q, r)` in axial hex-grid space.
#[derive(Clone, Copy, PartialEq, Eq, Structural, Debug, Hash)]
pub struct AxialPoint {
    pub q: i32,
    pub r: i32,
}

/// Axial coordinate of a chunk, in chunk-grid units: the chunk with index
/// `(cq, cr)` spans hex columns `[cq*CHUNK_SIZE, (cq+1)*CHUNK_SIZE)` by
/// `[cr*CHUNK_SIZE, (cr+1)*CHUNK_SIZE)`.
#[derive(Clone, Copy, PartialEq, Eq, Structural, Debug, Hash)]
pub struct ChunkIndex(pub AxialPoint);

/// Absolute hex coordinate of one pillar.
#[derive(Clone, Copy, PartialEq, Eq, Structural, Debug, Hash)]
pub struct PillarIndex(pub AxialPoint);

/// Discrete vertical unit: real-world height is `units * PILLAR_STEP_HEIGHT`.
#[derive(Clone, Copy, PartialEq, Eq, Structural, Debug, Hash)]
pub struct HeightType(pub u16);

/// A 2D real-world position in fixed point.
#[derive(Clone, Copy, PartialEq, Eq, Structural, Debug)]
pub struct Position2 {
    pub x: i64,
    pub y: i64,
}

/// A 3D real-world position in fixed point; `z` points up.
#[derive(Clone, Copy, PartialEq, Eq, Structural, Debug)]
pub struct Position3 {
    pub x: i64,
    pub y: i64,
    pub z: i64,
}

impl AxialPoint {
    pub fn new(q: i32, r: i32) -> (p: AxialPoint)
        ensures
            p.q == q,
            p.r == r,
    {
        AxialPoint { q, r }
    }
}

impl HeightType {
    /// Creates a height from a unit count.
    pub fn from_units(units: u16) -> (h: HeightType)
        ensures
            h.0 == units,
    {
        HeightType(units)
    }

    /// The number of discrete units.
    pub fn units(self) -> (u: u16)
        ensures
            u == self.0,
    {
        self.0
    }

    /// Real-world height of the *bottom* of this discrete step.
    pub fn to_fixed(self) -> (z: i64)
        ensures
            z == self.0 as int * PILLAR_STEP_HEIGHT,
    {
        (self.0 as i64) * PILLAR_STEP_HEIGHT
    }
}

/// Floor division for a positive divisor: rounds toward negative infinity,
/// matching mathematical integer division.
pub fn floor_div_i64(a: i64, b: i64) -> (q: i64)
    requires
        0 < b,
    ensures
        q == a as int / b as int,
{
    let t = a / b;
    let m = a % b;
    if m != 0 && a < 0 {
        proof {
            let n = -(a as int);
            lemma_fundamental_div_mod(n, b as int);
            assert(i64::MIN < t && a as int == (t - 1) * (b as int) + (m + b))
                by (nonlinear_arith)
                requires
                    0 < b,
                    n == b as int * (n / b as int) + n % b as int,
                    0 <= n % (b as int) && n % (b as int) < b as int,
                    t == -(n / b as int),
                    m == -(n % b as int),
                    m != 0,
                    n == -(a as int),
                    n <= 0x8000_0000_0000_0000,
                    i64::MIN == -0x8000_0000_0000_0000,
            ;
            lemma_fundamental_div_mod_converse(a as int, b as int, t as int - 1, m as int + b);
        }
        t - 1
    } else {
        proof {
            if a < 0 {
                let n = -(a as int);
                lemma_fundamental_div_mod(n, b as int);
                assert(a as int == t * (b as int) + 0) by (nonlinear_arith)
                    requires
                        0 < b,
                        n == b as int * (n / b as int) + n % b as int,
                        t == -(n / b as int),
                        n % b as int == 0,
                        n == -(a as int),
                ;
                lemma_fundamental_div_mod_converse(a as int, b as int, t as int, 0);
            }
        }
        t
    }
}

/// Remainder for floor division by a positive divisor: always in `[0, b)`.
pub fn floor_mod_i64(a: i64, b: i64) -> (m: i64)
    requires
        0 < b,
    ensures
        m == a as int % b as int,
        0 <= m < b,
{
    let t = a % b;
    proof {
        if a < 0 {
            let n = -(a as int);
            lemma_fundamental_div_mod(n, b as int);
            assert(t == -(n % b as int));
            if t < 0 {
                assert(a as int == (-(n / b as int) - 1) * (b as int) + (t + b))
                    by (nonlinear_arith)
                    requires
                        0 < b,
                        n == b as int * (n / b as int) + n % b as int,
                        t == -(n % b as int),
                        n == -(a as int),
                ;
                lemma_fundamental_div_mod_converse(
                    a as int,
                    b as int,
                    -((-(a as int)) / b as int) - 1,
                    t as int + b,
                );
            } else {
                assert(a as int == (-(n / b as int)) * (b as int) + 0) by (nonlinear_arith)
                    requires
                        0 < b,
                        n == b as int * (n / b as int) + n % b as int,
                        n % b as int == 0,
                        n == -(a as int),
                ;
                lemma_fundamental_div_mod_converse(a as int, b as int, -((-(a as int)) / b as int), 0);
            }
        }
    }
    if t < 0 {
        t + b
    } else {
        t
    }
}

/// Quotient `n / d` rounded to the nearest integer (half rounds up),
/// for a positive divisor.
pub open spec fn spec_round_div(n: int, d: int) -> int {
    (2 * n + d) / (2 * d)
}

/// Executable rounding division; see [`spec_round_div`]. The last two
/// clauses bracket the result so that callers can bound it linearly.
pub fn round_div_i64(n: i64, d: i64) -> (r: i64)
    requires
        0 < d < 0x1000_0000_0000_0000,
        -0x1000_0000_0000_0000 < n < 0x1000_0000_0000_0000,
    ensures
        r == spec_round_div(n as int, d as int),
        2 * (d as int) * r <= 2 * (n as int) + d,
        2 * (n as int) + d < 2 * (d as int) * r + 2 * d,
{
    let r = floor_div_i64(2 * n + d, 2 * d);
    proof {
        let x = 2 * (n as int) + d;
        let dd = 2 * (d as int);
        lemma_fundamental_div_mod(x, dd);
        assert(x == dd * (x / dd) + x % dd);
        assert(2 * (d as int) * (r as int) == dd * (x / dd)) by (nonlinear_arith)
            requires
                r == x / dd,
                dd == 2 * (d as int),
        ;
    }
    r
}

/// The center of hexagon `(q, r)` in real-world coordinates, for
/// pointy-top hexes: `x = inner * (2q + r)`, `y = (3/2) * outer * r`,
/// carried in fixed point.
pub open spec fn spec_axial_to_fixed(a: AxialPoint) -> Position2 {
    Position2 {
        x: (HEX_INNER_RADIUS * (2 * a.q + a.r)) as i64,
        y: ((3 * HEX_OUTER_RADIUS / 2) * a.r) as i64,
    }
}

/// Converts a hex coordinate to the real-world position of its center.
pub fn axial_to_fixed(a: AxialPoint) -> (p: Position2)
    ensures
        p == spec_axial_to_fixed(a),
{
    let q = a.q as i64;
    let r = a.r as i64;
    Position2 { x: HEX_INNER_RADIUS * (2 * q + r), y: (3 * HEX_OUTER_RADIUS / 2) * r }
}

/// The fractional hex coordinates of a real position, in fixed point:
/// the exact inverse of the center map before any rounding.
/// `t` stands for `2q + r`.
pub open spec fn spec_frac_r(p: Position2) -> int {
    spec_round_div(2 * p.y, 3)
}

pub open spec fn spec_frac_q(p: Position2) -> int {
    spec_round_div(spec_round_div(p.x * (FIX_ONE as int), HEX_INNER_RADIUS as int) - spec_frac_r(p), 2)
}

/// The hexagon containing a real position: fractional axial coordinates
/// rounded cube-wise. Each of `q`, `r` and `s = -q-r` is rounded to the
/// nearest integer; when the three roundings do not cancel, the one that
/// moved farthest is recomputed from the other two, which picks the
/// containing hexagon rather than naively rounding each axis.
pub open spec fn spec_fixed_to_axial(p: Position2) -> AxialPoint {
    let qf = spec_frac_q(p);
    let rf = spec_frac_r(p);
    let sf = -qf - rf;
    let q0 = spec_round_div(qf, FIX_ONE as int);
    let r0 = spec_round_div(rf, FIX_ONE as int);
    let s0 = spec_round_div(sf, FIX_ONE as int);
    let dq = if q0 * (FIX_ONE as int) >= qf {
        q0 * (FIX_ONE as int) - qf
    } else {
        qf - q0 * (FIX_ONE as int)
    };
    let dr = if r0 * (FIX_ONE as int) >= rf {
        r0 * (FIX_ONE as int) - rf
    } else {
        rf - r0 * (FIX_ONE as int)
    };
    let ds = if s0 * (FIX_ONE as int) >= sf {
        s0 * (FIX_ONE as int) - sf
    } else {
        sf - s0 * (FIX_ONE as int)
    };
    if q0 + r0 + s0 == 0 {
        AxialPoint { q: q0 as i32, r: r0 as i32 }
    } else if dq >= dr && dq >= ds {
        AxialPoint { q: (-r0 - s0) as i32, r: r0 as i32 }
    } else if dr >= ds {
        AxialPoint { q: q0 as i32, r: (-q0 - s0) as i32 }
    } else {
        AxialPoint { q: q0 as i32, r: r0 as i32 }
    }
}

/// Largest real coordinate magnitude accepted by [`fixed_to_axial`]; far
/// beyond any chunk the 32-bit hex grid can address.
pub const MAX_REAL_COORD: i64 = 0x100_0000_0000;

/// Converts a real position to the hex coordinate of the containing
/// hexagon; exact nearest-hexagon containment, not naive rounding.
pub fn fixed_to_axial(p: Position2) -> (a: AxialPoint)
    requires
        -MAX_REAL_COORD <= p.x <= MAX_REAL_COORD,
        -MAX_REAL_COORD <= p.y <= MAX_REAL_COORD,
    ensures
        a == spec_fixed_to_axial(p),
{
    let tf = round_div_i64(p.x * FIX_ONE, HEX_INNER_RADIUS);
    let rf = round_div_i64(2 * p.y, 3);
    let qf = round_div_i64(tf - rf, 2);
    let sf = -qf - rf;
    let q0 = round_div_i64(qf, FIX_ONE);
    let r0 = round_div_i64(rf, FIX_ONE);
    let s0 = round_div_i64(sf, FIX_ONE);
    let dq = if q0 * FIX_ONE >= qf {
        q0 * FIX_ONE - qf
    } else {
        qf - q0 * FIX_ONE
    };
    let dr = if r0 * FIX_ONE >= rf {
        r0 * FIX_ONE - rf
    } else {
        rf - r0 * FIX_ONE
    };
    let ds = if s0 * FIX_ONE >= sf {
        s0 * FIX_ONE - sf
    } else {
        sf - s0 * FIX_ONE
    };
    if q0 + r0 + s0 == 0 {
        AxialPoint { q: q0 as i32, r: r0 as i32 }
    } else if dq >= dr && dq >= ds {
        AxialPoint { q: (-r0 - s0) as i32, r: r0 as i32 }
    } else if dr >= ds {
        AxialPoint { q: q0 as i32, r: (-q0 - s0) as i32 }
    } else {
        AxialPoint { q: q0 as i32, r: r0 as i32 }
    }
}

/// The discrete height step containing the real height `z`, i.e.
/// `floor(z / PILLAR_STEP_HEIGHT)`, truncated toward the containing step
/// and never rounded. `None` when the step lies outside the unsigned
/// discrete range (below the world floor or beyond the highest unit).
pub open spec fn spec_fixed_to_height(z: int) -> Option<HeightType> {
    let step = z / (PILLAR_STEP_HEIGHT as int);
    if 0 <= step <= u16::MAX {
        Some(HeightType(step as u16))
    } else {
        None
    }
}

/// Converts a real height to its discrete step (floor division); range
/// checked rather than wrapping.
pub fn fixed_to_height(z: i64) -> (h: Option<HeightType>)
    ensures
        h == spec_fixed_to_height(z as int),
{
    let step = floor_div_i64(z, PILLAR_STEP_HEIGHT);
    if 0 <= step && step <= u16::MAX as i64 {
        Some(HeightType(step as u16))
    } else {
        None
    }
}

} // verus!
