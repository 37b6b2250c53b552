//! Fixed-point 2D vectors.
//!
//! Positions, displacements and velocities are pairs of `i64` coordinate
//! steps (`WORLD_SCALE` steps to the world unit), so all vector arithmetic
//! is exact. Products are evaluated in `i128`, which cannot overflow for
//! coordinates within [`COORD_LIMIT`].
use vstd::prelude::*;

verus! {

/// Largest coordinate magnitude (in fixed-point steps) that the geometric
/// predicates work with; keeps every product used below inside `i128`.
pub const COORD_LIMIT: i64 = 0x100_0000;

#[derive(Clone, Copy, Debug, PartialEq, Eq, Structural)]
pub struct Vec2 {
    pub x: i64,
    pub y: i64,
}

/// Both coordinates within the working range.
pub open spec fn in_range(v: Vec2) -> bool {
    -COORD_LIMIT <= v.x <= COORD_LIMIT && -COORD_LIMIT <= v.y <= COORD_LIMIT
}

/// Squared Euclidean length, over unbounded integers.
pub open spec fn norm_sq(v: Vec2) -> int {
    v.x * v.x + v.y * v.y
}

impl Vec2 {
    pub fn new(x: i64, y: i64) -> (r: Vec2)
        ensures
            r.x == x,
            r.y == y,
    {
        Vec2 { x, y }
    }

}

/// A product of two scalars bounded by `m` in magnitude is bounded by `m * m`.
pub proof fn lemma_mul_bound(a: int, b: int, m: int) by (nonlinear_arith)
    requires
        -m <= a <= m,
        -m <= b <= m,
        0 <= m,
    ensures
        -(m * m) <= a * b <= m * m,
{
}

/// A product of factors bounded by `ma` and `mb` is bounded by `ma * mb`.
pub proof fn lemma_mul_bound2(a: int, b: int, ma: int, mb: int) by (nonlinear_arith)
    requires
        -ma <= a <= ma,
        -mb <= b <= mb,
        0 <= ma,
        0 <= mb,
    ensures
        -(ma * mb) <= a * b <= ma * mb,
{
}

/// A square is never negative.
pub proof fn lemma_square_nonneg(a: int) by (nonlinear_arith)
    ensures
        a * a >= 0,
{
}

/// Clamp a scalar to a closed interval.
pub fn clamp_i64(v: i64, lo: i64, hi: i64) -> (r: i64)
    requires
        lo <= hi,
    ensures
        lo <= r <= hi,
        r == if v < lo { lo } else if v > hi { hi } else { v },
{
    if v < lo {
        lo
    } else if v > hi {
        hi
    } else {
        v
    }
}

} // verus!
