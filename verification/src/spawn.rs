//! Encounter generator.
//!
//! On each fire of the accelerating spawn timer a hostile appears at the
//! point where a ray — from a random aim point strictly inside the play
//! area, along a random direction — first leaves the play rectangle
//! enlarged by the spawn margin, so hostiles originate just offscreen.
//! The exit is found per axis by exact rational comparison; the returned
//! point sits exactly on the chosen boundary edge and off the exact ray by
//! less than one step per direction unit. The initial velocity points back
//! toward the interior, at a random speed; spin is random and symmetric.
use rand::Rng;
use vstd::arithmetic::div_mod::{lemma_div_of0, lemma_remainder_lower, lemma_remainder_upper};
use vstd::prelude::*;

use crate::hostile::{Enemy, ENEMY_MAX_HP};
use crate::play_area::{PlayArea, SPAWN_MARGIN};
use crate::vec2::{norm_sq, Vec2, COORD_LIMIT};

verus! {

/// Largest direction-vector component the exit computation accepts.
pub const DIR_LIMIT: i64 = 0x10000;

/// Slowest spawn speed, in steps per second.
pub const SPAWN_SPEED_MIN: i64 = 1000;

/// Fastest spawn speed, in steps per second.
pub const SPAWN_SPEED_MAX: i64 = 4000;

/// Largest spin magnitude, in milliradians per second.
pub const SPAWN_SPIN_MAX: i64 = 3000;

/// Magnitude of the random direction components.
pub const DIR_SCALE: i64 = 1000;

/// Ceiling of the longest drawn direction: `DIR_SCALE * sqrt 2`, rounded
/// up.
pub const DIR_NORM_CEIL: i64 = 1415;

/// Least magnitude of a spawned hostile's velocity component along the
/// drawn direction's full-scale axis: the slowest spawn speed shrunk by
/// at most the direction's length overshoot.
pub const SPAWN_SPEED_FLOOR: i64 = 706;

pub open spec fn abs_i(a: int) -> int {
    if a >= 0 {
        a
    } else {
        -a
    }
}

/// `p` sits on the rectangle's boundary.
pub open spec fn on_boundary(rect: PlayArea, p: Vec2) -> bool {
    p.x == rect.min.x || p.x == rect.max.x || p.y == rect.min.y || p.y == rect.max.y
}

/// Distance (numerator) from the aim point to the exit edge along x, for
/// the sign of `dir.x`.
pub open spec fn exit_num_x(aim: Vec2, dir: Vec2, rect: PlayArea) -> int {
    if dir.x > 0 {
        rect.max.x - aim.x
    } else {
        aim.x - rect.min.x
    }
}

pub open spec fn exit_num_y(aim: Vec2, dir: Vec2, rect: PlayArea) -> int {
    if dir.y > 0 {
        rect.max.y - aim.y
    } else {
        aim.y - rect.min.y
    }
}

/// A drawn spawn direction: both components within scale and one of them
/// at full scale, so the vector's length lies within
/// `[DIR_SCALE, DIR_NORM_CEIL]`.
pub open spec fn dir_ok(d: Vec2) -> bool {
    &&& -DIR_SCALE <= d.x <= DIR_SCALE
    &&& -DIR_SCALE <= d.y <= DIR_SCALE
    &&& (d.x == DIR_SCALE || d.x == -DIR_SCALE || d.y == DIR_SCALE || d.y == -DIR_SCALE)
}

/// Everything `spawn_position` guarantees of the ray's exit point `p`:
/// on the rectangle's boundary and inside it, ahead of the aim point
/// along both components of `dir`, and off the exact ray line by less
/// than one step per direction unit.
pub open spec fn exit_point_ok(rect: PlayArea, aim: Vec2, dir: Vec2, p: Vec2) -> bool {
    &&& rect.contains_spec(p)
    &&& on_boundary(rect, p)
    &&& (p.x - aim.x) * dir.x >= 0
    &&& (p.y - aim.y) * dir.y >= 0
    &&& -(abs_i(dir.x as int) + abs_i(dir.y as int)) < (p.x - aim.x) * dir.y - (p.y - aim.y)
        * dir.x < abs_i(dir.x as int) + abs_i(dir.y as int)
}

/// The exit point when the ray leaves through a vertical edge: x exactly
/// on that edge, y advanced by the rounded exact ratio.
fn exit_on_x(aim: Vec2, dir: Vec2, rect: &PlayArea) -> (r: Vec2)
    requires
        rect.wf(),
        rect.contains_strict(aim),
        dir.x != 0,
        -DIR_LIMIT <= dir.x <= DIR_LIMIT,
        -DIR_LIMIT <= dir.y <= DIR_LIMIT,
        dir.y != 0 ==> exit_num_x(aim, dir, *rect) * abs_i(dir.y as int) <= exit_num_y(
            aim,
            dir,
            *rect,
        ) * abs_i(dir.x as int),
    ensures
        rect.contains_spec(r),
        r.x == (if dir.x > 0 {
            rect.max.x
        } else {
            rect.min.x
        }),
        (r.x - aim.x) * dir.x >= 0,
        (r.y - aim.y) * dir.y >= 0,
        dir.y == 0 ==> r.y == aim.y,
        -abs_i(dir.x as int) < (r.x - aim.x) * dir.y - (r.y - aim.y) * dir.x
            < abs_i(dir.x as int),
{
    let (bx, num_x): (i64, i64) = if dir.x > 0 {
        (rect.max.x, rect.max.x - aim.x)
    } else {
        (rect.min.x, aim.x - rect.min.x)
    };
    let den_x: i64 = if dir.x > 0 {
        dir.x
    } else {
        -dir.x
    };
    let ady: i64 = if dir.y >= 0 {
        dir.y
    } else {
        -dir.y
    };
    proof {
        crate::vec2::lemma_mul_bound2(num_x as int, ady as int, 0x200_0000, DIR_LIMIT as int);
        assert(num_x * ady >= 0) by (nonlinear_arith)
            requires
                num_x >= 0 && ady >= 0,
        ;
    }
    let qm: u128 = ((num_x as u128) * (ady as u128)) / (den_x as u128);
    proof {
        lemma_remainder_lower(num_x * ady, den_x as int);
        lemma_remainder_upper(num_x * ady, den_x as int);
        crate::movement::lemma_distribute(qm as int, 1, den_x as int);
        if dir.y == 0 {
            assert(num_x * 0 == 0) by (nonlinear_arith);
            lemma_div_of0(den_x as int);
        }
        vstd::arithmetic::div_mod::lemma_div_pos_is_pos(num_x * ady, den_x as int);
        assert(num_x * ady >= 0) by (nonlinear_arith)
            requires
                num_x >= 0 && ady >= 0,
        ;
        if dir.y != 0 {
            // The ray leaves through x first: the y advance stays inside.
            assert(exit_num_x(aim, dir, *rect) == num_x);
            assert(abs_i(dir.y as int) == ady);
            assert(abs_i(dir.x as int) == den_x);
            assert(exit_num_y(aim, dir, *rect) >= 0);
            crate::movement::lemma_mul_cancel(
                qm as int,
                exit_num_y(aim, dir, *rect),
                den_x as int,
            );
        }
        // qm is bounded by num_x * ady, which fits well inside i64.
        vstd::arithmetic::div_mod::lemma_div_is_ordered(
            num_x * ady,
            0x200_0000 * DIR_LIMIT as int,
            den_x as int,
        );
        vstd::arithmetic::div_mod::lemma_div_nonincreasing(
            0x200_0000 * DIR_LIMIT as int,
            den_x as int,
        );
    }
    let q: i64 = qm as i64;
    let ry: i64 = if dir.y >= 0 {
        aim.y + q
    } else {
        aim.y - q
    };
    let r = Vec2 { x: bx, y: ry };
    proof {
        let sx = r.x - aim.x;
        let sy = r.y - aim.y;
        assert(sx == if dir.x > 0 {
            num_x as int
        } else {
            -(num_x as int)
        });
        assert(sx * dir.x >= 0) by (nonlinear_arith)
            requires
                (dir.x > 0 && sx >= 0) || (dir.x < 0 && sx <= 0),
        ;
        assert(sy * dir.y >= 0) by (nonlinear_arith)
            requires
                (dir.y >= 0 && sy >= 0) || (dir.y < 0 && sy <= 0),
        ;
        // Cross-product bound: the rounded y advance differs from the
        // exact ratio by less than one denominator.
        let cx = sx * dir.y - sy * dir.x;
        assert(qm * den_x <= num_x * ady < (qm + 1) * den_x);
        if dir.x > 0 && dir.y >= 0 {
            assert(cx == num_x * ady - (qm as int) * den_x) by (nonlinear_arith)
                requires
                    sx == num_x && sy == qm && dir.x == den_x && dir.y == ady && cx == sx * dir.y
                        - sy * dir.x,
            ;
        } else if dir.x > 0 && dir.y < 0 {
            assert(cx == (qm as int) * den_x - num_x * ady) by (nonlinear_arith)
                requires
                    sx == num_x && sy == -(qm as int) && dir.x == den_x && dir.y == -(ady as int)
                        && cx == sx * dir.y - sy * dir.x,
            ;
        } else if dir.x < 0 && dir.y >= 0 {
            assert(cx == (qm as int) * den_x - num_x * ady) by (nonlinear_arith)
                requires
                    sx == -(num_x as int) && sy == qm && dir.x == -(den_x as int) && dir.y == ady
                        && cx == sx * dir.y - sy * dir.x,
            ;
        } else {
            assert(cx == num_x * ady - (qm as int) * den_x) by (nonlinear_arith)
                requires
                    sx == -(num_x as int) && sy == -(qm as int) && dir.x == -(den_x as int)
                        && dir.y == -(ady as int) && cx == sx * dir.y - sy * dir.x,
            ;
        }
    }
    r
}

/// The point where the ray from `aim` along `dir` first leaves the
/// rectangle: exactly on the earlier-crossed boundary edge, inside the
/// rectangle, ahead of the aim point along both components of `dir`, and
/// off the exact ray line by less than one step per direction unit.
pub fn spawn_position(aim: Vec2, dir: Vec2, rect: &PlayArea) -> (r: Vec2)
    requires
        rect.wf(),
        rect.contains_strict(aim),
        dir.x != 0 || dir.y != 0,
        -DIR_LIMIT <= dir.x <= DIR_LIMIT,
        -DIR_LIMIT <= dir.y <= DIR_LIMIT,
    ensures
        rect.contains_spec(r),
        on_boundary(*rect, r),
        (r.x - aim.x) * dir.x >= 0,
        (r.y - aim.y) * dir.y >= 0,
        -(abs_i(dir.x as int) + abs_i(dir.y as int)) < (r.x - aim.x) * dir.y - (r.y - aim.y)
            * dir.x < abs_i(dir.x as int) + abs_i(dir.y as int),
        exit_point_ok(*rect, aim, dir, r),
{
    let use_x: bool = if dir.x == 0 {
        false
    } else if dir.y == 0 {
        true
    } else {
        let num_x: i64 = if dir.x > 0 {
            rect.max.x - aim.x
        } else {
            aim.x - rect.min.x
        };
        let num_y: i64 = if dir.y > 0 {
            rect.max.y - aim.y
        } else {
            aim.y - rect.min.y
        };
        let den_x: i64 = if dir.x > 0 {
            dir.x
        } else {
            -dir.x
        };
        let den_y: i64 = if dir.y > 0 {
            dir.y
        } else {
            -dir.y
        };
        proof {
            crate::vec2::lemma_mul_bound2(
                num_x as int,
                den_y as int,
                0x200_0000,
                DIR_LIMIT as int,
            );
            crate::vec2::lemma_mul_bound2(
                num_y as int,
                den_x as int,
                0x200_0000,
                DIR_LIMIT as int,
            );
        }
        (num_x as i128) * (den_y as i128) <= (num_y as i128) * (den_x as i128)
    };
    if use_x {
        exit_on_x(aim, dir, rect)
    } else {
        let rect_sw = PlayArea {
            min: Vec2 { x: rect.min.y, y: rect.min.x },
            max: Vec2 { x: rect.max.y, y: rect.max.x },
        };
        let aim_sw = Vec2 { x: aim.y, y: aim.x };
        let dir_sw = Vec2 { x: dir.y, y: dir.x };
        let r_sw = exit_on_x(aim_sw, dir_sw, &rect_sw);
        Vec2 { x: r_sw.y, y: r_sw.x }
    }
}

/// Scale `d` to length at most `len`, preserving its direction up to
/// rounding: the result is exactly `d * len / ceil(|d|)` componentwise
/// (rounded toward zero), so it keeps the sign of each component, its
/// squared length never exceeds `len^2`, and it is off the line through
/// `d` by less than one step per direction unit. The zero vector stays
/// zero.
pub fn scale_to_length(d: Vec2, len: i64) -> (r: Vec2)
    requires
        0 <= len <= COORD_LIMIT,
        -DIR_LIMIT <= d.x <= DIR_LIMIT,
        -DIR_LIMIT <= d.y <= DIR_LIMIT,
    ensures
        norm_sq(d) == 0 ==> r == (Vec2 { x: 0i64, y: 0i64 }),
        norm_sq(d) != 0 ==> crate::movement::exact_scaled(d, len as int, r),
        norm_sq(r) <= len * len,
        r.x * d.x >= 0,
        r.y * d.y >= 0,
        d.x == 0 ==> r.x == 0,
        d.y == 0 ==> r.y == 0,
        norm_sq(d) != 0 ==> -(abs_i(d.x as int) + abs_i(d.y as int)) < r.x * d.y - r.y * d.x
            < abs_i(d.x as int) + abs_i(d.y as int),
        -COORD_LIMIT <= r.x <= COORD_LIMIT,
        -COORD_LIMIT <= r.y <= COORD_LIMIT,
{
    let ax: u64 = if d.x >= 0 {
        d.x as u64
    } else {
        (-d.x) as u64
    };
    let ay: u64 = if d.y >= 0 {
        d.y as u64
    } else {
        (-d.y) as u64
    };
    proof {
        assert((ax as int) * (ax as int) == d.x * d.x) by (nonlinear_arith)
            requires
                ax == d.x || ax == -d.x,
        ;
        assert((ay as int) * (ay as int) == d.y * d.y) by (nonlinear_arith)
            requires
                ay == d.y || ay == -d.y,
        ;
        crate::vec2::lemma_mul_bound(ax as int, ax as int, DIR_LIMIT as int);
        crate::vec2::lemma_mul_bound(ay as int, ay as int, DIR_LIMIT as int);
        crate::vec2::lemma_square_nonneg(ax as int);
        crate::vec2::lemma_square_nonneg(ay as int);
        crate::vec2::lemma_mul_bound(len as int, len as int, COORD_LIMIT as int);
    }
    let n: u128 = (ax as u128) * (ax as u128) + (ay as u128) * (ay as u128);
    if n == 0 {
        proof {
            assert(0 * (len as int) >= 0) by (nonlinear_arith);
            crate::vec2::lemma_square_nonneg(len as int);
        }
        return Vec2 { x: 0, y: 0 };
    }
    let r0 = crate::movement::isqrt(n);
    let rr: u128 = if (r0 as u128) * (r0 as u128) == n {
        r0 as u128
    } else {
        r0 as u128 + 1
    };
    proof {
        assert((rr as int) * (rr as int) >= n) by (nonlinear_arith)
            requires
                (r0 as int) * (r0 as int) <= n < (r0 as int + 1) * (r0 as int + 1),
                rr == if (r0 as int) * (r0 as int) == n {
                    r0 as int
                } else {
                    r0 as int + 1
                },
        ;
        assert(rr >= 1) by (nonlinear_arith)
            requires
                (rr as int) * (rr as int) >= n,
                n > 0,
        ;
        crate::vec2::lemma_mul_bound2(ax as int, len as int, DIR_LIMIT as int, COORD_LIMIT as int);
        crate::vec2::lemma_mul_bound2(ay as int, len as int, DIR_LIMIT as int, COORD_LIMIT as int);
    }
    let px: u128 = (ax as u128) * (len as u128);
    let py: u128 = (ay as u128) * (len as u128);
    let qx: u128 = px / rr;
    let qy: u128 = py / rr;
    proof {
        lemma_remainder_lower(px as int, rr as int);
        lemma_remainder_lower(py as int, rr as int);
        lemma_remainder_upper(px as int, rr as int);
        lemma_remainder_upper(py as int, rr as int);
        assert(ax <= rr) by {
            if rr < ax {
                crate::movement::lemma_sq_lt(rr as int, ax as int);
            }
        }
        assert(ay <= rr) by {
            if rr < ay {
                crate::movement::lemma_sq_lt(rr as int, ay as int);
            }
        }
        crate::movement::lemma_mul_le_right(ax as int, rr as int, len as int);
        crate::movement::lemma_mul_cancel(qx as int, len as int, rr as int);
        crate::movement::lemma_mul_le_right(ay as int, rr as int, len as int);
        crate::movement::lemma_mul_cancel(qy as int, len as int, rr as int);
        crate::movement::lemma_sq_le(qx as int * rr as int, px as int);
        crate::movement::lemma_sq_of_mul(qx as int, rr as int);
        crate::movement::lemma_sq_of_mul(ax as int, len as int);
        crate::movement::lemma_sq_le(qy as int * rr as int, py as int);
        crate::movement::lemma_sq_of_mul(qy as int, rr as int);
        crate::movement::lemma_sq_of_mul(ay as int, len as int);
        let rr2 = (rr as int) * (rr as int);
        let len2 = (len as int) * (len as int);
        let q2 = (qx as int) * (qx as int) + (qy as int) * (qy as int);
        crate::movement::lemma_distribute(
            (qx as int) * (qx as int),
            (qy as int) * (qy as int),
            rr2,
        );
        crate::movement::lemma_distribute(
            (ax as int) * (ax as int),
            (ay as int) * (ay as int),
            len2,
        );
        assert(q2 * rr2 <= (n as int) * len2);
        crate::movement::lemma_mul_le_right(n as int, rr2, len2);
        crate::movement::lemma_commute(rr2, len2);
        crate::movement::lemma_mul_cancel(q2, len2, rr2);
        crate::vec2::lemma_square_nonneg(qx as int);
        crate::vec2::lemma_square_nonneg(qy as int);
    }
    let rx: i64 = if d.x >= 0 {
        qx as i64
    } else {
        -(qx as i64)
    };
    let ry: i64 = if d.y >= 0 {
        qy as i64
    } else {
        -(qy as i64)
    };
    proof {
        assert((rx as int) * (rx as int) == (qx as int) * (qx as int)) by (nonlinear_arith)
            requires
                rx == qx || rx == -(qx as int),
        ;
        assert((ry as int) * (ry as int) == (qy as int) * (qy as int)) by (nonlinear_arith)
            requires
                ry == qy || ry == -(qy as int),
        ;
        assert((rx as int) * d.x >= 0) by (nonlinear_arith)
            requires
                (d.x >= 0 && rx >= 0) || (d.x < 0 && rx <= 0),
        ;
        assert((ry as int) * d.y >= 0) by (nonlinear_arith)
            requires
                (d.y >= 0 && ry >= 0) || (d.y < 0 && ry <= 0),
        ;
        if d.x == 0 {
            assert(px == 0 * (len as int)) by (nonlinear_arith)
                requires
                    ax == 0,
                    px == ax * len,
            ;
            lemma_div_of0(rr as int);
        }
        if d.y == 0 {
            assert(py == 0 * (len as int)) by (nonlinear_arith)
                requires
                    ay == 0,
                    py == ay * len,
            ;
            lemma_div_of0(rr as int);
        }
        // The computed root is the ceiling square root: the result is
        // exactly the scaled vector.
        assert(n >= 1);
        assert(crate::movement::ceil_sqrt_of(n as int, rr as int)) by {
            if (r0 as int) * (r0 as int) == n {
                assert(r0 >= 1) by {
                    if r0 == 0 {
                        assert((0int) * (0int) == 0) by (nonlinear_arith);
                    }
                }
                crate::movement::lemma_sq_lt(r0 as int - 1, r0 as int);
            }
        }
        assert(n as int == norm_sq(d));
        assert(rx as int == crate::movement::scaled_component(d.x as int, len as int, rr as int));
        assert(ry as int == crate::movement::scaled_component(d.y as int, len as int, rr as int));
        assert(crate::movement::exact_scaled(d, len as int, Vec2 { x: rx, y: ry }));
        // Collinearity: both rounded components err by less than one
        // denominator, so the cross product against `d` stays below the
        // sum of the direction magnitudes.
        let qxi = qx as int;
        let qyi = qy as int;
        let axi = ax as int;
        let ayi = ay as int;
        let rri = rr as int;
        let leni = len as int;
        assert(axi + ayi >= 1) by {
            if axi == 0 && ayi == 0 {
                assert(axi * axi == 0 && ayi * ayi == 0) by (nonlinear_arith)
                    requires
                        axi == 0 && ayi == 0,
                ;
            }
        }
        assert(qxi * ayi - qyi * axi < axi + ayi) by {
            if axi == 0 {
                assert(axi * leni == 0) by (nonlinear_arith)
                    requires
                        axi == 0,
                ;
                lemma_div_of0(rri);
                assert(qxi == 0);
                assert(qxi * ayi == 0) by (nonlinear_arith)
                    requires
                        qxi == 0,
                ;
                assert(qyi * axi == 0) by (nonlinear_arith)
                    requires
                        axi == 0,
                ;
            } else {
                crate::movement::lemma_mul_le_right(qxi * rri, axi * leni, ayi);
                crate::movement::lemma_mul3_swap(qxi, rri, ayi);
                crate::movement::lemma_mul_le_right(ayi * leni - rri + 1, qyi * rri, axi);
                assert((ayi * leni - rri + 1) * axi == (ayi * leni) * axi - rri * axi
                    + axi) by (nonlinear_arith);
                crate::movement::lemma_mul3_swap(qyi, rri, axi);
                assert((axi * leni) * ayi == (ayi * leni) * axi) by (nonlinear_arith);
                assert((qxi * ayi - qyi * axi) * rri == (qxi * ayi) * rri - (qyi * axi)
                    * rri) by (nonlinear_arith);
                assert((qxi * ayi - qyi * axi) * rri < (axi + ayi) * rri) by {
                    assert((axi + ayi) * rri == rri * axi + ayi * rri) by (nonlinear_arith);
                    assert(ayi * rri >= ayi) by (nonlinear_arith)
                        requires
                            ayi >= 0 && rri >= 1,
                    ;
                }
                crate::movement::lemma_mul_cancel_lt(qxi * ayi - qyi * axi, axi + ayi, rri);
            }
        }
        assert(qyi * axi - qxi * ayi < axi + ayi) by {
            if ayi == 0 {
                assert(ayi * leni == 0) by (nonlinear_arith)
                    requires
                        ayi == 0,
                ;
                lemma_div_of0(rri);
                assert(qyi == 0);
                assert(qyi * axi == 0) by (nonlinear_arith)
                    requires
                        qyi == 0,
                ;
                assert(qxi * ayi == 0) by (nonlinear_arith)
                    requires
                        ayi == 0,
                ;
            } else {
                crate::movement::lemma_mul_le_right(qyi * rri, ayi * leni, axi);
                crate::movement::lemma_mul3_swap(qyi, rri, axi);
                crate::movement::lemma_mul_le_right(axi * leni - rri + 1, qxi * rri, ayi);
                assert((axi * leni - rri + 1) * ayi == (axi * leni) * ayi - rri * ayi
                    + ayi) by (nonlinear_arith);
                crate::movement::lemma_mul3_swap(qxi, rri, ayi);
                assert((ayi * leni) * axi == (axi * leni) * ayi) by (nonlinear_arith);
                assert((qyi * axi - qxi * ayi) * rri == (qyi * axi) * rri - (qxi * ayi)
                    * rri) by (nonlinear_arith);
                assert((qyi * axi - qxi * ayi) * rri < (axi + ayi) * rri) by {
                    assert((axi + ayi) * rri == axi * rri + rri * ayi) by (nonlinear_arith);
                    assert(axi * rri >= axi) by (nonlinear_arith)
                        requires
                            axi >= 0 && rri >= 1,
                    ;
                }
                crate::movement::lemma_mul_cancel_lt(qyi * axi - qxi * ayi, axi + ayi, rri);
            }
        }
        let crossv = (rx as int) * d.y - (ry as int) * d.x;
        if d.x >= 0 && d.y >= 0 {
            assert(crossv == qxi * ayi - qyi * axi) by (nonlinear_arith)
                requires
                    rx == qxi && ry == qyi && d.x == axi && d.y == ayi && crossv == rx * d.y - ry
                        * d.x,
            ;
        } else if d.x >= 0 && d.y < 0 {
            assert(crossv == qyi * axi - qxi * ayi) by (nonlinear_arith)
                requires
                    rx == qxi && ry == -qyi && d.x == axi && d.y == -ayi && crossv == rx * d.y - ry
                        * d.x,
            ;
        } else if d.x < 0 && d.y >= 0 {
            assert(crossv == qyi * axi - qxi * ayi) by (nonlinear_arith)
                requires
                    rx == -qxi && ry == qyi && d.x == -axi && d.y == ayi && crossv == rx * d.y - ry
                        * d.x,
            ;
        } else {
            assert(crossv == qxi * ayi - qyi * axi) by (nonlinear_arith)
                requires
                    rx == -qxi && ry == -qyi && d.x == -axi && d.y == -ayi && crossv == rx * d.y
                        - ry * d.x,
            ;
        }
        assert(abs_i(d.x as int) == axi);
        assert(abs_i(d.y as int) == ayi);
    }
    Vec2 { x: rx, y: ry }
}

/// Relies on `rand::thread_rng` and `rand::Rng::gen_range`: a uniform
/// sample from the half-open range `[lo, hi)`; `gen_range` panics only on
/// an empty range, which the precondition excludes.
#[verifier::external_body]
fn draw_uniform(lo: i64, hi: i64) -> (r: i64)
    requires
        lo < hi,
    ensures
        lo <= r < hi,
{
    rand::thread_rng().gen_range(lo..hi)
}

/// The enlarged rectangle hostiles spawn on the boundary of.
pub open spec fn spawn_rect(rect: PlayArea) -> PlayArea {
    PlayArea {
        min: Vec2 { x: (rect.min.x - SPAWN_MARGIN) as i64, y: (rect.min.y - SPAWN_MARGIN) as i64 },
        max: Vec2 { x: (rect.max.x + SPAWN_MARGIN) as i64, y: (rect.max.y + SPAWN_MARGIN) as i64 },
    }
}

/// One witness set for a spawned hostile: the aim point strictly inside
/// the enlarged rectangle, the drawn direction, and the drawn speed that
/// produced its position (the ray's exit point) and its velocity (the
/// reversed direction scaled to the speed).
pub open spec fn spawn_witness_ok(
    rect: PlayArea,
    aim: Vec2,
    dir: Vec2,
    speed: int,
    e: Enemy,
) -> bool {
    &&& spawn_rect(rect).contains_strict(aim)
    &&& dir_ok(dir)
    &&& SPAWN_SPEED_MIN <= speed < SPAWN_SPEED_MAX
    &&& exit_point_ok(spawn_rect(rect), aim, dir, e.pos)
    &&& crate::movement::exact_scaled(
        Vec2 { x: (-dir.x) as i64, y: (-dir.y) as i64 },
        speed,
        e.velocity,
    )
}

/// Spawn one hostile for the given play area: full hit points, position
/// on the boundary of the enlarged play rectangle at the exit of a ray
/// from a random interior aim point, velocity the reversed ray direction
/// scaled to a bounded random speed — so it points back toward the
/// interior and is never slower than the spawn-speed floor — and random
/// symmetric spin. Holds for every outcome of the random draws; a
/// degenerate (zero-size) play rectangle aims at its corner instead of
/// panicking.
pub fn spawn_enemy(rect: &PlayArea) -> (r: Enemy)
    requires
        rect.wf(),
        -COORD_LIMIT < rect.min.x - SPAWN_MARGIN,
        rect.max.x + SPAWN_MARGIN < COORD_LIMIT,
        -COORD_LIMIT < rect.min.y - SPAWN_MARGIN,
        rect.max.y + SPAWN_MARGIN < COORD_LIMIT,
    ensures
        r.wf(),
        r.hp == ENEMY_MAX_HP,
        r.rot == 0,
        on_boundary(spawn_rect(*rect), r.pos),
        spawn_rect(*rect).contains_spec(r.pos),
        norm_sq(r.velocity) <= SPAWN_SPEED_MAX * SPAWN_SPEED_MAX,
        norm_sq(r.velocity) >= SPAWN_SPEED_FLOOR * SPAWN_SPEED_FLOOR,
        -SPAWN_SPIN_MAX <= r.angular_velocity <= SPAWN_SPIN_MAX,
        exists|aim: Vec2, dir: Vec2, speed: int|
            #![trigger spawn_witness_ok(*rect, aim, dir, speed, r)]
            spawn_witness_ok(*rect, aim, dir, speed, r),
{
    let enlarged = rect.enlarged(SPAWN_MARGIN);
    // A random aim point strictly inside the play area; a degenerate
    // rectangle falls back to its corner, which still lies strictly
    // inside the enlarged rectangle.
    let aim = Vec2 {
        x: if rect.min.x + 1 < rect.max.x {
            draw_uniform(rect.min.x + 1, rect.max.x)
        } else {
            rect.min.x
        },
        y: if rect.min.y + 1 < rect.max.y {
            draw_uniform(rect.min.y + 1, rect.max.y)
        } else {
            rect.min.y
        },
    };
    // A random direction with one component at full scale, so its length
    // is bounded on both sides.
    let axis = draw_uniform(0, 2);
    let sign = draw_uniform(0, 2);
    let other = draw_uniform(-DIR_SCALE, DIR_SCALE + 1);
    let main: i64 = if sign == 0 {
        DIR_SCALE
    } else {
        -DIR_SCALE
    };
    let dir = if axis == 0 {
        Vec2 { x: main, y: other }
    } else {
        Vec2 { x: other, y: main }
    };
    let pos = spawn_position(aim, dir, &enlarged);
    let speed = draw_uniform(SPAWN_SPEED_MIN, SPAWN_SPEED_MAX);
    let back = Vec2 { x: -dir.x, y: -dir.y };
    let velocity = scale_to_length(back, speed);
    let spin = draw_uniform(-SPAWN_SPIN_MAX, SPAWN_SPIN_MAX + 1);
    proof {
        crate::movement::lemma_mul_le_right(speed as int, SPAWN_SPEED_MAX as int, speed as int);
        crate::movement::lemma_mul_le_right(
            speed as int,
            SPAWN_SPEED_MAX as int,
            SPAWN_SPEED_MAX as int,
        );
        crate::movement::lemma_commute(speed as int, SPAWN_SPEED_MAX as int);
        // The full-scale direction component keeps the scaled velocity
        // above the spawn-speed floor.
        assert((back.x as int) * (back.x as int) == (dir.x as int) * (dir.x as int))
            by (nonlinear_arith)
            requires
                back.x == -dir.x,
        ;
        assert((back.y as int) * (back.y as int) == (dir.y as int) * (dir.y as int))
            by (nonlinear_arith)
            requires
                back.y == -dir.y,
        ;
        crate::vec2::lemma_mul_bound(dir.x as int, dir.x as int, DIR_SCALE as int);
        crate::vec2::lemma_mul_bound(dir.y as int, dir.y as int, DIR_SCALE as int);
        assert(norm_sq(back) >= DIR_SCALE * DIR_SCALE) by {
            assert((main as int) * (main as int) == DIR_SCALE * DIR_SCALE) by (nonlinear_arith)
                requires
                    main == DIR_SCALE || main == -DIR_SCALE,
            ;
            crate::vec2::lemma_square_nonneg(back.x as int);
            crate::vec2::lemma_square_nonneg(back.y as int);
        }
        assert(norm_sq(back) != 0);
        let rr = choose|rr: int|
            #![trigger crate::movement::ceil_sqrt_of(norm_sq(back), rr)]
            crate::movement::ceil_sqrt_of(norm_sq(back), rr) && velocity.x
                == crate::movement::scaled_component(back.x as int, speed as int, rr)
                && velocity.y == crate::movement::scaled_component(
                back.y as int,
                speed as int,
                rr,
            );
        assert(1 <= rr <= DIR_NORM_CEIL) by {
            if rr > DIR_NORM_CEIL {
                crate::movement::lemma_sq_le(DIR_NORM_CEIL as int, rr - 1);
            }
            if rr < 1 {
                assert(rr * rr <= 0) by (nonlinear_arith)
                    requires
                        0 <= rr < 1,
                ;
            }
        }
        let am: int = if axis == 0 {
            back.x as int
        } else {
            back.y as int
        };
        let vm: int = if axis == 0 {
            velocity.x as int
        } else {
            velocity.y as int
        };
        assert(am == DIR_SCALE || am == -DIR_SCALE);
        let q = (DIR_SCALE * (speed as int)) / rr;
        assert(vm == q || vm == -q);
        assert(q >= SPAWN_SPEED_FLOOR) by {
            crate::mapper::lemma_mul_mono_nonneg(
                SPAWN_SPEED_MIN as int,
                speed as int,
                DIR_SCALE as int,
            );
            vstd::arithmetic::div_mod::lemma_div_is_ordered_by_denominator(
                DIR_SCALE * (speed as int),
                rr,
                DIR_NORM_CEIL as int,
            );
            assert(SPAWN_SPEED_MIN * DIR_SCALE == DIR_SCALE * (SPAWN_SPEED_MIN as int))
                by (nonlinear_arith);
            assert(speed * DIR_SCALE == DIR_SCALE * (speed as int)) by (nonlinear_arith);
            vstd::arithmetic::div_mod::lemma_div_is_ordered(
                DIR_SCALE * (SPAWN_SPEED_MIN as int),
                DIR_SCALE * (speed as int),
                DIR_NORM_CEIL as int,
            );
        }
        assert(norm_sq(velocity) >= SPAWN_SPEED_FLOOR * SPAWN_SPEED_FLOOR) by {
            assert(vm * vm == q * q) by (nonlinear_arith)
                requires
                    vm == q || vm == -q,
            ;
            crate::movement::lemma_sq_le(SPAWN_SPEED_FLOOR as int, q);
            crate::vec2::lemma_square_nonneg(velocity.x as int);
            crate::vec2::lemma_square_nonneg(velocity.y as int);
        }
    }
    let r = Enemy { pos, rot: 0, hp: ENEMY_MAX_HP, velocity, angular_velocity: spin };
    proof {
        assert(spawn_witness_ok(*rect, aim, dir, speed as int, r));
    }
    r
}

} // verus!
