//! Movement controller.
//!
//! Applies each device's aggregated world displacement to the entity it
//! controls. An `Unconstrained` entity moves by the full displacement; a
//! `SpeedLimited` entity's displacement is first clamped to at most
//! `max_speed * tick_duration` in length. Both are then confined to the
//! play area inset by the entity's visual radius, so the center never
//! leaves the playable field.
use vstd::arithmetic::div_mod::lemma_remainder_lower;
use vstd::prelude::*;

use crate::input::CursorMoveEvent;
use crate::play_area::PlayArea;
use crate::roles::{ControlledEntity, MovementModel};
use crate::vec2::{norm_sq, Vec2, COORD_LIMIT};

verus! {

/// Visual radius of a cursor entity, in coordinate steps.
pub const CURSOR_RADIUS: i64 = 400;

/// Largest displacement component the movement math accepts.
pub const DISP_LIMIT: i64 = 0x4000_0000_0000;

/// Largest tick duration, in milliseconds.
pub const TICK_LIMIT_MS: u64 = 0x10000;

/// Integer square root: the unique `r` with `r^2 <= n < (r+1)^2`.
pub fn isqrt(n: u128) -> (r: u64)
    ensures
        (r as int) * (r as int) <= n,
        n < (r as int + 1) * (r as int + 1),
{
    let mut lo: u128 = 0;
    let mut hi: u128 = 0x1_0000_0000_0000_0000;
    proof {
        assert((hi as int) * (hi as int) > u128::MAX as int) by (nonlinear_arith)
            requires
                hi == 0x1_0000_0000_0000_0000u128,
        ;
    }
    while lo + 1 < hi
        invariant
            0 <= lo < hi <= 0x1_0000_0000_0000_0000,
            (lo as int) * (lo as int) <= n,
            (hi as int) * (hi as int) > n,
        decreases hi - lo,
    {
        let mid: u128 = lo + (hi - lo) / 2;
        proof {
            crate::vec2::lemma_mul_bound(
                mid as int,
                mid as int,
                0xFFFF_FFFF_FFFF_FFFF,
            );
        }
        if mid * mid <= n {
            lo = mid;
        } else {
            hi = mid;
        }
    }
    lo as u64
}

/// For `0 <= a <= b`, squaring keeps the order.
pub proof fn lemma_sq_le(a: int, b: int) by (nonlinear_arith)
    requires
        0 <= a <= b,
    ensures
        a * a <= b * b,
{
}

/// Multiplying both sides of an order by a nonnegative factor keeps it.
pub proof fn lemma_mul_le_right(a: int, b: int, c: int) by (nonlinear_arith)
    requires
        a <= b,
        0 <= c,
    ensures
        a * c <= b * c,
{
}

/// A common positive factor can be cancelled from an order.
pub proof fn lemma_mul_cancel(a: int, b: int, c: int) by (nonlinear_arith)
    requires
        a * c <= b * c,
        0 < c,
    ensures
        a <= b,
{
}

/// Squares of products regroup.
pub proof fn lemma_sq_of_mul(a: int, b: int) by (nonlinear_arith)
    ensures
        (a * b) * (a * b) == (a * a) * (b * b),
{
}

/// For `0 <= a < b`, squaring keeps the strict order.
pub proof fn lemma_sq_lt(a: int, b: int) by (nonlinear_arith)
    requires
        0 <= a < b,
    ensures
        a * a < b * b,
{
}

/// Multiplication distributes over addition.
pub proof fn lemma_distribute(a: int, b: int, c: int) by (nonlinear_arith)
    ensures
        (a + b) * c == a * c + b * c,
{
}

/// Multiplication commutes.
pub proof fn lemma_commute(a: int, b: int) by (nonlinear_arith)
    ensures
        a * b == b * a,
{
}

/// The outer factors of a triple product exchange.
pub proof fn lemma_mul3_swap(a: int, b: int, c: int) by (nonlinear_arith)
    ensures
        (a * b) * c == (a * c) * b,
{
}

/// A common positive factor can be cancelled from a strict order.
pub proof fn lemma_mul_cancel_lt(a: int, b: int, c: int) by (nonlinear_arith)
    requires
        a * c < b * c,
        0 < c,
    ensures
        a < b,
{
}

/// `r` is the ceiling square root of `n`: the unique root for positive `n`.
pub open spec fn ceil_sqrt_of(n: int, r: int) -> bool {
    0 <= r && (r - 1) * (r - 1) < n <= r * r
}

/// One component of a vector scaled by `len` over the root `rr`, rounded
/// toward zero.
pub open spec fn scaled_component(v: int, len: int, rr: int) -> int {
    if v >= 0 {
        (v * len) / rr
    } else {
        -(((-v) * len) / rr)
    }
}

/// `r` is exactly `d` scaled componentwise by `len` over the ceiling
/// square root of `|d|^2` — the rounded-toward-zero value of `d * len /
/// |d|`. The root is unique, so this pins `r` completely.
pub open spec fn exact_scaled(d: Vec2, len: int, r: Vec2) -> bool {
    exists|rr: int|
        #![trigger ceil_sqrt_of(norm_sq(d), rr)]
        ceil_sqrt_of(norm_sq(d), rr) && r.x == scaled_component(d.x as int, len, rr) && r.y
            == scaled_component(d.y as int, len, rr)
}

/// What "the displacement was limited to length at most `cap`" means:
/// unchanged when already within the cap, otherwise exactly the
/// displacement scaled down by `cap` over the ceiling square root of its
/// squared length — so on the cap in length, without growing or flipping
/// either component.
pub open spec fn limited_to(delta: Vec2, cap: int, lim: Vec2) -> bool {
    if norm_sq(delta) <= cap * cap {
        lim == delta
    } else {
        &&& exact_scaled(delta, cap, lim)
        &&& norm_sq(lim) <= cap * cap
        &&& lim.x * delta.x >= 0
        &&& lim.y * delta.y >= 0
        &&& (if delta.x >= 0 {
            lim.x <= delta.x
        } else {
            lim.x >= delta.x
        })
        &&& (if delta.y >= 0 {
            lim.y <= delta.y
        } else {
            lim.y >= delta.y
        })
    }
}

/// Clamp `delta` to length at most `cap` (steps): exact when within, else
/// scaled down by `cap / ceil(sqrt(norm_sq(delta)))` componentwise.
pub fn limit_displacement(delta: Vec2, cap: i64) -> (r: Vec2)
    requires
        0 <= cap <= COORD_LIMIT,
        -DISP_LIMIT <= delta.x <= DISP_LIMIT,
        -DISP_LIMIT <= delta.y <= DISP_LIMIT,
    ensures
        limited_to(delta, cap as int, r),
        -DISP_LIMIT <= r.x <= DISP_LIMIT,
        -DISP_LIMIT <= r.y <= DISP_LIMIT,
{
    let ax: u64 = if delta.x >= 0 {
        delta.x as u64
    } else {
        (-delta.x) as u64
    };
    let ay: u64 = if delta.y >= 0 {
        delta.y as u64
    } else {
        (-delta.y) as u64
    };
    proof {
        assert((ax as int) * (ax as int) == delta.x * delta.x) by (nonlinear_arith)
            requires
                ax == delta.x || ax == -delta.x,
        ;
        assert((ay as int) * (ay as int) == delta.y * delta.y) by (nonlinear_arith)
            requires
                ay == delta.y || ay == -delta.y,
        ;
        crate::vec2::lemma_mul_bound(ax as int, ax as int, DISP_LIMIT as int);
        crate::vec2::lemma_mul_bound(ay as int, ay as int, DISP_LIMIT as int);
        crate::vec2::lemma_mul_bound(cap as int, cap as int, COORD_LIMIT as int);
        crate::vec2::lemma_square_nonneg(ax as int);
        crate::vec2::lemma_square_nonneg(ay as int);
    }
    let n: u128 = (ax as u128) * (ax as u128) + (ay as u128) * (ay as u128);
    let cap_sq: u128 = (cap as u128) * (cap as u128);
    if n <= cap_sq {
        return delta;
    }
    // Over the cap: divide each component by the ceiling square root.
    let r0 = isqrt(n);
    let rr: u128 = if (r0 as u128) * (r0 as u128) == n {
        r0 as u128
    } else {
        r0 as u128 + 1
    };
    proof {
        assert((rr as int) * (rr as int) >= n) by (nonlinear_arith)
            requires
                (r0 as int) * (r0 as int) <= n < (r0 as int + 1) * (r0 as int + 1),
                rr == if (r0 as int) * (r0 as int) == n {
                    r0 as int
                } else {
                    r0 as int + 1
                },
        ;
        assert(rr >= 1) by (nonlinear_arith)
            requires
                (rr as int) * (rr as int) >= n,
                n > 0,
        ;
        // The root exceeds the cap and bounds both components.
        assert(rr > cap) by {
            if rr <= cap {
                lemma_sq_le(rr as int, cap as int);
            }
        }
        assert(ax <= rr) by {
            if rr < ax {
                lemma_sq_lt(rr as int, ax as int);
            }
        }
        assert(ay <= rr) by {
            if rr < ay {
                lemma_sq_lt(rr as int, ay as int);
            }
        }
        crate::vec2::lemma_mul_bound2(
            ax as int,
            cap as int,
            DISP_LIMIT as int,
            COORD_LIMIT as int,
        );
        crate::vec2::lemma_mul_bound2(
            ay as int,
            cap as int,
            DISP_LIMIT as int,
            COORD_LIMIT as int,
        );
    }
    let px: u128 = (ax as u128) * (cap as u128);
    let py: u128 = (ay as u128) * (cap as u128);
    let qx: u128 = px / rr;
    let qy: u128 = py / rr;
    proof {
        lemma_remainder_lower(px as int, rr as int);
        lemma_remainder_lower(py as int, rr as int);
        assert((qx as int) * (rr as int) <= px);
        assert((qy as int) * (rr as int) <= py);
        // qx <= cap, since qx * rr <= ax * cap <= rr * cap.
        lemma_mul_le_right(ax as int, rr as int, cap as int);
        lemma_mul_cancel(qx as int, cap as int, rr as int);
        lemma_mul_le_right(ay as int, rr as int, cap as int);
        lemma_mul_cancel(qy as int, cap as int, rr as int);
        // qx <= ax, since qx * rr <= ax * cap <= ax * rr.
        lemma_mul_le_right(cap as int, rr as int, ax as int);
        assert((ax as int) * (cap as int) == (cap as int) * (ax as int))
            by (nonlinear_arith);
        assert((ax as int) * (rr as int) == (rr as int) * (ax as int))
            by (nonlinear_arith);
        lemma_mul_cancel(qx as int, ax as int, rr as int);
        lemma_mul_le_right(cap as int, rr as int, ay as int);
        assert((ay as int) * (cap as int) == (cap as int) * (ay as int))
            by (nonlinear_arith);
        assert((ay as int) * (rr as int) == (rr as int) * (ay as int))
            by (nonlinear_arith);
        lemma_mul_cancel(qy as int, ay as int, rr as int);
        // (qx^2 + qy^2) * rr^2 <= (ax^2 + ay^2) * cap^2 = n * cap^2 <= rr^2 * cap^2.
        lemma_sq_le(qx as int * rr as int, px as int);
        lemma_sq_of_mul(qx as int, rr as int);
        lemma_sq_of_mul(ax as int, cap as int);
        lemma_sq_le(qy as int * rr as int, py as int);
        lemma_sq_of_mul(qy as int, rr as int);
        lemma_sq_of_mul(ay as int, cap as int);
        let rr2 = (rr as int) * (rr as int);
        let cap2 = (cap as int) * (cap as int);
        let q2 = (qx as int) * (qx as int) + (qy as int) * (qy as int);
        lemma_distribute((qx as int) * (qx as int), (qy as int) * (qy as int), rr2);
        lemma_distribute((ax as int) * (ax as int), (ay as int) * (ay as int), cap2);
        assert(q2 * rr2 <= (n as int) * cap2);
        lemma_mul_le_right(n as int, rr2, cap2);
        lemma_commute(rr2, cap2);
        assert(q2 * rr2 <= cap2 * rr2);
        lemma_mul_cancel(q2, cap2, rr2);
        crate::vec2::lemma_square_nonneg(qx as int);
        crate::vec2::lemma_square_nonneg(qy as int);
    }
    let lx: i64 = if delta.x >= 0 {
        qx as i64
    } else {
        -(qx as i64)
    };
    let ly: i64 = if delta.y >= 0 {
        qy as i64
    } else {
        -(qy as i64)
    };
    proof {
        assert((lx as int) * (lx as int) == (qx as int) * (qx as int)) by (nonlinear_arith)
            requires
                lx == qx || lx == -(qx as int),
        ;
        assert((ly as int) * (ly as int) == (qy as int) * (qy as int)) by (nonlinear_arith)
            requires
                ly == qy || ly == -(qy as int),
        ;
        assert((lx as int) * delta.x >= 0) by (nonlinear_arith)
            requires
                (delta.x >= 0 && lx >= 0) || (delta.x < 0 && lx <= 0),
        ;
        assert((ly as int) * delta.y >= 0) by (nonlinear_arith)
            requires
                (delta.y >= 0 && ly >= 0) || (delta.y < 0 && ly <= 0),
        ;
        // The computed root is the ceiling square root, and the result
        // components are exactly the scaled values.
        assert(n >= 1);
        assert(ceil_sqrt_of(n as int, rr as int)) by {
            if (r0 as int) * (r0 as int) == n {
                assert(r0 >= 1) by {
                    if r0 == 0 {
                        assert((0int) * (0int) == 0) by (nonlinear_arith);
                    }
                }
                lemma_sq_lt(r0 as int - 1, r0 as int);
            }
        }
        assert(n as int == norm_sq(delta));
        assert(lx as int == scaled_component(delta.x as int, cap as int, rr as int));
        assert(ly as int == scaled_component(delta.y as int, cap as int, rr as int));
        assert(exact_scaled(delta, cap as int, Vec2 { x: lx, y: ly }));
    }
    Vec2 { x: lx, y: ly }
}

/// The length cap, in steps, that `model` imposes over a tick of `dt_ms`
/// milliseconds: `max_speed * dt / 1000`, or no cap.
pub open spec fn speed_cap(model: MovementModel, dt_ms: u64) -> Option<int> {
    match model {
        MovementModel::Unconstrained => None,
        MovementModel::SpeedLimited { max_speed } => Some((max_speed * dt_ms) / 1000),
    }
}

/// The full per-entity movement step: how `r` arises from `c` under
/// displacement `delta`, its movement model, and the inset play area.
pub open spec fn moved_spec(
    c: ControlledEntity,
    delta: Vec2,
    inset: PlayArea,
    dt_ms: u64,
    r: ControlledEntity,
) -> bool {
    &&& r.device == c.device
    &&& r.rot == c.rot
    &&& r.role == c.role
    &&& r.model == c.model
    &&& match speed_cap(c.model, dt_ms) {
        None => r.pos == inset.clamp_spec(
            Vec2 { x: (c.pos.x + delta.x) as i64, y: (c.pos.y + delta.y) as i64 },
        ),
        Some(cap) => exists|lim: Vec2|
            #[trigger] limited_to(delta, cap, lim) && r.pos == inset.clamp_spec(
                Vec2 { x: (c.pos.x + lim.x) as i64, y: (c.pos.y + lim.y) as i64 },
            ),
    }
}

/// Move one entity by `delta` under its movement model, then clamp the
/// result into the inset play area.
pub fn apply_move(c: ControlledEntity, delta: Vec2, inset: &PlayArea, dt_ms: u64) -> (r:
    ControlledEntity)
    requires
        inset.wf(),
        crate::vec2::in_range(c.pos),
        -DISP_LIMIT <= delta.x <= DISP_LIMIT,
        -DISP_LIMIT <= delta.y <= DISP_LIMIT,
        dt_ms <= TICK_LIMIT_MS,
        c.model matches MovementModel::SpeedLimited { max_speed } ==> 0 <= max_speed
            && max_speed * dt_ms <= 1000 * COORD_LIMIT,
    ensures
        moved_spec(c, delta, *inset, dt_ms, r),
        inset.contains_spec(r.pos),
{
    let lim: Vec2 = match c.model {
        MovementModel::Unconstrained => delta,
        MovementModel::SpeedLimited { max_speed } => {
            proof {
                crate::mapper::lemma_mul_mono_nonneg(
                    0,
                    max_speed as int,
                    dt_ms as int,
                );
                assert(max_speed * (dt_ms as int) >= 0) by (nonlinear_arith)
                    requires
                        max_speed >= 0,
                        dt_ms >= 0,
                ;
            }
            let cap: i64 = (max_speed * (dt_ms as i64)) / 1000;
            limit_displacement(delta, cap)
        },
    };
    let pos = inset.clamp(Vec2 { x: c.pos.x + lim.x, y: c.pos.y + lim.y });
    let r = ControlledEntity {
        device: c.device,
        pos,
        rot: c.rot,
        role: c.role,
        model: c.model,
    };
    proof {
        match speed_cap(c.model, dt_ms) {
            None => {},
            Some(cap) => {
                assert(limited_to(delta, cap, lim));
            },
        }
    }
    r
}

/// The first aggregated displacement for `device`, if it moved this tick.
pub open spec fn move_for(ms: Seq<CursorMoveEvent>, device: u32) -> Option<Vec2>
    decreases ms.len(),
{
    if ms.len() == 0 {
        None
    } else if ms.first().device == device {
        Some(ms.first().delta_world)
    } else {
        move_for(ms.drop_first(), device)
    }
}

pub fn find_move(ms: &Vec<CursorMoveEvent>, device: u32) -> (r: Option<Vec2>)
    ensures
        r == move_for(ms@, device),
{
    let mut i: usize = 0;
    proof {
        assert(ms@.skip(0) =~= ms@);
    }
    while i < ms.len()
        invariant
            0 <= i <= ms@.len(),
            move_for(ms@, device) == move_for(ms@.skip(i as int), device),
        decreases ms@.len() - i,
    {
        proof {
            assert(ms@.skip(i as int).first() == ms@[i as int]);
            assert(ms@.skip(i as int).drop_first() =~= ms@.skip(i as int + 1));
        }
        if ms[i].device == device {
            return Some(ms[i].delta_world);
        }
        i += 1;
    }
    proof {
        assert(ms@.skip(ms@.len() as int) =~= Seq::<CursorMoveEvent>::empty());
    }
    None
}

/// Bounds that every aggregated displacement of a tick satisfies.
pub open spec fn moves_bounded(ms: Seq<CursorMoveEvent>) -> bool {
    forall|j: int|
        0 <= j < ms.len() ==> -DISP_LIMIT <= (#[trigger] ms[j]).delta_world.x <= DISP_LIMIT
            && -DISP_LIMIT <= ms[j].delta_world.y <= DISP_LIMIT
}

pub proof fn lemma_move_for_bounded(ms: Seq<CursorMoveEvent>, device: u32)
    requires
        moves_bounded(ms),
    ensures
        match move_for(ms, device) {
            Some(d) => -DISP_LIMIT <= d.x <= DISP_LIMIT && -DISP_LIMIT <= d.y <= DISP_LIMIT,
            None => true,
        },
    decreases ms.len(),
{
    if ms.len() > 0 {
        assert(ms.first() == ms[0]);
        if ms.first().device != device {
            assert(moves_bounded(ms.drop_first())) by {
                assert(forall|j: int|
                    0 <= j < ms.drop_first().len() ==> ms.drop_first()[j] == ms[j + 1]);
            }
            lemma_move_for_bounded(ms.drop_first(), device);
        }
    }
}

/// Movement controller tick: apply each device's aggregated displacement
/// to the entity it controls (entities whose device sent no motion are
/// untouched), each under its own movement model, all confined to the play
/// area inset by the cursor radius.
pub fn apply_moves(
    cursors: &mut Vec<ControlledEntity>,
    ms: &Vec<CursorMoveEvent>,
    inset: &PlayArea,
    dt_ms: u64,
)
    requires
        inset.wf(),
        moves_bounded(ms@),
        dt_ms <= TICK_LIMIT_MS,
        forall|i: int|
            0 <= i < old(cursors)@.len() ==> crate::vec2::in_range(
                (#[trigger] old(cursors)@[i]).pos,
            ),
        forall|i: int|
            0 <= i < old(cursors)@.len() ==> ((#[trigger] old(cursors)@[i]).model matches
                MovementModel::SpeedLimited { max_speed } ==> 0 <= max_speed && max_speed * dt_ms
                <= 1000 * COORD_LIMIT),
    ensures
        final(cursors)@.len() == old(cursors)@.len(),
        forall|i: int|
            0 <= i < old(cursors)@.len() ==> match move_for(ms@, old(cursors)@[i].device) {
                Some(d) => moved_spec(
                    old(cursors)@[i],
                    d,
                    *inset,
                    dt_ms,
                    #[trigger] final(cursors)@[i],
                ),
                None => final(cursors)@[i] == old(cursors)@[i],
            },
{
    let ghost s0 = cursors@;
    let mut i: usize = 0;
    while i < cursors.len()
        invariant
            0 <= i <= s0.len(),
            cursors@.len() == s0.len(),
            inset.wf(),
            moves_bounded(ms@),
            dt_ms <= TICK_LIMIT_MS,
            forall|j: int| i <= j < s0.len() ==> cursors@[j] == s0[j],
            forall|j: int| 0 <= j < s0.len() ==> crate::vec2::in_range((#[trigger] s0[j]).pos),
            forall|j: int|
                0 <= j < s0.len() ==> ((#[trigger] s0[j]).model matches
                    MovementModel::SpeedLimited { max_speed } ==> 0 <= max_speed && max_speed
                    * dt_ms <= 1000 * COORD_LIMIT),
            forall|j: int|
                0 <= j < i ==> match move_for(ms@, s0[j].device) {
                    Some(d) => moved_spec(s0[j], d, *inset, dt_ms, #[trigger] cursors@[j]),
                    None => cursors@[j] == s0[j],
                },
        decreases s0.len() - i,
    {
        let c = cursors[i];
        match find_move(ms, c.device) {
            Some(d) => {
                proof {
                    lemma_move_for_bounded(ms@, c.device);
                }
                let stepped = apply_move(c, d, inset, dt_ms);
                cursors.set(i, stepped);
            },
            None => {},
        }
        i += 1;
    }
}

} // verus!
