//! Hostiles: transient enemies with a transform, hit points, a linear
//! velocity and an angular velocity. They drift asteroid-style, die when
//! their hit points reach zero, and each death scores one point.
use vstd::prelude::*;

use crate::vec2::{in_range, Vec2, COORD_LIMIT};

verus! {

/// Hit points a hostile spawns with.
pub const ENEMY_MAX_HP: u32 = 10;

/// Largest velocity component, in steps per second.
pub const VEL_LIMIT: i64 = 0x100_0000;

#[derive(Clone, Copy, Debug, PartialEq, Eq, Structural)]
pub struct Enemy {
    pub pos: Vec2,
    /// Rotation, in milliradians.
    pub rot: i64,
    pub hp: u32,
    /// Steps per second.
    pub velocity: Vec2,
    /// Milliradians per second.
    pub angular_velocity: i64,
}

impl Enemy {
    pub open spec fn wf(self) -> bool {
        &&& in_range(self.pos)
        &&& -COORD_LIMIT <= self.rot <= COORD_LIMIT
        &&& -VEL_LIMIT <= self.velocity.x <= VEL_LIMIT
        &&& -VEL_LIMIT <= self.velocity.y <= VEL_LIMIT
        &&& -VEL_LIMIT <= self.angular_velocity <= VEL_LIMIT
    }
}

/// Saturating decrement over the mathematical integers: hit points never
/// go negative.
pub open spec fn sat_sub(hp: int, d: int) -> int {
    if hp - d <= 0 {
        0
    } else {
        hp - d
    }
}

/// How far a per-second rate advances in `dt` milliseconds, rounded toward
/// zero.
pub open spec fn ms_scaled(v: int, dt: int) -> int {
    if v >= 0 {
        (v * dt) / 1000
    } else {
        -((-v * dt) / 1000)
    }
}

/// Largest per-tick step a bounded rate can produce.
pub const STEP_LIMIT: i64 = 0x1_0000_0000;

/// Exact fixed-point advance of a per-second rate over a tick.
pub fn scale_by_ms(v: i64, dt_ms: u64) -> (r: i64)
    requires
        -VEL_LIMIT <= v <= VEL_LIMIT,
        dt_ms <= crate::movement::TICK_LIMIT_MS,
    ensures
        r == ms_scaled(v as int, dt_ms as int),
        -STEP_LIMIT <= r <= STEP_LIMIT,
{
    proof {
        crate::vec2::lemma_mul_bound2(v as int, dt_ms as int, VEL_LIMIT as int, 0x10000);
        assert((-v) * (dt_ms as int) == -(v * (dt_ms as int))) by (nonlinear_arith);
        if v >= 0 {
            crate::mapper::lemma_mul_mono_nonneg(0, v as int, dt_ms as int);
            vstd::arithmetic::div_mod::lemma_div_is_ordered(
                v * (dt_ms as int),
                VEL_LIMIT as int * 0x10000,
                1000,
            );
            vstd::arithmetic::div_mod::lemma_div_pos_is_pos(v * (dt_ms as int), 1000);
        } else {
            crate::mapper::lemma_mul_mono_nonneg(0, -v as int, dt_ms as int);
            vstd::arithmetic::div_mod::lemma_div_is_ordered(
                -v * (dt_ms as int),
                VEL_LIMIT as int * 0x10000,
                1000,
            );
            vstd::arithmetic::div_mod::lemma_div_pos_is_pos(-v * (dt_ms as int), 1000);
        }
    }
    if v >= 0 {
        (v * (dt_ms as i64)) / 1000
    } else {
        -((-v * (dt_ms as i64)) / 1000)
    }
}

/// One movement tick of a hostile: drift by its velocity, spin by its
/// angular velocity, position and rotation held inside the outer world
/// bound (the rotation is visual only and saturates there).
pub open spec fn enemy_moved(e: Enemy, dt: int, r: Enemy) -> bool {
    &&& r.hp == e.hp
    &&& r.velocity == e.velocity
    &&& r.angular_velocity == e.angular_velocity
    &&& r.pos.x == clamp_world(e.pos.x + ms_scaled(e.velocity.x as int, dt))
    &&& r.pos.y == clamp_world(e.pos.y + ms_scaled(e.velocity.y as int, dt))
    &&& r.rot == clamp_world(e.rot + ms_scaled(e.angular_velocity as int, dt))
}

/// Clamp a coordinate to the outer world bound.
pub open spec fn clamp_world(x: int) -> int {
    if x < -COORD_LIMIT {
        -COORD_LIMIT as int
    } else if x > COORD_LIMIT {
        COORD_LIMIT as int
    } else {
        x
    }
}

/// Advance every hostile by one tick of drift and spin.
pub fn move_enemies(enemies: &mut Vec<Enemy>, dt_ms: u64)
    requires
        dt_ms <= crate::movement::TICK_LIMIT_MS,
        forall|i: int| 0 <= i < old(enemies)@.len() ==> (#[trigger] old(enemies)@[i]).wf(),
    ensures
        final(enemies)@.len() == old(enemies)@.len(),
        forall|i: int|
            0 <= i < old(enemies)@.len() ==> enemy_moved(
                old(enemies)@[i],
                dt_ms as int,
                #[trigger] final(enemies)@[i],
            ) && final(enemies)@[i].wf(),
{
    let ghost s0 = enemies@;
    let mut i: usize = 0;
    while i < enemies.len()
        invariant
            0 <= i <= s0.len(),
            enemies@.len() == s0.len(),
            dt_ms <= crate::movement::TICK_LIMIT_MS,
            forall|j: int| i <= j < s0.len() ==> enemies@[j] == s0[j],
            forall|j: int| 0 <= j < s0.len() ==> (#[trigger] s0[j]).wf(),
            forall|j: int|
                0 <= j < i ==> enemy_moved(s0[j], dt_ms as int, #[trigger] enemies@[j])
                    && enemies@[j].wf(),
        decreases s0.len() - i,
    {
        let e = enemies[i];
        proof {
            assert(s0[i as int].wf());
        }
        let sx = scale_by_ms(e.velocity.x, dt_ms);
        let sy = scale_by_ms(e.velocity.y, dt_ms);
        let sr = scale_by_ms(e.angular_velocity, dt_ms);
        let px = crate::vec2::clamp_i64(e.pos.x + sx, -COORD_LIMIT, COORD_LIMIT);
        let py = crate::vec2::clamp_i64(e.pos.y + sy, -COORD_LIMIT, COORD_LIMIT);
        let rot = crate::vec2::clamp_i64(e.rot + sr, -COORD_LIMIT, COORD_LIMIT);
        enemies.set(
            i,
            Enemy {
                pos: Vec2 { x: px, y: py },
                rot,
                hp: e.hp,
                velocity: e.velocity,
                angular_velocity: e.angular_velocity,
            },
        );
        i += 1;
    }
}

/// The hostiles of `s` still alive, in order.
pub open spec fn alive_of(s: Seq<Enemy>) -> Seq<Enemy>
    decreases s.len(),
{
    if s.len() == 0 {
        Seq::empty()
    } else if s.last().hp > 0 {
        alive_of(s.drop_last()).push(s.last())
    } else {
        alive_of(s.drop_last())
    }
}

/// How many hostiles of `s` are dead.
pub open spec fn dead_count(s: Seq<Enemy>) -> int
    decreases s.len(),
{
    if s.len() == 0 {
        0
    } else {
        dead_count(s.drop_last()) + if s.last().hp == 0 {
            1int
        } else {
            0int
        }
    }
}

pub proof fn lemma_dead_count_nonneg(s: Seq<Enemy>)
    ensures
        dead_count(s) >= 0,
    decreases s.len(),
{
    if s.len() > 0 {
        lemma_dead_count_nonneg(s.drop_last());
    }
}

/// Filtering the dead away keeps every survivor well formed.
pub proof fn lemma_alive_of_wf(s: Seq<Enemy>)
    requires
        forall|i: int| 0 <= i < s.len() ==> (#[trigger] s[i]).wf(),
    ensures
        forall|i: int| 0 <= i < alive_of(s).len() ==> (#[trigger] alive_of(s)[i]).wf(),
        forall|i: int| 0 <= i < alive_of(s).len() ==> (#[trigger] alive_of(s)[i]).hp > 0,
    decreases s.len(),
{
    if s.len() > 0 {
        assert(s.last() == s[s.len() - 1]);
        assert(forall|i: int| 0 <= i < s.drop_last().len() ==> s.drop_last()[i] == s[i]);
        lemma_alive_of_wf(s.drop_last());
        if s.last().hp > 0 {
            assert(forall|i: int|
                0 <= i < alive_of(s).len() - 1 ==> alive_of(s)[i] == alive_of(s.drop_last())[i]);
            assert(alive_of(s).last() == s.last());
        }
    }
}

/// Filtering the dead away keeps any hit-point bound the survivors had.
pub proof fn lemma_alive_of_hp_le(s: Seq<Enemy>, b: int)
    requires
        forall|i: int| 0 <= i < s.len() ==> (#[trigger] s[i]).hp <= b,
    ensures
        forall|i: int| 0 <= i < alive_of(s).len() ==> (#[trigger] alive_of(s)[i]).hp <= b,
    decreases s.len(),
{
    if s.len() > 0 {
        assert(s.last() == s[s.len() - 1]);
        assert(forall|i: int| 0 <= i < s.drop_last().len() ==> s.drop_last()[i] == s[i]);
        lemma_alive_of_hp_le(s.drop_last(), b);
        if s.last().hp > 0 {
            assert(forall|i: int|
                0 <= i < alive_of(s).len() - 1 ==> alive_of(s)[i] == alive_of(s.drop_last())[i]);
            assert(alive_of(s).last() == s.last());
        }
    }
}

/// Saturating addition over the mathematical integers, capped at `u32`.
pub open spec fn sat_add_u32(a: int, b: int) -> int {
    if a + b >= u32::MAX {
        u32::MAX as int
    } else {
        a + b
    }
}

/// Remove every dead hostile and score one point per removal (a hostile
/// destroyed by damage; drifting offscreen is not scored here).
pub fn despawn_dead_enemies(enemies: &mut Vec<Enemy>, score: &mut u32)
    ensures
        final(enemies)@ == alive_of(old(enemies)@),
        *final(score) == sat_add_u32(*old(score) as int, dead_count(old(enemies)@)),
{
    let ghost s0 = enemies@;
    let mut kept: Vec<Enemy> = Vec::new();
    let mut i: usize = 0;
    while i < enemies.len()
        invariant
            0 <= i <= s0.len(),
            enemies@ == s0,
            kept@ == alive_of(s0.take(i as int)),
            *score == sat_add_u32(*old(score) as int, dead_count(s0.take(i as int))),
        decreases s0.len() - i,
    {
        let e = enemies[i];
        proof {
            assert(s0.take(i as int + 1).drop_last() =~= s0.take(i as int));
            assert(s0.take(i as int + 1).last() == s0[i as int]);
        }
        if e.hp > 0 {
            kept.push(e);
        } else {
            *score = score.saturating_add(1);
        }
        i += 1;
    }
    proof {
        assert(s0.take(s0.len() as int) =~= s0);
    }
    *enemies = kept;
}

} // verus!
