//! Role-swap mechanic, and the reticle's periodic shot.
//!
//! On its trigger — a repeating timer or a button press — the player node
//! and the reticle node exchange controlling device, transform and
//! movement model in one atomic operation (their slots, and so the hit
//! points and roles bound to them, stay put). A configurable side effect
//! accompanies the swap: none, a live damage rectangle swept along the
//! pre-swap line between the two nodes, or a delayed-detonation square
//! volume left at the player's pre-swap position.
use vstd::prelude::*;

use crate::damage::{AreaState, DamageArea};
use crate::input::ButtonEvent;
use crate::roles::ControlledEntity;
use crate::timer::RepeatingTimer;
use crate::vec2::{in_range, Vec2, COORD_LIMIT};

verus! {

/// Damage of the swept swap rectangle.
pub const DASH_DAMAGE: u32 = 10;

/// Half thickness of the swept swap rectangle, in steps.
pub const DASH_HALF_THICKNESS: i64 = 500;

/// Damage of the delayed-detonation volume.
pub const BOMB_DAMAGE: u32 = 10;

/// Half size of the delayed-detonation square, in steps.
pub const BOMB_HALF_SIZE: i64 = 1500;

/// Detonation delay, in milliseconds.
pub const BOMB_DELAY_MS: u64 = 200;

/// Damage of one reticle shot.
pub const SHOOT_DAMAGE: u32 = 1;

/// Half size of the reticle shot square, in steps.
pub const SHOOT_HALF_SIZE: i64 = 500;

/// The optional damage side effect of a swap.
#[derive(Clone, Copy, Debug, PartialEq, Eq, Structural)]
pub enum SwapEffect {
    /// A plain exchange.
    Plain,
    /// A live rectangle swept along the pre-swap line between the nodes.
    Sweep,
    /// A delayed-detonation square left at the player's pre-swap position.
    Bomb,
}

/// What fires the swap.
#[derive(Clone, Copy, Debug, PartialEq, Eq, Structural)]
pub enum SwapTrigger {
    Timer,
    Button,
}

/// The two nodes after an atomic swap: device, transform and movement
/// model exchanged; each slot's role (and so the player's hit points)
/// stays with the slot.
pub open spec fn swapped_nodes(
    p0: ControlledEntity,
    r0: ControlledEntity,
    p1: ControlledEntity,
    r1: ControlledEntity,
) -> bool {
    &&& p1.device == r0.device
    &&& p1.pos == r0.pos
    &&& p1.rot == r0.rot
    &&& p1.model == r0.model
    &&& p1.role == p0.role
    &&& r1.device == p0.device
    &&& r1.pos == p0.pos
    &&& r1.rot == p0.rot
    &&& r1.model == p0.model
    &&& r1.role == r0.role
}

/// Atomically exchange which device, transform and movement model the
/// player node and the reticle node carry.
pub fn swap_nodes(player: &mut ControlledEntity, reticle: &mut ControlledEntity)
    ensures
        swapped_nodes(*old(player), *old(reticle), *final(player), *final(reticle)),
{
    let p = *player;
    let r = *reticle;
    *player = ControlledEntity {
        device: r.device,
        pos: r.pos,
        rot: r.rot,
        role: p.role,
        model: r.model,
    };
    *reticle = ControlledEntity {
        device: p.device,
        pos: p.pos,
        rot: p.rot,
        role: r.role,
        model: p.model,
    };
}

/// The volume a swap with `effect` leaves behind, given the nodes'
/// pre-swap positions, if any: the swept rectangle spans exactly the line
/// between the nodes and is live at once; the bomb square is centered on
/// the player and counts down.
pub open spec fn swap_volume(effect: SwapEffect, p_pos: Vec2, r_pos: Vec2) -> Option<
    DamageArea,
> {
    match effect {
        SwapEffect::Plain => None,
        SwapEffect::Sweep => Some(
            DamageArea {
                damage: DASH_DAMAGE,
                seg_a: p_pos,
                seg_b: r_pos,
                half_thickness: DASH_HALF_THICKNESS,
                state: AreaState::Live,
            },
        ),
        SwapEffect::Bomb => Some(
            DamageArea {
                damage: BOMB_DAMAGE,
                seg_a: Vec2 { x: (p_pos.x - BOMB_HALF_SIZE) as i64, y: p_pos.y },
                seg_b: Vec2 { x: (p_pos.x + BOMB_HALF_SIZE) as i64, y: p_pos.y },
                half_thickness: BOMB_HALF_SIZE,
                state: AreaState::Pending { delay_ms: BOMB_DELAY_MS },
            },
        ),
    }
}

/// Room the swap side effects need inside the coordinate range.
pub open spec fn pos_has_margin(p: Vec2) -> bool {
    -COORD_LIMIT + BOMB_HALF_SIZE <= p.x <= COORD_LIMIT - BOMB_HALF_SIZE && -COORD_LIMIT <= p.y
        <= COORD_LIMIT
}

/// One swap with its configured side effect.
pub fn apply_swap(
    player: &mut ControlledEntity,
    reticle: &mut ControlledEntity,
    areas: &mut Vec<DamageArea>,
    effect: SwapEffect,
)
    requires
        pos_has_margin(old(player).pos),
        in_range(old(reticle).pos),
    ensures
        swapped_nodes(*old(player), *old(reticle), *final(player), *final(reticle)),
        final(areas)@ == (match swap_volume(effect, old(player).pos, old(reticle).pos) {
            None => old(areas)@,
            Some(v) => old(areas)@.push(v),
        }),
        final(areas)@.len() >= old(areas)@.len(),
        forall|k: int| 0 <= k < old(areas)@.len() ==> #[trigger] final(areas)@[k] == old(areas)@[k],
        (match swap_volume(effect, old(player).pos, old(reticle).pos) {
            None => true,
            Some(v) => v.wf() && crate::damage::state_wf(v),
        }),
{
    let p_pos = player.pos;
    let r_pos = reticle.pos;
    swap_nodes(player, reticle);
    match effect {
        SwapEffect::Plain => {},
        SwapEffect::Sweep => {
            areas.push(
                DamageArea {
                    damage: DASH_DAMAGE,
                    seg_a: p_pos,
                    seg_b: r_pos,
                    half_thickness: DASH_HALF_THICKNESS,
                    state: AreaState::Live,
                },
            );
        },
        SwapEffect::Bomb => {
            areas.push(
                DamageArea {
                    damage: BOMB_DAMAGE,
                    seg_a: Vec2 { x: p_pos.x - BOMB_HALF_SIZE, y: p_pos.y },
                    seg_b: Vec2 { x: p_pos.x + BOMB_HALF_SIZE, y: p_pos.y },
                    half_thickness: BOMB_HALF_SIZE,
                    state: AreaState::Pending { delay_ms: BOMB_DELAY_MS },
                },
            );
        },
    }
}

/// How many pressed button edges the tick carried.
pub open spec fn pressed_count(s: Seq<ButtonEvent>) -> int
    decreases s.len(),
{
    if s.len() == 0 {
        0
    } else {
        pressed_count(s.drop_last()) + if s.last().pressed {
            1int
        } else {
            0int
        }
    }
}

pub proof fn lemma_pressed_count_nonneg(s: Seq<ButtonEvent>)
    ensures
        pressed_count(s) >= 0,
    decreases s.len(),
{
    if s.len() > 0 {
        lemma_pressed_count_nonneg(s.drop_last());
    }
}

/// A prefix never counts more presses than the whole stream.
pub proof fn lemma_pressed_prefix_le(s: Seq<ButtonEvent>, i: int)
    requires
        0 <= i <= s.len(),
    ensures
        pressed_count(s.take(i)) <= pressed_count(s),
    decreases s.len() - i,
{
    if i < s.len() {
        assert(s.take(i + 1).drop_last() =~= s.take(i));
        assert(s.take(i + 1).last() == s[i]);
        lemma_pressed_prefix_le(s, i + 1);
    } else {
        assert(s.take(i) =~= s);
    }
}

/// Button-triggered swapping: one swap (with side effect) per pressed
/// edge, in stream order; releases do nothing. An even number of presses
/// leaves the nodes where they started.
pub fn swap_on_buttons(
    player: &mut ControlledEntity,
    reticle: &mut ControlledEntity,
    areas: &mut Vec<DamageArea>,
    buttons: &Vec<ButtonEvent>,
    effect: SwapEffect,
)
    requires
        pos_has_margin(old(player).pos),
        pos_has_margin(old(reticle).pos),
        forall|k: int|
            0 <= k < old(areas)@.len() ==> (#[trigger] old(areas)@[k]).wf() && crate::damage::state_wf(
                old(areas)@[k],
            ),
    ensures
        forall|k: int|
            0 <= k < final(areas)@.len() ==> (#[trigger] final(areas)@[k]).wf()
                && crate::damage::state_wf(final(areas)@[k]),
        if pressed_count(buttons@) % 2 == 0 {
            *final(player) == *old(player) && *final(reticle) == *old(reticle)
        } else {
            swapped_nodes(*old(player), *old(reticle), *final(player), *final(reticle))
        },
        final(areas)@.len() == old(areas)@.len() + pressed_count(buttons@) * (
        match effect {
            SwapEffect::Plain => 0int,
            _ => 1int,
        }),
        forall|k: int| 0 <= k < old(areas)@.len() ==> #[trigger] final(areas)@[k] == old(areas)@[k],
{
    let ghost p0 = *player;
    let ghost r0 = *reticle;
    let ghost a0 = areas@;
    let mut i: usize = 0;
    while i < buttons.len()
        invariant
            0 <= i <= buttons@.len(),
            pos_has_margin(p0.pos),
            pos_has_margin(r0.pos),
            if pressed_count(buttons@.take(i as int)) % 2 == 0 {
                *player == p0 && *reticle == r0
            } else {
                swapped_nodes(p0, r0, *player, *reticle)
            },
            areas@.len() == a0.len() + pressed_count(buttons@.take(i as int)) * (
            match effect {
                SwapEffect::Plain => 0int,
                _ => 1int,
            }),
            forall|k: int| 0 <= k < a0.len() ==> #[trigger] areas@[k] == a0[k],
            forall|k: int|
                0 <= k < a0.len() ==> (#[trigger] a0[k]).wf() && crate::damage::state_wf(a0[k]),
            forall|k: int|
                0 <= k < areas@.len() ==> (#[trigger] areas@[k]).wf() && crate::damage::state_wf(
                    areas@[k],
                ),
        decreases buttons@.len() - i,
    {
        let b = buttons[i];
        proof {
            assert(buttons@.take(i as int + 1).drop_last() =~= buttons@.take(i as int));
            assert(buttons@.take(i as int + 1).last() == buttons@[i as int]);
            crate::movement::lemma_distribute(
                pressed_count(buttons@.take(i as int)),
                1,
                match effect {
                    SwapEffect::Plain => 0int,
                    _ => 1int,
                },
            );
        }
        if b.pressed {
            let ghost pre = areas@;
            proof {
                lemma_pressed_count_nonneg(buttons@.take(i as int));
                crate::mapper::lemma_mul_mono_nonneg(
                    0,
                    pressed_count(buttons@.take(i as int)),
                    match effect {
                        SwapEffect::Plain => 0int,
                        _ => 1int,
                    },
                );
            }
            let ghost pre_wf = forall|k: int|
                0 <= k < pre.len() ==> (#[trigger] pre[k]).wf() && crate::damage::state_wf(pre[k]);
            apply_swap(player, reticle, areas, effect);
            proof {
                assert forall|k: int| 0 <= k < a0.len() implies areas@[k] == a0[k] by {
                    assert(areas@[k] == pre[k]);
                }
                assert forall|k: int| 0 <= k < areas@.len() implies (#[trigger] areas@[k]).wf()
                    && crate::damage::state_wf(areas@[k]) by {
                    if k < pre.len() {
                        assert(areas@[k] == pre[k]);
                    }
                }
            }
        }
        i += 1;
    }
    proof {
        assert(buttons@.take(buttons@.len() as int) =~= buttons@);
    }
}

/// Timer-triggered swapping: at most one swap (with side effect) per tick.
pub fn swap_on_timer(
    player: &mut ControlledEntity,
    reticle: &mut ControlledEntity,
    areas: &mut Vec<DamageArea>,
    timer: &mut RepeatingTimer,
    effect: SwapEffect,
    dt_ms: u64,
) -> (fired: bool)
    requires
        old(timer).wf(),
        dt_ms <= crate::movement::TICK_LIMIT_MS,
        pos_has_margin(old(player).pos),
        in_range(old(reticle).pos),
    ensures
        final(timer).wf(),
        final(timer).period_ms == old(timer).period_ms,
        fired == (old(timer).elapsed_ms + dt_ms >= old(timer).period_ms),
        final(timer).elapsed_ms == (if fired {
            (old(timer).elapsed_ms + dt_ms) % (old(timer).period_ms as int)
        } else {
            old(timer).elapsed_ms + dt_ms
        }),
        fired ==> swapped_nodes(*old(player), *old(reticle), *final(player), *final(reticle)),
        fired ==> final(areas)@ == (match swap_volume(effect, old(player).pos, old(reticle).pos) {
            None => old(areas)@,
            Some(v) => old(areas)@.push(v),
        }),
        fired ==> (match swap_volume(effect, old(player).pos, old(reticle).pos) {
            None => true,
            Some(v) => v.wf() && crate::damage::state_wf(v),
        }),
        !fired ==> *final(player) == *old(player) && *final(reticle) == *old(reticle),
        !fired ==> final(areas)@ == old(areas)@,
{
    let fired = timer.tick(dt_ms);
    if fired {
        apply_swap(player, reticle, areas, effect);
    }
    fired
}

/// The reticle's shot: on each fire of the shoot timer, a small live
/// damage square appears at the reticle's position.
pub fn shoot(
    reticle_pos: Vec2,
    areas: &mut Vec<DamageArea>,
    timer: &mut RepeatingTimer,
    dt_ms: u64,
) -> (fired: bool)
    requires
        old(timer).wf(),
        dt_ms <= crate::movement::TICK_LIMIT_MS,
        -COORD_LIMIT + SHOOT_HALF_SIZE <= reticle_pos.x <= COORD_LIMIT - SHOOT_HALF_SIZE,
        -COORD_LIMIT <= reticle_pos.y <= COORD_LIMIT,
    ensures
        final(timer).wf(),
        final(timer).period_ms == old(timer).period_ms,
        fired == (old(timer).elapsed_ms + dt_ms >= old(timer).period_ms),
        final(timer).elapsed_ms == (if fired {
            (old(timer).elapsed_ms + dt_ms) % (old(timer).period_ms as int)
        } else {
            old(timer).elapsed_ms + dt_ms
        }),
        fired ==> final(areas)@ == old(areas)@.push(
            DamageArea {
                damage: SHOOT_DAMAGE,
                seg_a: Vec2 { x: (reticle_pos.x - SHOOT_HALF_SIZE) as i64, y: reticle_pos.y },
                seg_b: Vec2 { x: (reticle_pos.x + SHOOT_HALF_SIZE) as i64, y: reticle_pos.y },
                half_thickness: SHOOT_HALF_SIZE,
                state: AreaState::Live,
            },
        ),
        !fired ==> final(areas)@ == old(areas)@,
{
    let fired = timer.tick(dt_ms);
    if fired {
        areas.push(
            DamageArea {
                damage: SHOOT_DAMAGE,
                seg_a: Vec2 { x: reticle_pos.x - SHOOT_HALF_SIZE, y: reticle_pos.y },
                seg_b: Vec2 { x: reticle_pos.x + SHOOT_HALF_SIZE, y: reticle_pos.y },
                half_thickness: SHOOT_HALF_SIZE,
                state: AreaState::Live,
            },
        );
    }
    fired
}

} // verus!
