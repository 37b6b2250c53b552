//! Damage volumes.
//!
//! A damage volume is an oriented world-space rectangle: a spine segment
//! (two endpoints) thickened by `half_thickness` on each side, carrying a
//! damage amount. A volume is either pending (counting down to
//! detonation), live (damage-dealing for exactly one tick), or a decaying
//! flicker remnant (visual only) before removal. Containment is tested in
//! the volume's local frame by exact integer arithmetic, boundary
//! inclusive; a degenerate segment thickens to a disc.
use vstd::prelude::*;

use crate::hostile::{sat_sub, Enemy};
use crate::vec2::{in_range, Vec2, COORD_LIMIT};

verus! {

/// Milliseconds between visibility toggles of a decaying remnant.
pub const FLICKER_PERIOD_MS: u64 = 50;

/// Total lifetime of a decaying remnant, in milliseconds.
pub const FLICKER_TOTAL_MS: u64 = 200;

#[derive(Clone, Copy, Debug, PartialEq, Eq, Structural)]
pub enum AreaState {
    /// Inert: becomes live when the countdown elapses.
    Pending { delay_ms: u64 },
    /// Damage-dealing, for the one tick it is evaluated.
    Live,
    /// Visual-only remnant, toggling visibility until removal.
    Flicker { remaining_ms: u64, since_toggle_ms: u64, visible: bool },
}

#[derive(Clone, Copy, Debug, PartialEq, Eq, Structural)]
pub struct DamageArea {
    pub damage: u32,
    /// One end of the spine segment.
    pub seg_a: Vec2,
    /// The other end of the spine segment.
    pub seg_b: Vec2,
    /// Half the rectangle's thickness, each side of the spine.
    pub half_thickness: i64,
    pub state: AreaState,
}

impl DamageArea {
    pub open spec fn wf(self) -> bool {
        &&& in_range(self.seg_a)
        &&& in_range(self.seg_b)
        &&& 0 <= self.half_thickness <= COORD_LIMIT
    }
}

/// `p` lies in the volume's rectangle (boundary inclusive): its projection
/// on the spine falls between the endpoints and its distance from the
/// spine line is at most the half thickness. A degenerate spine makes a
/// disc of that radius.
pub open spec fn area_contains(a: DamageArea, p: Vec2) -> bool {
    let ex = a.seg_b.x - a.seg_a.x;
    let ey = a.seg_b.y - a.seg_a.y;
    let ux = p.x - a.seg_a.x;
    let uy = p.y - a.seg_a.y;
    let ht = a.half_thickness as int;
    if ex == 0 && ey == 0 {
        ux * ux + uy * uy <= ht * ht
    } else {
        let along = ex * ux + ey * uy;
        let ee = ex * ex + ey * ey;
        let crossv = ex * uy - ey * ux;
        0 <= along && along <= ee && crossv * crossv <= (ht * ht) * ee
    }
}

/// Exact containment test.
pub fn area_contains_exec(a: &DamageArea, p: Vec2) -> (r: bool)
    requires
        a.wf(),
        in_range(p),
    ensures
        r == area_contains(*a, p),
{
    let ex: i128 = (a.seg_b.x as i128) - (a.seg_a.x as i128);
    let ey: i128 = (a.seg_b.y as i128) - (a.seg_a.y as i128);
    let ux: i128 = (p.x as i128) - (a.seg_a.x as i128);
    let uy: i128 = (p.y as i128) - (a.seg_a.y as i128);
    let ht: i128 = a.half_thickness as i128;
    proof {
        crate::vec2::lemma_mul_bound(ux as int, ux as int, 0x200_0000);
        crate::vec2::lemma_mul_bound(uy as int, uy as int, 0x200_0000);
        crate::vec2::lemma_mul_bound(ht as int, ht as int, 0x200_0000);
        crate::vec2::lemma_mul_bound(ex as int, ux as int, 0x200_0000);
        crate::vec2::lemma_mul_bound(ey as int, uy as int, 0x200_0000);
        crate::vec2::lemma_mul_bound(ex as int, ex as int, 0x200_0000);
        crate::vec2::lemma_mul_bound(ey as int, ey as int, 0x200_0000);
        crate::vec2::lemma_mul_bound(ex as int, uy as int, 0x200_0000);
        crate::vec2::lemma_mul_bound(ey as int, ux as int, 0x200_0000);
    }
    if ex == 0 && ey == 0 {
        ux * ux + uy * uy <= ht * ht
    } else {
        let along: i128 = ex * ux + ey * uy;
        let ee: i128 = ex * ex + ey * ey;
        let crossv: i128 = ex * uy - ey * ux;
        proof {
            crate::vec2::lemma_mul_bound(crossv as int, crossv as int, 0x8_0000_0000_0000);
            crate::vec2::lemma_mul_bound2(
                (ht * ht) as int,
                ee as int,
                0x4_0000_0000_0000,
                0x8_0000_0000_0000,
            );
        }
        0 <= along && along <= ee && crossv * crossv <= (ht * ht) * ee
    }
}

/// Total damage the live volumes of `s` deal at point `p`.
pub open spec fn live_damage_at(s: Seq<DamageArea>, p: Vec2) -> int
    decreases s.len(),
{
    if s.len() == 0 {
        0
    } else {
        live_damage_at(s.drop_last(), p) + if s.last().state is Live && area_contains(
            s.last(),
            p,
        ) {
            s.last().damage as int
        } else {
            0int
        }
    }
}

/// A pass over volumes none of which is live deals no damage anywhere: a
/// volume applies its damage only on the one tick it is live, never again
/// while it decays.
pub proof fn lemma_no_live_no_damage(s: Seq<DamageArea>, p: Vec2)
    requires
        forall|k: int| 0 <= k < s.len() ==> !((#[trigger] s[k]).state is Live),
    ensures
        live_damage_at(s, p) == 0,
    decreases s.len(),
{
    if s.len() > 0 {
        assert(s.last() == s[s.len() - 1]);
        assert(forall|k: int| 0 <= k < s.drop_last().len() ==> s.drop_last()[k] == s[k]);
        lemma_no_live_no_damage(s.drop_last(), p);
    }
}

/// Live volumes only ever subtract a nonnegative total.
pub proof fn lemma_live_damage_nonneg(s: Seq<DamageArea>, p: Vec2)
    ensures
        live_damage_at(s, p) >= 0,
    decreases s.len(),
{
    if s.len() > 0 {
        lemma_live_damage_nonneg(s.drop_last(), p);
    }
}

/// Saturating subtraction chains like plain subtraction.
proof fn lemma_sat_sub_chain(hp: int, d1: int, d2: int)
    requires
        0 <= hp,
        0 <= d1,
        0 <= d2,
    ensures
        sat_sub(sat_sub(hp, d1), d2) == sat_sub(hp, d1 + d2),
{
}

/// The volume after the evaluation pass: a live volume becomes a fresh
/// flicker remnant; every other volume is untouched.
pub open spec fn after_eval(a: DamageArea) -> DamageArea {
    if a.state is Live {
        DamageArea {
            state: AreaState::Flicker {
                remaining_ms: FLICKER_TOTAL_MS,
                since_toggle_ms: 0,
                visible: true,
            },
            ..a
        }
    } else {
        a
    }
}

/// The hostile after the evaluation pass: hit points drop, saturating at
/// zero, by the total damage of the live volumes containing its center.
pub open spec fn after_damage(e: Enemy, areas: Seq<DamageArea>) -> Enemy {
    Enemy { hp: sat_sub(e.hp as int, live_damage_at(areas, e.pos)) as u32, ..e }
}

proof fn lemma_live_damage_push(s: Seq<DamageArea>, a: DamageArea, p: Vec2)
    ensures
        live_damage_at(s.push(a), p) == live_damage_at(s, p) + if a.state is Live
            && area_contains(a, p) {
            a.damage as int
        } else {
            0int
        },
{
    assert(s.push(a).drop_last() =~= s);
    assert(s.push(a).last() == a);
}

/// Area-damage step of the combat resolver: every live volume damages
/// every hostile its rectangle contains, exactly once, and then turns into
/// a decaying remnant. No volume is live after the pass.
pub fn damage_enemies_in_area(areas: &mut Vec<DamageArea>, enemies: &mut Vec<Enemy>)
    requires
        forall|k: int| 0 <= k < old(areas)@.len() ==> (#[trigger] old(areas)@[k]).wf(),
        forall|i: int| 0 <= i < old(enemies)@.len() ==> in_range((#[trigger] old(enemies)@[i]).pos),
    ensures
        final(areas)@.len() == old(areas)@.len(),
        forall|k: int|
            0 <= k < old(areas)@.len() ==> #[trigger] final(areas)@[k] == after_eval(
                old(areas)@[k],
            ),
        forall|k: int| 0 <= k < final(areas)@.len() ==> !((#[trigger] final(areas)@[k]).state is Live),
        final(enemies)@.len() == old(enemies)@.len(),
        forall|i: int|
            0 <= i < old(enemies)@.len() ==> #[trigger] final(enemies)@[i] == after_damage(
                old(enemies)@[i],
                old(areas)@,
            ),
{
    let ghost a0 = areas@;
    let ghost e0 = enemies@;
    let mut j: usize = 0;
    while j < areas.len()
        invariant
            0 <= j <= a0.len(),
            areas@.len() == a0.len(),
            enemies@.len() == e0.len(),
            forall|k: int| 0 <= k < a0.len() ==> (#[trigger] a0[k]).wf(),
            forall|i: int| 0 <= i < e0.len() ==> in_range((#[trigger] e0[i]).pos),
            forall|k: int| j <= k < a0.len() ==> areas@[k] == a0[k],
            forall|k: int| 0 <= k < j ==> #[trigger] areas@[k] == after_eval(a0[k]),
            forall|i: int|
                0 <= i < e0.len() ==> #[trigger] enemies@[i] == after_damage(
                    e0[i],
                    a0.take(j as int),
                ),
        decreases a0.len() - j,
    {
        let ghost prefix = a0.take(j as int);
        proof {
            assert(a0.take(j as int + 1) =~= prefix.push(a0[j as int]));
        }
        let is_live = match areas[j].state {
            AreaState::Live => true,
            _ => false,
        };
        if is_live {
            let area = areas[j];
            let damage = area.damage;
            let mut i: usize = 0;
            while i < enemies.len()
                invariant
                    0 <= i <= e0.len(),
                    enemies@.len() == e0.len(),
                    0 <= j < a0.len(),
                    area == a0[j as int],
                    area.state is Live,
                    damage == area.damage,
                    area.wf(),
                    forall|i0: int| 0 <= i0 < e0.len() ==> in_range((#[trigger] e0[i0]).pos),
                    forall|i0: int|
                        i <= i0 < e0.len() ==> #[trigger] enemies@[i0] == after_damage(
                            e0[i0],
                            a0.take(j as int),
                        ),
                    forall|i0: int|
                        0 <= i0 < i ==> #[trigger] enemies@[i0] == after_damage(
                            e0[i0],
                            a0.take(j as int + 1),
                        ),
                decreases e0.len() - i,
            {
                let e = enemies[i];
                proof {
                    let pfx = a0.take(j as int);
                    assert(a0.take(j as int + 1) =~= pfx.push(a0[j as int]));
                    assert(enemies@[i as int] == after_damage(e0[i as int], pfx));
                    assert(in_range(e0[i as int].pos));
                    assert(e.pos == e0[i as int].pos);
                    lemma_live_damage_push(pfx, a0[j as int], e0[i as int].pos);
                    lemma_live_damage_nonneg(pfx, e0[i as int].pos);
                    lemma_sat_sub_chain(
                        e0[i as int].hp as int,
                        live_damage_at(pfx, e0[i as int].pos),
                        if area_contains(a0[j as int], e0[i as int].pos) {
                            a0[j as int].damage as int
                        } else {
                            0int
                        },
                    );
                }
                if area_contains_exec(&area, e.pos) {
                    enemies.set(
                        i,
                        Enemy {
                            pos: e.pos,
                            rot: e.rot,
                            hp: e.hp.saturating_sub(damage),
                            velocity: e.velocity,
                            angular_velocity: e.angular_velocity,
                        },
                    );
                }
                i += 1;
            }
            areas.set(
                j,
                DamageArea {
                    damage: area.damage,
                    seg_a: area.seg_a,
                    seg_b: area.seg_b,
                    half_thickness: area.half_thickness,
                    state: AreaState::Flicker {
                        remaining_ms: FLICKER_TOTAL_MS,
                        since_toggle_ms: 0,
                        visible: true,
                    },
                },
            );
        } else {
            proof {
                assert forall|i0: int| 0 <= i0 < e0.len() implies #[trigger] enemies@[i0]
                    == after_damage(e0[i0], a0.take(j as int + 1)) by {
                    lemma_live_damage_push(prefix, a0[j as int], e0[i0].pos);
                }
            }
        }
        j += 1;
    }
    proof {
        assert(a0.take(a0.len() as int) =~= a0);
    }
}

/// Idempotence of volume evaluation: the evaluation pass leaves no volume
/// live, and a pass over a volume list with nothing live — such as the
/// list the previous tick produced, as long as no new volume was
/// triggered — changes no hostile at all. A volume therefore applies its
/// damage only on the tick it became live, never on its decay ticks.
pub proof fn lemma_volume_evaluated_once(areas: Seq<DamageArea>, e: Enemy)
    requires
        forall|k: int| 0 <= k < areas.len() ==> !((#[trigger] areas[k]).state is Live),
    ensures
        after_damage(e, areas) == e,
{
    lemma_no_live_no_damage(areas, e.pos);
}

/// Tick every pending volume's countdown; one reaching zero becomes live
/// for the current tick and will be evaluated by the area-damage step.
pub open spec fn after_countdown(a: DamageArea, dt: int) -> DamageArea {
    match a.state {
        AreaState::Pending { delay_ms } => if delay_ms <= dt {
            DamageArea { state: AreaState::Live, ..a }
        } else {
            DamageArea { state: AreaState::Pending { delay_ms: (delay_ms - dt) as u64 }, ..a }
        },
        _ => a,
    }
}

pub fn tick_pending(areas: &mut Vec<DamageArea>, dt_ms: u64)
    ensures
        final(areas)@.len() == old(areas)@.len(),
        forall|k: int|
            0 <= k < old(areas)@.len() ==> #[trigger] final(areas)@[k] == after_countdown(
                old(areas)@[k],
                dt_ms as int,
            ),
{
    let ghost a0 = areas@;
    let mut k: usize = 0;
    while k < areas.len()
        invariant
            0 <= k <= a0.len(),
            areas@.len() == a0.len(),
            forall|k0: int| k <= k0 < a0.len() ==> areas@[k0] == a0[k0],
            forall|k0: int|
                0 <= k0 < k ==> #[trigger] areas@[k0] == after_countdown(a0[k0], dt_ms as int),
        decreases a0.len() - k,
    {
        let a = areas[k];
        match a.state {
            AreaState::Pending { delay_ms } => {
                let state = if delay_ms <= dt_ms {
                    AreaState::Live
                } else {
                    AreaState::Pending { delay_ms: delay_ms - dt_ms }
                };
                areas.set(
                    k,
                    DamageArea {
                        damage: a.damage,
                        seg_a: a.seg_a,
                        seg_b: a.seg_b,
                        half_thickness: a.half_thickness,
                        state,
                    },
                );
            },
            _ => {},
        }
        k += 1;
    }
}

/// A decaying remnant never carries a toggle phase past its period.
pub open spec fn state_wf(a: DamageArea) -> bool {
    match a.state {
        AreaState::Flicker { since_toggle_ms, .. } => since_toggle_ms < FLICKER_PERIOD_MS,
        _ => true,
    }
}

/// The remnant step for one volume: `None` once its total lifetime has
/// elapsed; otherwise the countdown advances and the visibility toggles
/// at most once per tick, restarting its period.
pub open spec fn flicker_one(a: DamageArea, dt: int) -> Option<DamageArea> {
    match a.state {
        AreaState::Flicker { remaining_ms, since_toggle_ms, visible } => {
            if remaining_ms <= dt {
                None
            } else {
                Some(
                    DamageArea {
                        state: if since_toggle_ms + dt >= FLICKER_PERIOD_MS {
                            AreaState::Flicker {
                                remaining_ms: (remaining_ms - dt) as u64,
                                since_toggle_ms: 0,
                                visible: !visible,
                            }
                        } else {
                            AreaState::Flicker {
                                remaining_ms: (remaining_ms - dt) as u64,
                                since_toggle_ms: (since_toggle_ms + dt) as u64,
                                visible,
                            }
                        },
                        ..a
                    },
                )
            }
        },
        _ => Some(a),
    }
}

/// The volume list after the remnant step.
pub open spec fn flicker_seq(s: Seq<DamageArea>, dt: int) -> Seq<DamageArea>
    decreases s.len(),
{
    if s.len() == 0 {
        Seq::empty()
    } else {
        match flicker_one(s.last(), dt) {
            Some(a) => flicker_seq(s.drop_last(), dt).push(a),
            None => flicker_seq(s.drop_last(), dt),
        }
    }
}

/// The remnant step keeps every surviving volume's geometry, so well
/// formed volumes stay well formed.
pub proof fn lemma_flicker_seq_wf(s: Seq<DamageArea>, dt: int)
    requires
        forall|k: int| 0 <= k < s.len() ==> (#[trigger] s[k]).wf(),
    ensures
        forall|k: int|
            0 <= k < flicker_seq(s, dt).len() ==> (#[trigger] flicker_seq(s, dt)[k]).wf(),
    decreases s.len(),
{
    if s.len() > 0 {
        assert(s.last() == s[s.len() - 1]);
        assert(forall|k: int| 0 <= k < s.drop_last().len() ==> s.drop_last()[k] == s[k]);
        lemma_flicker_seq_wf(s.drop_last(), dt);
        match flicker_one(s.last(), dt) {
            Some(a) => {
                assert(a.wf());
                assert forall|k: int| 0 <= k < flicker_seq(s, dt).len() implies (
                #[trigger] flicker_seq(s, dt)[k]).wf() by {
                    if k < flicker_seq(s, dt).len() - 1 {
                        assert(flicker_seq(s, dt)[k] == flicker_seq(s.drop_last(), dt)[k]);
                    } else {
                        assert(flicker_seq(s, dt)[k] == a);
                    }
                }
            },
            None => {
                assert forall|k: int| 0 <= k < flicker_seq(s, dt).len() implies (
                #[trigger] flicker_seq(s, dt)[k]).wf() by {
                    assert(flicker_seq(s, dt)[k] == flicker_seq(s.drop_last(), dt)[k]);
                }
            },
        }
    }
}

/// Advance every decaying remnant: toggle visibility on its short period,
/// remove it once its total duration has elapsed.
pub fn damage_flicker(areas: &mut Vec<DamageArea>, dt_ms: u64)
    requires
        dt_ms <= crate::movement::TICK_LIMIT_MS,
        forall|k: int| 0 <= k < old(areas)@.len() ==> state_wf(#[trigger] old(areas)@[k]),
    ensures
        final(areas)@ == flicker_seq(old(areas)@, dt_ms as int),
        forall|k: int| 0 <= k < final(areas)@.len() ==> state_wf(#[trigger] final(areas)@[k]),
{
    let ghost a0 = areas@;
    let mut kept: Vec<DamageArea> = Vec::new();
    let mut k: usize = 0;
    while k < areas.len()
        invariant
            0 <= k <= a0.len(),
            areas@ == a0,
            dt_ms <= crate::movement::TICK_LIMIT_MS,
            forall|k0: int| 0 <= k0 < a0.len() ==> state_wf(#[trigger] a0[k0]),
            kept@ == flicker_seq(a0.take(k as int), dt_ms as int),
            forall|k0: int| 0 <= k0 < kept@.len() ==> state_wf(#[trigger] kept@[k0]),
        decreases a0.len() - k,
    {
        let a = areas[k];
        proof {
            assert(a0.take(k as int + 1).drop_last() =~= a0.take(k as int));
            assert(a0.take(k as int + 1).last() == a0[k as int]);
            assert(state_wf(a0[k as int]));
        }
        match a.state {
            AreaState::Flicker { remaining_ms, since_toggle_ms, visible } => {
                if remaining_ms <= dt_ms {
                    // expired: dropped
                } else {
                    let state = if since_toggle_ms + dt_ms >= FLICKER_PERIOD_MS {
                        AreaState::Flicker {
                            remaining_ms: remaining_ms - dt_ms,
                            since_toggle_ms: 0,
                            visible: !visible,
                        }
                    } else {
                        AreaState::Flicker {
                            remaining_ms: remaining_ms - dt_ms,
                            since_toggle_ms: since_toggle_ms + dt_ms,
                            visible,
                        }
                    };
                    kept.push(
                        DamageArea {
                            damage: a.damage,
                            seg_a: a.seg_a,
                            seg_b: a.seg_b,
                            half_thickness: a.half_thickness,
                            state,
                        },
                    );
                }
            },
            _ => {
                kept.push(a);
            },
        }
        k += 1;
    }
    proof {
        assert(a0.take(a0.len() as int) =~= a0);
    }
    *areas = kept;
}

} // verus!
