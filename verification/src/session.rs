//! The per-tick simulation loop.
//!
//! One session owns the game phase and the state scoped to it. A tick is
//! one ordered pass: input aggregation, then — by phase — role assignment
//! (intro), or movement, role swap, combat resolution and encounter
//! generation (playing), or the restart check (game over). All
//! playing-scoped state (timers, hostiles, damage volumes, score) is
//! built fresh on entering the playing phase and discarded with it, so a
//! new game starts from a clean slate. A device disconnect aborts the
//! session as an unrecoverable error.
use vstd::prelude::*;

use crate::combat::PLAYER_MAX_HP;
use crate::damage::{state_wf, DamageArea};
use crate::hostile::Enemy;
use crate::input::{buttons_of, has_disconnect, InputError, InputEvent, TickInput};
use crate::mapper::Mapper;
use crate::movement::CURSOR_RADIUS;
use crate::play_area::PlayArea;
use crate::roles::{holds_role, role_unique, ControlledEntity, MovementModel, Role};
use crate::input::{aggregated_ok, ButtonEvent, CursorMoveEvent};
use crate::swap::{pressed_count, swap_volume, swapped_nodes, SwapEffect, SwapTrigger};
use crate::timer::{period_of_rate, RepeatingTimer, SpawnTimer, SPAWN_RATE_MAX, SPAWN_RATE_STEP};
use crate::vec2::{in_range, Vec2, COORD_LIMIT};

verus! {

/// The player node's speed limit, in steps per second.
pub const PLAYER_MAX_SPEED: i64 = 8000;

/// Initial spawn rate, in fires per thousand seconds: one per second.
pub const SPAWN_RATE_START: u64 = 1000;

/// Shoot timer period, in milliseconds.
pub const SHOOT_PERIOD_MS: u64 = 50;

/// Swap timer period, in milliseconds.
pub const SWAP_PERIOD_MS: u64 = 1000;

/// The tri-state phase the core reacts to.
#[derive(Clone, Copy, Debug, PartialEq, Eq, Structural)]
pub enum AppState {
    Intro,
    Playing,
    GameOver,
}

/// How the role swap is configured for a session.
#[derive(Clone, Copy, Debug, PartialEq, Eq, Structural)]
pub struct SessionConfig {
    pub swap_trigger: SwapTrigger,
    pub swap_effect: SwapEffect,
}

/// Everything scoped to the playing phase.
pub struct PlayingState {
    pub player: ControlledEntity,
    pub player_hp: u32,
    pub reticle: ControlledEntity,
    pub enemies: Vec<Enemy>,
    pub areas: Vec<DamageArea>,
    pub score: u32,
    pub spawn_timer: SpawnTimer,
    pub shoot_timer: RepeatingTimer,
    pub swap_timer: RepeatingTimer,
}

/// The session phase with its scoped state.
pub enum Phase {
    Intro,
    Playing(PlayingState),
    GameOver,
}

/// A session: the immutable viewport-derived geometry, the swap
/// configuration, the per-device entities, and the current phase.
pub struct Session {
    pub mapper: Mapper,
    pub play_area: PlayArea,
    pub config: SessionConfig,
    /// The controlled entities, one per device: assignment targets during
    /// the intro, then the frozen roster gameplay nodes are built from.
    pub cursors: Vec<ControlledEntity>,
    pub phase: Phase,
}

/// A play area compatible with every stage: inside the coordinate range
/// with room for the largest volume margins, and wide enough to inset by
/// the cursor radius.
pub open spec fn area_ok(a: PlayArea) -> bool {
    &&& a.wf()
    &&& -COORD_LIMIT + 2000 <= a.min.x
    &&& a.max.x <= COORD_LIMIT - 2000
    &&& -COORD_LIMIT + 2000 <= a.min.y
    &&& a.max.y <= COORD_LIMIT - 2000
    &&& a.min.x + 2 * CURSOR_RADIUS < a.max.x
    &&& a.min.y + 2 * CURSOR_RADIUS < a.max.y
}

/// A gameplay node: confined to the play area, moving either freely or
/// under the player speed limit.
pub open spec fn node_ok(c: ControlledEntity, a: PlayArea) -> bool {
    &&& a.contains_spec(c.pos)
    &&& (c.model is Unconstrained || c.model == (MovementModel::SpeedLimited {
        max_speed: PLAYER_MAX_SPEED,
    }))
}

/// The play area inset by the cursor radius: where node centers live.
pub open spec fn inset_spec(a: PlayArea) -> PlayArea {
    PlayArea {
        min: Vec2 { x: (a.min.x + CURSOR_RADIUS) as i64, y: (a.min.y + CURSOR_RADIUS) as i64 },
        max: Vec2 { x: (a.max.x - CURSOR_RADIUS) as i64, y: (a.max.y - CURSOR_RADIUS) as i64 },
    }
}

/// The movement-controller relation for one entity: stepped by its
/// device's aggregated displacement under its movement model if the
/// device moved this tick, untouched otherwise.
pub open spec fn moved_by(
    c: ControlledEntity,
    ms: Seq<CursorMoveEvent>,
    a: PlayArea,
    dt: u64,
    r: ControlledEntity,
) -> bool {
    match crate::movement::move_for(ms, c.device) {
        Some(d) => crate::movement::moved_spec(c, d, inset_spec(a), dt, r),
        None => r == c,
    }
}

impl PlayingState {
    pub open spec fn wf(self, a: PlayArea) -> bool {
        &&& node_ok(self.player, a)
        &&& node_ok(self.reticle, a)
        &&& self.player.role == Some(Role::Left)
        &&& self.reticle.role == Some(Role::Right)
        &&& self.player_hp <= PLAYER_MAX_HP
        &&& self.spawn_timer.wf()
        &&& self.shoot_timer.wf()
        &&& self.swap_timer.wf()
        &&& forall|i: int|
            0 <= i < self.enemies@.len() ==> (#[trigger] self.enemies@[i]).wf()
                && self.enemies@[i].hp <= crate::hostile::ENEMY_MAX_HP
        &&& forall|k: int|
            0 <= k < self.areas@.len() ==> (#[trigger] self.areas@[k]).wf() && state_wf(
                self.areas@[k],
            )
    }

    /// The clean slate the playing phase starts from, given the two nodes.
    pub open spec fn fresh(self) -> bool {
        &&& self.player_hp == PLAYER_MAX_HP
        &&& self.enemies@.len() == 0
        &&& self.areas@.len() == 0
        &&& self.score == 0
        &&& self.spawn_timer == SpawnTimer { rate: SPAWN_RATE_START, elapsed_ms: 0u64 }
        &&& self.shoot_timer == RepeatingTimer { period_ms: SHOOT_PERIOD_MS, elapsed_ms: 0u64 }
        &&& self.swap_timer == RepeatingTimer { period_ms: SWAP_PERIOD_MS, elapsed_ms: 0u64 }
    }
}

impl Session {
    pub open spec fn wf(self) -> bool {
        &&& self.mapper.wf()
        &&& area_ok(self.play_area)
        &&& forall|i: int| 0 <= i < self.cursors@.len() ==> in_range((#[trigger] self.cursors@[i]).pos)
        &&& forall|i: int| 0 <= i < self.cursors@.len() ==> (#[trigger] self.cursors@[i]).model is Unconstrained
        &&& role_unique(self.cursors@, Role::Left)
        &&& role_unique(self.cursors@, Role::Right)
        &&& (self.phase matches Phase::Playing(ps) ==> ps.wf(self.play_area))
    }

    /// The phase tag, for the rendering and shell collaborators.
    pub fn app_state(&self) -> (r: AppState)
        ensures
            r == (match self.phase {
                Phase::Intro => AppState::Intro,
                Phase::Playing(_) => AppState::Playing,
                Phase::GameOver => AppState::GameOver,
            }),
    {
        match &self.phase {
            Phase::Intro => AppState::Intro,
            Phase::Playing(_) => AppState::Playing,
            Phase::GameOver => AppState::GameOver,
        }
    }

    /// A new session in the intro phase: geometry from the viewport, one
    /// unassigned cursor per discovered device.
    pub fn new(mapper: Mapper, devices: &Vec<u32>, config: SessionConfig) -> (r: Session)
        requires
            mapper.wf(),
            mapper.width_px * mapper.scale > 2 * CURSOR_RADIUS,
            mapper.height_px * mapper.scale > 2 * CURSOR_RADIUS,
            devices@.len() <= 0x1_0000_0000,
        ensures
            r.wf(),
            r.mapper == mapper,
            r.config == config,
            r.phase is Intro,
            r.cursors@.len() == devices@.len(),
            forall|i: int|
                0 <= i < r.cursors@.len() ==> (#[trigger] r.cursors@[i]).device == devices@[i]
                    && r.cursors@[i].role is None,
    {
        let play_area = PlayArea::from_viewport(&mapper);
        let cursors = crate::intro::spawn_cursors(devices);
        proof {
            assert forall|i: int| 0 <= i < cursors@.len() implies in_range(
                (#[trigger] cursors@[i]).pos,
            ) by {
                let n = devices@.len() as int;
                assert(cursors@[i].pos.x == 0);
                vstd::arithmetic::div_mod::lemma_div_pos_is_pos(
                    crate::intro::CURSOR_STACK_SPREAD * i,
                    n,
                );
                assert(crate::intro::CURSOR_STACK_SPREAD * i >= 0) by (nonlinear_arith)
                    requires
                        i >= 0,
                ;
                assert(crate::intro::CURSOR_STACK_SPREAD * i <= crate::intro::CURSOR_STACK_SPREAD
                    * n) by (nonlinear_arith)
                    requires
                        0 <= i <= n,
                ;
                vstd::arithmetic::div_mod::lemma_div_is_ordered(
                    crate::intro::CURSOR_STACK_SPREAD * i,
                    crate::intro::CURSOR_STACK_SPREAD as int * n,
                    n,
                );
                vstd::arithmetic::div_mod::lemma_div_multiples_vanish(
                    crate::intro::CURSOR_STACK_SPREAD as int,
                    n,
                );
                assert(crate::intro::CURSOR_STACK_SPREAD as int * n == n
                    * crate::intro::CURSOR_STACK_SPREAD) by (nonlinear_arith);
            }
            assert(role_unique(cursors@, Role::Left));
            assert(role_unique(cursors@, Role::Right));
        }
        Session { mapper, play_area, config, cursors, phase: Phase::Intro }
    }
}

/// The first entity of `s` holding `role`, if any.
pub fn find_role(cursors: &Vec<ControlledEntity>, role: Role) -> (r: Option<ControlledEntity>)
    ensures
        match r {
            Some(c) => c.role == Some(role) && exists|i: int|
                0 <= i < cursors@.len() && cursors@[i] == c,
            None => !holds_role(cursors@, role),
        },
{
    let mut i: usize = 0;
    while i < cursors.len()
        invariant
            0 <= i <= cursors@.len(),
            forall|j: int| 0 <= j < i ==> cursors@[j].role != Some(role),
        decreases cursors@.len() - i,
    {
        let c = cursors[i];
        let found = match (c.role, role) {
            (Some(Role::Left), Role::Left) => true,
            (Some(Role::Right), Role::Right) => true,
            _ => false,
        };
        if found {
            proof {
                assert(cursors@[i as int] == c);
            }
            return Some(c);
        }
        i += 1;
    }
    None
}

/// Build the clean-slate playing state from the assigned roster: the
/// `Left` entity becomes the speed-limited player node at full health,
/// the `Right` entity the unconstrained reticle node, both clamped into
/// the play area.
pub fn build_playing(cursors: &Vec<ControlledEntity>, a: &PlayArea) -> (r: Option<PlayingState>)
    requires
        area_ok(*a),
    ensures
        match r {
            Some(ps) => {
                &&& ps.wf(*a)
                &&& ps.fresh()
                &&& ps.player.model == (MovementModel::SpeedLimited { max_speed: PLAYER_MAX_SPEED })
                &&& ps.reticle.model is Unconstrained
                &&& holds_role(cursors@, Role::Left)
                &&& holds_role(cursors@, Role::Right)
                &&& exists|i: int|
                    0 <= i < cursors@.len() && (#[trigger] cursors@[i]).role == Some(Role::Left)
                        && ps.player.device == cursors@[i].device && ps.player.pos == a.clamp_spec(
                        cursors@[i].pos,
                    ) && ps.player.rot == cursors@[i].rot
                &&& exists|i: int|
                    0 <= i < cursors@.len() && (#[trigger] cursors@[i]).role == Some(Role::Right)
                        && ps.reticle.device == cursors@[i].device && ps.reticle.pos
                        == a.clamp_spec(cursors@[i].pos) && ps.reticle.rot == cursors@[i].rot
            },
            None => !(holds_role(cursors@, Role::Left) && holds_role(cursors@, Role::Right)),
        },
{
    let left = find_role(cursors, Role::Left);
    let right = find_role(cursors, Role::Right);
    match (left, right) {
        (Some(l), Some(r)) => {
            proof {
                let i = choose|i: int| 0 <= i < cursors@.len() && cursors@[i] == l;
                let j = choose|j: int| 0 <= j < cursors@.len() && cursors@[j] == r;
                assert(holds_role(cursors@, Role::Left)) by {
                    assert(cursors@[i].role == Some(Role::Left));
                }
                assert(holds_role(cursors@, Role::Right)) by {
                    assert(cursors@[j].role == Some(Role::Right));
                }
            }
            let player = ControlledEntity {
                device: l.device,
                pos: a.clamp(l.pos),
                rot: l.rot,
                role: l.role,
                model: MovementModel::SpeedLimited { max_speed: PLAYER_MAX_SPEED },
            };
            let reticle = ControlledEntity {
                device: r.device,
                pos: a.clamp(r.pos),
                rot: r.rot,
                role: r.role,
                model: MovementModel::Unconstrained,
            };
            Some(
                PlayingState {
                    player,
                    player_hp: PLAYER_MAX_HP,
                    reticle,
                    enemies: Vec::new(),
                    areas: Vec::new(),
                    score: 0,
                    spawn_timer: SpawnTimer::new(SPAWN_RATE_START),
                    shoot_timer: RepeatingTimer::new(SHOOT_PERIOD_MS),
                    swap_timer: RepeatingTimer::new(SWAP_PERIOD_MS),
                },
            )
        },
        _ => None,
    }
}

/// One intro tick over the entity list: the role-assignment pass runs
/// first, at the quarter- and three-quarter-width boundaries, on the
/// positions the previous tick left; the phase is complete exactly when
/// both roles are held after that pass; the movement controller then
/// steps every entity (roles untouched).
pub open spec fn intro_stage_ok(
    m: Mapper,
    a: PlayArea,
    cursors0: Seq<ControlledEntity>,
    ms: Seq<CursorMoveEvent>,
    dt: u64,
    cursors1: Seq<ControlledEntity>,
    complete: bool,
) -> bool {
    let lx = m.map_x((m.width_px / 4) as int);
    let rx = m.map_x(((3 * m.width_px) / 4) as int);
    let assigned = crate::roles::assign_seq(cursors0, lx, rx);
    &&& complete == (holds_role(assigned, Role::Left) && holds_role(assigned, Role::Right))
    &&& cursors1.len() == assigned.len()
    &&& forall|i: int|
        0 <= i < assigned.len() ==> moved_by(assigned[i], ms, a, dt, #[trigger] cursors1[i])
}

/// The intermediate states of one playing tick, exposed as a ghost trace
/// so the tick's contract can name each stage's output.
pub struct PlayTrace {
    pub moved_player: ControlledEntity,
    pub moved_reticle: ControlledEntity,
    pub swapped_player: ControlledEntity,
    pub swapped_reticle: ControlledEntity,
    pub areas_swap: Seq<DamageArea>,
    pub areas_shoot: Seq<DamageArea>,
    pub enemies_drift: Seq<Enemy>,
    pub areas_countdown: Seq<DamageArea>,
    pub enemies_contact: Seq<Enemy>,
    pub enemies_area: Seq<Enemy>,
    pub areas_eval: Seq<DamageArea>,
}

/// One playing tick in the fixed stage order, with `tr` naming each
/// stage's output: movement of both nodes, the configured role swap, the
/// reticle's shot, hostile drift, pending countdowns, contact damage,
/// area damage, remnant decay, deaths and scoring, and encounter
/// generation — one hostile appended exactly when the spawn timer fires.
/// The game ends exactly when the player's hit points reach zero.
pub open spec fn play_rel(
    a: PlayArea,
    cfg: SessionConfig,
    ps: PlayingState,
    ms: Seq<CursorMoveEvent>,
    bs: Seq<ButtonEvent>,
    dt: u64,
    ps2: PlayingState,
    go: bool,
    tr: PlayTrace,
) -> bool {
    let sfired = ps.spawn_timer.elapsed_ms + dt >= period_of_rate(ps.spawn_timer.rate as int);
    let shot_fired = ps.shoot_timer.elapsed_ms + dt >= ps.shoot_timer.period_ms;
    let alive = crate::hostile::alive_of(tr.enemies_area);
    // Movement controller, one node per device.
    &&& moved_by(ps.player, ms, a, dt, tr.moved_player)
    &&& moved_by(ps.reticle, ms, a, dt, tr.moved_reticle)
    // Role swap on its configured trigger, with its configured effect.
    &&& match cfg.swap_trigger {
        SwapTrigger::Timer => {
            let fired = ps.swap_timer.elapsed_ms + dt >= ps.swap_timer.period_ms;
            &&& ps2.swap_timer.period_ms == ps.swap_timer.period_ms
            &&& ps2.swap_timer.elapsed_ms == (if fired {
                (ps.swap_timer.elapsed_ms + dt) % (ps.swap_timer.period_ms as int)
            } else {
                ps.swap_timer.elapsed_ms + dt
            })
            &&& (if fired {
                &&& swapped_nodes(
                    tr.moved_player,
                    tr.moved_reticle,
                    tr.swapped_player,
                    tr.swapped_reticle,
                )
                &&& tr.areas_swap == (match swap_volume(
                    cfg.swap_effect,
                    tr.moved_player.pos,
                    tr.moved_reticle.pos,
                ) {
                    None => ps.areas@,
                    Some(v) => ps.areas@.push(v),
                })
            } else {
                &&& tr.swapped_player == tr.moved_player
                &&& tr.swapped_reticle == tr.moved_reticle
                &&& tr.areas_swap == ps.areas@
            })
        },
        SwapTrigger::Button => {
            &&& ps2.swap_timer == ps.swap_timer
            &&& (if pressed_count(bs) % 2 == 0 {
                tr.swapped_player == tr.moved_player && tr.swapped_reticle == tr.moved_reticle
            } else {
                swapped_nodes(
                    tr.moved_player,
                    tr.moved_reticle,
                    tr.swapped_player,
                    tr.swapped_reticle,
                )
            })
            &&& tr.areas_swap.len() == ps.areas@.len() + pressed_count(bs) * (
            match cfg.swap_effect {
                SwapEffect::Plain => 0int,
                _ => 1int,
            })
            &&& forall|k: int|
                0 <= k < ps.areas@.len() ==> #[trigger] tr.areas_swap[k] == ps.areas@[k]
        },
    }
    // The reticle's shot.
    &&& ps2.shoot_timer.period_ms == ps.shoot_timer.period_ms
    &&& ps2.shoot_timer.elapsed_ms == (if shot_fired {
        (ps.shoot_timer.elapsed_ms + dt) % (ps.shoot_timer.period_ms as int)
    } else {
        ps.shoot_timer.elapsed_ms + dt
    })
    &&& tr.areas_shoot == (if shot_fired {
        tr.areas_swap.push(
            DamageArea {
                damage: crate::swap::SHOOT_DAMAGE,
                seg_a: Vec2 {
                    x: (tr.swapped_reticle.pos.x - crate::swap::SHOOT_HALF_SIZE) as i64,
                    y: tr.swapped_reticle.pos.y,
                },
                seg_b: Vec2 {
                    x: (tr.swapped_reticle.pos.x + crate::swap::SHOOT_HALF_SIZE) as i64,
                    y: tr.swapped_reticle.pos.y,
                },
                half_thickness: crate::swap::SHOOT_HALF_SIZE,
                state: crate::damage::AreaState::Live,
            },
        )
    } else {
        tr.areas_swap
    })
    // Hostiles drift and spin.
    &&& tr.enemies_drift.len() == ps.enemies@.len()
    &&& forall|i: int|
        0 <= i < ps.enemies@.len() ==> crate::hostile::enemy_moved(
            ps.enemies@[i],
            dt as int,
            #[trigger] tr.enemies_drift[i],
        )
    // Pending countdowns tick first, so one reaching zero is evaluated
    // this very tick.
    &&& tr.areas_countdown.len() == tr.areas_shoot.len()
    &&& forall|k: int|
        0 <= k < tr.areas_shoot.len() ==> #[trigger] tr.areas_countdown[k]
            == crate::damage::after_countdown(tr.areas_shoot[k], dt as int)
    // Contact damage against the post-swap player node.
    &&& ps2.player_hp == crate::hostile::sat_sub(
        ps.player_hp as int,
        crate::combat::contact_count(tr.enemies_drift, tr.swapped_player.pos),
    )
    &&& tr.enemies_contact.len() == tr.enemies_drift.len()
    &&& forall|i: int|
        0 <= i < tr.enemies_drift.len() ==> #[trigger] tr.enemies_contact[i]
            == crate::combat::after_contact(tr.enemies_drift[i], tr.swapped_player.pos)
    // Area damage: every live volume damages what it contains, exactly
    // once, and becomes a decaying remnant.
    &&& tr.enemies_area.len() == tr.enemies_contact.len()
    &&& forall|i: int|
        0 <= i < tr.enemies_contact.len() ==> #[trigger] tr.enemies_area[i]
            == crate::damage::after_damage(tr.enemies_contact[i], tr.areas_countdown)
    &&& tr.areas_eval.len() == tr.areas_countdown.len()
    &&& forall|k: int|
        0 <= k < tr.areas_countdown.len() ==> #[trigger] tr.areas_eval[k]
            == crate::damage::after_eval(tr.areas_countdown[k])
    // Remnant decay and removal.
    &&& ps2.areas@ == crate::damage::flicker_seq(tr.areas_eval, dt as int)
    // Deaths and scoring: one point per hostile destroyed.
    &&& ps2.score == crate::hostile::sat_add_u32(
        ps.score as int,
        crate::hostile::dead_count(tr.enemies_area),
    )
    // Encounter generation: one hostile appended exactly when the spawn
    // timer fires, and the accelerating-rate rule advances the timer.
    &&& ps2.spawn_timer.rate == (if sfired {
        if ps.spawn_timer.rate + SPAWN_RATE_STEP <= SPAWN_RATE_MAX {
            ps.spawn_timer.rate + SPAWN_RATE_STEP
        } else {
            SPAWN_RATE_MAX as int
        }
    } else {
        ps.spawn_timer.rate as int
    })
    &&& ps2.spawn_timer.elapsed_ms == (if sfired {
        (ps.spawn_timer.elapsed_ms + dt) % period_of_rate(ps.spawn_timer.rate as int)
    } else {
        ps.spawn_timer.elapsed_ms + dt
    })
    &&& (if sfired {
        &&& ps2.enemies@.len() == alive.len() + 1
        &&& forall|i: int| 0 <= i < alive.len() ==> #[trigger] ps2.enemies@[i] == alive[i]
        &&& ps2.enemies@.last().hp == crate::hostile::ENEMY_MAX_HP
        &&& ps2.enemies@.last().wf()
        &&& crate::spawn::on_boundary(crate::spawn::spawn_rect(a), ps2.enemies@.last().pos)
        &&& exists|aim: Vec2, dir: Vec2, speed: int|
            #![trigger crate::spawn::spawn_witness_ok(a, aim, dir, speed, ps2.enemies@.last())]
            crate::spawn::spawn_witness_ok(a, aim, dir, speed, ps2.enemies@.last())
    } else {
        ps2.enemies@ == alive
    })
    // The nodes carry through; the game ends exactly at zero hit points.
    &&& ps2.player == tr.swapped_player
    &&& ps2.reticle == tr.swapped_reticle
    &&& go == (ps2.player_hp == 0)
}

/// Bound every aggregated displacement of a tick satisfies.
pub open spec fn tick_moves_ok(t: TickInput) -> bool {
    forall|j: int|
        0 <= j < t.moves@.len() ==> -0x20_0000_0000 <= (#[trigger] t.moves@[j]).delta_world.x
            <= 0x20_0000_0000 && -0x20_0000_0000 <= t.moves@[j].delta_world.y <= 0x20_0000_0000
}

/// One intro tick: move the cursors, run role assignment, and report
/// whether both roles are now held.
pub fn intro_tick(
    mapper: &Mapper,
    play_area: &PlayArea,
    cursors: &mut Vec<ControlledEntity>,
    t: &TickInput,
    dt_ms: u64,
) -> (complete: bool)
    requires
        mapper.wf(),
        area_ok(*play_area),
        dt_ms <= crate::movement::TICK_LIMIT_MS,
        tick_moves_ok(*t),
        forall|i: int| 0 <= i < old(cursors)@.len() ==> in_range((#[trigger] old(cursors)@[i]).pos),
        forall|i: int|
            0 <= i < old(cursors)@.len() ==> (#[trigger] old(cursors)@[i]).model is Unconstrained,
        role_unique(old(cursors)@, Role::Left),
        role_unique(old(cursors)@, Role::Right),
    ensures
        forall|i: int| 0 <= i < final(cursors)@.len() ==> in_range((#[trigger] final(cursors)@[i]).pos),
        forall|i: int|
            0 <= i < final(cursors)@.len() ==> (#[trigger] final(cursors)@[i]).model is Unconstrained,
        role_unique(final(cursors)@, Role::Left),
        role_unique(final(cursors)@, Role::Right),
        complete == (holds_role(final(cursors)@, Role::Left) && holds_role(
            final(cursors)@,
            Role::Right,
        )),
        intro_stage_ok(*mapper, *play_area, old(cursors)@, t.moves@, dt_ms, final(cursors)@, complete),
{
    // Role assignment first, on the positions the previous tick left.
    let bounds = crate::intro::role_boundaries(mapper);
    let ghost before = cursors@;
    crate::roles::assign_roles(cursors, bounds.0, bounds.1);
    proof {
        crate::roles::lemma_role_assignment_unique(before, bounds.0 as int, bounds.1 as int);
        crate::roles::lemma_assign_from_len(
            before,
            bounds.0 as int,
            bounds.1 as int,
            !holds_role(before, Role::Left),
            !holds_role(before, Role::Right),
        );
        assert forall|i: int| 0 <= i < cursors@.len() implies in_range(
            (#[trigger] cursors@[i]).pos,
        ) && cursors@[i].model is Unconstrained by {
            crate::roles::lemma_assign_from_element(
                before,
                bounds.0 as int,
                bounds.1 as int,
                !holds_role(before, Role::Left),
                !holds_role(before, Role::Right),
                i,
            );
        }
    }
    let complete = crate::roles::intro_complete(cursors);
    // Then the movement controller, which never touches roles.
    let inset = play_area.inset(CURSOR_RADIUS);
    proof {
        assert forall|j: int| 0 <= j < t.moves@.len() implies -crate::movement::DISP_LIMIT
            <= (#[trigger] t.moves@[j]).delta_world.x <= crate::movement::DISP_LIMIT
            && -crate::movement::DISP_LIMIT <= t.moves@[j].delta_world.y
            <= crate::movement::DISP_LIMIT by {}
    }
    let ghost assigned = cursors@;
    crate::movement::apply_moves(cursors, &t.moves, &inset, dt_ms);
    proof {
        assert forall|i: int| 0 <= i < cursors@.len() implies in_range(
            (#[trigger] cursors@[i]).pos,
        ) && cursors@[i].model is Unconstrained && cursors@[i].role == assigned[i].role by {
            match crate::movement::move_for(t.moves@, assigned[i].device) {
                Some(d) => {
                    assert(crate::movement::moved_spec(assigned[i], d, inset, dt_ms, cursors@[i]));
                },
                None => {
                    assert(cursors@[i] == assigned[i]);
                },
            }
        }
        assert(role_unique(cursors@, Role::Left)) by {
            assert forall|i: int, j: int|
                0 <= i < cursors@.len() && 0 <= j < cursors@.len() && (
                #[trigger] cursors@[i]).role == Some(Role::Left) && (#[trigger] cursors@[j]).role
                    == Some(Role::Left) implies i == j by {
                assert(assigned[i].role == Some(Role::Left));
                assert(assigned[j].role == Some(Role::Left));
            }
        }
        assert(role_unique(cursors@, Role::Right)) by {
            assert forall|i: int, j: int|
                0 <= i < cursors@.len() && 0 <= j < cursors@.len() && (
                #[trigger] cursors@[i]).role == Some(Role::Right) && (#[trigger] cursors@[j]).role
                    == Some(Role::Right) implies i == j by {
                assert(assigned[i].role == Some(Role::Right));
                assert(assigned[j].role == Some(Role::Right));
            }
        }
        assert(holds_role(cursors@, Role::Left) == holds_role(assigned, Role::Left)) by {
            if holds_role(assigned, Role::Left) {
                let w = choose|w: int|
                    0 <= w < assigned.len() && assigned[w].role == Some(Role::Left);
                assert(cursors@[w].role == Some(Role::Left));
            }
            if holds_role(cursors@, Role::Left) {
                let w = choose|w: int|
                    0 <= w < cursors@.len() && cursors@[w].role == Some(Role::Left);
                assert(assigned[w].role == Some(Role::Left));
            }
        }
        assert(holds_role(cursors@, Role::Right) == holds_role(assigned, Role::Right)) by {
            if holds_role(assigned, Role::Right) {
                let w = choose|w: int|
                    0 <= w < assigned.len() && assigned[w].role == Some(Role::Right);
                assert(cursors@[w].role == Some(Role::Right));
            }
            if holds_role(cursors@, Role::Right) {
                let w = choose|w: int|
                    0 <= w < cursors@.len() && cursors@[w].role == Some(Role::Right);
                assert(assigned[w].role == Some(Role::Right));
            }
        }
        // The staged relation holds: assignment at the documented
        // boundaries, then the movement controller.
        assert(inset == inset_spec(*play_area));
        assert(assigned == crate::roles::assign_seq(
            before,
            mapper.map_x((mapper.width_px / 4) as int),
            mapper.map_x(((3 * mapper.width_px) / 4) as int),
        ));
        assert forall|i: int| 0 <= i < assigned.len() implies moved_by(
            assigned[i],
            t.moves@,
            *play_area,
            dt_ms,
            #[trigger] cursors@[i],
        ) by {
            match crate::movement::move_for(t.moves@, assigned[i].device) {
                Some(d) => {
                    assert(crate::movement::moved_spec(assigned[i], d, inset, dt_ms, cursors@[i]));
                },
                None => {
                    assert(cursors@[i] == assigned[i]);
                },
            }
        }
    }
    complete
}

/// One playing tick, in the fixed stage order: movement, role swap and
/// shooting, hostile drift, then combat resolution (pending countdowns,
/// contact damage, area damage, remnant decay, deaths and scoring), then
/// encounter generation, then the game-over check. Score never drops and
/// the player's hit points never rise.
pub fn playing_tick(
    play_area: &PlayArea,
    config: &SessionConfig,
    ps: PlayingState,
    t: &TickInput,
    dt_ms: u64,
) -> (r: (PlayingState, bool, Ghost<PlayTrace>))
    requires
        area_ok(*play_area),
        ps.wf(*play_area),
        tick_moves_ok(*t),
        dt_ms <= crate::movement::TICK_LIMIT_MS,
    ensures
        r.0.wf(*play_area),
        r.1 == (r.0.player_hp == 0),
        r.0.score >= ps.score,
        r.0.player_hp <= ps.player_hp,
        play_rel(*play_area, *config, ps, t.moves@, t.buttons@, dt_ms, r.0, r.1, r.2@),
{
    let ghost ps0 = ps;
    let PlayingState {
        mut player,
        mut player_hp,
        mut reticle,
        mut enemies,
        mut areas,
        mut score,
        mut spawn_timer,
        mut shoot_timer,
        mut swap_timer,
    } = ps;
    let inset = play_area.inset(CURSOR_RADIUS);
    proof {
        assert(inset == inset_spec(*play_area));
        assert forall|j: int| 0 <= j < t.moves@.len() implies -crate::movement::DISP_LIMIT
            <= (#[trigger] t.moves@[j]).delta_world.x <= crate::movement::DISP_LIMIT
            && -crate::movement::DISP_LIMIT <= t.moves@[j].delta_world.y
            <= crate::movement::DISP_LIMIT by {}
        crate::movement::lemma_move_for_bounded(t.moves@, player.device);
        crate::movement::lemma_move_for_bounded(t.moves@, reticle.device);
    }
    // Movement controller: each node under its own movement model.
    match crate::movement::find_move(&t.moves, player.device) {
        Some(d) => {
            player = crate::movement::apply_move(player, d, &inset, dt_ms);
        },
        None => {},
    }
    match crate::movement::find_move(&t.moves, reticle.device) {
        Some(d) => {
            reticle = crate::movement::apply_move(reticle, d, &inset, dt_ms);
        },
        None => {},
    }
    let ghost mv_p = player;
    let ghost mv_r = reticle;
    proof {
        assert(node_ok(player, *play_area));
        assert(node_ok(reticle, *play_area));
        assert(moved_by(ps0.player, t.moves@, *play_area, dt_ms, mv_p));
        assert(moved_by(ps0.reticle, t.moves@, *play_area, dt_ms, mv_r));
    }
    // Role swap on its configured trigger, with its configured effect.
    match config.swap_trigger {
        SwapTrigger::Timer => {
            let ghost pre = areas@;
            let fired = crate::swap::swap_on_timer(
                &mut player,
                &mut reticle,
                &mut areas,
                &mut swap_timer,
                config.swap_effect,
                dt_ms,
            );
            proof {
                assert forall|k: int| 0 <= k < areas@.len() implies (#[trigger] areas@[k]).wf()
                    && state_wf(areas@[k]) by {
                    if fired {
                        match crate::swap::swap_volume(config.swap_effect, mv_p.pos, mv_r.pos) {
                            Some(v) => {
                                assert(areas@ == pre.push(v));
                                if k < pre.len() {
                                    assert(areas@[k] == pre[k]);
                                } else {
                                    assert(areas@[k] == v);
                                }
                            },
                            None => {
                                assert(areas@ == pre);
                            },
                        }
                    }
                }
            }
        },
        SwapTrigger::Button => {
            crate::swap::swap_on_buttons(
                &mut player,
                &mut reticle,
                &mut areas,
                &t.buttons,
                config.swap_effect,
            );
        },
    }
    let ghost sw_p = player;
    let ghost sw_r = reticle;
    let ghost a_swap = areas@;
    proof {
        assert(node_ok(player, *play_area));
        assert(node_ok(reticle, *play_area));
    }
    // The reticle's periodic shot.
    let ghost pre_shot = areas@;
    let shot = crate::swap::shoot(reticle.pos, &mut areas, &mut shoot_timer, dt_ms);
    let ghost a_shoot = areas@;
    proof {
        assert forall|k: int| 0 <= k < areas@.len() implies (#[trigger] areas@[k]).wf()
            && state_wf(areas@[k]) by {
            if shot {
                if k < pre_shot.len() {
                    assert(areas@[k] == pre_shot[k]);
                } else {
                    assert(areas@[k] == areas@.last());
                }
            }
        }
    }
    // Hostiles drift and spin.
    crate::hostile::move_enemies(&mut enemies, dt_ms);
    let ghost e_drift = enemies@;
    proof {
        assert forall|i: int| 0 <= i < enemies@.len() implies (#[trigger] enemies@[i]).wf()
            && enemies@[i].hp <= crate::hostile::ENEMY_MAX_HP by {
            assert(crate::hostile::enemy_moved(ps0.enemies@[i], dt_ms as int, enemies@[i]));
        }
    }
    // Combat resolution: pending volumes first, so a countdown reaching
    // zero is evaluated this very tick.
    let ghost pre_count = areas@;
    crate::damage::tick_pending(&mut areas, dt_ms);
    let ghost a_count = areas@;
    proof {
        assert forall|k: int| 0 <= k < areas@.len() implies (#[trigger] areas@[k]).wf()
            && state_wf(areas@[k]) by {
            assert(areas@[k] == crate::damage::after_countdown(pre_count[k], dt_ms as int));
        }
    }
    crate::combat::contact_damage(player.pos, &mut player_hp, &mut enemies);
    let ghost e_contact = enemies@;
    proof {
        assert forall|i: int| 0 <= i < enemies@.len() implies (#[trigger] enemies@[i]).wf()
            && enemies@[i].hp <= crate::hostile::ENEMY_MAX_HP by {
            assert(enemies@[i] == crate::combat::after_contact(e_drift[i], sw_p.pos));
            assert(e_drift[i].wf() && e_drift[i].hp <= crate::hostile::ENEMY_MAX_HP);
        }
    }
    crate::damage::damage_enemies_in_area(&mut areas, &mut enemies);
    let ghost e_area = enemies@;
    let ghost a_eval = areas@;
    proof {
        assert forall|k: int| 0 <= k < areas@.len() implies (#[trigger] areas@[k]).wf()
            && state_wf(areas@[k]) by {
            assert(areas@[k] == crate::damage::after_eval(a_count[k]));
        }
        assert forall|i: int| 0 <= i < enemies@.len() implies (#[trigger] enemies@[i]).wf()
            && enemies@[i].hp <= crate::hostile::ENEMY_MAX_HP by {
            assert(enemies@[i] == crate::damage::after_damage(e_contact[i], a_count));
            crate::damage::lemma_live_damage_nonneg(a_count, e_contact[i].pos);
            assert(e_contact[i].wf() && e_contact[i].hp <= crate::hostile::ENEMY_MAX_HP);
        }
    }
    crate::damage::damage_flicker(&mut areas, dt_ms);
    proof {
        crate::damage::lemma_flicker_seq_wf(a_eval, dt_ms as int);
    }
    crate::hostile::despawn_dead_enemies(&mut enemies, &mut score);
    proof {
        crate::hostile::lemma_alive_of_wf(e_area);
        crate::hostile::lemma_alive_of_hp_le(e_area, crate::hostile::ENEMY_MAX_HP as int);
        crate::hostile::lemma_dead_count_nonneg(e_area);
    }
    // Encounter generation, at the accelerating spawn rate.
    let spawn_fired = spawn_timer.tick(dt_ms);
    if spawn_fired {
        let ghost pre_e = enemies@;
        let fresh_enemy = crate::spawn::spawn_enemy(play_area);
        enemies.push(fresh_enemy);
        proof {
            assert forall|i: int| 0 <= i < enemies@.len() implies (#[trigger] enemies@[i]).wf()
                && enemies@[i].hp <= crate::hostile::ENEMY_MAX_HP by {
                if i < pre_e.len() {
                    assert(enemies@[i] == pre_e[i]);
                } else {
                    assert(enemies@[i] == fresh_enemy);
                }
            }
            assert(enemies@.last() == fresh_enemy);
        }
    }
    // Death check: the player at zero hit points ends the game.
    let game_over = crate::combat::is_game_over(player_hp);
    let ghost trace = PlayTrace {
        moved_player: mv_p,
        moved_reticle: mv_r,
        swapped_player: sw_p,
        swapped_reticle: sw_r,
        areas_swap: a_swap,
        areas_shoot: a_shoot,
        enemies_drift: e_drift,
        areas_countdown: a_count,
        enemies_contact: e_contact,
        enemies_area: e_area,
        areas_eval: a_eval,
    };
    (
        PlayingState {
            player,
            player_hp,
            reticle,
            enemies,
            areas,
            score,
            spawn_timer,
            shoot_timer,
            swap_timer,
        },
        game_over,
        Ghost(trace),
    )
}

/// One simulation tick. Aggregates the tick's raw events and then runs
/// the phase's stages in their fixed order, each pinned by its stage
/// relation. A disconnect aborts the session with an unrecoverable
/// error; otherwise the session advances: the intro phase runs role
/// assignment then movement and completes into a fresh playing state
/// exactly when both roles are held; the playing phase steps by
/// `play_rel` and ends in game over exactly when the player's hit points
/// reach zero (discarding all playing-scoped state); and a button press
/// restarts a finished game from a clean slate.
pub fn tick(s: Session, events: &Vec<InputEvent>, dt_ms: u64) -> (r: Result<Session, InputError>)
    requires
        s.wf(),
        dt_ms <= crate::movement::TICK_LIMIT_MS,
        events@.len() <= crate::input::EVENT_LIMIT,
        crate::input::events_bounded(events@),
    ensures
        match r {
            Ok(s2) => {
                &&& !has_disconnect(events@)
                &&& s2.wf()
                &&& s2.mapper == s.mapper
                &&& s2.play_area == s.play_area
                &&& s2.config == s.config
                &&& (!(s.phase is Intro) ==> s2.cursors@ == s.cursors@)
                &&& (s.phase is Intro ==> (s2.phase matches Phase::Playing(ps) ==> ps.fresh()))
                &&& (s.phase is Intro ==> (s2.phase is Intro || s2.phase matches Phase::Playing(_)))
                &&& (s.phase is Intro ==> ((s2.phase matches Phase::Playing(_)) <==> (holds_role(
                    s2.cursors@,
                    Role::Left,
                ) && holds_role(s2.cursors@, Role::Right))))
                &&& (s.phase is Intro ==> exists|
                    ms: Seq<CursorMoveEvent>,
                    bs: Seq<ButtonEvent>,
                    mid: Seq<ControlledEntity>,
                    complete: bool,
                |
                    #![trigger aggregated_ok(events@, s.mapper, ms, bs), intro_stage_ok(s.mapper, s.play_area, s.cursors@, ms, dt_ms, mid, complete)]
                    {
                        &&& aggregated_ok(events@, s.mapper, ms, bs)
                        &&& intro_stage_ok(
                            s.mapper,
                            s.play_area,
                            s.cursors@,
                            ms,
                            dt_ms,
                            mid,
                            complete,
                        )
                        &&& s2.cursors@ == (if complete {
                            crate::intro::assigned_of(mid)
                        } else {
                            mid
                        })
                        &&& complete == (s2.phase matches Phase::Playing(_))
                    })
                &&& (s.phase matches Phase::Playing(_) ==> (s2.phase matches Phase::Playing(_)
                    || s2.phase is GameOver))
                &&& (s.phase matches Phase::Playing(ps0) ==> exists|
                    ms: Seq<CursorMoveEvent>,
                    bs: Seq<ButtonEvent>,
                    ps2: PlayingState,
                    go: bool,
                    tr: PlayTrace,
                |
                    #![trigger aggregated_ok(events@, s.mapper, ms, bs), play_rel(s.play_area, s.config, ps0, ms, bs, dt_ms, ps2, go, tr)]
                    {
                        &&& aggregated_ok(events@, s.mapper, ms, bs)
                        &&& play_rel(s.play_area, s.config, ps0, ms, bs, dt_ms, ps2, go, tr)
                        &&& (if go {
                            s2.phase is GameOver
                        } else {
                            s2.phase == Phase::Playing(ps2)
                        })
                    })
                &&& (s.phase matches Phase::Playing(ps0) ==> (s2.phase matches Phase::Playing(ps2)
                    ==> ps2.score >= ps0.score && ps2.player_hp <= ps0.player_hp
                    && ps2.player_hp > 0))
                &&& (s.phase is GameOver ==> (s2.phase is GameOver || (s2.phase matches
                    Phase::Playing(ps) && ps.fresh())))
                &&& (s.phase is GameOver && pressed_count(buttons_of(events@)) == 0
                    ==> s2.phase is GameOver)
                &&& (s.phase is GameOver && pressed_count(buttons_of(events@)) > 0 && holds_role(
                    s.cursors@,
                    Role::Left,
                ) && holds_role(s.cursors@, Role::Right) ==> s2.phase matches Phase::Playing(_))
            },
            Err(_) => has_disconnect(events@),
        },
{
    let ghost s0 = s;
    let Session { mapper, play_area, config, mut cursors, phase } = s;
    let t = match crate::input::aggregate(events, &mapper) {
        Ok(t) => t,
        Err(e) => {
            return Err(e);
        },
    };
    match phase {
        Phase::Intro => {
            let complete = intro_tick(&mapper, &play_area, &mut cursors, &t, dt_ms);
            let ghost mid = cursors@;
            let new_phase: Phase = if complete {
                let ghost before_cleanup = cursors@;
                crate::intro::cleanup_intro(&mut cursors);
                proof {
                    crate::intro::lemma_assigned_of_holds(before_cleanup, Role::Left);
                    crate::intro::lemma_assigned_of_holds(before_cleanup, Role::Right);
                    crate::intro::lemma_assigned_of_unique(before_cleanup, Role::Left);
                    crate::intro::lemma_assigned_of_unique(before_cleanup, Role::Right);
                    crate::intro::lemma_assigned_of_member(before_cleanup);
                    assert forall|i: int| 0 <= i < cursors@.len() implies in_range(
                        (#[trigger] cursors@[i]).pos,
                    ) && cursors@[i].model is Unconstrained by {
                        let w = choose|w: int|
                            0 <= w < before_cleanup.len() && #[trigger] cursors@[i]
                                == before_cleanup[w];
                        assert(in_range(before_cleanup[w].pos));
                        assert(before_cleanup[w].model is Unconstrained);
                    }
                }
                match build_playing(&cursors, &play_area) {
                    Some(ps) => Phase::Playing(ps),
                    None => {
                        proof {
                            assert(false);
                        }
                        Phase::Intro
                    },
                }
            } else {
                Phase::Intro
            };
            let s2 = Session { mapper, play_area, config, cursors, phase: new_phase };
            proof {
                assert(aggregated_ok(events@, s0.mapper, t.moves@, t.buttons@));
                assert(intro_stage_ok(
                    s0.mapper,
                    s0.play_area,
                    s0.cursors@,
                    t.moves@,
                    dt_ms,
                    mid,
                    complete,
                ));
            }
            Ok(s2)
        },
        Phase::Playing(ps) => {
            let ghost ps_in = ps;
            let stepped = playing_tick(&play_area, &config, ps, &t, dt_ms);
            let ghost ps_out = stepped.0;
            let ghost go_g = stepped.1;
            let ghost tr_g = stepped.2@;
            let new_phase: Phase = if stepped.1 {
                // Player death: all playing-scoped state is discarded.
                Phase::GameOver
            } else {
                Phase::Playing(stepped.0)
            };
            let s2 = Session { mapper, play_area, config, cursors, phase: new_phase };
            proof {
                assert(aggregated_ok(events@, s0.mapper, t.moves@, t.buttons@));
                assert(play_rel(
                    s0.play_area,
                    s0.config,
                    ps_in,
                    t.moves@,
                    t.buttons@,
                    dt_ms,
                    ps_out,
                    go_g,
                    tr_g,
                ));
            }
            Ok(s2)
        },
        Phase::GameOver => {
            let new_phase: Phase = if any_pressed(&t.buttons) {
                match build_playing(&cursors, &play_area) {
                    Some(ps) => Phase::Playing(ps),
                    None => Phase::GameOver,
                }
            } else {
                Phase::GameOver
            };
            Ok(Session { mapper, play_area, config, cursors, phase: new_phase })
        },
    }
}

/// Whether the tick carried any pressed button edge.
pub fn any_pressed(buttons: &Vec<crate::input::ButtonEvent>) -> (r: bool)
    ensures
        r == (pressed_count(buttons@) > 0),
{
    let mut i: usize = 0;
    proof {
        crate::swap::lemma_pressed_count_nonneg(buttons@);
    }
    while i < buttons.len()
        invariant
            0 <= i <= buttons@.len(),
            pressed_count(buttons@.take(i as int)) == 0,
            pressed_count(buttons@) >= 0,
        decreases buttons@.len() - i,
    {
        proof {
            assert(buttons@.take(i as int + 1).drop_last() =~= buttons@.take(i as int));
            assert(buttons@.take(i as int + 1).last() == buttons@[i as int]);
        }
        if buttons[i].pressed {
            proof {
                crate::swap::lemma_pressed_prefix_le(buttons@, i as int + 1);
            }
            return true;
        }
        i += 1;
    }
    proof {
        assert(buttons@.take(buttons@.len() as int) =~= buttons@);
    }
    false
}

} // verus!
