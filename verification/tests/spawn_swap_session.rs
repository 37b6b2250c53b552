use dual_cursor::damage::AreaState;
use dual_cursor::hostile::Enemy;
use dual_cursor::input::{InputEvent, InputEventData};
use dual_cursor::mapper::Mapper;
use dual_cursor::play_area::PlayArea;
use dual_cursor::roles::{ControlledEntity, MovementModel, Role};
use dual_cursor::session::{
    build_playing, tick, AppState, Phase, PlayingState, Session, SessionConfig,
};
use dual_cursor::spawn::{scale_to_length, spawn_enemy, spawn_position};
use dual_cursor::swap::{swap_on_buttons, swap_nodes, SwapEffect, SwapTrigger};
use dual_cursor::timer::{RepeatingTimer, SpawnTimer};
use dual_cursor::vec2::Vec2;

fn square_area(half: i64) -> PlayArea {
    PlayArea { min: Vec2::new(-half, -half), max: Vec2::new(half, half) }
}

#[test]
fn spawn_position_exits_on_the_boundary_along_the_ray() {
    let rect = square_area(2000);
    let aim = Vec2::new(0, 0);
    // Straight right: exactly the right edge.
    assert_eq!(spawn_position(aim, Vec2::new(1000, 0), &rect), Vec2::new(2000, 0));
    // Straight up.
    assert_eq!(spawn_position(aim, Vec2::new(0, 1000), &rect), Vec2::new(0, 2000));
    // Diagonal: the corner, still exactly on the boundary.
    assert_eq!(spawn_position(aim, Vec2::new(1000, 1000), &rect), Vec2::new(2000, 2000));
    // A shallow ray: on the right edge, at the exact rational height.
    assert_eq!(spawn_position(aim, Vec2::new(1000, 333), &rect), Vec2::new(2000, 666));
    // From an off-center aim point, leftward.
    let spawn = spawn_position(Vec2::new(500, -250), Vec2::new(-1000, 0), &rect);
    assert_eq!(spawn, Vec2::new(-2000, -250));
}

#[test]
fn spawn_direction_is_preserved_from_aim_to_exit() {
    let rect = square_area(2000);
    let aim = Vec2::new(-300, 700);
    let dir = Vec2::new(701, -293);
    let spawn = spawn_position(aim, dir, &rect);
    let sx = spawn.x - aim.x;
    let sy = spawn.y - aim.y;
    // Same direction componentwise.
    assert!(sx * dir.x >= 0);
    assert!(sy * dir.y >= 0);
    // On the boundary, and parallel up to less than one step per unit.
    assert!(
        spawn.x == rect.min.x || spawn.x == rect.max.x || spawn.y == rect.min.y
            || spawn.y == rect.max.y
    );
    let cross = sx * dir.y - sy * dir.x;
    assert!(cross.abs() < dir.x.abs() + dir.y.abs());
}

#[test]
fn spawned_hostile_starts_on_the_enlarged_boundary() {
    let rect = square_area(8000);
    for _ in 0..50 {
        let e = spawn_enemy(&rect);
        assert_eq!(e.hp, 10);
        let on_edge = e.pos.x == -8500 || e.pos.x == 8500 || e.pos.y == -8500
            || e.pos.y == 8500;
        assert!(on_edge, "spawn position must sit on the enlarged rectangle");
        assert!(e.pos.x.abs() <= 8500 && e.pos.y.abs() <= 8500);
        // Speed within the configured band, never below the floor.
        let speed_sq = e.velocity.x * e.velocity.x + e.velocity.y * e.velocity.y;
        assert!(speed_sq <= 4000 * 4000);
        assert!(speed_sq >= 706 * 706);
        assert!(e.angular_velocity.abs() <= 3000);
    }
}

#[test]
fn scale_to_length_keeps_direction() {
    assert_eq!(scale_to_length(Vec2::new(3, 4), 1000), Vec2::new(600, 800));
    assert_eq!(scale_to_length(Vec2::new(-3, 4), 1000), Vec2::new(-600, 800));
    assert_eq!(scale_to_length(Vec2::new(0, 0), 1000), Vec2::new(0, 0));
}

#[test]
fn repeating_timer_fires_once_and_carries() {
    let mut t = RepeatingTimer::new(1000);
    assert!(!t.tick(400));
    assert!(!t.tick(400));
    assert!(t.tick(400));
    // The remainder carried over.
    assert_eq!(t.elapsed_ms, 200);
}

#[test]
fn spawn_rate_grows_by_a_constant_step_per_spawn() {
    // Rate form of 1/(1/period + k): the rate rises by k each fire.
    let mut t = SpawnTimer::new(1000);
    assert!(t.tick(1000));
    assert_eq!(t.rate, 1050);
    // The next period is 1 / (1/1.0s + 0.05/s) = 952 ms.
    assert!(!t.tick(951));
    assert!(t.tick(1));
    assert_eq!(t.rate, 1100);
}

fn node(device: u32, x: i64, y: i64, role: Role, model: MovementModel) -> ControlledEntity {
    ControlledEntity { device, pos: Vec2::new(x, y), rot: 0, role: Some(role), model }
}

#[test]
fn swap_exchanges_device_transform_and_model() {
    let mut player = node(1, 100, 200, Role::Left, MovementModel::SpeedLimited {
        max_speed: 8000,
    });
    let mut reticle = node(2, -300, 400, Role::Right, MovementModel::Unconstrained);
    swap_nodes(&mut player, &mut reticle);
    assert_eq!(player.device, 2);
    assert_eq!(player.pos, Vec2::new(-300, 400));
    assert!(matches!(player.model, MovementModel::Unconstrained));
    // The roles stay with the slots.
    assert_eq!(player.role, Some(Role::Left));
    assert_eq!(reticle.device, 1);
    assert_eq!(reticle.pos, Vec2::new(100, 200));
    assert_eq!(reticle.role, Some(Role::Right));
}

#[test]
fn button_swap_sweeps_a_damage_rectangle_between_the_nodes() {
    let mut player = node(1, 1000, 0, Role::Left, MovementModel::Unconstrained);
    let mut reticle = node(2, -2000, 500, Role::Right, MovementModel::Unconstrained);
    let mut areas = Vec::new();
    let buttons = vec![dual_cursor::input::ButtonEvent { device: 1, button: 0, pressed: true }];
    swap_on_buttons(&mut player, &mut reticle, &mut areas, &buttons, SwapEffect::Sweep);
    assert_eq!(player.pos, Vec2::new(-2000, 500));
    assert_eq!(areas.len(), 1);
    // The rectangle spans exactly the pre-swap line between the nodes.
    assert_eq!(areas[0].seg_a, Vec2::new(1000, 0));
    assert_eq!(areas[0].seg_b, Vec2::new(-2000, 500));
    assert_eq!(areas[0].half_thickness, 500);
    assert_eq!(areas[0].damage, 10);
    assert!(matches!(areas[0].state, AreaState::Live));

    // An even number of presses lands the nodes back where they started.
    let two = vec![
        dual_cursor::input::ButtonEvent { device: 1, button: 0, pressed: true },
        dual_cursor::input::ButtonEvent { device: 2, button: 1, pressed: true },
    ];
    let p0 = player;
    let r0 = reticle;
    swap_on_buttons(&mut player, &mut reticle, &mut areas, &two, SwapEffect::Plain);
    assert_eq!(player, p0);
    assert_eq!(reticle, r0);
}

fn playing_session(player_hp: u32, enemies: Vec<Enemy>) -> Session {
    let mapper = Mapper::new(Vec2::new(0, 0), 1600, 900, 10);
    let play_area = PlayArea { min: Vec2::new(-8000, -4500), max: Vec2::new(8000, 4500) };
    let roster = vec![
        node(1, 0, 0, Role::Left, MovementModel::Unconstrained),
        node(2, 5000, 4000, Role::Right, MovementModel::Unconstrained),
    ];
    let ps = PlayingState {
        player: node(1, 0, 0, Role::Left, MovementModel::SpeedLimited { max_speed: 8000 }),
        player_hp,
        reticle: node(2, 5000, 4000, Role::Right, MovementModel::Unconstrained),
        enemies,
        areas: Vec::new(),
        score: 0,
        spawn_timer: SpawnTimer::new(1000),
        shoot_timer: RepeatingTimer::new(50),
        swap_timer: RepeatingTimer::new(1000),
    };
    Session {
        mapper,
        play_area,
        config: SessionConfig { swap_trigger: SwapTrigger::Timer, swap_effect: SwapEffect::Plain },
        cursors: roster,
        phase: Phase::Playing(ps),
    }
}

#[test]
fn timer_bomb_swap_detonates_after_its_delay() {
    // Player at the origin, reticle well inside the field, one hostile a
    // unit from the player: inside the bomb square, outside contact range.
    let hostile = Enemy {
        pos: Vec2::new(1000, 0),
        rot: 0,
        hp: 10,
        velocity: Vec2::new(0, 0),
        angular_velocity: 0,
    };
    let mut s = playing_session(30, vec![hostile]);
    s.config = SessionConfig { swap_trigger: SwapTrigger::Timer, swap_effect: SwapEffect::Bomb };
    if let Phase::Playing(ps) = &mut s.phase {
        ps.reticle.pos = Vec2::new(3000, 2000);
    }
    let no_events: Vec<InputEvent> = Vec::new();
    // Nine ticks: the swap timer (1 s) has not fired yet.
    for _ in 0..9 {
        s = tick(s, &no_events, 100).unwrap();
    }
    // Tick ten: the swap fires, leaving a pending bomb at the player's
    // pre-swap position; the bomb is still inert.
    s = tick(s, &no_events, 100).unwrap();
    match &s.phase {
        Phase::Playing(ps) => {
            assert_eq!(ps.player.pos, Vec2::new(3000, 2000));
            assert!(ps.enemies.iter().any(|e| e.hp == 10));
            assert!(ps.areas.iter().any(|a| matches!(a.state, AreaState::Pending { .. })));
        },
        _ => panic!("still playing"),
    }
    // One more inert tick, then the 200 ms delay elapses: the detonation
    // destroys the hostile and scores it.
    s = tick(s, &no_events, 100).unwrap();
    s = tick(s, &no_events, 100).unwrap();
    match &s.phase {
        Phase::Playing(ps) => {
            assert_eq!(ps.score, 1);
            assert!(ps.enemies.iter().all(|e| e.pos != Vec2::new(1000, 0)));
        },
        _ => panic!("still playing"),
    }
}

#[test]
fn overlapping_hostile_grinds_hit_points_down_tick_by_tick() {
    // Player at 30 HP, one hostile overlapping it, five 100 ms ticks.
    let hostile = Enemy {
        pos: Vec2::new(100, 0),
        rot: 0,
        hp: 10,
        velocity: Vec2::new(0, 0),
        angular_velocity: 0,
    };
    let mut s = playing_session(30, vec![hostile]);
    let no_events: Vec<InputEvent> = Vec::new();
    for _ in 0..5 {
        s = tick(s, &no_events, 100).unwrap();
    }
    match &s.phase {
        Phase::Playing(ps) => {
            assert_eq!(ps.player_hp, 25);
            assert_eq!(ps.enemies.len(), 1);
            assert_eq!(ps.enemies[0].hp, 5);
        },
        _ => panic!("the game must still be running"),
    }
}

#[test]
fn player_death_transitions_to_game_over_and_back_on_click() {
    let hostile = Enemy {
        pos: Vec2::new(100, 0),
        rot: 0,
        hp: 10,
        velocity: Vec2::new(0, 0),
        angular_velocity: 0,
    };
    let mut s = playing_session(5, vec![hostile]);
    let no_events: Vec<InputEvent> = Vec::new();
    for _ in 0..5 {
        s = tick(s, &no_events, 100).unwrap();
    }
    assert_eq!(s.app_state(), AppState::GameOver);
    // Ticks without a press stay in game over.
    s = tick(s, &no_events, 100).unwrap();
    assert_eq!(s.app_state(), AppState::GameOver);
    // A button press restarts from a clean slate.
    let click = vec![InputEvent {
        device: 1,
        data: InputEventData::Button { button: 0, pressed: true },
    }];
    s = tick(s, &click, 100).unwrap();
    match &s.phase {
        Phase::Playing(ps) => {
            assert_eq!(ps.player_hp, 30);
            assert_eq!(ps.score, 0);
            assert_eq!(ps.enemies.len(), 0);
            assert_eq!(ps.areas.len(), 0);
        },
        _ => panic!("a click must start a new game"),
    }
}

#[test]
fn intro_runs_through_assignment_into_playing() {
    let mapper = Mapper::new(Vec2::new(0, 0), 1600, 900, 10);
    let devices = vec![1, 2];
    let config = SessionConfig { swap_trigger: SwapTrigger::Timer, swap_effect: SwapEffect::Bomb };
    let mut s = Session::new(mapper, &devices, config);
    assert_eq!(s.app_state(), AppState::Intro);
    // Device 1 sweeps left past the quarter boundary (-4000 world steps),
    // device 2 right past the three-quarter boundary.
    let motions = vec![
        InputEvent { device: 1, data: InputEventData::RelMotion { dx: -500, dy: 0 } },
        InputEvent { device: 2, data: InputEventData::RelMotion { dx: 500, dy: 0 } },
    ];
    s = tick(s, &motions, 100).unwrap();
    // Assignment runs before movement, so the crossing registers on the
    // following tick.
    assert_eq!(s.app_state(), AppState::Intro);
    let no_events: Vec<InputEvent> = Vec::new();
    s = tick(s, &no_events, 100).unwrap();
    assert_eq!(s.app_state(), AppState::Playing);
    match &s.phase {
        Phase::Playing(ps) => {
            assert_eq!(ps.player.device, 1);
            assert_eq!(ps.player.role, Some(Role::Left));
            assert!(matches!(ps.player.model, MovementModel::SpeedLimited { max_speed: 8000 }));
            assert_eq!(ps.reticle.device, 2);
            assert_eq!(ps.reticle.role, Some(Role::Right));
            assert_eq!(ps.player_hp, 30);
        },
        _ => panic!("both roles crossed, so play must begin"),
    }
}

#[test]
fn disconnect_aborts_the_session() {
    let s = playing_session(30, Vec::new());
    let events = vec![InputEvent { device: 1, data: InputEventData::Disconnect }];
    assert!(tick(s, &events, 100).is_err());
}

#[test]
fn build_playing_needs_both_roles() {
    let area = square_area(8000);
    let only_left = vec![node(1, 0, 0, Role::Left, MovementModel::Unconstrained)];
    assert!(build_playing(&only_left, &area).is_none());
    let both = vec![
        node(1, 0, 0, Role::Left, MovementModel::Unconstrained),
        node(2, 100, 100, Role::Right, MovementModel::Unconstrained),
    ];
    let ps = build_playing(&both, &area).unwrap();
    assert_eq!(ps.player.device, 1);
    assert_eq!(ps.reticle.device, 2);
    assert_eq!(ps.score, 0);
}
