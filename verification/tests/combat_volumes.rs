use dual_cursor::combat::{contact_damage, is_game_over};
use dual_cursor::damage::{
    area_contains_exec, damage_enemies_in_area, damage_flicker, tick_pending, AreaState,
    DamageArea,
};
use dual_cursor::hostile::{despawn_dead_enemies, move_enemies, Enemy};
use dual_cursor::vec2::Vec2;

fn enemy_at(x: i64, y: i64, hp: u32) -> Enemy {
    Enemy { pos: Vec2::new(x, y), rot: 0, hp, velocity: Vec2::new(0, 0), angular_velocity: 0 }
}

/// An axis-aligned volume centered at `(cx, cy)` with half sizes `hx, hy`.
fn rect_volume(cx: i64, cy: i64, hx: i64, hy: i64, damage: u32, state: AreaState) -> DamageArea {
    DamageArea {
        damage,
        seg_a: Vec2::new(cx - hx, cy),
        seg_b: Vec2::new(cx + hx, cy),
        half_thickness: hy,
        state,
    }
}

#[test]
fn area_damage_contains_inclusively() {
    // Unrotated square at the origin, half size (1, 1) world units.
    let v = rect_volume(0, 0, 1000, 1000, 3, AreaState::Live);
    assert!(area_contains_exec(&v, Vec2::new(500, 500)));
    assert!(!area_contains_exec(&v, Vec2::new(1500, 0)));
    // Boundary inclusive.
    assert!(area_contains_exec(&v, Vec2::new(1000, 1000)));
    assert!(!area_contains_exec(&v, Vec2::new(1001, 0)));
}

#[test]
fn rotated_area_discriminates_by_orientation() {
    // A wide, thin rectangle: half extents (1, 0.25).
    let flat = rect_volume(0, 0, 1000, 250, 3, AreaState::Live);
    assert!(area_contains_exec(&flat, Vec2::new(500, 0)));
    assert!(!area_contains_exec(&flat, Vec2::new(0, 500)));
    // The same rectangle rotated a quarter turn: its spine now vertical.
    let upright = DamageArea {
        damage: 3,
        seg_a: Vec2::new(0, -1000),
        seg_b: Vec2::new(0, 1000),
        half_thickness: 250,
        state: AreaState::Live,
    };
    assert!(area_contains_exec(&upright, Vec2::new(0, 500)));
    assert!(!area_contains_exec(&upright, Vec2::new(500, 0)));
}

#[test]
fn live_volume_damages_contained_hostiles_exactly_once() {
    let mut areas = vec![rect_volume(0, 0, 1000, 1000, 3, AreaState::Live)];
    let mut enemies = vec![enemy_at(500, 500, 10), enemy_at(1500, 0, 10)];
    damage_enemies_in_area(&mut areas, &mut enemies);
    assert_eq!(enemies[0].hp, 7);
    assert_eq!(enemies[1].hp, 10);
    // The volume is now a decaying remnant, not live.
    assert!(matches!(areas[0].state, AreaState::Flicker { .. }));
    // A second evaluation pass applies no further damage.
    damage_enemies_in_area(&mut areas, &mut enemies);
    assert_eq!(enemies[0].hp, 7);
    assert_eq!(enemies[1].hp, 10);
}

#[test]
fn pending_volume_goes_live_when_its_countdown_elapses() {
    let mut areas = vec![rect_volume(0, 0, 1500, 1500, 10, AreaState::Pending {
        delay_ms: 200,
    })];
    let mut enemies = vec![enemy_at(0, 0, 10)];
    // Inert while counting down: no damage.
    tick_pending(&mut areas, 100);
    damage_enemies_in_area(&mut areas, &mut enemies);
    assert_eq!(enemies[0].hp, 10);
    assert!(matches!(areas[0].state, AreaState::Pending { delay_ms: 100 }));
    // The countdown elapses: live for this tick, damage applies once.
    tick_pending(&mut areas, 100);
    assert!(matches!(areas[0].state, AreaState::Live));
    damage_enemies_in_area(&mut areas, &mut enemies);
    assert_eq!(enemies[0].hp, 0);
}

#[test]
fn flicker_remnant_toggles_and_expires() {
    let mut areas = vec![rect_volume(0, 0, 1000, 1000, 3, AreaState::Live)];
    let mut enemies: Vec<Enemy> = Vec::new();
    damage_enemies_in_area(&mut areas, &mut enemies);
    match areas[0].state {
        AreaState::Flicker { remaining_ms, since_toggle_ms, visible } => {
            assert_eq!(remaining_ms, 200);
            assert_eq!(since_toggle_ms, 0);
            assert!(visible);
        },
        _ => panic!("evaluated volume must decay"),
    }
    // One 100 ms tick: toggles (period 50 ms) and keeps counting down.
    damage_flicker(&mut areas, 100);
    match areas[0].state {
        AreaState::Flicker { remaining_ms, visible, .. } => {
            assert_eq!(remaining_ms, 100);
            assert!(!visible);
        },
        _ => panic!("remnant must persist until its duration elapses"),
    }
    // The total duration elapses: the volume is removed entirely.
    damage_flicker(&mut areas, 100);
    assert_eq!(areas.len(), 0);
}

#[test]
fn contact_damage_hits_both_sides_and_saturates() {
    let player = Vec2::new(0, 0);
    let mut hp: u32 = 30;
    let mut enemies = vec![enemy_at(100, 0, 10), enemy_at(5000, 0, 10), enemy_at(-200, 100, 2)];
    // Two hostiles overlap: the player loses two, each of them loses one.
    for _ in 0..5 {
        contact_damage(player, &mut hp, &mut enemies);
    }
    assert_eq!(hp, 20);
    assert_eq!(enemies[0].hp, 5);
    assert_eq!(enemies[1].hp, 10);
    // The weak hostile saturates at zero instead of going negative.
    assert_eq!(enemies[2].hp, 0);
}

#[test]
fn contact_threshold_is_strict() {
    let player = Vec2::new(0, 0);
    let mut hp: u32 = 30;
    let mut enemies = vec![enemy_at(500, 0, 10), enemy_at(499, 0, 10)];
    contact_damage(player, &mut hp, &mut enemies);
    assert_eq!(enemies[0].hp, 10);
    assert_eq!(enemies[1].hp, 9);
    assert_eq!(hp, 29);
}

#[test]
fn dead_hostiles_despawn_and_score() {
    let mut enemies = vec![enemy_at(0, 0, 0), enemy_at(1, 1, 3), enemy_at(2, 2, 0)];
    let mut score: u32 = 5;
    despawn_dead_enemies(&mut enemies, &mut score);
    assert_eq!(enemies.len(), 1);
    assert_eq!(enemies[0].hp, 3);
    assert_eq!(score, 7);
}

#[test]
fn hostiles_drift_by_their_velocity() {
    let mut enemies = vec![Enemy {
        pos: Vec2::new(1000, 2000),
        rot: 0,
        hp: 10,
        velocity: Vec2::new(3000, -1000),
        angular_velocity: 500,
    }];
    move_enemies(&mut enemies, 100);
    assert_eq!(enemies[0].pos, Vec2::new(1300, 1900));
    assert_eq!(enemies[0].rot, 50);
}

#[test]
fn game_over_exactly_at_zero() {
    assert!(!is_game_over(1));
    assert!(is_game_over(0));
}
