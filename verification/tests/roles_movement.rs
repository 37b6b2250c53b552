use dual_cursor::intro::{cleanup_intro, cursor_tint, frame_outline, spawn_cursors, CursorTint};
use dual_cursor::movement::{apply_move, isqrt, limit_displacement};
use dual_cursor::play_area::PlayArea;
use dual_cursor::roles::{assign_roles, intro_complete, ControlledEntity, MovementModel, Role};
use dual_cursor::vec2::Vec2;

fn cursor(device: u32, x: i64, y: i64, role: Option<Role>) -> ControlledEntity {
    ControlledEntity { device, pos: Vec2::new(x, y), rot: 0, role, model: MovementModel::Unconstrained }
}

#[test]
fn crossing_left_boundary_assigns_left_exactly_once() {
    // Boundaries at -4000 and 4000.
    let mut cursors = vec![cursor(1, -5000, 0, None), cursor(2, 0, 0, None)];
    assign_roles(&mut cursors, -4000, 4000);
    assert_eq!(cursors[0].role, Some(Role::Left));
    assert_eq!(cursors[1].role, None);

    // Moving back across the boundary does not revert the role.
    cursors[0].pos = Vec2::new(5000, 0);
    assign_roles(&mut cursors, -4000, 4000);
    assert_eq!(cursors[0].role, Some(Role::Left));

    // A second crosser cannot take the filled role.
    cursors[1].pos = Vec2::new(-4500, 0);
    assign_roles(&mut cursors, -4000, 4000);
    assert_eq!(cursors[1].role, None);
}

#[test]
fn simultaneous_crossers_resolve_by_iteration_order() {
    let mut cursors = vec![cursor(1, -5000, 0, None), cursor(2, -6000, 0, None)];
    assign_roles(&mut cursors, -4000, 4000);
    assert_eq!(cursors[0].role, Some(Role::Left));
    assert_eq!(cursors[1].role, None);
}

#[test]
fn both_roles_complete_the_intro() {
    let mut cursors = vec![cursor(1, -5000, 0, None), cursor(2, 5000, 0, None)];
    assert!(!intro_complete(&cursors));
    assign_roles(&mut cursors, -4000, 4000);
    assert_eq!(cursors[0].role, Some(Role::Left));
    assert_eq!(cursors[1].role, Some(Role::Right));
    assert!(intro_complete(&cursors));
}

#[test]
fn cleanup_discards_unassigned_cursors() {
    let mut cursors = vec![
        cursor(1, 0, 0, Some(Role::Left)),
        cursor(2, 0, 0, None),
        cursor(3, 0, 0, Some(Role::Right)),
    ];
    cleanup_intro(&mut cursors);
    assert_eq!(cursors.len(), 2);
    assert_eq!(cursors[0].device, 1);
    assert_eq!(cursors[1].device, 3);
}

#[test]
fn spawn_cursors_stacks_one_entity_per_device() {
    let devices = vec![10, 20, 30, 40];
    let cursors = spawn_cursors(&devices);
    assert_eq!(cursors.len(), 4);
    for (i, c) in cursors.iter().enumerate() {
        assert_eq!(c.device, devices[i]);
        assert_eq!(c.role, None);
        assert_eq!(c.pos.x, 0);
        assert_eq!(c.pos.y, -(4000 * i as i64) / 4);
    }
}

#[test]
fn speed_limit_clamps_displacement_length() {
    // max_speed 8 units/s (8000 steps/s), tick 0.1 s: cap is 0.8 units.
    let area = PlayArea { min: Vec2::new(-800_000, -800_000), max: Vec2::new(800_000, 800_000) };
    let c = ControlledEntity {
        device: 1,
        pos: Vec2::new(0, 0),
        rot: 0,
        role: Some(Role::Left),
        model: MovementModel::SpeedLimited { max_speed: 8000 },
    };
    // Requested displacement of 2.0 units is clamped to 0.8.
    let stepped = apply_move(c, Vec2::new(2000, 0), &area, 100);
    assert_eq!(stepped.pos, Vec2::new(800, 0));
    // A displacement under the cap is applied exactly.
    let stepped2 = apply_move(c, Vec2::new(500, -300), &area, 100);
    assert_eq!(stepped2.pos, Vec2::new(500, -300));
}

#[test]
fn limit_displacement_is_exact_on_pythagorean_lengths() {
    // |(3000, 4000)| = 5000; clamped to 1000 gives exactly (600, 800).
    assert_eq!(limit_displacement(Vec2::new(3000, 4000), 1000), Vec2::new(600, 800));
    assert_eq!(limit_displacement(Vec2::new(-3000, 4000), 1000), Vec2::new(-600, 800));
    assert_eq!(limit_displacement(Vec2::new(2000, 0), 800), Vec2::new(800, 0));
    // Already within the cap: unchanged.
    assert_eq!(limit_displacement(Vec2::new(300, 400), 1000), Vec2::new(300, 400));
}

#[test]
fn unconstrained_movement_is_clamped_to_the_play_area() {
    let area = PlayArea { min: Vec2::new(-1000, -1000), max: Vec2::new(1000, 1000) };
    let c = cursor(1, 0, 0, None);
    let stepped = apply_move(c, Vec2::new(50_000, -50_000), &area, 100);
    assert_eq!(stepped.pos, Vec2::new(1000, -1000));
}

#[test]
fn isqrt_brackets_the_root() {
    assert_eq!(isqrt(0), 0);
    assert_eq!(isqrt(1), 1);
    assert_eq!(isqrt(10), 3);
    assert_eq!(isqrt(25_000_000), 5000);
    assert_eq!(isqrt(24_999_999), 4999);
    assert_eq!(isqrt(u64::MAX as u128), 0xFFFF_FFFF);
}

#[test]
fn cursor_tint_blends_by_progress_past_the_midpoint() {
    // Boundaries -4000 and 4000; midpoint 0.
    let at_mid = cursor(1, 0, 0, None);
    assert_eq!(cursor_tint(&at_mid, -4000, 4000, true, true), CursorTint::Neutral);
    // Halfway from the midpoint to the left boundary: 500 thousandths.
    let halfway = cursor(1, -2000, 0, None);
    assert_eq!(cursor_tint(&halfway, -4000, 4000, true, true), CursorTint::TowardPlayer {
        milli: 500,
    });
    // Approaching a role that is already filled: neutral.
    assert_eq!(cursor_tint(&halfway, -4000, 4000, false, true), CursorTint::Neutral);
    let right = cursor(1, 3000, 0, None);
    assert_eq!(cursor_tint(&right, -4000, 4000, true, true), CursorTint::TowardReticle {
        milli: 750,
    });
    let assigned = cursor(1, 0, 0, Some(Role::Left));
    assert_eq!(cursor_tint(&assigned, -4000, 4000, true, true), CursorTint::Player);
}

#[test]
fn frame_outline_insets_curves_and_border() {
    let f = frame_outline(2000, 1000, 50, 500);
    assert_eq!(f.left_edge, -2000);
    assert_eq!(f.right_edge, 2000);
    assert_eq!(f.top_edge, 1000);
    assert_eq!(f.bottom_edge, -1000);
    assert_eq!(f.left_curve, -1500);
    assert_eq!(f.top_curve, 500);
    assert_eq!(f.inside_left_edge, -1950);
    assert_eq!(f.inside_top_edge, 950);
}
