use dual_cursor::input::{aggregate, InputError, InputEvent, InputEventData};
use dual_cursor::mapper::Mapper;
use dual_cursor::vec2::Vec2;

fn test_mapper() -> Mapper {
    // 1600x900 window, 10 steps per pixel, camera at the origin.
    Mapper::new(Vec2::new(0, 0), 1600, 900, 10)
}

#[test]
fn map_sends_origin_pixel_to_viewport_top_left() {
    let m = test_mapper();
    let top_left = m.map(Vec2::new(0, 0));
    // Half the viewport (8000 steps) left of the center, half (4500) above.
    assert_eq!(top_left, Vec2::new(-8000, 4500));

    // Any other scale/size: still the top-left corner.
    let m2 = Mapper::new(Vec2::new(300, -200), 1024, 768, 3);
    let tl2 = m2.map(Vec2::new(0, 0));
    assert_eq!(tl2, Vec2::new(300 - 1024 * 3 / 2, -200 + 768 * 3 - 768 * 3 / 2));
}

#[test]
fn map_is_affine_and_reversible() {
    let m = test_mapper();
    let p = Vec2::new(120, 45);
    let q = Vec2::new(121, 47);
    let wp = m.map(p);
    let wq = m.map(q);
    // Affine: the world delta depends only on the pixel delta.
    assert_eq!(wq.x - wp.x, 10);
    assert_eq!(wq.y - wp.y, -20);
    let d = m.map_delta(Vec2::new(1, 2));
    assert_eq!(d, Vec2::new(10, -20));
    // Reversible.
    assert_eq!(m.unmap(wp), p);
    assert_eq!(m.unmap(wq), q);
}

#[test]
fn aggregator_coalesces_motions_per_device() {
    let m = test_mapper();
    let events = vec![
        InputEvent { device: 7, data: InputEventData::RelMotion { dx: 2, dy: 0 } },
        InputEvent { device: 7, data: InputEventData::RelMotion { dx: 0, dy: 3 } },
    ];
    let t = aggregate(&events, &m).unwrap();
    assert_eq!(t.moves.len(), 1);
    assert_eq!(t.moves[0].device, 7);
    // One displacement equal to map(origin + (2,3)) - map(origin).
    let origin = Vec2::new(100, 100);
    let mapped = m.map(Vec2::new(102, 103));
    let base = m.map(origin);
    assert_eq!(t.moves[0].delta_world.x, mapped.x - base.x);
    assert_eq!(t.moves[0].delta_world.y, mapped.y - base.y);
    assert_eq!(t.moves[0].delta_world, Vec2::new(20, -30));
}

#[test]
fn aggregator_keeps_devices_separate_and_buttons_uncoalesced() {
    let m = test_mapper();
    let events = vec![
        InputEvent { device: 1, data: InputEventData::RelMotion { dx: 1, dy: 0 } },
        InputEvent { device: 2, data: InputEventData::RelMotion { dx: 0, dy: 1 } },
        InputEvent { device: 1, data: InputEventData::Button { button: 0, pressed: true } },
        InputEvent { device: 1, data: InputEventData::Button { button: 0, pressed: false } },
        InputEvent { device: 1, data: InputEventData::RelMotion { dx: 1, dy: 0 } },
    ];
    let t = aggregate(&events, &m).unwrap();
    assert_eq!(t.moves.len(), 2);
    assert_eq!(t.moves[0].device, 1);
    assert_eq!(t.moves[0].delta_world, Vec2::new(20, 0));
    assert_eq!(t.moves[1].device, 2);
    assert_eq!(t.moves[1].delta_world, Vec2::new(0, -10));
    // Press and release stay distinct events, in order.
    assert_eq!(t.buttons.len(), 2);
    assert!(t.buttons[0].pressed);
    assert!(!t.buttons[1].pressed);
}

#[test]
fn aggregator_surfaces_disconnect_as_fatal() {
    let m = test_mapper();
    let events = vec![
        InputEvent { device: 3, data: InputEventData::RelMotion { dx: 5, dy: 5 } },
        InputEvent { device: 9, data: InputEventData::Disconnect },
    ];
    match aggregate(&events, &m) {
        Err(InputError::Disconnected { device }) => assert_eq!(device, 9),
        _ => panic!("a disconnect must abort aggregation"),
    }
}
