//! Input aggregator.
//!
//! Consumes the ordered per-tick stream of raw device events. All the
//! relative motions of one device are coalesced into a single world-space
//! displacement (summed in pixel space, then mapped, so the Y flip applies
//! to the whole motion at once); button edges pass through unchanged and
//! uncoalesced; a disconnect is fatal and surfaces as an error.
use vstd::prelude::*;

use crate::mapper::Mapper;
use crate::vec2::Vec2;

verus! {

/// Largest single-event relative motion, in pixels.
pub const MOTION_LIMIT: i64 = 0x1000;

/// Largest number of raw events accepted in one tick.
pub const EVENT_LIMIT: usize = 0x1000;

#[derive(Clone, Copy, Debug, PartialEq, Eq, Structural)]
pub enum InputEventData {
    RelMotion { dx: i64, dy: i64 },
    Button { button: u32, pressed: bool },
    Disconnect,
}

/// A raw event from the device-discovery collaborator.
#[derive(Clone, Copy, Debug, PartialEq, Eq, Structural)]
pub struct InputEvent {
    pub device: u32,
    pub data: InputEventData,
}

/// One aggregated world displacement for a device that moved this tick.
#[derive(Clone, Copy, Debug, PartialEq, Eq, Structural)]
pub struct CursorMoveEvent {
    pub device: u32,
    pub delta_world: Vec2,
}

/// A button edge, forwarded unchanged.
#[derive(Clone, Copy, Debug, PartialEq, Eq, Structural)]
pub struct ButtonEvent {
    pub device: u32,
    pub button: u32,
    pub pressed: bool,
}

/// Fatal input-pipeline failures.
#[derive(Clone, Copy, Debug, PartialEq, Eq, Structural)]
pub enum InputError {
    /// A device disconnected; the game cannot continue without it.
    Disconnected { device: u32 },
}

/// Everything downstream stages consume in one tick.
pub struct TickInput {
    pub moves: Vec<CursorMoveEvent>,
    pub buttons: Vec<ButtonEvent>,
}

pub open spec fn is_motion(e: InputEvent) -> bool {
    e.data is RelMotion
}

pub open spec fn is_disconnect(e: InputEvent) -> bool {
    e.data is Disconnect
}

pub open spec fn motion_dx(e: InputEvent) -> int {
    match e.data {
        InputEventData::RelMotion { dx, .. } => dx as int,
        _ => 0,
    }
}

pub open spec fn motion_dy(e: InputEvent) -> int {
    match e.data {
        InputEventData::RelMotion { dy, .. } => dy as int,
        _ => 0,
    }
}

/// Sum of the pixel-space x motions of `device` over the event stream.
pub open spec fn sum_dx(s: Seq<InputEvent>, device: u32) -> int
    decreases s.len(),
{
    if s.len() == 0 {
        0
    } else {
        sum_dx(s.drop_last(), device) + if s.last().device == device && is_motion(s.last()) {
            motion_dx(s.last())
        } else {
            0
        }
    }
}

/// Sum of the pixel-space y motions of `device` over the event stream.
pub open spec fn sum_dy(s: Seq<InputEvent>, device: u32) -> int
    decreases s.len(),
{
    if s.len() == 0 {
        0
    } else {
        sum_dy(s.drop_last(), device) + if s.last().device == device && is_motion(s.last()) {
            motion_dy(s.last())
        } else {
            0
        }
    }
}

pub open spec fn has_motion(s: Seq<InputEvent>, device: u32) -> bool {
    exists|i: int| 0 <= i < s.len() && s[i].device == device && is_motion(s[i])
}

pub open spec fn has_disconnect(s: Seq<InputEvent>) -> bool {
    exists|i: int| 0 <= i < s.len() && is_disconnect(s[i])
}

/// The button edges of the stream, in order, unchanged.
pub open spec fn buttons_of(s: Seq<InputEvent>) -> Seq<ButtonEvent>
    decreases s.len(),
{
    if s.len() == 0 {
        Seq::empty()
    } else {
        match s.last().data {
            InputEventData::Button { button, pressed } => buttons_of(s.drop_last()).push(
                ButtonEvent { device: s.last().device, button, pressed },
            ),
            _ => buttons_of(s.drop_last()),
        }
    }
}

proof fn lemma_sums_push(s: Seq<InputEvent>, e: InputEvent, device: u32)
    ensures
        sum_dx(s.push(e), device) == sum_dx(s, device) + if e.device == device && is_motion(e) {
            motion_dx(e)
        } else {
            0
        },
        sum_dy(s.push(e), device) == sum_dy(s, device) + if e.device == device && is_motion(e) {
            motion_dy(e)
        } else {
            0
        },
        buttons_of(s.push(e)) == (match e.data {
            InputEventData::Button { button, pressed } => buttons_of(s).push(
                ButtonEvent { device: e.device, button, pressed },
            ),
            _ => buttons_of(s),
        }),
{
    assert(s.push(e).drop_last() =~= s);
    assert(s.push(e).last() == e);
}

/// All events a device could emit stay within the per-event motion bound.
pub open spec fn events_bounded(s: Seq<InputEvent>) -> bool {
    forall|i: int|
        0 <= i < s.len() ==> -MOTION_LIMIT <= #[trigger] motion_dx(s[i]) <= MOTION_LIMIT
            && -MOTION_LIMIT <= motion_dy(s[i]) <= MOTION_LIMIT
}

proof fn lemma_sums_bounded(s: Seq<InputEvent>, device: u32)
    requires
        events_bounded(s),
    ensures
        -MOTION_LIMIT * s.len() <= sum_dx(s, device) <= MOTION_LIMIT * s.len(),
        -MOTION_LIMIT * s.len() <= sum_dy(s, device) <= MOTION_LIMIT * s.len(),
    decreases s.len(),
{
    if s.len() > 0 {
        assert(events_bounded(s.drop_last())) by {
            assert(forall|i: int|
                0 <= i < s.drop_last().len() ==> s.drop_last()[i] == s[i]);
        }
        lemma_sums_bounded(s.drop_last(), device);
        assert(motion_dx(s.last()) == motion_dx(s[s.len() - 1]));
        assert(MOTION_LIMIT * s.len() == MOTION_LIMIT * (s.len() - 1) + MOTION_LIMIT)
            by (nonlinear_arith);
    }
}

proof fn lemma_sum_no_motion(s: Seq<InputEvent>, device: u32)
    requires
        !has_motion(s, device),
    ensures
        sum_dx(s, device) == 0,
        sum_dy(s, device) == 0,
    decreases s.len(),
{
    if s.len() > 0 {
        assert(!has_motion(s.drop_last(), device)) by {
            if has_motion(s.drop_last(), device) {
                let w = choose|i: int|
                    0 <= i < s.drop_last().len() && s.drop_last()[i].device == device && is_motion(
                        s.drop_last()[i],
                    );
                assert(s[w] == s.drop_last()[w]);
            }
        }
        lemma_sum_no_motion(s.drop_last(), device);
        assert(!(s.last().device == device && is_motion(s.last()))) by {
            assert(s[s.len() - 1] == s.last());
        }
    }
}

/// Running pixel-space totals for one device.
struct PixelSum {
    device: u32,
    dx: i64,
    dy: i64,
}

fn find_device(sums: &Vec<PixelSum>, device: u32) -> (r: Option<usize>)
    ensures
        match r {
            Some(k) => 0 <= k < sums@.len() && sums@[k as int].device == device,
            None => forall|k: int| 0 <= k < sums@.len() ==> sums@[k].device != device,
        },
{
    let mut k: usize = 0;
    while k < sums.len()
        invariant
            0 <= k <= sums@.len(),
            forall|j: int| 0 <= j < k ==> sums@[j].device != device,
        decreases sums@.len() - k,
    {
        if sums[k].device == device {
            return Some(k);
        }
        k += 1;
    }
    None
}

/// Everything the aggregator guarantees of its output on a
/// disconnect-free stream: buttons are the stream's button subsequence
/// unchanged; each record's displacement is the mapped sum of that
/// device's motions; a device appears exactly once, and exactly when it
/// moved; and every displacement is bounded.
pub open spec fn aggregated_ok(
    events: Seq<InputEvent>,
    m: Mapper,
    ms: Seq<CursorMoveEvent>,
    bs: Seq<ButtonEvent>,
) -> bool {
    &&& !has_disconnect(events)
    &&& bs == buttons_of(events)
    &&& forall|j: int|
        0 <= j < ms.len() ==> (#[trigger] ms[j]).delta_world.x == m.delta_x(
            sum_dx(events, ms[j].device),
        ) && ms[j].delta_world.y == m.delta_y(sum_dy(events, ms[j].device))
    &&& forall|j: int| 0 <= j < ms.len() ==> has_motion(events, (#[trigger] ms[j]).device)
    &&& forall|i: int|
        0 <= i < events.len() && is_motion(events[i]) ==> exists|j: int|
            0 <= j < ms.len() && (#[trigger] ms[j]).device == events[i].device
    &&& forall|j1: int, j2: int|
        0 <= j1 < ms.len() && 0 <= j2 < ms.len() && j1 != j2 ==> (#[trigger] ms[j1]).device != (
        #[trigger] ms[j2]).device
    &&& forall|j: int|
        0 <= j < ms.len() ==> -0x20_0000_0000 <= (#[trigger] ms[j]).delta_world.x <= 0x20_0000_0000
            && -0x20_0000_0000 <= ms[j].delta_world.y <= 0x20_0000_0000
}

/// Coalesce one tick's raw events: one world displacement per device that
/// moved, every button edge in order, and a fatal error on any disconnect.
pub fn aggregate(events: &Vec<InputEvent>, m: &Mapper) -> (r: Result<TickInput, InputError>)
    requires
        m.wf(),
        events@.len() <= EVENT_LIMIT,
        events_bounded(events@),
    ensures
        match r {
            Ok(t) => aggregated_ok(events@, *m, t.moves@, t.buttons@),
            Err(e) => {
                &&& has_disconnect(events@)
                &&& match e {
                    InputError::Disconnected { device } => exists|i: int|
                        0 <= i < events@.len() && is_disconnect(#[trigger] events@[i])
                            && events@[i].device == device,
                }
            },
        },
{
    let ghost full = events@;
    let mut sums: Vec<PixelSum> = Vec::new();
    let mut buttons: Vec<ButtonEvent> = Vec::new();
    let mut i: usize = 0;
    while i < events.len()
        invariant
            0 <= i <= events@.len(),
            events@.len() <= EVENT_LIMIT,
            events_bounded(events@),
            buttons@ == buttons_of(events@.take(i as int)),
            !has_disconnect(events@.take(i as int)),
            forall|k: int|
                0 <= k < sums@.len() ==> (#[trigger] sums@[k]).dx == sum_dx(
                    events@.take(i as int),
                    sums@[k].device,
                ) && sums@[k].dy == sum_dy(events@.take(i as int), sums@[k].device),
            forall|k: int|
                0 <= k < sums@.len() ==> has_motion(
                    events@.take(i as int),
                    (#[trigger] sums@[k]).device,
                ),
            forall|e: int|
                0 <= e < i && is_motion(events@[e]) ==> exists|k: int|
                    0 <= k < sums@.len() && (#[trigger] sums@[k]).device == events@[e].device,
            forall|k1: int, k2: int|
                0 <= k1 < sums@.len() && 0 <= k2 < sums@.len() && k1 != k2
                    ==> (#[trigger] sums@[k1]).device != (#[trigger] sums@[k2]).device,
        decreases events@.len() - i,
    {
        let ev = events[i];
        let ghost prefix = events@.take(i as int);
        let ghost old_sums = sums@;
        proof {
            assert(events@.take(i as int + 1) =~= prefix.push(ev));
        }
        match ev.data {
            InputEventData::RelMotion { dx, dy } => {
                proof {
                    lemma_sums_bounded(prefix, ev.device);
                    assert(prefix.len() <= EVENT_LIMIT);
                    assert(MOTION_LIMIT * prefix.len() <= MOTION_LIMIT * (EVENT_LIMIT as int))
                        by (nonlinear_arith)
                        requires
                            prefix.len() <= EVENT_LIMIT as int,
                    ;
                    assert(motion_dx(events@[i as int]) == dx);
                }
                match find_device(&sums, ev.device) {
                    Some(k) => {
                        let new_dx = sums[k].dx + dx;
                        let new_dy = sums[k].dy + dy;
                        sums.set(k, PixelSum { device: ev.device, dx: new_dx, dy: new_dy });
                        proof {
                            assert(sums@[k as int].device == ev.device);
                        }
                    },
                    None => {
                        proof {
                            if has_motion(prefix, ev.device) {
                                let w = choose|i0: int|
                                    0 <= i0 < prefix.len() && prefix[i0].device == ev.device
                                        && is_motion(prefix[i0]);
                                assert(is_motion(events@[w]));
                            }
                            lemma_sum_no_motion(prefix, ev.device);
                        }
                        sums.push(PixelSum { device: ev.device, dx, dy });
                        proof {
                            assert(sums@[sums@.len() - 1].device == ev.device);
                        }
                    },
                }
                proof {
                    assert forall|k: int| 0 <= k < sums@.len() implies (#[trigger] sums@[k]).dx
                        == sum_dx(prefix.push(ev), sums@[k].device) && sums@[k].dy == sum_dy(
                        prefix.push(ev),
                        sums@[k].device,
                    ) by {
                        lemma_sums_push(prefix, ev, sums@[k].device);
                    }
                    assert(has_motion(prefix.push(ev), ev.device)) by {
                        assert(prefix.push(ev)[prefix.len() as int] == ev);
                    }
                    assert forall|k: int| 0 <= k < sums@.len() implies has_motion(
                        prefix.push(ev),
                        (#[trigger] sums@[k]).device,
                    ) by {
                        if sums@[k].device != ev.device {
                            assert(has_motion(prefix, sums@[k].device));
                            let w = choose|i0: int|
                                0 <= i0 < prefix.len() && prefix[i0].device == sums@[k].device
                                    && is_motion(prefix[i0]);
                            assert(prefix.push(ev)[w] == prefix[w]);
                        }
                    }
                    lemma_sums_push(prefix, ev, ev.device);
                    assert forall|k0: int| 0 <= k0 < old_sums.len() implies (
                    #[trigger] sums@[k0]).device == old_sums[k0].device by {}
                    assert(exists|k: int|
                        0 <= k < sums@.len() && (#[trigger] sums@[k]).device == ev.device);
                    assert forall|e: int|
                        0 <= e < i + 1 && is_motion(events@[e]) implies exists|k: int|
                        0 <= k < sums@.len() && (#[trigger] sums@[k]).device
                            == events@[e].device by {
                        if e < i {
                            let k0 = choose|k0: int|
                                0 <= k0 < old_sums.len() && (#[trigger] old_sums[k0]).device
                                    == events@[e].device;
                            assert(sums@[k0].device == events@[e].device);
                        } else {
                            assert(events@[e] == ev);
                        }
                    }
                }
            },
            InputEventData::Button { button, pressed } => {
                buttons.push(ButtonEvent { device: ev.device, button, pressed });
                proof {
                    lemma_sums_push(prefix, ev, ev.device);
                    assert forall|k: int| 0 <= k < sums@.len() implies (#[trigger] sums@[k]).dx
                        == sum_dx(prefix.push(ev), sums@[k].device) && sums@[k].dy == sum_dy(
                        prefix.push(ev),
                        sums@[k].device,
                    ) by {
                        lemma_sums_push(prefix, ev, sums@[k].device);
                    }
                    assert forall|k: int| 0 <= k < sums@.len() implies has_motion(
                        prefix.push(ev),
                        (#[trigger] sums@[k]).device,
                    ) by {
                        let w = choose|i0: int|
                            0 <= i0 < prefix.len() && prefix[i0].device == sums@[k].device
                                && is_motion(prefix[i0]);
                        assert(prefix.push(ev)[w] == prefix[w]);
                    }
                }
            },
            InputEventData::Disconnect => {
                proof {
                    assert(is_disconnect(events@[i as int]));
                }
                return Err(InputError::Disconnected { device: ev.device });
            },
        }
        proof {
            if has_disconnect(prefix.push(ev)) {
                let w = choose|i0: int|
                    0 <= i0 < prefix.push(ev).len() && is_disconnect(prefix.push(ev)[i0]);
                if w < prefix.len() {
                    assert(is_disconnect(prefix[w]));
                } else {
                    assert(prefix.push(ev)[w] == ev);
                }
                assert(false);
            }
        }
        i += 1;
    }
    proof {
        assert(events@.take(events@.len() as int) =~= events@);
        assert forall|k0: int| 0 <= k0 < sums@.len() implies -0x100_0000
            <= (#[trigger] sums@[k0]).dx <= 0x100_0000 && -0x100_0000 <= sums@[k0].dy
            <= 0x100_0000 by {
            lemma_sums_bounded(events@, sums@[k0].device);
            assert(MOTION_LIMIT * events@.len() <= 0x100_0000) by (nonlinear_arith)
                requires
                    events@.len() <= EVENT_LIMIT as int,
            ;
        }
    }
    // Map the pixel totals to world displacements.
    let mut moves: Vec<CursorMoveEvent> = Vec::new();
    let mut k: usize = 0;
    while k < sums.len()
        invariant
            0 <= k <= sums@.len(),
            m.wf(),
            moves@.len() == k,
            forall|k0: int|
                0 <= k0 < sums@.len() ==> (#[trigger] sums@[k0]).dx == sum_dx(
                    events@,
                    sums@[k0].device,
                ) && sums@[k0].dy == sum_dy(events@, sums@[k0].device)
                    && -0x100_0000 <= sums@[k0].dx <= 0x100_0000 && -0x100_0000 <= sums@[k0].dy
                    <= 0x100_0000,
            forall|k0: int|
                0 <= k0 < sums@.len() ==> has_motion(events@, (#[trigger] sums@[k0]).device),
            forall|e: int|
                0 <= e < events@.len() && is_motion(events@[e]) ==> exists|k0: int|
                    0 <= k0 < sums@.len() && (#[trigger] sums@[k0]).device == events@[e].device,
            forall|k1: int, k2: int|
                0 <= k1 < sums@.len() && 0 <= k2 < sums@.len() && k1 != k2
                    ==> (#[trigger] sums@[k1]).device != (#[trigger] sums@[k2]).device,
            forall|j: int|
                0 <= j < k ==> (#[trigger] moves@[j]).device == sums@[j].device,
            forall|j: int|
                0 <= j < k ==> (#[trigger] moves@[j]).delta_world.x == m.delta_x(
                    sum_dx(events@, moves@[j].device),
                ) && moves@[j].delta_world.y == m.delta_y(sum_dy(events@, moves@[j].device)),
            forall|j: int|
                0 <= j < k ==> -0x20_0000_0000 <= (#[trigger] moves@[j]).delta_world.x
                    <= 0x20_0000_0000 && -0x20_0000_0000 <= moves@[j].delta_world.y
                    <= 0x20_0000_0000,
        decreases sums@.len() - k,
    {
        let s = &sums[k];
        proof {
            crate::vec2::lemma_mul_bound2(s.dx as int, m.scale as int, 0x100_0000, 0x200);
            crate::vec2::lemma_mul_bound2(s.dy as int, m.scale as int, 0x100_0000, 0x200);
            assert((-s.dy) * m.scale == -(s.dy * m.scale)) by (nonlinear_arith);
        }
        let delta = Vec2 { x: s.dx * m.scale, y: -(s.dy * m.scale) };
        moves.push(CursorMoveEvent { device: s.device, delta_world: delta });
        k += 1;
    }
    let t = TickInput { moves, buttons };
    proof {
        assert forall|i0: int|
            0 <= i0 < events@.len() && is_motion(events@[i0]) implies exists|j: int|
            0 <= j < t.moves@.len() && (#[trigger] t.moves@[j]).device == events@[i0].device by {
            let k0 = choose|k0: int|
                0 <= k0 < sums@.len() && (#[trigger] sums@[k0]).device == events@[i0].device;
            assert(t.moves@[k0].device == sums@[k0].device);
        }
    }
    Ok(t)
}

} // verus!
