//! The intro phase around role assignment.
//!
//! At session start one controlled entity is created per discovered
//! device, stacked down the middle of the field. While roles are open,
//! unassigned cursors are tinted by how far past the midpoint they stand
//! toward whichever boundary still needs crossing. Two framed boxes mark
//! the assignment regions; their geometry is computed here from the
//! viewport. When the phase ends, assigned cursors are kept and the rest
//! are discarded.
use vstd::prelude::*;

use crate::mapper::Mapper;
use crate::roles::{ControlledEntity, MovementModel, Role};
use crate::vec2::{in_range, Vec2};

verus! {

/// Vertical spread of the initial cursor stack, in steps.
pub const CURSOR_STACK_SPREAD: i64 = 4000;

/// World inset of the intro boxes from the field edges, in steps.
pub const BOX_INSET: i64 = 500;

/// One controlled entity per discovered device: stacked below the center,
/// unassigned, unconstrained until roles are bound.
pub fn spawn_cursors(devices: &Vec<u32>) -> (r: Vec<ControlledEntity>)
    requires
        devices@.len() <= 0x1_0000_0000,
    ensures
        r@.len() == devices@.len(),
        forall|i: int|
            0 <= i < r@.len() ==> {
                &&& (#[trigger] r@[i]).device == devices@[i]
                &&& r@[i].role is None
                &&& r@[i].model is Unconstrained
                &&& r@[i].rot == 0
                &&& r@[i].pos.x == 0
                &&& r@[i].pos.y == -((CURSOR_STACK_SPREAD * i) / (devices@.len() as int))
            },
{
    let mut out: Vec<ControlledEntity> = Vec::new();
    let n = devices.len();
    let mut i: usize = 0;
    while i < devices.len()
        invariant
            0 <= i <= devices@.len(),
            devices@.len() <= 0x1_0000_0000,
            n == devices@.len(),
            out@.len() == i,
            forall|j: int|
                0 <= j < i ==> {
                    &&& (#[trigger] out@[j]).device == devices@[j]
                    &&& out@[j].role is None
                    &&& out@[j].model is Unconstrained
                    &&& out@[j].rot == 0
                    &&& out@[j].pos.x == 0
                    &&& out@[j].pos.y == -((CURSOR_STACK_SPREAD * j) / (devices@.len() as int))
                },
        decreases devices@.len() - i,
    {
        proof {
            crate::mapper::lemma_mul_mono_nonneg(i as int, 0x1_0000_0000, CURSOR_STACK_SPREAD as int);
            assert(CURSOR_STACK_SPREAD * (i as int) >= 0) by (nonlinear_arith)
                requires
                    i >= 0,
            ;
            assert(CURSOR_STACK_SPREAD * (i as int) <= CURSOR_STACK_SPREAD * 0x1_0000_0000)
                by (nonlinear_arith)
                requires
                    0 <= i as int <= 0x1_0000_0000,
            ;
            vstd::arithmetic::div_mod::lemma_div_pos_is_pos(
                CURSOR_STACK_SPREAD * (i as int),
                n as int,
            );
            vstd::arithmetic::div_mod::lemma_div_is_ordered(
                CURSOR_STACK_SPREAD * (i as int),
                CURSOR_STACK_SPREAD * 0x1_0000_0000,
                n as int,
            );
            vstd::arithmetic::div_mod::lemma_div_nonincreasing(
                CURSOR_STACK_SPREAD * 0x1_0000_0000,
                n as int,
            );
        }
        let y: i64 = -((CURSOR_STACK_SPREAD * (i as i64)) / (n as i64));
        out.push(
            ControlledEntity {
                device: devices[i],
                pos: Vec2 { x: 0, y },
                rot: 0,
                role: None,
                model: MovementModel::Unconstrained,
            },
        );
        i += 1;
    }
    out
}

/// The entities of `s` that hold a role, in order.
pub open spec fn assigned_of(s: Seq<ControlledEntity>) -> Seq<ControlledEntity>
    decreases s.len(),
{
    if s.len() == 0 {
        Seq::empty()
    } else if s.last().role is Some {
        assigned_of(s.drop_last()).push(s.last())
    } else {
        assigned_of(s.drop_last())
    }
}

/// Every entity the cleanup keeps comes from the input roster.
pub proof fn lemma_assigned_of_member(s: Seq<ControlledEntity>)
    ensures
        forall|j: int|
            0 <= j < assigned_of(s).len() ==> exists|i: int|
                0 <= i < s.len() && #[trigger] assigned_of(s)[j] == s[i],
    decreases s.len(),
{
    if s.len() > 0 {
        lemma_assigned_of_member(s.drop_last());
        assert forall|j: int| 0 <= j < assigned_of(s).len() implies exists|i: int|
            0 <= i < s.len() && #[trigger] assigned_of(s)[j] == s[i] by {
            if s.last().role is Some && j == assigned_of(s).len() - 1 {
                assert(assigned_of(s)[j] == s[s.len() - 1]);
            } else {
                assert(assigned_of(s)[j] == assigned_of(s.drop_last())[j]);
                let i = choose|i: int|
                    0 <= i < s.drop_last().len() && #[trigger] assigned_of(s.drop_last())[j]
                        == s.drop_last()[i];
                assert(s.drop_last()[i] == s[i]);
            }
        }
    }
}

/// A role nobody holds is still held by nobody after the cleanup.
pub proof fn lemma_assigned_of_no_role(s: Seq<ControlledEntity>, role: Role)
    requires
        crate::roles::no_role(s, role),
    ensures
        crate::roles::no_role(assigned_of(s), role),
{
    lemma_assigned_of_member(s);
    assert forall|j: int| 0 <= j < assigned_of(s).len() implies (#[trigger] assigned_of(s)[j]).role
        != Some(role) by {
        let i = choose|i: int| 0 <= i < s.len() && #[trigger] assigned_of(s)[j] == s[i];
        assert(s[i].role != Some(role));
    }
}

/// A held role is still held after the cleanup.
pub proof fn lemma_assigned_of_holds(s: Seq<ControlledEntity>, role: Role)
    requires
        crate::roles::holds_role(s, role),
    ensures
        crate::roles::holds_role(assigned_of(s), role),
    decreases s.len(),
{
    let w = choose|i: int| 0 <= i < s.len() && s[i].role == Some(role);
    if w == s.len() - 1 {
        assert(assigned_of(s).last() == s.last());
        assert(assigned_of(s)[assigned_of(s).len() - 1].role == Some(role));
    } else {
        assert(s.drop_last()[w] == s[w]);
        assert(crate::roles::holds_role(s.drop_last(), role));
        lemma_assigned_of_holds(s.drop_last(), role);
        let v = choose|j: int|
            0 <= j < assigned_of(s.drop_last()).len() && assigned_of(s.drop_last())[j].role
                == Some(role);
        if s.last().role is Some {
            assert(assigned_of(s)[v] == assigned_of(s.drop_last())[v]);
        } else {
            assert(assigned_of(s) == assigned_of(s.drop_last()));
        }
    }
}

/// A role held by at most one entity is held by at most one after the
/// cleanup.
pub proof fn lemma_assigned_of_unique(s: Seq<ControlledEntity>, role: Role)
    requires
        crate::roles::role_unique(s, role),
    ensures
        crate::roles::role_unique(assigned_of(s), role),
    decreases s.len(),
{
    if s.len() > 0 {
        let dl = s.drop_last();
        assert(forall|i: int| 0 <= i < dl.len() ==> dl[i] == s[i]);
        if s.last().role == Some(role) {
            assert(s[s.len() - 1].role == Some(role));
            assert(crate::roles::no_role(dl, role)) by {
                assert forall|i: int| 0 <= i < dl.len() implies (#[trigger] dl[i]).role != Some(
                    role,
                ) by {
                    if dl[i].role == Some(role) {
                        assert(s[i].role == Some(role));
                    }
                }
            }
            lemma_assigned_of_no_role(dl, role);
            assert forall|i: int, j: int|
                0 <= i < assigned_of(s).len() && 0 <= j < assigned_of(s).len() && assigned_of(
                    s,
                )[i].role == Some(role) && assigned_of(s)[j].role == Some(role) implies i == j by {
                if i < assigned_of(s).len() - 1 {
                    assert(assigned_of(s)[i] == assigned_of(dl)[i]);
                }
                if j < assigned_of(s).len() - 1 {
                    assert(assigned_of(s)[j] == assigned_of(dl)[j]);
                }
            }
        } else {
            assert(crate::roles::role_unique(dl, role)) by {
                assert forall|i: int, j: int|
                    0 <= i < dl.len() && 0 <= j < dl.len() && (#[trigger] dl[i]).role == Some(role)
                        && (#[trigger] dl[j]).role == Some(role) implies i == j by {
                    assert(s[i].role == Some(role));
                    assert(s[j].role == Some(role));
                }
            }
            lemma_assigned_of_unique(dl, role);
            assert forall|i: int, j: int|
                0 <= i < assigned_of(s).len() && 0 <= j < assigned_of(s).len() && assigned_of(
                    s,
                )[i].role == Some(role) && assigned_of(s)[j].role == Some(role) implies i == j by {
                if s.last().role is Some {
                    if i < assigned_of(s).len() - 1 {
                        assert(assigned_of(s)[i] == assigned_of(dl)[i]);
                    } else {
                        assert(assigned_of(s)[i] == s.last());
                    }
                    if j < assigned_of(s).len() - 1 {
                        assert(assigned_of(s)[j] == assigned_of(dl)[j]);
                    } else {
                        assert(assigned_of(s)[j] == s.last());
                    }
                } else {
                    assert(assigned_of(s) == assigned_of(dl));
                }
            }
        }
    }
}

/// Leaving the intro phase: entities that were assigned a role carry into
/// gameplay; devices still unassigned are permanently discarded.
pub fn cleanup_intro(cursors: &mut Vec<ControlledEntity>)
    ensures
        final(cursors)@ == assigned_of(old(cursors)@),
{
    let ghost s0 = cursors@;
    let mut kept: Vec<ControlledEntity> = Vec::new();
    let mut i: usize = 0;
    while i < cursors.len()
        invariant
            0 <= i <= s0.len(),
            cursors@ == s0,
            kept@ == assigned_of(s0.take(i as int)),
        decreases s0.len() - i,
    {
        let c = cursors[i];
        proof {
            assert(s0.take(i as int + 1).drop_last() =~= s0.take(i as int));
            assert(s0.take(i as int + 1).last() == s0[i as int]);
        }
        let keep = match c.role {
            Some(_) => true,
            None => false,
        };
        if keep {
            kept.push(c);
        }
        i += 1;
    }
    proof {
        assert(s0.take(s0.len() as int) =~= s0);
    }
    *cursors = kept;
}

/// The visual-only tint of a cursor during the intro phase.
#[derive(Clone, Copy, Debug, PartialEq, Eq, Structural)]
pub enum CursorTint {
    /// Assigned `Left`: the player color.
    Player,
    /// Assigned `Right`: the reticle color.
    Reticle,
    /// Unassigned, approaching the left boundary: blend toward the player
    /// color by `milli` thousandths.
    TowardPlayer { milli: i64 },
    /// Unassigned, approaching the right boundary: blend toward the
    /// reticle color by `milli` thousandths.
    TowardReticle { milli: i64 },
    /// Unassigned, at or behind the midpoint, or the role is taken.
    Neutral,
}

/// Tint for one cursor: assigned cursors show their role's color; an
/// unassigned cursor blends toward a boundary's color by its normalized
/// progress from the midpoint between the boundaries toward that
/// boundary, but only while that role still needs filling.
pub fn cursor_tint(
    c: &ControlledEntity,
    lx: i64,
    rx: i64,
    need_left: bool,
    need_right: bool,
) -> (r: CursorTint)
    requires
        in_range(c.pos),
        -0x100_0000 <= lx < rx <= 0x100_0000,
    ensures
        c.role == Some(Role::Left) ==> r == CursorTint::Player,
        c.role == Some(Role::Right) ==> r == CursorTint::Reticle,
        c.role is None ==> {
            let num = 2 * c.pos.x - lx - rx;
            let den = rx - lx;
            if num < 0 && need_left {
                r == (CursorTint::TowardPlayer { milli: (1000 * (-num) / den) as i64 })
            } else if num > 0 && need_right {
                r == (CursorTint::TowardReticle { milli: (1000 * num / den) as i64 })
            } else {
                r == CursorTint::Neutral
            }
        },
{
    match c.role {
        Some(Role::Left) => CursorTint::Player,
        Some(Role::Right) => CursorTint::Reticle,
        None => {
            let num: i64 = 2 * c.pos.x - lx - rx;
            let den: i64 = rx - lx;
            proof {
                crate::mapper::lemma_mul_mono_nonneg(0, 0x8_0000_0000, 1000);
                if num < 0 {
                    crate::mapper::lemma_mul_mono_nonneg(-num as int, 0x8_0000_0000, 1000);
                    assert(1000 * (-num as int) == (-num as int) * 1000) by (nonlinear_arith);
                    vstd::arithmetic::div_mod::lemma_div_pos_is_pos(
                        1000 * (-num as int),
                        den as int,
                    );
                    vstd::arithmetic::div_mod::lemma_div_is_ordered(
                        1000 * (-num as int),
                        0x8_0000_0000int * 1000,
                        den as int,
                    );
                    vstd::arithmetic::div_mod::lemma_div_nonincreasing(
                        0x8_0000_0000int * 1000,
                        den as int,
                    );
                }
                if num > 0 {
                    crate::mapper::lemma_mul_mono_nonneg(num as int, 0x8_0000_0000, 1000);
                    assert(1000 * (num as int) == (num as int) * 1000) by (nonlinear_arith);
                    vstd::arithmetic::div_mod::lemma_div_pos_is_pos(
                        1000 * (num as int),
                        den as int,
                    );
                    vstd::arithmetic::div_mod::lemma_div_is_ordered(
                        1000 * (num as int),
                        0x8_0000_0000int * 1000,
                        den as int,
                    );
                    vstd::arithmetic::div_mod::lemma_div_nonincreasing(
                        0x8_0000_0000int * 1000,
                        den as int,
                    );
                }
            }
            if num < 0 && need_left {
                CursorTint::TowardPlayer { milli: (1000 * (-num)) / den }
            } else if num > 0 && need_right {
                CursorTint::TowardReticle { milli: (1000 * num) / den }
            } else {
                CursorTint::Neutral
            }
        },
    }
}

/// Geometry of the two framed intro boxes, from the viewport: each spans
/// a quarter of the field's width (inset from the edges), full height,
/// centered an eighth of the window in from its side.
#[derive(Clone, Copy, Debug, PartialEq, Eq, Structural)]
pub struct IntroBoxes {
    pub size: Vec2,
    pub left_center: Vec2,
    pub right_center: Vec2,
}

pub fn intro_boxes(m: &Mapper) -> (r: IntroBoxes)
    requires
        m.wf(),
    ensures
        r.size.x == (m.width_px * m.scale) / 4 - BOX_INSET,
        r.size.y == m.height_px * m.scale - 2 * BOX_INSET,
        r.left_center.x == m.map_x((m.width_px / 8) as int) + BOX_INSET / 2,
        r.left_center.y == m.map_y((m.height_px / 2) as int),
        r.right_center.x == m.map_x(((7 * m.width_px) / 8) as int) - BOX_INSET / 2,
        r.right_center.y == m.map_y((m.height_px / 2) as int),
{
    proof {
        crate::mapper::lemma_mul_mono_nonneg(0, m.width_px as int, m.scale as int);
        crate::mapper::lemma_mul_mono_nonneg(0, m.height_px as int, m.scale as int);
        vstd::arithmetic::div_mod::lemma_div_pos_is_pos((m.width_px * m.scale) as int, 4);
        vstd::arithmetic::div_mod::lemma_div_is_ordered(
            (m.width_px * m.scale) as int,
            0x40_0000,
            4,
        );
        vstd::arithmetic::div_mod::lemma_div_pos_is_pos(m.width_px as int, 8);
        vstd::arithmetic::div_mod::lemma_div_is_ordered(m.width_px as int, 0x4000, 8);
        vstd::arithmetic::div_mod::lemma_div_pos_is_pos(m.height_px as int, 2);
        vstd::arithmetic::div_mod::lemma_div_is_ordered(m.height_px as int, 0x4000, 2);
        vstd::arithmetic::div_mod::lemma_div_pos_is_pos((7 * m.width_px) as int, 8);
        vstd::arithmetic::div_mod::lemma_div_is_ordered(
            (7 * m.width_px) as int,
            7int * 0x4000,
            8,
        );
    }
    let size = Vec2 {
        x: (m.width_px * m.scale) / 4 - BOX_INSET,
        y: m.height_px * m.scale - 2 * BOX_INSET,
    };
    let mid_y = m.height_px / 2;
    let left_anchor = m.map(Vec2 { x: m.width_px / 8, y: mid_y });
    let right_anchor = m.map(Vec2 { x: (7 * m.width_px) / 8, y: mid_y });
    IntroBoxes {
        size,
        left_center: Vec2 { x: left_anchor.x + BOX_INSET / 2, y: left_anchor.y },
        right_center: Vec2 { x: right_anchor.x - BOX_INSET / 2, y: right_anchor.y },
    }
}

/// The twelve coordinates of a rounded-corner frame: a border of
/// `thickness` inset from an outer rectangle of the given half extents,
/// with corner arcs of radius `corner_radius` anchored where the straight
/// edges end. The arcs' tessellation is left to the renderer.
#[derive(Clone, Copy, Debug, PartialEq, Eq, Structural)]
pub struct FrameOutline {
    pub left_edge: i64,
    pub right_edge: i64,
    pub top_edge: i64,
    pub bottom_edge: i64,
    pub left_curve: i64,
    pub right_curve: i64,
    pub top_curve: i64,
    pub bottom_curve: i64,
    pub inside_left_edge: i64,
    pub inside_right_edge: i64,
    pub inside_top_edge: i64,
    pub inside_bottom_edge: i64,
}

/// Compute the frame coordinates for the intro boxes: outer edges at the
/// half extents, corner anchors one radius in from each corner, inner
/// edges one border thickness in from the outer ones. The corner radius
/// must exceed the border thickness for the inner corner arcs to exist.
pub fn frame_outline(half_width: i64, half_height: i64, thickness: i64, corner_radius: i64) -> (r:
    FrameOutline)
    requires
        0 <= half_width <= 0x100_0000,
        0 <= half_height <= 0x100_0000,
        0 < thickness < corner_radius <= 0x100_0000,
    ensures
        r.left_edge == -half_width,
        r.right_edge == half_width,
        r.top_edge == half_height,
        r.bottom_edge == -half_height,
        r.left_curve == r.left_edge + corner_radius,
        r.right_curve == r.right_edge - corner_radius,
        r.top_curve == r.top_edge - corner_radius,
        r.bottom_curve == r.bottom_edge + corner_radius,
        r.inside_left_edge == r.left_edge + thickness,
        r.inside_right_edge == r.right_edge - thickness,
        r.inside_top_edge == r.top_edge - thickness,
        r.inside_bottom_edge == r.bottom_edge + thickness,
{
    FrameOutline {
        left_edge: -half_width,
        right_edge: half_width,
        top_edge: half_height,
        bottom_edge: -half_height,
        left_curve: -half_width + corner_radius,
        right_curve: half_width - corner_radius,
        top_curve: half_height - corner_radius,
        bottom_curve: -half_height + corner_radius,
        inside_left_edge: -half_width + thickness,
        inside_right_edge: half_width - thickness,
        inside_top_edge: half_height - thickness,
        inside_bottom_edge: -half_height + thickness,
    }
}

/// The world x coordinates of the two assignment boundaries: a quarter
/// and three quarters of the way across the window.
pub fn role_boundaries(m: &Mapper) -> (r: (i64, i64))
    requires
        m.wf(),
    ensures
        r.0 == m.map_x((m.width_px / 4) as int),
        r.1 == m.map_x(((3 * m.width_px) / 4) as int),
        r.0 <= r.1,
{
    proof {
        vstd::arithmetic::div_mod::lemma_div_pos_is_pos(m.width_px as int, 4);
        vstd::arithmetic::div_mod::lemma_div_is_ordered(m.width_px as int, 0x4000, 4);
        vstd::arithmetic::div_mod::lemma_div_pos_is_pos((3 * m.width_px) as int, 4);
        vstd::arithmetic::div_mod::lemma_div_is_ordered(
            (3 * m.width_px) as int,
            3int * 0x4000,
            4,
        );
        vstd::arithmetic::div_mod::lemma_div_is_ordered(
            m.width_px as int,
            (3 * m.width_px) as int,
            4,
        );
        crate::mapper::lemma_mul_mono_nonneg(
            (m.width_px / 4) as int,
            ((3 * m.width_px) / 4) as int,
            m.scale as int,
        );
    }
    let left = m.map(Vec2 { x: m.width_px / 4, y: 0 });
    let right = m.map(Vec2 { x: (3 * m.width_px) / 4, y: 0 });
    (left.x, right.x)
}

} // verus!
