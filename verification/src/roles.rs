//! Role assignment.
//!
//! Each controlled entity starts with no role. Every tick of the intro
//! phase, an unassigned entity left of the quarter-width boundary takes the
//! `Left` role if it is still free, and symmetrically for `Right` at the
//! three-quarter boundary. Roles are terminal: once an entity holds one it
//! never changes, and each role is held by at most one entity at a time
//! (simultaneous crossers are resolved by iteration order).
use vstd::prelude::*;

use crate::vec2::Vec2;

verus! {

#[derive(Clone, Copy, Debug, PartialEq, Eq, Structural)]
pub enum Role {
    Left,
    Right,
}

/// How the movement controller applies a displacement to an entity.
#[derive(Clone, Copy, Debug, PartialEq, Eq, Structural)]
pub enum MovementModel {
    /// The displacement is applied as requested.
    Unconstrained,
    /// The displacement is clamped to `max_speed` steps per second.
    SpeedLimited { max_speed: i64 },
}

/// An entity driven by one pointing device: a transform, the controlling
/// device, an optional terminal role, and a movement model.
#[derive(Clone, Copy, Debug, PartialEq, Eq, Structural)]
pub struct ControlledEntity {
    pub device: u32,
    pub pos: Vec2,
    /// Rotation, in milliradians.
    pub rot: i64,
    pub role: Option<Role>,
    pub model: MovementModel,
}

pub open spec fn holds_role(s: Seq<ControlledEntity>, role: Role) -> bool {
    exists|i: int| 0 <= i < s.len() && s[i].role == Some(role)
}

/// At most one entity of `s` holds `role`.
pub open spec fn role_unique(s: Seq<ControlledEntity>, role: Role) -> bool {
    forall|i: int, j: int|
        0 <= i < s.len() && 0 <= j < s.len() && s[i].role == Some(role) && s[j].role == Some(role)
            ==> i == j
}

pub open spec fn no_role(s: Seq<ControlledEntity>, role: Role) -> bool {
    forall|i: int| 0 <= i < s.len() ==> s[i].role != Some(role)
}

/// One entity under one assignment step: takes `Left` if unassigned, left
/// of the left boundary and `Left` is still needed; then symmetrically
/// `Right`; otherwise unchanged.
pub open spec fn assign_one(
    c: ControlledEntity,
    lx: int,
    rx: int,
    need_left: bool,
    need_right: bool,
) -> ControlledEntity {
    if c.role is None && need_left && c.pos.x < lx {
        ControlledEntity { role: Some(Role::Left), ..c }
    } else if c.role is None && need_right && c.pos.x > rx {
        ControlledEntity { role: Some(Role::Right), ..c }
    } else {
        c
    }
}

/// The assignment pass over `s`, front to back, threading through which
/// roles still need filling.
pub open spec fn assign_from(
    s: Seq<ControlledEntity>,
    lx: int,
    rx: int,
    need_left: bool,
    need_right: bool,
) -> Seq<ControlledEntity>
    decreases s.len(),
{
    if s.len() == 0 {
        Seq::empty()
    } else {
        let c2 = assign_one(s.first(), lx, rx, need_left, need_right);
        let nl2 = need_left && c2.role != Some(Role::Left);
        let nr2 = need_right && c2.role != Some(Role::Right);
        seq![c2] + assign_from(s.drop_first(), lx, rx, nl2, nr2)
    }
}

/// One tick of the role-assignment state machine over the whole entity
/// sequence: a role is offered only while no entity holds it.
pub open spec fn assign_seq(s: Seq<ControlledEntity>, lx: int, rx: int) -> Seq<
    ControlledEntity,
> {
    assign_from(s, lx, rx, !holds_role(s, Role::Left), !holds_role(s, Role::Right))
}

pub proof fn lemma_assign_from_len(
    s: Seq<ControlledEntity>,
    lx: int,
    rx: int,
    nl: bool,
    nr: bool,
)
    ensures
        assign_from(s, lx, rx, nl, nr).len() == s.len(),
    decreases s.len(),
{
    if s.len() > 0 {
        let c2 = assign_one(s.first(), lx, rx, nl, nr);
        let nl2 = nl && c2.role != Some(Role::Left);
        let nr2 = nr && c2.role != Some(Role::Right);
        lemma_assign_from_len(s.drop_first(), lx, rx, nl2, nr2);
    }
}

/// The pass changes nothing of an entity but possibly a missing role.
pub proof fn lemma_assign_from_element(
    s: Seq<ControlledEntity>,
    lx: int,
    rx: int,
    nl: bool,
    nr: bool,
    i: int,
)
    requires
        0 <= i < s.len(),
    ensures
        assign_from(s, lx, rx, nl, nr).len() == s.len(),
        assign_from(s, lx, rx, nl, nr)[i].device == s[i].device,
        assign_from(s, lx, rx, nl, nr)[i].pos == s[i].pos,
        assign_from(s, lx, rx, nl, nr)[i].rot == s[i].rot,
        assign_from(s, lx, rx, nl, nr)[i].model == s[i].model,
        s[i].role is Some ==> assign_from(s, lx, rx, nl, nr)[i] == s[i],
        assign_from(s, lx, rx, nl, nr)[i].role == s[i].role || (s[i].role is None
            && assign_from(s, lx, rx, nl, nr)[i].role is Some),
    decreases s.len(),
{
    lemma_assign_from_len(s, lx, rx, nl, nr);
    let c2 = assign_one(s.first(), lx, rx, nl, nr);
    let nl2 = nl && c2.role != Some(Role::Left);
    let nr2 = nr && c2.role != Some(Role::Right);
    if i == 0 {
    } else {
        lemma_assign_from_element(s.drop_first(), lx, rx, nl2, nr2, i - 1);
        assert(s.drop_first()[i - 1] == s[i]);
    }
}

/// With the left role not on offer, the pass assigns `Left` to nobody.
proof fn lemma_no_new_left(s: Seq<ControlledEntity>, lx: int, rx: int, nr: bool, i: int)
    requires
        0 <= i < s.len(),
        assign_from(s, lx, rx, false, nr)[i].role == Some(Role::Left),
    ensures
        s[i].role == Some(Role::Left),
    decreases s.len(),
{
    lemma_assign_from_len(s, lx, rx, false, nr);
    let c2 = assign_one(s.first(), lx, rx, false, nr);
    let nr2 = nr && c2.role != Some(Role::Right);
    if i == 0 {
    } else {
        lemma_no_new_left(s.drop_first(), lx, rx, nr2, i - 1);
        assert(s.drop_first()[i - 1] == s[i]);
    }
}

/// Symmetrically for `Right`.
proof fn lemma_no_new_right(s: Seq<ControlledEntity>, lx: int, rx: int, nl: bool, i: int)
    requires
        0 <= i < s.len(),
        assign_from(s, lx, rx, nl, false)[i].role == Some(Role::Right),
    ensures
        s[i].role == Some(Role::Right),
    decreases s.len(),
{
    lemma_assign_from_len(s, lx, rx, nl, false);
    let c2 = assign_one(s.first(), lx, rx, nl, false);
    let nl2 = nl && c2.role != Some(Role::Left);
    if i == 0 {
    } else {
        lemma_no_new_right(s.drop_first(), lx, rx, nl2, i - 1);
        assert(s.drop_first()[i - 1] == s[i]);
    }
}

/// With the left role on offer and held by nobody, at most one entity comes
/// out of the pass holding `Left`.
proof fn lemma_at_most_one_new_left(s: Seq<ControlledEntity>, lx: int, rx: int, nr: bool)
    requires
        no_role(s, Role::Left),
    ensures
        role_unique(assign_from(s, lx, rx, true, nr), Role::Left),
    decreases s.len(),
{
    if s.len() > 0 {
        let out = assign_from(s, lx, rx, true, nr);
        let c2 = assign_one(s.first(), lx, rx, true, nr);
        let nl2 = c2.role != Some(Role::Left);
        let nr2 = nr && c2.role != Some(Role::Right);
        let rest = assign_from(s.drop_first(), lx, rx, nl2, nr2);
        lemma_assign_from_len(s.drop_first(), lx, rx, nl2, nr2);
        assert(no_role(s.drop_first(), Role::Left)) by {
            assert(forall|j: int|
                0 <= j < s.drop_first().len() ==> s.drop_first()[j] == s[j + 1]);
        }
        if c2.role == Some(Role::Left) {
            assert forall|j: int|
                0 <= j < rest.len() implies rest[j].role != Some(Role::Left) by {
                if rest[j].role == Some(Role::Left) {
                    lemma_no_new_left(s.drop_first(), lx, rx, nr2, j);
                }
            }
            assert forall|i: int, j: int|
                0 <= i < out.len() && 0 <= j < out.len() && out[i].role == Some(Role::Left)
                    && out[j].role == Some(Role::Left) implies i == j by {
                if i > 0 {
                    assert(out[i] == rest[i - 1]);
                }
                if j > 0 {
                    assert(out[j] == rest[j - 1]);
                }
            }
        } else {
            lemma_at_most_one_new_left(s.drop_first(), lx, rx, nr2);
            assert forall|i: int, j: int|
                0 <= i < out.len() && 0 <= j < out.len() && out[i].role == Some(Role::Left)
                    && out[j].role == Some(Role::Left) implies i == j by {
                assert(out[0] == c2);
                if i > 0 && j > 0 {
                    assert(out[i] == rest[i - 1]);
                    assert(out[j] == rest[j - 1]);
                }
            }
        }
    }
}

proof fn lemma_at_most_one_new_right(s: Seq<ControlledEntity>, lx: int, rx: int, nl: bool)
    requires
        no_role(s, Role::Right),
    ensures
        role_unique(assign_from(s, lx, rx, nl, true), Role::Right),
    decreases s.len(),
{
    if s.len() > 0 {
        let out = assign_from(s, lx, rx, nl, true);
        let c2 = assign_one(s.first(), lx, rx, nl, true);
        let nl2 = nl && c2.role != Some(Role::Left);
        let nr2 = c2.role != Some(Role::Right);
        let rest = assign_from(s.drop_first(), lx, rx, nl2, nr2);
        lemma_assign_from_len(s.drop_first(), lx, rx, nl2, nr2);
        assert(no_role(s.drop_first(), Role::Right)) by {
            assert(forall|j: int|
                0 <= j < s.drop_first().len() ==> s.drop_first()[j] == s[j + 1]);
        }
        if c2.role == Some(Role::Right) {
            assert forall|j: int|
                0 <= j < rest.len() implies rest[j].role != Some(Role::Right) by {
                if rest[j].role == Some(Role::Right) {
                    lemma_no_new_right(s.drop_first(), lx, rx, nl2, j);
                }
            }
            assert forall|i: int, j: int|
                0 <= i < out.len() && 0 <= j < out.len() && out[i].role == Some(Role::Right)
                    && out[j].role == Some(Role::Right) implies i == j by {
                if i > 0 {
                    assert(out[i] == rest[i - 1]);
                }
                if j > 0 {
                    assert(out[j] == rest[j - 1]);
                }
            }
        } else {
            lemma_at_most_one_new_right(s.drop_first(), lx, rx, nl2);
            assert forall|i: int, j: int|
                0 <= i < out.len() && 0 <= j < out.len() && out[i].role == Some(Role::Right)
                    && out[j].role == Some(Role::Right) implies i == j by {
                assert(out[0] == c2);
                if i > 0 && j > 0 {
                    assert(out[i] == rest[i - 1]);
                    assert(out[j] == rest[j - 1]);
                }
            }
        }
    }
}

/// Assignment is hysteretic: an entity that holds a role keeps it through
/// any further pass, wherever it has moved in the meantime; in particular a
/// device that crossed back over the boundary does not lose its role.
pub proof fn lemma_role_assignment_hysteresis(
    s: Seq<ControlledEntity>,
    lx: int,
    rx: int,
    i: int,
)
    requires
        0 <= i < s.len(),
        s[i].role is Some,
    ensures
        assign_seq(s, lx, rx).len() == s.len(),
        assign_seq(s, lx, rx)[i] == s[i],
{
    lemma_assign_from_element(
        s,
        lx,
        rx,
        !holds_role(s, Role::Left),
        !holds_role(s, Role::Right),
        i,
    );
}

/// Each role is held by at most one entity after a pass, provided it was
/// held by at most one before; so a role, once filled, is never assigned a
/// second time.
pub proof fn lemma_role_assignment_unique(s: Seq<ControlledEntity>, lx: int, rx: int)
    requires
        role_unique(s, Role::Left),
        role_unique(s, Role::Right),
    ensures
        role_unique(assign_seq(s, lx, rx), Role::Left),
        role_unique(assign_seq(s, lx, rx), Role::Right),
{
    let out = assign_seq(s, lx, rx);
    let nl = !holds_role(s, Role::Left);
    let nr = !holds_role(s, Role::Right);
    lemma_assign_from_len(s, lx, rx, nl, nr);
    if nl {
        assert(no_role(s, Role::Left));
        lemma_at_most_one_new_left(s, lx, rx, nr);
    } else {
        assert forall|i: int, j: int|
            0 <= i < out.len() && 0 <= j < out.len() && out[i].role == Some(Role::Left)
                && out[j].role == Some(Role::Left) implies i == j by {
            lemma_no_new_left(s, lx, rx, nr, i);
            lemma_no_new_left(s, lx, rx, nr, j);
        }
    }
    if nr {
        assert(no_role(s, Role::Right));
        lemma_at_most_one_new_right(s, lx, rx, nl);
    } else {
        assert forall|i: int, j: int|
            0 <= i < out.len() && 0 <= j < out.len() && out[i].role == Some(Role::Right)
                && out[j].role == Some(Role::Right) implies i == j by {
            lemma_no_new_right(s, lx, rx, nl, i);
            lemma_no_new_right(s, lx, rx, nl, j);
        }
    }
}

/// With the left role free and on offer, an unassigned entity past the left
/// boundary guarantees the pass fills `Left`.
proof fn lemma_left_filled_from(
    s: Seq<ControlledEntity>,
    lx: int,
    rx: int,
    nr: bool,
    i: int,
)
    requires
        0 <= i < s.len(),
        s[i].role is None,
        s[i].pos.x < lx,
        lx <= rx,
    ensures
        holds_role(assign_from(s, lx, rx, true, nr), Role::Left),
    decreases s.len(),
{
    let out = assign_from(s, lx, rx, true, nr);
    let c2 = assign_one(s.first(), lx, rx, true, nr);
    let nl2 = c2.role != Some(Role::Left);
    let nr2 = nr && c2.role != Some(Role::Right);
    lemma_assign_from_len(s, lx, rx, true, nr);
    if c2.role == Some(Role::Left) {
        assert(out[0] == c2);
    } else {
        assert(i > 0) by {
            if i == 0 {
                assert(s.first().role is None && s.first().pos.x < lx);
            }
        }
        lemma_left_filled_from(s.drop_first(), lx, rx, nr2, i - 1);
        let w = choose|j: int|
            0 <= j < assign_from(s.drop_first(), lx, rx, nl2, nr2).len() && assign_from(
                s.drop_first(),
                lx,
                rx,
                nl2,
                nr2,
            )[j].role == Some(Role::Left);
        assert(out[w + 1] == assign_from(s.drop_first(), lx, rx, nl2, nr2)[w]);
    }
}

/// A device crossing the left-quarter boundary while `Left` is unheld is
/// assigned: after the pass some entity holds `Left`.
pub proof fn lemma_left_crossing_assigns(s: Seq<ControlledEntity>, lx: int, rx: int, i: int)
    requires
        !holds_role(s, Role::Left),
        0 <= i < s.len(),
        s[i].role is None,
        s[i].pos.x < lx,
        lx <= rx,
    ensures
        holds_role(assign_seq(s, lx, rx), Role::Left),
{
    lemma_left_filled_from(s, lx, rx, !holds_role(s, Role::Right), i);
}

/// Whether some entity holds `role`.
pub fn holds_role_exec(cursors: &Vec<ControlledEntity>, role: Role) -> (r: bool)
    ensures
        r == holds_role(cursors@, role),
{
    let mut i: usize = 0;
    while i < cursors.len()
        invariant
            0 <= i <= cursors@.len(),
            forall|j: int| 0 <= j < i ==> cursors@[j].role != Some(role),
        decreases cursors@.len() - i,
    {
        let found = match (cursors[i].role, role) {
            (Some(Role::Left), Role::Left) => true,
            (Some(Role::Right), Role::Right) => true,
            _ => false,
        };
        if found {
            return true;
        }
        i += 1;
    }
    false
}

/// One tick of role assignment: `lx` and `rx` are the world x coordinates
/// of the quarter- and three-quarter-width boundaries.
pub fn assign_roles(cursors: &mut Vec<ControlledEntity>, lx: i64, rx: i64)
    ensures
        final(cursors)@ == assign_seq(old(cursors)@, lx as int, rx as int),
{
    let ghost s0 = cursors@;
    let mut need_left = !holds_role_exec(cursors, Role::Left);
    let mut need_right = !holds_role_exec(cursors, Role::Right);
    let ghost nl0 = need_left;
    let ghost nr0 = need_right;
    proof {
        assert(s0.skip(0) =~= s0);
        assert(cursors@.take(0) =~= Seq::<ControlledEntity>::empty());
        assert(Seq::<ControlledEntity>::empty() + assign_from(
            s0,
            lx as int,
            rx as int,
            nl0,
            nr0,
        ) =~= assign_from(s0, lx as int, rx as int, nl0, nr0));
    }
    let mut i: usize = 0;
    while i < cursors.len()
        invariant
            0 <= i <= s0.len(),
            cursors@.len() == s0.len(),
            forall|j: int| i <= j < s0.len() ==> cursors@[j] == s0[j],
            need_left ==> forall|j: int|
                i <= j < s0.len() ==> s0[j].role != Some(Role::Left),
            need_right ==> forall|j: int|
                i <= j < s0.len() ==> s0[j].role != Some(Role::Right),
            assign_from(s0, lx as int, rx as int, nl0, nr0) == cursors@.take(i as int)
                + assign_from(s0.skip(i as int), lx as int, rx as int, need_left, need_right),
        decreases s0.len() - i,
    {
        let c = cursors[i];
        let ghost suffix = s0.skip(i as int);
        proof {
            assert(suffix.first() == s0[i as int]);
            assert(suffix.drop_first() =~= s0.skip(i as int + 1));
        }
        let ghost c2 = assign_one(c, lx as int, rx as int, need_left, need_right);
        let ghost pre = cursors@;
        let ghost nl_in = need_left;
        let ghost nr_in = need_right;
        let unassigned = match c.role {
            None => true,
            Some(_) => false,
        };
        if unassigned && need_left && c.pos.x < lx {
            cursors.set(
                i,
                ControlledEntity {
                    device: c.device,
                    pos: c.pos,
                    rot: c.rot,
                    role: Some(Role::Left),
                    model: c.model,
                },
            );
            need_left = false;
        } else if unassigned && need_right && c.pos.x > rx {
            cursors.set(
                i,
                ControlledEntity {
                    device: c.device,
                    pos: c.pos,
                    rot: c.rot,
                    role: Some(Role::Right),
                    model: c.model,
                },
            );
            need_right = false;
        }
        proof {
            assert(cursors@[i as int] == c2);
            assert(need_left == (nl_in && c2.role != Some(Role::Left)));
            assert(need_right == (nr_in && c2.role != Some(Role::Right)));
            assert(assign_from(suffix, lx as int, rx as int, nl_in, nr_in) == seq![c2]
                + assign_from(
                s0.skip(i as int + 1),
                lx as int,
                rx as int,
                need_left,
                need_right,
            ));
            assert(cursors@.take(i as int + 1) =~= pre.take(i as int).push(c2));
            assert(pre.take(i as int).push(c2) + assign_from(
                s0.skip(i as int + 1),
                lx as int,
                rx as int,
                need_left,
                need_right,
            ) =~= pre.take(i as int) + (seq![c2] + assign_from(
                s0.skip(i as int + 1),
                lx as int,
                rx as int,
                need_left,
                need_right,
            )));
        }
        i += 1;
    }
    proof {
        assert(s0.skip(s0.len() as int) =~= Seq::empty());
        assert(cursors@.take(s0.len() as int) =~= cursors@);
        assert(cursors@ + Seq::<ControlledEntity>::empty() =~= cursors@);
    }
}

/// Both roles are filled: the intro phase is complete.
pub fn intro_complete(cursors: &Vec<ControlledEntity>) -> (r: bool)
    ensures
        r == (holds_role(cursors@, Role::Left) && holds_role(cursors@, Role::Right)),
{
    let left = holds_role_exec(cursors, Role::Left);
    let right = holds_role_exec(cursors, Role::Right);
    left && right
}

} // verus!
