//! Contact damage and death.
//!
//! Each tick of play, the player node and every hostile within the contact
//! threshold of it both lose one hit point, saturating at zero. This rate
//! is deliberately tick-bound: a hostile overlapping the player for `n`
//! ticks costs `n` hit points. A player at zero hit points ends the game.
use vstd::prelude::*;

use crate::hostile::{sat_sub, Enemy};
use crate::vec2::{in_range, Vec2};

verus! {

/// Hit points the player starts with.
pub const PLAYER_MAX_HP: u32 = 30;

/// Contact-damage distance threshold, in steps.
pub const CONTACT_RADIUS: i64 = 500;

/// Centers closer than the contact threshold (strictly).
pub open spec fn in_contact(a: Vec2, b: Vec2) -> bool {
    (a.x - b.x) * (a.x - b.x) + (a.y - b.y) * (a.y - b.y) < CONTACT_RADIUS * CONTACT_RADIUS
}

pub fn in_contact_exec(a: Vec2, b: Vec2) -> (r: bool)
    requires
        in_range(a),
        in_range(b),
    ensures
        r == in_contact(a, b),
{
    let dx: i128 = (a.x as i128) - (b.x as i128);
    let dy: i128 = (a.y as i128) - (b.y as i128);
    proof {
        crate::vec2::lemma_mul_bound(dx as int, dx as int, 0x200_0000);
        crate::vec2::lemma_mul_bound(dy as int, dy as int, 0x200_0000);
        crate::vec2::lemma_mul_bound(CONTACT_RADIUS as int, CONTACT_RADIUS as int, 0x200_0000);
    }
    dx * dx + dy * dy < (CONTACT_RADIUS as i128) * (CONTACT_RADIUS as i128)
}

/// How many hostiles of `s` are in contact with a player at `p`.
pub open spec fn contact_count(s: Seq<Enemy>, p: Vec2) -> int
    decreases s.len(),
{
    if s.len() == 0 {
        0
    } else {
        contact_count(s.drop_last(), p) + if in_contact(s.last().pos, p) {
            1int
        } else {
            0int
        }
    }
}

proof fn lemma_contact_count_push(s: Seq<Enemy>, e: Enemy, p: Vec2)
    ensures
        contact_count(s.push(e), p) == contact_count(s, p) + if in_contact(e.pos, p) {
            1int
        } else {
            0int
        },
{
    assert(s.push(e).drop_last() =~= s);
    assert(s.push(e).last() == e);
}

proof fn lemma_contact_count_nonneg(s: Seq<Enemy>, p: Vec2)
    ensures
        contact_count(s, p) >= 0,
    decreases s.len(),
{
    if s.len() > 0 {
        lemma_contact_count_nonneg(s.drop_last(), p);
    }
}

/// The hostile after the contact step against a player at `p`.
pub open spec fn after_contact(e: Enemy, p: Vec2) -> Enemy {
    if in_contact(e.pos, p) {
        Enemy { hp: sat_sub(e.hp as int, 1) as u32, ..e }
    } else {
        e
    }
}

/// Contact-damage step of the combat resolver: the player and each hostile
/// within the contact threshold of it both lose one hit point, saturating
/// at zero.
pub fn contact_damage(player_pos: Vec2, player_hp: &mut u32, enemies: &mut Vec<Enemy>)
    requires
        in_range(player_pos),
        forall|i: int| 0 <= i < old(enemies)@.len() ==> in_range((#[trigger] old(enemies)@[i]).pos),
    ensures
        final(enemies)@.len() == old(enemies)@.len(),
        forall|i: int|
            0 <= i < old(enemies)@.len() ==> #[trigger] final(enemies)@[i] == after_contact(
                old(enemies)@[i],
                player_pos,
            ),
        *final(player_hp) == sat_sub(
            *old(player_hp) as int,
            contact_count(old(enemies)@, player_pos),
        ),
        *final(player_hp) <= *old(player_hp),
{
    let ghost e0 = enemies@;
    let ghost hp0 = *player_hp;
    let mut i: usize = 0;
    while i < enemies.len()
        invariant
            0 <= i <= e0.len(),
            enemies@.len() == e0.len(),
            in_range(player_pos),
            forall|j: int| 0 <= j < e0.len() ==> in_range((#[trigger] e0[j]).pos),
            forall|j: int| i <= j < e0.len() ==> enemies@[j] == e0[j],
            forall|j: int|
                0 <= j < i ==> #[trigger] enemies@[j] == after_contact(e0[j], player_pos),
            *player_hp == sat_sub(hp0 as int, contact_count(e0.take(i as int), player_pos)),
        decreases e0.len() - i,
    {
        let e = enemies[i];
        proof {
            assert(e0.take(i as int + 1) =~= e0.take(i as int).push(e0[i as int]));
            lemma_contact_count_push(e0.take(i as int), e0[i as int], player_pos);
            lemma_contact_count_nonneg(e0.take(i as int), player_pos);
        }
        if in_contact_exec(e.pos, player_pos) {
            enemies.set(
                i,
                Enemy {
                    pos: e.pos,
                    rot: e.rot,
                    hp: e.hp.saturating_sub(1),
                    velocity: e.velocity,
                    angular_velocity: e.angular_velocity,
                },
            );
            *player_hp = player_hp.saturating_sub(1);
        }
        i += 1;
    }
    proof {
        assert(e0.take(e0.len() as int) =~= e0);
        lemma_contact_count_nonneg(e0, player_pos);
    }
}

/// The game ends exactly when the player's hit points are exhausted.
pub fn is_game_over(player_hp: u32) -> (r: bool)
    ensures
        r == (player_hp == 0),
{
    player_hp == 0
}

} // verus!
