//! Core simulation library for a two-pointer arcade game: two pointing
//! devices drive a movement node and a targeting node that together must
//! destroy spawned hostiles while avoiding contact damage.
//!
//! All world geometry is carried in fixed-point coordinates: one world unit
//! is `WORLD_SCALE` coordinate steps, so every transform, containment test
//! and clamp below is exact integer arithmetic.
use vstd::prelude::*;

pub mod combat;
pub mod damage;
pub mod timer;
pub mod hostile;
pub mod input;
pub mod intro;
pub mod mapper;
pub mod movement;
pub mod play_area;
pub mod roles;
pub mod session;
pub mod spawn;
pub mod swap;
pub mod vec2;

verus! {

/// Number of fixed-point coordinate steps per world unit.
pub const WORLD_SCALE: i64 = 1000;

} // verus!
