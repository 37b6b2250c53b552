//! The play area: the world-space rectangle the controlled entities are
//! confined to, computed once from the viewport after camera setup.
use vstd::prelude::*;

use crate::mapper::Mapper;
use crate::vec2::{in_range, Vec2, COORD_LIMIT};

verus! {

/// World margin (in steps) by which the spawn rectangle for hostiles is
/// larger than the visible field, so they appear to start just offscreen.
pub const SPAWN_MARGIN: i64 = 500;

/// Axis-aligned world rectangle, as two opposite corners.
#[derive(Clone, Copy, Debug, PartialEq, Eq, Structural)]
pub struct PlayArea {
    pub min: Vec2,
    pub max: Vec2,
}

impl PlayArea {
    pub open spec fn wf(self) -> bool {
        &&& in_range(self.min)
        &&& in_range(self.max)
        &&& self.min.x <= self.max.x
        &&& self.min.y <= self.max.y
    }

    /// `p` lies in the rectangle (boundary included).
    pub open spec fn contains_spec(self, p: Vec2) -> bool {
        self.min.x <= p.x <= self.max.x && self.min.y <= p.y <= self.max.y
    }

    /// `p` lies strictly inside the rectangle.
    pub open spec fn contains_strict(self, p: Vec2) -> bool {
        self.min.x < p.x < self.max.x && self.min.y < p.y < self.max.y
    }

    /// The world rectangle covered by the viewport: the images of the
    /// window's corner pixels under the mapper.
    pub fn from_viewport(m: &Mapper) -> (r: PlayArea)
        requires
            m.wf(),
        ensures
            r.wf(),
            r.min.x == m.map_x(0),
            r.min.y == m.map_y(m.height_px as int),
            r.max.x == m.map_x(m.width_px as int),
            r.max.y == m.map_y(0),
    {
        let bottom_left = m.map(Vec2 { x: 0, y: m.height_px });
        let top_right = m.map(Vec2 { x: m.width_px, y: 0 });
        proof {
            crate::mapper::lemma_mul_mono_nonneg(0, m.width_px as int, m.scale as int);
            crate::mapper::lemma_mul_mono_nonneg(
                0,
                m.height_px as int,
                m.scale as int,
            );
        }
        PlayArea { min: bottom_left, max: top_right }
    }

    pub fn contains(&self, p: Vec2) -> (r: bool)
        ensures
            r == self.contains_spec(p),
    {
        self.min.x <= p.x && p.x <= self.max.x && self.min.y <= p.y && p.y <= self.max.y
    }

    /// The rectangle shrunk by `inset` on every side; entity centers are
    /// clamped into this so a body of radius `inset` never leaves the field.
    pub fn inset(&self, inset: i64) -> (r: PlayArea)
        requires
            self.wf(),
            0 <= inset,
            self.min.x + 2 * inset <= self.max.x,
            self.min.y + 2 * inset <= self.max.y,
        ensures
            r.wf(),
            r.min.x == self.min.x + inset,
            r.min.y == self.min.y + inset,
            r.max.x == self.max.x - inset,
            r.max.y == self.max.y - inset,
    {
        PlayArea {
            min: Vec2 { x: self.min.x + inset, y: self.min.y + inset },
            max: Vec2 { x: self.max.x - inset, y: self.max.y - inset },
        }
    }

    /// The rectangle grown by `margin` on every side.
    pub fn enlarged(&self, margin: i64) -> (r: PlayArea)
        requires
            self.wf(),
            0 <= margin <= SPAWN_MARGIN,
            -COORD_LIMIT <= self.min.x - margin,
            self.max.x + margin <= COORD_LIMIT,
            -COORD_LIMIT <= self.min.y - margin,
            self.max.y + margin <= COORD_LIMIT,
        ensures
            r.wf(),
            r.min.x == self.min.x - margin,
            r.min.y == self.min.y - margin,
            r.max.x == self.max.x + margin,
            r.max.y == self.max.y + margin,
    {
        PlayArea {
            min: Vec2 { x: self.min.x - margin, y: self.min.y - margin },
            max: Vec2 { x: self.max.x + margin, y: self.max.y + margin },
        }
    }

    /// Where a point lands when clamped into the rectangle, axis by axis.
    pub open spec fn clamp_spec(self, p: Vec2) -> Vec2 {
        Vec2 {
            x: if p.x < self.min.x {
                self.min.x
            } else if p.x > self.max.x {
                self.max.x
            } else {
                p.x
            },
            y: if p.y < self.min.y {
                self.min.y
            } else if p.y > self.max.y {
                self.max.y
            } else {
                p.y
            },
        }
    }

    /// Clamp a point into the rectangle, axis by axis.
    pub fn clamp(&self, p: Vec2) -> (r: Vec2)
        requires
            self.wf(),
        ensures
            r == self.clamp_spec(p),
            r.x == if p.x < self.min.x {
                self.min.x
            } else if p.x > self.max.x {
                self.max.x
            } else {
                p.x
            },
            r.y == if p.y < self.min.y {
                self.min.y
            } else if p.y > self.max.y {
                self.max.y
            } else {
                p.y
            },
            self.contains_spec(r),
            self.contains_spec(p) ==> r == p,
    {
        let x = crate::vec2::clamp_i64(p.x, self.min.x, self.max.x);
        let y = crate::vec2::clamp_i64(p.y, self.min.y, self.max.y);
        Vec2 { x, y }
    }
}

} // verus!
