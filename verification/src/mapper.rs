//! Coordinate mapper: window pixel space to world space.
//!
//! Pixel space has its origin at the window's top-left corner with Y down;
//! world space has Y up and is measured in fixed-point coordinate steps.
//! A mapper is built once from the camera center, the window size and a
//! uniform steps-per-pixel scale, and then maps points and relative deltas
//! exactly: `world = center + scale * (pixel.x - width/2, height/2 - pixel.y)`,
//! carried here as offsets from the window's bottom-left world corner.
use vstd::arithmetic::div_mod::lemma_div_multiples_vanish;
use vstd::prelude::*;

use crate::vec2::{in_range, Vec2, COORD_LIMIT};

verus! {

/// Largest window dimension, in pixels.
pub const PIXEL_LIMIT: i64 = 0x4000;

/// Largest steps-per-pixel camera scale.
pub const SCALE_LIMIT: i64 = 0x200;

#[derive(Clone, Copy, Debug, PartialEq, Eq, Structural)]
pub struct Mapper {
    /// World x of the window's left edge.
    pub left: i64,
    /// World y of the window's bottom edge.
    pub bottom: i64,
    /// Window width in pixels.
    pub width_px: i64,
    /// Window height in pixels.
    pub height_px: i64,
    /// Coordinate steps per pixel.
    pub scale: i64,
}

impl Mapper {
    /// Shape constraints that keep every mapped window point in range.
    pub open spec fn wf(self) -> bool {
        &&& 0 < self.scale <= SCALE_LIMIT
        &&& 0 <= self.width_px <= PIXEL_LIMIT
        &&& 0 <= self.height_px <= PIXEL_LIMIT
        &&& -0x40_0000 <= self.left <= 0x40_0000
        &&& -0x40_0000 <= self.bottom <= 0x40_0000
        &&& self.width_px * self.scale <= 0x40_0000
        &&& self.height_px * self.scale <= 0x40_0000
    }

    /// World x for the pixel x coordinate `px`.
    pub open spec fn map_x(self, px: int) -> int {
        self.left + px * self.scale
    }

    /// World y for the pixel y coordinate `py` (the pixel axis points down).
    pub open spec fn map_y(self, py: int) -> int {
        self.bottom + (self.height_px - py) * self.scale
    }

    /// World displacement for a pixel displacement: the Y axis flips and no
    /// translation applies, as for `map(origin + d) - map(origin)`.
    pub open spec fn delta_x(self, dx: int) -> int {
        dx * self.scale
    }

    pub open spec fn delta_y(self, dy: int) -> int {
        -dy * self.scale
    }

    /// Build a mapper for a camera centered at `center` (world steps) over a
    /// `width_px` by `height_px` window at `scale` steps per pixel.
    pub fn new(center: Vec2, width_px: i64, height_px: i64, scale: i64) -> (r: Mapper)
        requires
            0 < scale <= SCALE_LIMIT,
            0 <= width_px <= PIXEL_LIMIT,
            0 <= height_px <= PIXEL_LIMIT,
            width_px * scale <= 0x40_0000,
            height_px * scale <= 0x40_0000,
            -0x20_0000 <= center.x <= 0x20_0000,
            -0x20_0000 <= center.y <= 0x20_0000,
        ensures
            r.wf(),
            r.left == center.x - (width_px * scale) / 2,
            r.bottom == center.y - (height_px * scale) / 2,
            r.width_px == width_px,
            r.height_px == height_px,
            r.scale == scale,
    {
        proof {
            crate::vec2::lemma_mul_bound(width_px as int, scale as int, 0x4000_0000);
            crate::vec2::lemma_mul_bound(height_px as int, scale as int, 0x4000_0000);
            assert(width_px * scale >= 0) by (nonlinear_arith)
                requires
                    width_px >= 0 && scale >= 0,
            ;
            assert(height_px * scale >= 0) by (nonlinear_arith)
                requires
                    height_px >= 0 && scale >= 0,
            ;
        }
        let half_w: i64 = (width_px * scale) / 2;
        let half_h: i64 = (height_px * scale) / 2;
        Mapper {
            left: center.x - half_w,
            bottom: center.y - half_h,
            width_px,
            height_px,
            scale,
        }
    }

    /// Map a window point (pixels, origin top-left) to world steps.
    pub fn map(self, p: Vec2) -> (r: Vec2)
        requires
            self.wf(),
            0 <= p.x <= self.width_px,
            0 <= p.y <= self.height_px,
        ensures
            r.x == self.map_x(p.x as int),
            r.y == self.map_y(p.y as int),
            in_range(r),
    {
        proof {
            lemma_mul_mono_nonneg(p.x as int, self.width_px as int, self.scale as int);
            lemma_mul_mono_nonneg(
                (self.height_px - p.y) as int,
                self.height_px as int,
                self.scale as int,
            );
        }
        Vec2 { x: self.left + p.x * self.scale, y: self.bottom + (self.height_px - p.y) * self.scale }
    }

    /// Map a relative pixel motion to a world displacement.
    pub fn map_delta(self, d: Vec2) -> (r: Vec2)
        requires
            self.wf(),
            -PIXEL_LIMIT <= d.x <= PIXEL_LIMIT,
            -PIXEL_LIMIT <= d.y <= PIXEL_LIMIT,
        ensures
            r.x == self.delta_x(d.x as int),
            r.y == self.delta_y(d.y as int),
            in_range(r),
    {
        proof {
            crate::vec2::lemma_mul_bound2(
                d.x as int,
                self.scale as int,
                PIXEL_LIMIT as int,
                SCALE_LIMIT as int,
            );
            crate::vec2::lemma_mul_bound2(
                d.y as int,
                self.scale as int,
                PIXEL_LIMIT as int,
                SCALE_LIMIT as int,
            );
            assert((-d.y) * self.scale == -(d.y * self.scale)) by (nonlinear_arith);
        }
        Vec2 { x: d.x * self.scale, y: -(d.y * self.scale) }
    }

    /// Inverse map, exact on any point the map produced.
    pub fn unmap(self, w: Vec2) -> (r: Vec2)
        requires
            self.wf(),
            self.left <= w.x,
            self.bottom <= w.y,
            w.x - self.left <= 0x80_0000,
            w.y - self.bottom <= 0x80_0000,
        ensures
            r.x == (w.x - self.left) / (self.scale as int),
            r.y == self.height_px - (w.y - self.bottom) / (self.scale as int),
    {
        let px: i64 = (w.x - self.left) / self.scale;
        let py: i64 = self.height_px - (w.y - self.bottom) / self.scale;
        Vec2 { x: px, y: py }
    }
}

/// For `0 <= a <= b` and `0 <= s`, `a * s` stays within `[0, b * s]`.
pub proof fn lemma_mul_mono_nonneg(a: int, b: int, s: int) by (nonlinear_arith)
    requires
        0 <= a <= b,
        0 <= s,
    ensures
        0 <= a * s <= b * s,
{
}

/// The map sends the window's top-left pixel to the world position of the
/// viewport's top-left corner: half the viewport width left of the camera
/// center and half the viewport height above it (up to the parity of the
/// pixel size), for every viewport size and scale.
pub proof fn lemma_map_top_left(m: Mapper, center: Vec2)
    requires
        m.wf(),
        m.left == center.x - (m.width_px * m.scale) / 2,
        m.bottom == center.y - (m.height_px * m.scale) / 2,
    ensures
        m.map_x(0) == center.x - (m.width_px * m.scale) / 2,
        m.map_y(0) == center.y + (m.height_px * m.scale) - (m.height_px * m.scale) / 2,
{
    assert(m.map_x(0) == m.left + 0 * m.scale);
    assert(0 * m.scale == 0) by (nonlinear_arith);
    assert((m.height_px - 0) * m.scale == m.height_px * m.scale);
}

/// The map is affine: the world displacement between the images of `p + d`
/// and `p` is `scale * (d.x, -d.y)`, independent of `p`.
pub proof fn lemma_map_affine(m: Mapper, px: int, py: int, dx: int, dy: int)
    requires
        m.wf(),
    ensures
        m.map_x(px + dx) - m.map_x(px) == m.delta_x(dx),
        m.map_y(py + dy) - m.map_y(py) == m.delta_y(dy),
{
    assert((px + dx) * m.scale == px * m.scale + dx * m.scale) by (nonlinear_arith);
    assert((m.height_px - (py + dy)) * m.scale == (m.height_px - py) * m.scale + (-dy)
        * m.scale) by (nonlinear_arith);
}

/// The map is reversible: applying the inverse formulas used by `unmap` to
/// a mapped window point gives the original point back, for every scale and
/// viewport size.
pub proof fn lemma_map_round_trip(m: Mapper, px: int, py: int)
    requires
        m.wf(),
        0 <= px <= m.width_px,
        0 <= py <= m.height_px,
    ensures
        (m.map_x(px) - m.left) / (m.scale as int) == px,
        m.height_px - (m.map_y(py) - m.bottom) / (m.scale as int) == py,
{
    assert(m.map_x(px) - m.left == px * m.scale);
    assert(m.map_y(py) - m.bottom == (m.height_px - py) * m.scale);
    lemma_div_multiples_vanish(px, m.scale as int);
    lemma_div_multiples_vanish(m.height_px - py, m.scale as int);
    assert(px * m.scale == m.scale * px) by (nonlinear_arith);
    assert((m.height_px - py) * m.scale == m.scale * (m.height_px - py)) by (nonlinear_arith);
}

} // verus!
