//! Two-component screen-space points.

use vstd::prelude::*;

verus! {

/// The largest framebuffer extent the rasterizers accept along either axis.
///
/// Keeping every screen coordinate below this bound keeps all of the
/// intermediate products of the rasterizers inside `i64`.
pub const MAX_DIM: usize = 0x10_0000;

/// A screen-space position in whole pixels, with the origin at the
/// bottom-left corner of the framebuffer.
#[derive(Clone, Copy, Debug, PartialEq, Eq, Structural)]
pub struct Vec2 {
    /// Column of the pixel.
    pub x: usize,
    /// Row of the pixel.
    pub y: usize,
}

impl Vec2 {
    /// Builds the point (`x`, `y`).
    pub fn new(x: usize, y: usize) -> (r: Vec2)
        ensures
            r == (Vec2 { x, y }),
    {
        Vec2 { x, y }
    }

    /// Exchanges the two components, reflecting the point across the
    /// diagonal. The line rasterizer uses this to transpose steep segments.
    pub fn swap(&mut self)
        ensures
            final(self).x == old(self).y,
            final(self).y == old(self).x,
    {
        let t = self.x;
        self.x = self.y;
        self.y = t;
    }
}

impl Default for Vec2 {
    /// The origin pixel.
    fn default() -> (r: Vec2)
        ensures
            r == (Vec2 { x: 0usize, y: 0usize }),
    {
        Vec2 { x: 0, y: 0 }
    }
}

} // verus!
