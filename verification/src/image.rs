//! The framebuffer: a rows-by-cols grid of colors.

use vstd::prelude::*;

use crate::vec3::Vec3;

verus! {

/// An in-memory grid of color values, indexed by (column, row). Row 0 is the
/// geometric bottom of the final picture; the serializer emits rows in
/// reverse to restore a bottom-left visual origin.
pub struct Image {
    /// The pixel grid, one inner vector per row.
    pub data: Vec<Vec<Vec3>>,
    /// Number of columns.
    pub cols: usize,
    /// Number of rows.
    pub rows: usize,
}

impl Image {
    /// The grid really is `rows` rows of `cols` pixels each.
    pub open spec fn wf(self) -> bool {
        &&& self.data@.len() == self.rows
        &&& forall|y: int| 0 <= y < self.rows ==> (#[trigger] self.data@[y])@.len() == self.cols
    }

    /// The color stored at column `x` of row `y`.
    pub open spec fn color_at(self, x: int, y: int) -> Vec3 {
        self.data@[y]@[x]
    }

    /// Builds a `cols` by `rows` framebuffer with every pixel black.
    pub fn new(cols: usize, rows: usize) -> (r: Image)
        ensures
            r.wf(),
            r.cols == cols,
            r.rows == rows,
            forall|x: int, y: int|
                0 <= x < cols && 0 <= y < rows ==> r.color_at(x, y) == (Vec3 {
                    x: 0i64,
                    y: 0i64,
                    z: 0i64,
                }),
    {
        let row: Vec<Vec3> = vec![Vec3 { x: 0, y: 0, z: 0 }; cols];
        let data: Vec<Vec<Vec3>> = vec![row; rows];
        Image { data, cols, rows }
    }

    /// Writes `color` into the pixel at column `x` of row `y`; every other
    /// pixel keeps its value.
    pub fn set(&mut self, x: usize, y: usize, color: Vec3)
        requires
            old(self).wf(),
            x < old(self).cols,
            y < old(self).rows,
        ensures
            final(self).wf(),
            final(self).cols == old(self).cols,
            final(self).rows == old(self).rows,
            final(self).color_at(x as int, y as int) == color,
            forall|px: int, py: int|
                0 <= px < old(self).cols && 0 <= py < old(self).rows && !(px == x && py == y)
                    ==> final(self).color_at(px, py) == old(self).color_at(px, py),
    {
        self.data[y][x] = color;
    }
}

} // verus!
