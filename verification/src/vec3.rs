//! Three-component integer vectors.
//!
//! A `Vec3` is either an RGB color triple (each channel in `[0, 255]`) or an
//! auxiliary vector of a determinant computation. Channels stay integers so
//! intensity scaling is an exact truncated fraction.

use vstd::prelude::*;

verus! {

/// Channel values this large are accepted by every vector operation without
/// overflow; the cross product in particular stays within `i64`.
pub const MAX_COMPONENT: i64 = 0x40_0000;

/// The largest denominator an intensity fraction may carry; generous for a
/// fixed-point fraction yet small enough that scaling a channel cannot
/// overflow.
pub const MAX_INTENSITY_DEN: i64 = 0x10_0000;

/// What one color channel becomes under an intensity of `num / den`:
/// the real product rounded toward zero (the channel and the fraction are
/// both nonnegative, so Euclidean and truncating division agree).
pub open spec fn scaled_channel(c: int, num: int, den: int) -> int {
    c * num / den
}

/// A three-component integer vector: an RGB color or a geometric triple.
#[derive(Clone, Copy, Debug, PartialEq, Eq, Structural)]
pub struct Vec3 {
    /// First component; the red channel of a color.
    pub x: i64,
    /// Second component; the green channel of a color.
    pub y: i64,
    /// Third component; the blue channel of a color.
    pub z: i64,
}

impl Vec3 {
    /// True when every component is a color channel value in `[0, 255]`.
    pub open spec fn is_color(self) -> bool {
        0 <= self.x <= 255 && 0 <= self.y <= 255 && 0 <= self.z <= 255
    }

    /// The color scaled channel-wise by the fraction `num / den`.
    pub open spec fn spec_scale(self, num: int, den: int) -> Vec3 {
        Vec3 {
            x: scaled_channel(self.x as int, num, den) as i64,
            y: scaled_channel(self.y as int, num, den) as i64,
            z: scaled_channel(self.z as int, num, den) as i64,
        }
    }

    /// The component at position `i`, counted x, y, z.
    pub open spec fn spec_component(self, i: int) -> i64 {
        if i == 0 {
            self.x
        } else if i == 1 {
            self.y
        } else {
            self.z
        }
    }

    /// Builds the vector (`x`, `y`, `z`).
    pub fn new(x: i64, y: i64, z: i64) -> (r: Vec3)
        ensures
            r == (Vec3 { x, y, z }),
    {
        Vec3 { x, y, z }
    }

    /// The all-zero vector: the default framebuffer color.
    pub fn zero() -> (r: Vec3)
        ensures
            r == (Vec3 { x: 0i64, y: 0i64, z: 0i64 }),
    {
        Vec3 { x: 0, y: 0, z: 0 }
    }

    /// Exchanges the components at positions `i` and `j`.
    pub fn swap(&mut self, i: usize, j: usize)
        requires
            i < 3,
            j < 3,
        ensures
            final(self).spec_component(i as int) == old(self).spec_component(j as int),
            final(self).spec_component(j as int) == old(self).spec_component(i as int),
            forall|k: int|
                0 <= k < 3 && k != i && k != j ==> final(self).spec_component(k) == old(
                    self,
                ).spec_component(k),
    {
        let vi = if i == 0 {
            self.x
        } else if i == 1 {
            self.y
        } else {
            self.z
        };
        let vj = if j == 0 {
            self.x
        } else if j == 1 {
            self.y
        } else {
            self.z
        };
        if i == 0 {
            self.x = vj;
        } else if i == 1 {
            self.y = vj;
        } else {
            self.z = vj;
        }
        if j == 0 {
            self.x = vi;
        } else if j == 1 {
            self.y = vi;
        } else {
            self.z = vi;
        }
    }

    /// The component-wise sum of `self` and `v`.
    pub fn add(&self, v: &Vec3) -> (r: Vec3)
        requires
            -MAX_COMPONENT <= self.x <= MAX_COMPONENT,
            -MAX_COMPONENT <= self.y <= MAX_COMPONENT,
            -MAX_COMPONENT <= self.z <= MAX_COMPONENT,
            -MAX_COMPONENT <= v.x <= MAX_COMPONENT,
            -MAX_COMPONENT <= v.y <= MAX_COMPONENT,
            -MAX_COMPONENT <= v.z <= MAX_COMPONENT,
        ensures
            r.x == self.x + v.x,
            r.y == self.y + v.y,
            r.z == self.z + v.z,
    {
        Vec3 { x: self.x + v.x, y: self.y + v.y, z: self.z + v.z }
    }

    /// The component-wise difference of `self` and `v`.
    pub fn subtract(&self, v: &Vec3) -> (r: Vec3)
        requires
            -MAX_COMPONENT <= self.x <= MAX_COMPONENT,
            -MAX_COMPONENT <= self.y <= MAX_COMPONENT,
            -MAX_COMPONENT <= self.z <= MAX_COMPONENT,
            -MAX_COMPONENT <= v.x <= MAX_COMPONENT,
            -MAX_COMPONENT <= v.y <= MAX_COMPONENT,
            -MAX_COMPONENT <= v.z <= MAX_COMPONENT,
        ensures
            r.x == self.x - v.x,
            r.y == self.y - v.y,
            r.z == self.z - v.z,
    {
        Vec3 { x: self.x - v.x, y: self.y - v.y, z: self.z - v.z }
    }

    /// The cross product of `self` and `v`.
    pub fn cross(&self, v: &Vec3) -> (r: Vec3)
        requires
            -MAX_COMPONENT <= self.x <= MAX_COMPONENT,
            -MAX_COMPONENT <= self.y <= MAX_COMPONENT,
            -MAX_COMPONENT <= self.z <= MAX_COMPONENT,
            -MAX_COMPONENT <= v.x <= MAX_COMPONENT,
            -MAX_COMPONENT <= v.y <= MAX_COMPONENT,
            -MAX_COMPONENT <= v.z <= MAX_COMPONENT,
        ensures
            r.x == self.y * v.z - self.z * v.y,
            r.y == self.z * v.x - self.x * v.z,
            r.z == self.x * v.y - self.y * v.x,
    {
        proof {
            lemma_product_bound(self.x as int, v.x as int);
            lemma_product_bound(self.x as int, v.y as int);
            lemma_product_bound(self.x as int, v.z as int);
            lemma_product_bound(self.y as int, v.x as int);
            lemma_product_bound(self.y as int, v.y as int);
            lemma_product_bound(self.y as int, v.z as int);
            lemma_product_bound(self.z as int, v.x as int);
            lemma_product_bound(self.z as int, v.y as int);
            lemma_product_bound(self.z as int, v.z as int);
        }
        Vec3 {
            x: self.y * v.z - self.z * v.y,
            y: self.z * v.x - self.x * v.z,
            z: self.x * v.y - self.y * v.x,
        }
    }

    /// The dot product of `self` and `v`.
    pub fn dot(&self, v: &Vec3) -> (r: i64)
        requires
            -MAX_COMPONENT <= self.x <= MAX_COMPONENT,
            -MAX_COMPONENT <= self.y <= MAX_COMPONENT,
            -MAX_COMPONENT <= self.z <= MAX_COMPONENT,
            -MAX_COMPONENT <= v.x <= MAX_COMPONENT,
            -MAX_COMPONENT <= v.y <= MAX_COMPONENT,
            -MAX_COMPONENT <= v.z <= MAX_COMPONENT,
        ensures
            r == self.x * v.x + self.y * v.y + self.z * v.z,
    {
        proof {
            lemma_product_bound(self.x as int, v.x as int);
            lemma_product_bound(self.y as int, v.y as int);
            lemma_product_bound(self.z as int, v.z as int);
        }
        self.x * v.x + self.y * v.y + self.z * v.z
    }

    /// The color scaled channel-wise by the intensity fraction `num / den`,
    /// each product rounded toward zero. A scaled color channel never leaves
    /// `[0, 255]` when the fraction is at most one.
    pub fn scale(&self, num: i64, den: i64) -> (r: Vec3)
        requires
            self.is_color(),
            0 <= num <= den,
            1 <= den <= MAX_INTENSITY_DEN,
        ensures
            r == self.spec_scale(num as int, den as int),
            r.is_color(),
    {
        proof {
            lemma_channel_product_bound(self.x as int, num as int);
            lemma_channel_product_bound(self.y as int, num as int);
            lemma_channel_product_bound(self.z as int, num as int);
            lemma_scaled_channel_in_range(self.x as int, num as int, den as int);
            lemma_scaled_channel_in_range(self.y as int, num as int, den as int);
            lemma_scaled_channel_in_range(self.z as int, num as int, den as int);
        }
        Vec3 { x: self.x * num / den, y: self.y * num / den, z: self.z * num / den }
    }
}

/// The product of a channel and an intensity numerator stays within `i64`.
proof fn lemma_channel_product_bound(c: int, num: int)
    by (nonlinear_arith)
    requires
        0 <= c <= 255,
        0 <= num <= MAX_INTENSITY_DEN,
    ensures
        0 <= c * num <= 255 * MAX_INTENSITY_DEN,
{
}

impl Default for Vec3 {
    /// The all-zero vector.
    fn default() -> (r: Vec3)
        ensures
            r == (Vec3 { x: 0i64, y: 0i64, z: 0i64 }),
    {
        Vec3 { x: 0, y: 0, z: 0 }
    }
}

/// The product of two components bounded by `MAX_COMPONENT` stays well
/// inside `i64`.
proof fn lemma_product_bound(a: int, b: int)
    by (nonlinear_arith)
    requires
        -MAX_COMPONENT <= a <= MAX_COMPONENT,
        -MAX_COMPONENT <= b <= MAX_COMPONENT,
    ensures
        -0x1000_0000_0000 <= a * b <= 0x1000_0000_0000,
{
}

/// Scaling a channel in `[0, 255]` by a fraction in `[0, 1]` keeps it in
/// `[0, 255]`.
proof fn lemma_scaled_channel_in_range(c: int, num: int, den: int)
    by (nonlinear_arith)
    requires
        0 <= c <= 255,
        0 <= num <= den,
        1 <= den,
    ensures
        0 <= scaled_channel(c, num, den) <= c,
{
}

} // verus!
