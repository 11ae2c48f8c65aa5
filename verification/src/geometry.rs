//! The rasterization engine: line drawing, barycentric coordinates, and
//! triangle scan conversion with depth test and texture sampling.

use vstd::prelude::*;

use vstd::arithmetic::div_mod::{
    lemma_div_by_self,
    lemma_div_is_ordered,
    lemma_fundamental_div_mod_converse,
};

use crate::image::Image;
use crate::tga::TgaImage;
use crate::vec2::{Vec2, MAX_DIM};
use crate::vec3::{Vec3, MAX_INTENSITY_DEN};

verus! {

/// A flat-shading intensity, carried as the exact fraction `num / den`.
/// A nonpositive numerator marks a back-facing or edge-on face.
#[derive(Clone, Copy, Debug, PartialEq, Eq, Structural)]
pub struct Intensity {
    /// Numerator of the fraction; nonpositive for faces that are culled.
    pub num: i64,
    /// Denominator of the fraction, always positive.
    pub den: i64,
}

impl Intensity {
    /// The fraction has a positive, bounded denominator and is at most one.
    pub open spec fn wf(self) -> bool {
        &&& 1 <= self.den <= MAX_INTENSITY_DEN
        &&& self.num <= self.den
    }

    /// Builds the intensity `num / den`.
    pub fn new(num: i64, den: i64) -> (r: Intensity)
        ensures
            r == (Intensity { num, den }),
    {
        Intensity { num, den }
    }
}

/// The magnitude of `a`.
pub open spec fn mag(a: int) -> int {
    if a < 0 {
        -a
    } else {
        a
    }
}

// ---------------------------------------------------------------------------
// Barycentric coordinates
// ---------------------------------------------------------------------------
//
// For a triangle (a, b, c) and a query point p, the three barycentric weights
// are the exact rationals num_a / den, num_b / den, num_c / den below. Their
// numerators and shared denominator come out of one cross product of the two
// difference vectors
//     (c.x - a.x, b.x - a.x, a.x - p.x)  and  (c.y - a.y, b.y - a.y, a.y - p.y),
// and the three numerators always sum to the denominator, so the weights sum
// to one exactly.

/// The shared denominator of the barycentric weights: a signed double area of
/// the triangle in screen space. Zero exactly for degenerate triangles.
pub open spec fn bary_den(a: Vec2, b: Vec2, c: Vec2) -> int {
    (c.x - a.x) * (b.y - a.y) - (b.x - a.x) * (c.y - a.y)
}

/// Numerator of the weight of vertex `c`.
pub open spec fn bary_num_c(a: Vec2, b: Vec2, c: Vec2, px: int, py: int) -> int {
    (b.x - a.x) * (a.y - py) - (a.x - px) * (b.y - a.y)
}

/// Numerator of the weight of vertex `b`.
pub open spec fn bary_num_b(a: Vec2, b: Vec2, c: Vec2, px: int, py: int) -> int {
    (a.x - px) * (c.y - a.y) - (c.x - a.x) * (a.y - py)
}

/// Numerator of the weight of vertex `a`; the three numerators sum to the
/// denominator.
pub open spec fn bary_num_a(a: Vec2, b: Vec2, c: Vec2, px: int, py: int) -> int {
    bary_den(a, b, c) - bary_num_b(a, b, c, px, py) - bary_num_c(a, b, c, px, py)
}

/// Whether the three rational weights `ni / d` are all nonnegative. For a
/// degenerate triangle (`d == 0`) no point counts as covered.
pub open spec fn weights_nonneg(n0: int, n1: int, n2: int, d: int) -> bool {
    if d > 0 {
        n0 >= 0 && n1 >= 0 && n2 >= 0
    } else if d < 0 {
        n0 <= 0 && n1 <= 0 && n2 <= 0
    } else {
        false
    }
}

/// Whether pixel (`px`, `py`) is covered by the triangle (`a`, `b`, `c`):
/// all three barycentric weights are nonnegative.
pub open spec fn inside_triangle(a: Vec2, b: Vec2, c: Vec2, px: int, py: int) -> bool {
    weights_nonneg(
        bary_num_a(a, b, c, px, py),
        bary_num_b(a, b, c, px, py),
        bary_num_c(a, b, c, px, py),
        bary_den(a, b, c),
    )
}

/// Barycentric weights of a query point, as three exact fractions over a
/// common denominator. A degenerate triangle yields the discard sentinel,
/// whose first weight is negative.
#[derive(Clone, Copy, Debug, PartialEq, Eq, Structural)]
pub struct BaryWeights {
    /// Numerator of the weight of the first vertex.
    pub w0: i64,
    /// Numerator of the weight of the second vertex.
    pub w1: i64,
    /// Numerator of the weight of the third vertex.
    pub w2: i64,
    /// The common denominator.
    pub den: i64,
}

impl BaryWeights {
    /// Whether all three weights are nonnegative rationals.
    pub open spec fn all_nonneg(self) -> bool {
        weights_nonneg(self.w0 as int, self.w1 as int, self.w2 as int, self.den as int)
    }

    /// Decides whether all three weights are nonnegative, that is, whether
    /// the queried pixel lies inside the triangle.
    pub fn is_inside(&self) -> (r: bool)
        ensures
            r == self.all_nonneg(),
    {
        if self.den > 0 {
            self.w0 >= 0 && self.w1 >= 0 && self.w2 >= 0
        } else if self.den < 0 {
            self.w0 <= 0 && self.w1 <= 0 && self.w2 <= 0
        } else {
            false
        }
    }
}

/// A product of two differences of screen coordinates stays well inside
/// `i64`.
proof fn lemma_diff_product_bound(u: int, v: int, w: int, t: int)
    by (nonlinear_arith)
    requires
        -(MAX_DIM as int) <= u <= MAX_DIM as int,
        -(MAX_DIM as int) <= v <= MAX_DIM as int,
        -(MAX_DIM as int) <= w <= MAX_DIM as int,
        -(MAX_DIM as int) <= t <= MAX_DIM as int,
    ensures
        -0x200_0000_0000 <= u * v - w * t <= 0x200_0000_0000,
{
}

/// Computes the barycentric weights of `p` with respect to the triangle
/// `pts`, as exact fractions. A triangle of zero signed area yields the
/// sentinel (-1, 1, 1) over 1, which no inside test accepts.
pub fn barycentric(pts: [Vec2; 3], p: Vec2) -> (r: BaryWeights)
    requires
        pts[0].x <= MAX_DIM && pts[0].y <= MAX_DIM,
        pts[1].x <= MAX_DIM && pts[1].y <= MAX_DIM,
        pts[2].x <= MAX_DIM && pts[2].y <= MAX_DIM,
        p.x <= MAX_DIM && p.y <= MAX_DIM,
    ensures
        bary_den(pts[0], pts[1], pts[2]) == 0 ==> r == (BaryWeights {
            w0: -1i64,
            w1: 1i64,
            w2: 1i64,
            den: 1i64,
        }),
        bary_den(pts[0], pts[1], pts[2]) != 0 ==> {
            &&& r.w0 == bary_num_a(pts[0], pts[1], pts[2], p.x as int, p.y as int)
            &&& r.w1 == bary_num_b(pts[0], pts[1], pts[2], p.x as int, p.y as int)
            &&& r.w2 == bary_num_c(pts[0], pts[1], pts[2], p.x as int, p.y as int)
            &&& r.den == bary_den(pts[0], pts[1], pts[2])
        },
        r.all_nonneg() == inside_triangle(pts[0], pts[1], pts[2], p.x as int, p.y as int),
        r.w0 + r.w1 + r.w2 == r.den,
{
    let ax = pts[0].x as i64;
    let ay = pts[0].y as i64;
    let bx = pts[1].x as i64;
    let by = pts[1].y as i64;
    let cx = pts[2].x as i64;
    let cy = pts[2].y as i64;
    let px = p.x as i64;
    let py = p.y as i64;

    let va = Vec3::new(cx - ax, bx - ax, ax - px);
    let vb = Vec3::new(cy - ay, by - ay, ay - py);
    let u = va.cross(&vb);

    proof {
        lemma_diff_product_bound(bx - ax, ay - py, ax - px, by - ay);
        lemma_diff_product_bound(ax - px, cy - ay, cx - ax, ay - py);
        lemma_diff_product_bound(cx - ax, by - ay, bx - ax, cy - ay);
    }

    if u.z == 0 {
        // Degenerate triangle in screen space: signal a discard through a
        // negative first weight.
        return BaryWeights { w0: -1, w1: 1, w2: 1, den: 1 };
    }
    BaryWeights { w0: u.z - u.x - u.y, w1: u.y, w2: u.x, den: u.z }
}

// ---------------------------------------------------------------------------
// Line rasterization
// ---------------------------------------------------------------------------
//
// The rasterizer walks the major axis one pixel at a time, carrying an
// accumulated error of 2 * |minor delta| per step and moving the minor axis
// by one whenever the error exceeds the major span. `bres_seq` is that walk
// as a sequence of visited (major, minor) positions; `line_seq` adds the
// normalization around it (transpose steep segments, order endpoints along
// the major axis) and undoes the transposition on the result.

/// The pixels visited from state (`x`, `y`, `err`) onward: one pixel per
/// major-axis position up to `x1`, stepping the minor axis by `sy` whenever
/// the accumulated error exceeds `dx`.
pub open spec fn bres_seq(x: int, y: int, err: int, dx: int, dy: int, sy: int, x1: int) -> Seq<
    (int, int),
>
    decreases x1 + 1 - x,
{
    if x > x1 {
        Seq::empty()
    } else {
        let e2 = err + 2 * dy;
        if e2 > dx {
            seq![(x, y)] + bres_seq(x + 1, y + sy, e2 - 2 * dx, dx, dy, sy, x1)
        } else {
            seq![(x, y)] + bres_seq(x + 1, y, e2, dx, dy, sy, x1)
        }
    }
}

/// Exchanges the two components of every pixel of `s`.
pub open spec fn transpose_seq(s: Seq<(int, int)>) -> Seq<(int, int)> {
    s.map_values(|q: (int, int)| (q.1, q.0))
}

/// The pixels of the segment from `v0` to `v1`, in drawing order: the
/// error-accumulation walk over the transposed (if steep) and endpoint-
/// ordered segment, written back in framebuffer coordinates.
pub open spec fn line_seq(v0: Vec2, v1: Vec2) -> Seq<(int, int)> {
    let steep = mag(v0.x - v1.x) < mag(v0.y - v1.y);
    let (ax, ay, bx, by): (int, int, int, int) = if steep {
        (v0.y as int, v0.x as int, v1.y as int, v1.x as int)
    } else {
        (v0.x as int, v0.y as int, v1.x as int, v1.y as int)
    };
    let (x0, y0, x1, y1): (int, int, int, int) = if ax > bx {
        (bx, by, ax, ay)
    } else {
        (ax, ay, bx, by)
    };
    let walk = bres_seq(x0, y0, 0, x1 - x0, mag(y1 - y0), if y1 > y0 { 1 } else { -1 }, x1);
    if steep {
        transpose_seq(walk)
    } else {
        walk
    }
}

/// Whether one of the first `n` walk positions of `b` lands on framebuffer
/// pixel (`px`, `py`); a transposed walk swaps components on write-back.
pub open spec fn walk_prefix_covers(
    b: Seq<(int, int)>,
    n: int,
    steep: bool,
    px: int,
    py: int,
) -> bool {
    exists|i: int|
        0 <= i < n && b[i] == (if steep {
            (py, px)
        } else {
            (px, py)
        })
}

/// Shape of the walk: its length is one pixel per major-axis position, and
/// it starts at the starting pixel.
pub proof fn lemma_bres_shape(x: int, y: int, err: int, dx: int, dy: int, sy: int, x1: int)
    ensures
        x > x1 ==> bres_seq(x, y, err, dx, dy, sy, x1).len() == 0,
        x <= x1 ==> bres_seq(x, y, err, dx, dy, sy, x1).len() == x1 + 1 - x,
        x <= x1 ==> bres_seq(x, y, err, dx, dy, sy, x1)[0] == (x, y),
    decreases x1 + 1 - x,
{
    if x <= x1 {
        let e2 = err + 2 * dy;
        if e2 > dx {
            lemma_bres_shape(x + 1, y + sy, e2 - 2 * dx, dx, dy, sy, x1);
        } else {
            lemma_bres_shape(x + 1, y, e2, dx, dy, sy, x1);
        }
    }
}

/// Window and step-count bounds of the error accumulator: as long as the
/// error stays in `(-dx, dx]`, the number `k` of minor steps taken after
/// `xo` major steps stays between 0 and the total minor delta.
proof fn lemma_step_count_bounds(dx: int, dy: int, k: int, xo: int, err: int)
    by (nonlinear_arith)
    requires
        0 < dx,
        0 <= dy <= dx,
        0 <= xo <= dx,
        err == 2 * dy * xo - 2 * dx * k,
        -dx < err <= dx,
    ensures
        0 <= k <= dy,
{
}

/// At the far endpoint the error window pins the number of minor steps to
/// exactly the minor delta: the walk ends on the far endpoint's minor
/// coordinate.
pub proof fn lemma_step_count_final(dx: int, dy: int, k: int, err: int)
    by (nonlinear_arith)
    requires
        0 < dx,
        0 <= dy <= dx,
        err == 2 * dy * dx - 2 * dx * k,
        -dx < err <= dx,
    ensures
        k == dy,
{
}

/// Extending a drawn prefix by one walk position covers exactly the pixels
/// covered before plus the new position's pixel.
proof fn lemma_walk_prefix_extend(b: Seq<(int, int)>, n: int, steep: bool)
    requires
        0 <= n < b.len(),
    ensures
        forall|px: int, py: int|
            #[trigger] walk_prefix_covers(b, n + 1, steep, px, py) <==> (walk_prefix_covers(
                b,
                n,
                steep,
                px,
                py,
            ) || b[n] == (if steep {
                (py, px)
            } else {
                (px, py)
            })),
{
    assert forall|px: int, py: int|
        #[trigger] walk_prefix_covers(b, n + 1, steep, px, py) <==> (walk_prefix_covers(
            b,
            n,
            steep,
            px,
            py,
        ) || b[n] == (if steep {
            (py, px)
        } else {
            (px, py)
        })) by {
        let q: (int, int) = if steep {
            (py, px)
        } else {
            (px, py)
        };
        if walk_prefix_covers(b, n + 1, steep, px, py) {
            let i = choose|i: int| 0 <= i < n + 1 && b[i] == q;
            if i < n {
                assert(walk_prefix_covers(b, n, steep, px, py));
            }
        }
        if walk_prefix_covers(b, n, steep, px, py) {
            let i = choose|i: int| 0 <= i < n && b[i] == q;
            assert(0 <= i < n + 1 && b[i] == q);
            assert(walk_prefix_covers(b, n + 1, steep, px, py));
        }
        if b[n] == q {
            assert(0 <= n < n + 1 && b[n] == q);
            assert(walk_prefix_covers(b, n + 1, steep, px, py));
        }
    }
}

/// A full walk covers a framebuffer pixel exactly when the (possibly
/// transposed) walk sequence contains it.
proof fn lemma_walk_full_covers(b: Seq<(int, int)>, steep: bool, s: Seq<(int, int)>)
    requires
        s == (if steep {
            transpose_seq(b)
        } else {
            b
        }),
    ensures
        forall|px: int, py: int|
            s.contains((px, py)) <==> walk_prefix_covers(b, b.len() as int, steep, px, py),
{
    assert forall|px: int, py: int|
        s.contains((px, py)) <==> walk_prefix_covers(b, b.len() as int, steep, px, py) by {
        let q: (int, int) = if steep {
            (py, px)
        } else {
            (px, py)
        };
        if steep {
            let ts = transpose_seq(b);
            if ts.contains((px, py)) {
                let i = choose|i: int| 0 <= i < ts.len() && ts[i] == (px, py);
                assert(b[i] == q);
                assert(walk_prefix_covers(b, b.len() as int, steep, px, py));
            }
            if walk_prefix_covers(b, b.len() as int, steep, px, py) {
                let i = choose|i: int| 0 <= i < b.len() && b[i] == q;
                assert(ts[i] == (px, py));
                assert(ts.contains((px, py)));
            }
        } else {
            if s.contains((px, py)) {
                let i = choose|i: int| 0 <= i < b.len() && b[i] == (px, py);
                assert(walk_prefix_covers(b, b.len() as int, steep, px, py));
            }
            if walk_prefix_covers(b, b.len() as int, steep, px, py) {
                let i = choose|i: int| 0 <= i < b.len() && b[i] == q;
                assert(b.contains(q));
            }
        }
    }
}

/// Draws the segment from `v0` to `v1` in the given color: colors exactly
/// the pixels of `line_seq(v0, v1)`, an 8-connected path that includes both
/// endpoints, and leaves every other pixel unchanged.
#[verifier::rlimit(60)]
pub fn line(v0: Vec2, v1: Vec2, color: Vec3, image: &mut Image)
    requires
        old(image).wf(),
        old(image).cols <= MAX_DIM,
        old(image).rows <= MAX_DIM,
        v0.x < old(image).cols && v0.y < old(image).rows,
        v1.x < old(image).cols && v1.y < old(image).rows,
    ensures
        final(image).wf(),
        final(image).cols == old(image).cols,
        final(image).rows == old(image).rows,
        forall|px: int, py: int|
            0 <= px < old(image).cols && 0 <= py < old(image).rows
                ==> final(image).color_at(px, py) == (if line_seq(v0, v1).contains((px, py)) {
                color
            } else {
                old(image).color_at(px, py)
            }),
        line_seq(v0, v1).contains((v0.x as int, v0.y as int)),
        line_seq(v0, v1).contains((v1.x as int, v1.y as int)),
        final(image).color_at(v0.x as int, v0.y as int) == color,
        final(image).color_at(v1.x as int, v1.y as int) == color,
{
    let steep = {
        let ddx = if v0.x > v1.x {
            v0.x - v1.x
        } else {
            v1.x - v0.x
        };
        let ddy = if v0.y > v1.y {
            v0.y - v1.y
        } else {
            v1.y - v0.y
        };
        ddx < ddy
    };

    // If the segment is steep, iterate over transposed coordinates and
    // un-transpose on write.
    let (mut x0, mut y0, mut x1, mut y1) = if steep {
        (v0.y, v0.x, v1.y, v1.x)
    } else {
        (v0.x, v0.y, v1.x, v1.y)
    };

    // Make the major axis increase left to right.
    if x0 > x1 {
        let t = x0;
        x0 = x1;
        x1 = t;
        let t = y0;
        y0 = y1;
        y1 = t;
    }

    let dx: i64 = (x1 - x0) as i64;
    let dy_abs: i64 = if y1 > y0 {
        (y1 - y0) as i64
    } else {
        (y0 - y1) as i64
    };
    let sy: i64 = if y1 > y0 {
        1
    } else {
        -1
    };

    let ghost b = bres_seq(
        x0 as int,
        y0 as int,
        0,
        dx as int,
        dy_abs as int,
        sy as int,
        x1 as int,
    );

    proof {
        assert(line_seq(v0, v1) == if steep {
            transpose_seq(b)
        } else {
            b
        });
        lemma_bres_shape(x0 as int, y0 as int, 0, dx as int, dy_abs as int, sy as int, x1 as int);
    }

    let mut err: i64 = 0;
    let mut y: i64 = y0 as i64;
    let mut x: usize = x0;
    let ghost mut k: int = 0;

    proof {
        assert(2 * (dy_abs as int) * 0 == 0) by (nonlinear_arith);
        assert(2 * (dx as int) * 0 == 0) by (nonlinear_arith);
    }

    while x <= x1
        invariant
            x0 <= x <= x1 + 1,
            image.wf(),
            image.cols == old(image).cols,
            image.rows == old(image).rows,
            x1 <= MAX_DIM,
            old(image).cols <= MAX_DIM,
            old(image).rows <= MAX_DIM,
            dx == x1 - x0,
            0 <= dy_abs <= dx,
            sy == 1 || sy == -1,
            sy == 1 ==> y1 == y0 + dy_abs,
            sy == -1 ==> y1 == y0 - dy_abs,
            steep ==> x1 < old(image).rows && y0 < old(image).cols && y1 < old(image).cols,
            !steep ==> x1 < old(image).cols && y0 < old(image).rows && y1 < old(image).rows,
            b.len() == dx + 1,
            0 <= k,
            err == 2 * (dy_abs as int) * (x - x0) - 2 * (dx as int) * k,
            sy == 1 ==> y == y0 + k,
            sy == -1 ==> y == y0 - k,
            dx > 0 ==> -dx < err && err <= dx,
            dx == 0 ==> err == 0 && k == 0,
            b == b.take(x - x0) + bres_seq(
                x as int,
                y as int,
                err as int,
                dx as int,
                dy_abs as int,
                sy as int,
                x1 as int,
            ),
            forall|px: int, py: int|
                0 <= px < old(image).cols && 0 <= py < old(image).rows
                    ==> image.color_at(px, py) == (if walk_prefix_covers(
                    b,
                    x - x0,
                    steep,
                    px,
                    py,
                ) {
                    color
                } else {
                    old(image).color_at(px, py)
                }),
            x > x1 ==> b.contains((x1 as int, y1 as int)),
        decreases x1 + 1 - x,
    {
        let ghost n = x - x0;
        let ghost y_at: int = y as int;
        let ghost rest = bres_seq(
            x as int,
            y as int,
            err as int,
            dx as int,
            dy_abs as int,
            sy as int,
            x1 as int,
        );

        proof {
            // The number of minor steps taken so far stays within bounds, so
            // the current minor coordinate lies between the two endpoints.
            if dx > 0 {
                lemma_step_count_bounds(dx as int, dy_abs as int, k, x - x0, err as int);
            }
            assert(0 <= k <= dy_abs);
            if sy == 1 {
                assert(y0 <= y <= y0 + dy_abs);
            } else {
                assert(y0 - dy_abs <= y <= y0);
            }
            // The walk's next position is the head of its remaining suffix.
            lemma_bres_shape(
                x as int,
                y as int,
                err as int,
                dx as int,
                dy_abs as int,
                sy as int,
                x1 as int,
            );
            assert(b[n as int] == (x as int, y as int));
            // When the far endpoint is reached, the error window pins the
            // minor coordinate to the far endpoint's.
            if x == x1 {
                if dx > 0 {
                    lemma_step_count_final(dx as int, dy_abs as int, k, err as int);
                }
                assert(y == y1 as i64);
                assert(b.contains((x1 as int, y1 as int))) by {
                    assert(b[n as int] == (x1 as int, y1 as int));
                }
            }
        }

        if steep {
            image.set(y as usize, x, color);
        } else {
            image.set(x, y as usize, color);
        }

        proof {
            lemma_walk_prefix_extend(b, n as int, steep);
            assert(b.take(n + 1) =~= b.take(n as int) + seq![(x as int, y_at)]);
            assert(2 * (dy_abs as int) * (x + 1 - x0) == 2 * (dy_abs as int) * (x - x0) + 2 * (
            dy_abs as int)) by (nonlinear_arith);
            assert(2 * (dx as int) * (k + 1) == 2 * (dx as int) * k + 2 * (dx as int))
                by (nonlinear_arith);
        }

        err = err + 2 * dy_abs;
        if err > dx {
            y = y + sy;
            err = err - 2 * dx;
            proof {
                k = k + 1;
            }
        }

        proof {
            assert(b == b.take(n + 1) + bres_seq(
                x + 1,
                y as int,
                err as int,
                dx as int,
                dy_abs as int,
                sy as int,
                x1 as int,
            )) by {
                assert(rest == seq![(x as int, y_at)] + bres_seq(
                    x + 1,
                    y as int,
                    err as int,
                    dx as int,
                    dy_abs as int,
                    sy as int,
                    x1 as int,
                ));
                assert(b.take(n as int) + rest =~= (b.take(n as int) + seq![(x as int, y_at)])
                    + bres_seq(
                    x + 1,
                    y as int,
                    err as int,
                    dx as int,
                    dy_abs as int,
                    sy as int,
                    x1 as int,
                ));
            }
        }

        x = x + 1;
    }

    proof {
        assert(x == x1 + 1);
        assert(b.take(x - x0) =~= b);

        // The walk's endpoints are the normalized endpoints, which are the
        // (possibly transposed) original endpoints in one order or the other.
        assert(b.contains((x0 as int, y0 as int))) by {
            assert(b[0] == (x0 as int, y0 as int));
        }
        let ghost gv0: (int, int) = if steep {
            (v0.y as int, v0.x as int)
        } else {
            (v0.x as int, v0.y as int)
        };
        let ghost gv1: (int, int) = if steep {
            (v1.y as int, v1.x as int)
        } else {
            (v1.x as int, v1.y as int)
        };
        assert(((x0 as int, y0 as int) == gv0 && (x1 as int, y1 as int) == gv1) || ((
        x0 as int,
        y0 as int,
        ) == gv1 && (x1 as int, y1 as int) == gv0));
        assert(b.contains(gv0) && b.contains(gv1));

        // Bridge between walk positions and framebuffer pixels.
        lemma_walk_full_covers(b, steep, line_seq(v0, v1));

        // Both original endpoints are on the drawn path.
        assert(walk_prefix_covers(b, b.len() as int, steep, v0.x as int, v0.y as int)) by {
            let i = choose|i: int| 0 <= i < b.len() && b[i] == gv0;
            assert(0 <= i < b.len() && b[i] == (if steep {
                (v0.y as int, v0.x as int)
            } else {
                (v0.x as int, v0.y as int)
            }));
        }
        assert(walk_prefix_covers(b, b.len() as int, steep, v1.x as int, v1.y as int)) by {
            let i = choose|i: int| 0 <= i < b.len() && b[i] == gv1;
            assert(0 <= i < b.len() && b[i] == (if steep {
                (v1.y as int, v1.x as int)
            } else {
                (v1.x as int, v1.y as int)
            }));
        }
        assert(line_seq(v0, v1).contains((v0.x as int, v0.y as int)));
        assert(line_seq(v0, v1).contains((v1.x as int, v1.y as int)));

        // The picture after the loop is the picture before the call with the
        // whole path overwritten.
        assert forall|px: int, py: int|
            0 <= px < old(image).cols && 0 <= py < old(image).rows implies image.color_at(px, py)
                == (if line_seq(v0, v1).contains((px, py)) {
                color
            } else {
                old(image).color_at(px, py)
            }) by {
            assert(line_seq(v0, v1).contains((px, py)) <==> walk_prefix_covers(
                b,
                b.len() as int,
                steep,
                px,
                py,
            ));
        }
    }
}

// ---------------------------------------------------------------------------
// Triangle rasterization
// ---------------------------------------------------------------------------

/// Texture coordinates are fractions of the texture extent over this fixed
/// denominator.
pub const TEX_SCALE: u32 = 0x1_0000;

/// An affine texture coordinate: the point (`u / TEX_SCALE`, `v / TEX_SCALE`)
/// of the nominal unit square. The rasterizer asks for both components to be
/// positive and at most one, which keeps every sampled texel on the texture.
#[derive(Clone, Copy, Debug, PartialEq, Eq, Structural)]
pub struct TexCoord {
    /// Horizontal fraction numerator.
    pub u: u32,
    /// Vertical fraction numerator.
    pub v: u32,
}

impl TexCoord {
    /// Both fractions lie in the half-open unit interval (0, 1].
    pub open spec fn wf(self) -> bool {
        1 <= self.u <= TEX_SCALE && 1 <= self.v <= TEX_SCALE
    }

    /// Builds the texture coordinate (`u / TEX_SCALE`, `v / TEX_SCALE`).
    pub fn new(u: u32, v: u32) -> (r: TexCoord)
        ensures
            r == (TexCoord { u, v }),
    {
        TexCoord { u, v }
    }
}

/// The least of three values.
pub open spec fn min3(a: int, b: int, c: int) -> int {
    if a <= b && a <= c {
        a
    } else if b <= c {
        b
    } else {
        c
    }
}

/// The greatest of three values.
pub open spec fn max3(a: int, b: int, c: int) -> int {
    if a >= b && a >= c {
        a
    } else if b >= c {
        b
    } else {
        c
    }
}

/// Leftmost column of the triangle's screen bounding box. The vertices are
/// already clamped into the framebuffer, so the box needs no further
/// clamping.
pub open spec fn bbox_xlo(a: Vec2, b: Vec2, c: Vec2) -> int {
    min3(a.x as int, b.x as int, c.x as int)
}

/// Rightmost column of the triangle's screen bounding box.
pub open spec fn bbox_xhi(a: Vec2, b: Vec2, c: Vec2) -> int {
    max3(a.x as int, b.x as int, c.x as int)
}

/// Bottom row of the triangle's screen bounding box.
pub open spec fn bbox_ylo(a: Vec2, b: Vec2, c: Vec2) -> int {
    min3(a.y as int, b.y as int, c.y as int)
}

/// Top row of the triangle's screen bounding box.
pub open spec fn bbox_yhi(a: Vec2, b: Vec2, c: Vec2) -> int {
    max3(a.y as int, b.y as int, c.y as int)
}

/// Whether pixel (`px`, `py`) lies in the triangle's screen bounding box;
/// only those pixels are candidates of the scan.
pub open spec fn in_bbox(a: Vec2, b: Vec2, c: Vec2, px: int, py: int) -> bool {
    bbox_xlo(a, b, c) <= px <= bbox_xhi(a, b, c) && bbox_ylo(a, b, c) <= py <= bbox_yhi(a, b, c)
}

/// The texel picked along one axis for a pixel at offset `off` within a
/// screen bounding box of extent `span`: the pixel's position ratio
/// `off / span` is mapped into the texture coordinate box `[tlo, thi]`
/// (fractions over `TEX_SCALE`), scaled by the texture extent `dim`, and
/// flipped (`dim` minus the value, rounded down) because the texture's
/// origin is at the bottom left while the ratio grows from the top left.
pub open spec fn texel_coord(tlo: int, thi: int, off: int, span: int, dim: int) -> int {
    dim - ((tlo * span + (thi - tlo) * off) * dim + TEX_SCALE * span - 1) / (TEX_SCALE * span)
}

/// Column of the texel sampled for screen column `px`.
pub open spec fn sample_x(
    a: Vec2,
    b: Vec2,
    c: Vec2,
    ta: TexCoord,
    tb: TexCoord,
    tc: TexCoord,
    w: int,
    px: int,
) -> int {
    texel_coord(
        min3(ta.u as int, tb.u as int, tc.u as int),
        max3(ta.u as int, tb.u as int, tc.u as int),
        px - bbox_xlo(a, b, c),
        bbox_xhi(a, b, c) - bbox_xlo(a, b, c),
        w,
    )
}

/// Row of the texel sampled for screen row `py`.
pub open spec fn sample_y(
    a: Vec2,
    b: Vec2,
    c: Vec2,
    ta: TexCoord,
    tb: TexCoord,
    tc: TexCoord,
    h: int,
    py: int,
) -> int {
    texel_coord(
        min3(ta.v as int, tb.v as int, tc.v as int),
        max3(ta.v as int, tb.v as int, tc.v as int),
        py - bbox_ylo(a, b, c),
        bbox_yhi(a, b, c) - bbox_ylo(a, b, c),
        h,
    )
}

/// The color a covered pixel receives: the sampled texel scaled channel-wise
/// by the shading intensity.
pub open spec fn sampled_color(
    a: Vec2,
    b: Vec2,
    c: Vec2,
    ta: TexCoord,
    tb: TexCoord,
    tc: TexCoord,
    tex: TgaImage,
    it: Intensity,
    px: int,
    py: int,
) -> Vec3 {
    tex.texel_at(
        sample_x(a, b, c, ta, tb, tc, tex.width as int, px),
        sample_y(a, b, c, ta, tb, tc, tex.height as int, py),
    ).spec_scale(it.num as int, it.den as int)
}

/// What the scan does to one candidate pixel: a pixel covered by the
/// triangle whose depth slot is still empty gets depth 0 and the sampled
/// color; every other candidate keeps both its depth and its color.
pub open spec fn pixel_written(
    a: Vec2,
    b: Vec2,
    c: Vec2,
    ta: TexCoord,
    tb: TexCoord,
    tc: TexCoord,
    tex: TgaImage,
    it: Intensity,
    img0: Image,
    zb0: Seq<i64>,
    img1: Image,
    zb1: Seq<i64>,
    px: int,
    py: int,
) -> bool {
    let zi = px + py * img0.cols;
    if inside_triangle(a, b, c, px, py) && zb0[zi] < 0 {
        zb1[zi] == 0 && img1.color_at(px, py) == sampled_color(
            a,
            b,
            c,
            ta,
            tb,
            tc,
            tex,
            it,
            px,
            py,
        )
    } else {
        zb1[zi] == zb0[zi] && img1.color_at(px, py) == img0.color_at(px, py)
    }
}

/// A pixel the scan has not touched keeps its depth and its color.
pub open spec fn pixel_kept(
    img0: Image,
    zb0: Seq<i64>,
    img1: Image,
    zb1: Seq<i64>,
    px: int,
    py: int,
) -> bool {
    let zi = px + py * img0.cols;
    zb1[zi] == zb0[zi] && img1.color_at(px, py) == img0.color_at(px, py)
}

/// The inputs the triangle rasterizer works on: a framebuffer extent within
/// bounds, pre-clamped vertices, a well-formed texture of positive extent,
/// texture coordinates in the unit square, and a nonnegative intensity of at
/// most one.
pub open spec fn raster_inputs_ok(
    a: Vec2,
    b: Vec2,
    c: Vec2,
    ta: TexCoord,
    tb: TexCoord,
    tc: TexCoord,
    tex: TgaImage,
    it: Intensity,
    cols: int,
    rows: int,
) -> bool {
    &&& 1 <= cols <= MAX_DIM
    &&& 1 <= rows <= MAX_DIM
    &&& a.x < cols && a.y < rows
    &&& b.x < cols && b.y < rows
    &&& c.x < cols && c.y < rows
    &&& tex.wf()
    &&& 1 <= tex.width
    &&& 1 <= tex.height
    &&& ta.wf() && tb.wf() && tc.wf()
    &&& it.wf()
    &&& 0 <= it.num
}

/// The full effect of one triangle scan: the buffers keep their extents, and
/// every pixel of the screen bounding box is written or kept as
/// `pixel_written` says, while every pixel outside the box is untouched.
pub open spec fn triangle_post(
    a: Vec2,
    b: Vec2,
    c: Vec2,
    ta: TexCoord,
    tb: TexCoord,
    tc: TexCoord,
    tex: TgaImage,
    it: Intensity,
    img0: Image,
    zb0: Seq<i64>,
    img1: Image,
    zb1: Seq<i64>,
) -> bool {
    &&& img1.cols == img0.cols
    &&& img1.rows == img0.rows
    &&& zb1.len() == zb0.len()
    &&& forall|px: int, py: int|
        0 <= px < img0.cols && 0 <= py < img0.rows && in_bbox(a, b, c, px, py)
            ==> #[trigger] pixel_written(a, b, c, ta, tb, tc, tex, it, img0, zb0, img1, zb1, px, py)
    &&& forall|px: int, py: int|
        0 <= px < img0.cols && 0 <= py < img0.rows && !in_bbox(a, b, c, px, py)
            ==> #[trigger] pixel_kept(img0, zb0, img1, zb1, px, py)
}

/// A row-major depth index built from in-range coordinates stays inside the
/// buffer.
proof fn lemma_grid_index_bounds(px: int, py: int, cols: int, rows: int)
    by (nonlinear_arith)
    requires
        0 <= px < cols,
        0 <= py < rows,
    ensures
        0 <= px + py * cols < rows * cols,
{
}

/// Distinct pixels use distinct depth slots.
proof fn lemma_grid_index_distinct(px: int, py: int, qx: int, qy: int, cols: int)
    by (nonlinear_arith)
    requires
        0 <= px < cols,
        0 <= qx < cols,
        0 <= py,
        0 <= qy,
        !(px == qx && py == qy),
    ensures
        px + py * cols != qx + qy * cols,
{
}

/// A triangle whose vertices share one column is degenerate.
pub proof fn lemma_flat_column_degenerate(a: Vec2, b: Vec2, c: Vec2)
    requires
        a.x == b.x && a.x == c.x,
    ensures
        bary_den(a, b, c) == 0,
{
    assert((c.x - a.x) * (b.y - a.y) - (b.x - a.x) * (c.y - a.y) == 0) by (nonlinear_arith)
        requires
            a.x == b.x && a.x == c.x,
    ;
}

/// A triangle whose vertices share one row is degenerate.
pub proof fn lemma_flat_row_degenerate(a: Vec2, b: Vec2, c: Vec2)
    requires
        a.y == b.y && a.y == c.y,
    ensures
        bary_den(a, b, c) == 0,
{
    assert((c.x - a.x) * (b.y - a.y) - (b.x - a.x) * (c.y - a.y) == 0) by (nonlinear_arith)
        requires
            a.y == b.y && a.y == c.y,
    ;
}

/// The sampled texel coordinate stays on the texture: with both texture
/// coordinates positive and at most one, the flipped ceiling division lands
/// in `[0, dim)`.
pub proof fn lemma_texel_coord_range(tlo: int, thi: int, off: int, span: int, dim: int)
    requires
        1 <= tlo <= thi <= TEX_SCALE,
        0 <= off <= span,
        1 <= span,
        1 <= dim,
    ensures
        0 <= texel_coord(tlo, thi, off, span, dim) < dim,
        1 <= ((tlo * span + (thi - tlo) * off) * dim + TEX_SCALE * span - 1) / (TEX_SCALE * span)
            <= dim,
{
    let n = (tlo * span + (thi - tlo) * off) * dim;
    let d = TEX_SCALE * span;
    assert(1 <= d && 1 <= n && n <= d * dim) by (nonlinear_arith)
        requires
            1 <= tlo <= thi <= TEX_SCALE as int,
            0 <= off <= span,
            1 <= span,
            1 <= dim,
            TEX_SCALE == 0x1_0000u32,
            n == (tlo * span + (thi - tlo) * off) * dim,
            d == TEX_SCALE * span,
    ;
    lemma_div_by_self(d);
    lemma_div_is_ordered(d, n + d - 1, d);
    lemma_fundamental_div_mod_converse(d * dim + d - 1, d, dim, d - 1);
    lemma_div_is_ordered(n + d - 1, d * dim + d - 1, d);
}

/// A product of nonnegative factors is bounded by the product of the bounds.
proof fn lemma_mul_bounds(a: int, b: int, amin: int, amax: int, bmin: int, bmax: int)
    by (nonlinear_arith)
    requires
        0 <= amin <= a <= amax,
        0 <= bmin <= b <= bmax,
    ensures
        amin * bmin <= a * b <= amax * bmax,
{
}

/// Scan-converts the triangle with vertices `pts` and texture coordinates
/// `texture_coords` into the framebuffer: every pixel of the screen bounding
/// box that the barycentric test covers and whose depth slot is still empty
/// (negative) gets depth 0 and the texture color sampled for it, scaled by
/// `intensity`; every other pixel keeps its depth and color.
///
/// Callers pre-clamp the vertices into the framebuffer and keep the texture
/// coordinates inside the half-open unit square, as `raster_inputs_ok` says;
/// out-of-range inputs are contract violations of the caller, not handled
/// here.
#[verifier::rlimit(100)]
pub fn triangle(
    pts: [Vec2; 3],
    texture_coords: [TexCoord; 3],
    zbuffer: &mut Vec<i64>,
    texture: &TgaImage,
    intensity: Intensity,
    image: &mut Image,
)
    requires
        old(image).wf(),
        raster_inputs_ok(
            pts[0],
            pts[1],
            pts[2],
            texture_coords[0],
            texture_coords[1],
            texture_coords[2],
            *texture,
            intensity,
            old(image).cols as int,
            old(image).rows as int,
        ),
        old(zbuffer)@.len() == old(image).rows * old(image).cols,
    ensures
        final(image).wf(),
        final(image).cols == old(image).cols,
        final(image).rows == old(image).rows,
        final(zbuffer)@.len() == old(zbuffer)@.len(),
        triangle_post(
            pts[0],
            pts[1],
            pts[2],
            texture_coords[0],
            texture_coords[1],
            texture_coords[2],
            *texture,
            intensity,
            *old(image),
            old(zbuffer)@,
            *final(image),
            final(zbuffer)@,
        ),
{
    let a = pts[0];
    let b = pts[1];
    let c = pts[2];
    let ta = texture_coords[0];
    let tb = texture_coords[1];
    let tc = texture_coords[2];
    let cols = image.cols;
    let rows = image.rows;

    // The depth buffer holds one slot per pixel, so the whole grid is
    // addressable.
    let zlen = zbuffer.len();
    proof {
        assert(zlen == old(zbuffer)@.len());
    }

    // Screen bounding box. The vertices are pre-clamped into the
    // framebuffer, so taking plain minima and maxima already yields the
    // clamped box.
    let mut xlo = a.x;
    if b.x < xlo {
        xlo = b.x;
    }
    if c.x < xlo {
        xlo = c.x;
    }
    let mut xhi = a.x;
    if b.x > xhi {
        xhi = b.x;
    }
    if c.x > xhi {
        xhi = c.x;
    }
    let mut ylo = a.y;
    if b.y < ylo {
        ylo = b.y;
    }
    if c.y < ylo {
        ylo = c.y;
    }
    let mut yhi = a.y;
    if b.y > yhi {
        yhi = b.y;
    }
    if c.y > yhi {
        yhi = c.y;
    }

    // Bounding box of the texture coordinates, computed independently.
    let mut tulo = ta.u;
    if tb.u < tulo {
        tulo = tb.u;
    }
    if tc.u < tulo {
        tulo = tc.u;
    }
    let mut tuhi = ta.u;
    if tb.u > tuhi {
        tuhi = tb.u;
    }
    if tc.u > tuhi {
        tuhi = tc.u;
    }
    let mut tvlo = ta.v;
    if tb.v < tvlo {
        tvlo = tb.v;
    }
    if tc.v < tvlo {
        tvlo = tc.v;
    }
    let mut tvhi = ta.v;
    if tb.v > tvhi {
        tvhi = tb.v;
    }
    if tc.v > tvhi {
        tvhi = tc.v;
    }

    let mut x = xlo;
    while x <= xhi
        invariant
            image.wf(),
            image.cols == old(image).cols,
            image.rows == old(image).rows,
            cols == old(image).cols,
            rows == old(image).rows,
            zbuffer@.len() == old(zbuffer)@.len(),
            old(zbuffer)@.len() == rows * cols,
            old(zbuffer)@.len() <= usize::MAX,
            raster_inputs_ok(a, b, c, ta, tb, tc, *texture, intensity, cols as int, rows as int),
            a == pts[0] && b == pts[1] && c == pts[2],
            xlo == bbox_xlo(a, b, c),
            xhi == bbox_xhi(a, b, c),
            ylo == bbox_ylo(a, b, c),
            yhi == bbox_yhi(a, b, c),
            xhi < cols,
            yhi < rows,
            tulo == min3(ta.u as int, tb.u as int, tc.u as int),
            tuhi == max3(ta.u as int, tb.u as int, tc.u as int),
            tvlo == min3(ta.v as int, tb.v as int, tc.v as int),
            tvhi == max3(ta.v as int, tb.v as int, tc.v as int),
            xlo <= x <= xhi + 1,
            forall|px: int, py: int|
                0 <= px < cols && 0 <= py < rows && in_bbox(a, b, c, px, py) && px < x
                    ==> #[trigger] pixel_written(
                    a,
                    b,
                    c,
                    ta,
                    tb,
                    tc,
                    *texture,
                    intensity,
                    *old(image),
                    old(zbuffer)@,
                    *image,
                    zbuffer@,
                    px,
                    py,
                ),
            forall|px: int, py: int|
                0 <= px < cols && 0 <= py < rows && !(in_bbox(a, b, c, px, py) && px < x)
                    ==> #[trigger] pixel_kept(
                    *old(image),
                    old(zbuffer)@,
                    *image,
                    zbuffer@,
                    px,
                    py,
                ),
        decreases xhi + 1 - x,
    {
        let mut y = ylo;
        while y <= yhi
            invariant
                image.wf(),
                image.cols == old(image).cols,
                image.rows == old(image).rows,
                cols == old(image).cols,
                rows == old(image).rows,
                zbuffer@.len() == old(zbuffer)@.len(),
                old(zbuffer)@.len() == rows * cols,
                old(zbuffer)@.len() <= usize::MAX,
                raster_inputs_ok(
                    a,
                    b,
                    c,
                    ta,
                    tb,
                    tc,
                    *texture,
                    intensity,
                    cols as int,
                    rows as int,
                ),
                a == pts[0] && b == pts[1] && c == pts[2],
                xlo == bbox_xlo(a, b, c),
                xhi == bbox_xhi(a, b, c),
                ylo == bbox_ylo(a, b, c),
                yhi == bbox_yhi(a, b, c),
                xhi < cols,
                yhi < rows,
                tulo == min3(ta.u as int, tb.u as int, tc.u as int),
                tuhi == max3(ta.u as int, tb.u as int, tc.u as int),
                tvlo == min3(ta.v as int, tb.v as int, tc.v as int),
                tvhi == max3(ta.v as int, tb.v as int, tc.v as int),
                xlo <= x <= xhi,
                ylo <= y <= yhi + 1,
                forall|px: int, py: int|
                    0 <= px < cols && 0 <= py < rows && in_bbox(a, b, c, px, py) && (px < x || (px
                        == x && py < y)) ==> #[trigger] pixel_written(
                        a,
                        b,
                        c,
                        ta,
                        tb,
                        tc,
                        *texture,
                        intensity,
                        *old(image),
                        old(zbuffer)@,
                        *image,
                        zbuffer@,
                        px,
                        py,
                    ),
                forall|px: int, py: int|
                    0 <= px < cols && 0 <= py < rows && !(in_bbox(a, b, c, px, py) && (px < x || (
                    px == x && py < y))) ==> #[trigger] pixel_kept(
                        *old(image),
                        old(zbuffer)@,
                        *image,
                        zbuffer@,
                        px,
                        py,
                    ),
            decreases yhi + 1 - y,
        {
            let ghost img_in = *image;
            let ghost zb_in = zbuffer@;

            let p = Vec2 { x, y };
            let bc = barycentric(pts, p);

            if bc.is_inside() {
                proof {
                    assert(inside_triangle(a, b, c, x as int, y as int));
                    // A covered pixel rules the degenerate boxes out: a box
                    // that is flat in either direction means a degenerate
                    // triangle, which covers nothing.
                    if xlo == xhi {
                        lemma_flat_column_degenerate(a, b, c);
                        assert(false);
                    }
                    if ylo == yhi {
                        lemma_flat_row_degenerate(a, b, c);
                        assert(false);
                    }
                    lemma_grid_index_bounds(x as int, y as int, cols as int, rows as int);
                }
                let zi = x + y * cols;

                if zbuffer[zi] < 0 {
                    // The pixel is covered for the first time: the constant
                    // simulated depth 0 wins over the empty slot.
                    zbuffer[zi] = 0;

                    let w = texture.width;
                    let h = texture.height;

                    // Map the pixel's position ratio within the screen box
                    // into the texture coordinate box, scale by the texture
                    // extent, and flip each axis for the bottom-left origin.
                    let span_x = xhi - xlo;
                    let off_x = x - xlo;
                    proof {
                        lemma_mul_bounds(tulo as int, span_x as int, 0, 0x1_0000, 1, 0x10_0000);
                        lemma_mul_bounds(
                            (tuhi - tulo) as int,
                            off_x as int,
                            0,
                            0x1_0000,
                            0,
                            0x10_0000,
                        );
                        lemma_mul_bounds(0x1_0000, span_x as int, 0x1_0000, 0x1_0000, 1, 0x10_0000);
                        lemma_texel_coord_range(
                            tulo as int,
                            tuhi as int,
                            off_x as int,
                            span_x as int,
                            w as int,
                        );
                    }
                    let nx: u64 = (tulo as u64) * (span_x as u64) + ((tuhi - tulo) as u64) * (
                    off_x as u64);
                    proof {
                        lemma_mul_bounds(nx as int, w as int, 0, 0x20_0000_0000, 0, 0xFFFF);
                    }
                    let dnx: u64 = (TEX_SCALE as u64) * (span_x as u64);
                    let qx: u64 = (nx * (w as u64) + dnx - 1) / dnx;
                    let tcx = (w as u64 - qx) as usize;

                    let span_y = yhi - ylo;
                    let off_y = y - ylo;
                    proof {
                        lemma_mul_bounds(tvlo as int, span_y as int, 0, 0x1_0000, 1, 0x10_0000);
                        lemma_mul_bounds(
                            (tvhi - tvlo) as int,
                            off_y as int,
                            0,
                            0x1_0000,
                            0,
                            0x10_0000,
                        );
                        lemma_mul_bounds(0x1_0000, span_y as int, 0x1_0000, 0x1_0000, 1, 0x10_0000);
                        lemma_texel_coord_range(
                            tvlo as int,
                            tvhi as int,
                            off_y as int,
                            span_y as int,
                            h as int,
                        );
                    }
                    let ny: u64 = (tvlo as u64) * (span_y as u64) + ((tvhi - tvlo) as u64) * (
                    off_y as u64);
                    proof {
                        lemma_mul_bounds(ny as int, h as int, 0, 0x20_0000_0000, 0, 0xFFFF);
                    }
                    let dny: u64 = (TEX_SCALE as u64) * (span_y as u64);
                    let qy: u64 = (ny * (h as u64) + dny - 1) / dny;
                    let tcy = (h as u64 - qy) as usize;

                    proof {
                        assert(tcx as int == sample_x(a, b, c, ta, tb, tc, w as int, x as int));
                        assert(tcy as int == sample_y(a, b, c, ta, tb, tc, h as int, y as int));
                    }

                    let tex_color = texture.texel(tcx, tcy);
                    let shaded = tex_color.scale(intensity.num, intensity.den);
                    image.set(x, y, shaded);

                    proof {
                        assert(shaded == sampled_color(
                            a,
                            b,
                            c,
                            ta,
                            tb,
                            tc,
                            *texture,
                            intensity,
                            x as int,
                            y as int,
                        ));
                    }
                }
            }

            // The pixel just visited is accounted for, written or kept; every
            // other pixel's depth slot and color are untouched.
            proof {
                lemma_grid_index_bounds(x as int, y as int, cols as int, rows as int);
                assert(pixel_kept(*old(image), old(zbuffer)@, img_in, zb_in, x as int, y as int));
                assert forall|px: int, py: int|
                    0 <= px < cols && 0 <= py < rows && in_bbox(a, b, c, px, py) && (px < x || (px
                        == x && py < y + 1)) implies #[trigger] pixel_written(
                    a,
                    b,
                    c,
                    ta,
                    tb,
                    tc,
                    *texture,
                    intensity,
                    *old(image),
                    old(zbuffer)@,
                    *image,
                    zbuffer@,
                    px,
                    py,
                ) by {
                    lemma_grid_index_bounds(px, py, cols as int, rows as int);
                    if px == x && py == y {
                    } else {
                        lemma_grid_index_distinct(px, py, x as int, y as int, cols as int);
                        assert(pixel_written(
                            a,
                            b,
                            c,
                            ta,
                            tb,
                            tc,
                            *texture,
                            intensity,
                            *old(image),
                            old(zbuffer)@,
                            img_in,
                            zb_in,
                            px,
                            py,
                        ));
                    }
                }
                assert forall|px: int, py: int|
                    0 <= px < cols && 0 <= py < rows && !(in_bbox(a, b, c, px, py) && (px < x || (
                    px == x && py < y + 1))) implies #[trigger] pixel_kept(
                    *old(image),
                    old(zbuffer)@,
                    *image,
                    zbuffer@,
                    px,
                    py,
                ) by {
                    lemma_grid_index_bounds(px, py, cols as int, rows as int);
                    lemma_grid_index_distinct(px, py, x as int, y as int, cols as int);
                    assert(pixel_kept(*old(image), old(zbuffer)@, img_in, zb_in, px, py));
                }
            }

            y = y + 1;
        }
        x = x + 1;
    }
}

/// Renders one mesh face: a face whose shading intensity is nonpositive is
/// back-facing or edge-on and is skipped without touching any buffer — the
/// only visibility culling performed. A face lit from the front is handed to
/// the triangle rasterizer unchanged.
pub fn render_face(
    pts: [Vec2; 3],
    texture_coords: [TexCoord; 3],
    zbuffer: &mut Vec<i64>,
    texture: &TgaImage,
    intensity: Intensity,
    image: &mut Image,
)
    requires
        old(image).wf(),
        0 < intensity.num ==> raster_inputs_ok(
            pts[0],
            pts[1],
            pts[2],
            texture_coords[0],
            texture_coords[1],
            texture_coords[2],
            *texture,
            intensity,
            old(image).cols as int,
            old(image).rows as int,
        ) && old(zbuffer)@.len() == old(image).rows * old(image).cols,
    ensures
        final(image).wf(),
        final(image).cols == old(image).cols,
        final(image).rows == old(image).rows,
        final(zbuffer)@.len() == old(zbuffer)@.len(),
        intensity.num <= 0 ==> *final(image) == *old(image) && final(zbuffer)@ == old(zbuffer)@,
        0 < intensity.num ==> triangle_post(
            pts[0],
            pts[1],
            pts[2],
            texture_coords[0],
            texture_coords[1],
            texture_coords[2],
            *texture,
            intensity,
            *old(image),
            old(zbuffer)@,
            *final(image),
            final(zbuffer)@,
        ),
{
    if intensity.num <= 0 {
        return ;
    }
    triangle(pts, texture_coords, zbuffer, texture, intensity, image);
}

} // verus!
