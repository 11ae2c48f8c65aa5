//! Properties of the rasterization engine, stated and proved once and for
//! all: the barycentric test classifies interior and exterior points, line
//! rasterization is endpoint-symmetric, 8-connected and endpoint-inclusive,
//! the depth test lets the first triangle drawn keep a pixel, and a uniform
//! texture shades every covered pixel with one scaled color.

use vstd::prelude::*;

use crate::geometry::{
    bary_den,
    bary_num_a,
    bary_num_b,
    bary_num_c,
    bres_seq,
    in_bbox,
    inside_triangle,
    lemma_bres_shape,
    lemma_flat_column_degenerate,
    lemma_flat_row_degenerate,
    lemma_step_count_final,
    lemma_texel_coord_range,
    line_seq,
    mag,
    max3,
    min3,
    pixel_kept,
    pixel_written,
    raster_inputs_ok,
    sample_x,
    sample_y,
    sampled_color,
    transpose_seq,
    triangle_post,
    Intensity,
    TexCoord,
};
use crate::image::Image;
use crate::tga::TgaImage;
use crate::vec2::Vec2;
use crate::vec3::Vec3;

verus! {

// ---------------------------------------------------------------------------
// Barycentric weights classify interior and exterior points
// ---------------------------------------------------------------------------

/// Twice the signed area of the triangle (`a`, `b`, `p`): the edge function
/// of the directed edge from `a` to `b`, evaluated at (`px`, `py`).
pub open spec fn edge(a: Vec2, b: Vec2, px: int, py: int) -> int {
    (b.x - a.x) * (py - a.y) - (b.y - a.y) * (px - a.x)
}

/// Twice the signed area of the triangle (`a`, `b`, `c`); nonzero exactly
/// when the triangle has positive screen area.
pub open spec fn tri_area2(a: Vec2, b: Vec2, c: Vec2) -> int {
    edge(a, b, c.x as int, c.y as int)
}

/// A point strictly interior to the triangle: strictly on the inner side of
/// all three directed edges.
pub open spec fn strictly_inside(a: Vec2, b: Vec2, c: Vec2, px: int, py: int) -> bool {
    let d = tri_area2(a, b, c);
    if d > 0 {
        edge(a, b, px, py) > 0 && edge(b, c, px, py) > 0 && edge(c, a, px, py) > 0
    } else if d < 0 {
        edge(a, b, px, py) < 0 && edge(b, c, px, py) < 0 && edge(c, a, px, py) < 0
    } else {
        false
    }
}

/// A point of the closed triangle: on the inner side of, or exactly on, all
/// three directed edges. Its negation is the exterior.
pub open spec fn in_closed_triangle(a: Vec2, b: Vec2, c: Vec2, px: int, py: int) -> bool {
    let d = tri_area2(a, b, c);
    if d > 0 {
        edge(a, b, px, py) >= 0 && edge(b, c, px, py) >= 0 && edge(c, a, px, py) >= 0
    } else if d < 0 {
        edge(a, b, px, py) <= 0 && edge(b, c, px, py) <= 0 && edge(c, a, px, py) <= 0
    } else {
        false
    }
}

/// The barycentric numerators are the negated edge functions, and the
/// denominator is the negated doubled area.
proof fn lemma_bary_edge_identities(a: Vec2, b: Vec2, c: Vec2, px: int, py: int)
    ensures
        bary_num_c(a, b, c, px, py) == -edge(a, b, px, py),
        bary_num_b(a, b, c, px, py) == -edge(c, a, px, py),
        bary_num_a(a, b, c, px, py) == -edge(b, c, px, py),
        bary_den(a, b, c) == -tri_area2(a, b, c),
{
    assert((b.x - a.x) * (a.y - py) - (a.x - px) * (b.y - a.y) == -((b.x - a.x) * (py - a.y) - (b.y
        - a.y) * (px - a.x))) by (nonlinear_arith);
    assert((a.x - px) * (c.y - a.y) - (c.x - a.x) * (a.y - py) == -((a.x - c.x) * (py - c.y) - (a.y
        - c.y) * (px - c.x))) by (nonlinear_arith);
    assert((c.x - a.x) * (b.y - a.y) - (b.x - a.x) * (c.y - a.y) == -((b.x - a.x) * (c.y - a.y) - (
    b.y - a.y) * (c.x - a.x))) by (nonlinear_arith);
    assert(((c.x - a.x) * (b.y - a.y) - (b.x - a.x) * (c.y - a.y)) - ((a.x - px) * (c.y - a.y) - (
    c.x - a.x) * (a.y - py)) - ((b.x - a.x) * (a.y - py) - (a.x - px) * (b.y - a.y)) == -((c.x
        - b.x) * (py - b.y) - (c.y - b.y) * (px - b.x))) by (nonlinear_arith);
}

/// For a triangle of positive screen area, every strictly interior point
/// has all three barycentric weights nonnegative (indeed positive), and the
/// three numerators sum to the denominator exactly: the weights sum to one.
pub proof fn lemma_interior_weights_nonneg(a: Vec2, b: Vec2, c: Vec2, px: int, py: int)
    requires
        tri_area2(a, b, c) != 0,
        strictly_inside(a, b, c, px, py),
    ensures
        inside_triangle(a, b, c, px, py),
        bary_num_a(a, b, c, px, py) + bary_num_b(a, b, c, px, py) + bary_num_c(a, b, c, px, py)
            == bary_den(a, b, c),
{
    lemma_bary_edge_identities(a, b, c, px, py);
}

/// For a triangle of positive screen area, every exterior point has at
/// least one negative barycentric weight: a numerator of the opposite sign
/// of the denominator.
pub proof fn lemma_exterior_weight_negative(a: Vec2, b: Vec2, c: Vec2, px: int, py: int)
    requires
        tri_area2(a, b, c) != 0,
        !in_closed_triangle(a, b, c, px, py),
    ensures
        !inside_triangle(a, b, c, px, py),
        bary_den(a, b, c) > 0 ==> bary_num_a(a, b, c, px, py) < 0 || bary_num_b(a, b, c, px, py)
            < 0 || bary_num_c(a, b, c, px, py) < 0,
        bary_den(a, b, c) < 0 ==> bary_num_a(a, b, c, px, py) > 0 || bary_num_b(a, b, c, px, py)
            > 0 || bary_num_c(a, b, c, px, py) > 0,
{
    lemma_bary_edge_identities(a, b, c, px, py);
}

// ---------------------------------------------------------------------------
// Line rasterization: symmetry, endpoints, connectivity
// ---------------------------------------------------------------------------

/// Rasterizing the segment from `v0` to `v1` visits the same pixels as
/// rasterizing the segment from `v1` to `v0`: the walk normalizes the
/// endpoint order before stepping.
pub proof fn lemma_line_symmetric(v0: Vec2, v1: Vec2)
    ensures
        line_seq(v0, v1) == line_seq(v1, v0),
{
    if v0.x == v1.x && v0.y == v1.y {
    } else {
        assert(mag(v0.x - v1.x) == mag(v1.x - v0.x));
        assert(mag(v0.y - v1.y) == mag(v1.y - v0.y));
    }
}

/// Whether two pixels are distinct 8-neighbors: they differ, and by at most
/// one step along each axis.
pub open spec fn adjacent(p: (int, int), q: (int, int)) -> bool {
    mag(q.0 - p.0) <= 1 && mag(q.1 - p.1) <= 1 && p != q
}

/// Consecutive positions of the error-accumulation walk are 8-neighbors:
/// the major axis advances by one and the minor axis moves by at most one.
proof fn lemma_bres_adjacent(x: int, y: int, err: int, dx: int, dy: int, sy: int, x1: int)
    requires
        sy == 1 || sy == -1,
    ensures
        forall|i: int|
            0 <= i < bres_seq(x, y, err, dx, dy, sy, x1).len() - 1 ==> adjacent(
                #[trigger] bres_seq(x, y, err, dx, dy, sy, x1)[i],
                bres_seq(x, y, err, dx, dy, sy, x1)[i + 1],
            ),
    decreases x1 + 1 - x,
{
    if x <= x1 {
        let s = bres_seq(x, y, err, dx, dy, sy, x1);
        let e2 = err + 2 * dy;
        let yn = if e2 > dx {
            y + sy
        } else {
            y
        };
        let en = if e2 > dx {
            e2 - 2 * dx
        } else {
            e2
        };
        let t = bres_seq(x + 1, yn, en, dx, dy, sy, x1);
        lemma_bres_adjacent(x + 1, yn, en, dx, dy, sy, x1);
        lemma_bres_shape(x, y, err, dx, dy, sy, x1);
        lemma_bres_shape(x + 1, yn, en, dx, dy, sy, x1);
        assert forall|i: int| 0 <= i < s.len() - 1 implies adjacent(#[trigger] s[i], s[i + 1]) by {
            if i == 0 {
                assert(s[0] == (x, y));
                assert(s[1] == t[0]);
                assert(x + 1 <= x1 ==> t[0] == (x + 1, yn));
            } else {
                assert(s[i] == t[i - 1]);
                assert(s[i + 1] == t[i]);
                assert(adjacent(t[i - 1], t[i]));
            }
        }
    }
}

/// Line rasterization produces an 8-connected path: each drawn pixel is an
/// 8-neighbor of the next one.
pub proof fn lemma_line_connected(v0: Vec2, v1: Vec2)
    ensures
        forall|i: int|
            0 <= i < line_seq(v0, v1).len() - 1 ==> adjacent(
                #[trigger] line_seq(v0, v1)[i],
                line_seq(v0, v1)[i + 1],
            ),
{
    let steep = mag(v0.x - v1.x) < mag(v0.y - v1.y);
    let (ax, ay, bx, by): (int, int, int, int) = if steep {
        (v0.y as int, v0.x as int, v1.y as int, v1.x as int)
    } else {
        (v0.x as int, v0.y as int, v1.x as int, v1.y as int)
    };
    let (x0, y0, x1, y1): (int, int, int, int) = if ax > bx {
        (bx, by, ax, ay)
    } else {
        (ax, ay, bx, by)
    };
    let sy: int = if y1 > y0 {
        1
    } else {
        -1
    };
    let walk = bres_seq(x0, y0, 0, x1 - x0, mag(y1 - y0), sy, x1);
    lemma_bres_adjacent(x0, y0, 0, x1 - x0, mag(y1 - y0), sy, x1);
    if steep {
        let ts = transpose_seq(walk);
        assert forall|i: int| 0 <= i < ts.len() - 1 implies adjacent(
            #[trigger] ts[i],
            ts[i + 1],
        ) by {
            assert(adjacent(walk[i], walk[i + 1]));
            assert(ts[i] == (walk[i].1, walk[i].0));
            assert(ts[i + 1] == (walk[i + 1].1, walk[i + 1].0));
        }
    }
}

/// A zero-length segment rasterizes to exactly its one pixel.
pub proof fn lemma_line_zero_length(v: Vec2)
    ensures
        line_seq(v, v) == seq![(v.x as int, v.y as int)],
{
    let walk = bres_seq(v.x as int, v.y as int, 0, 0, 0, -1, v.x as int);
    assert(bres_seq(v.x as int + 1, v.y as int, 0, 0, 0, -1, v.x as int) =~= Seq::empty());
    assert(walk =~= seq![(v.x as int, v.y as int)]);
    assert(line_seq(v, v) == walk);
}

/// The number of minor steps of a whole walk is pinned by the error window,
/// so the walk's last position is the far endpoint.
proof fn lemma_bres_last(
    x: int,
    y: int,
    err: int,
    dx: int,
    dy: int,
    sy: int,
    x1: int,
    k: int,
)
    requires
        x <= x1,
        0 <= dy <= dx,
        sy == 1 || sy == -1,
        err == 2 * dy * (dx - (x1 - x)) - 2 * dx * k,
        dx > 0 ==> -dx < err <= dx,
        dx == 0 ==> err == 0 && k == 0,
    ensures
        bres_seq(x, y, err, dx, dy, sy, x1).last() == (x1, y + sy * (dy - k)),
    decreases x1 - x,
{
    lemma_bres_shape(x, y, err, dx, dy, sy, x1);
    let s = bres_seq(x, y, err, dx, dy, sy, x1);
    let e2 = err + 2 * dy;
    if x == x1 {
        if dx > 0 {
            lemma_step_count_final(dx, dy, k, err);
        }
        assert(k == dy);
        assert(s.len() == 1);
        assert(s[0] == (x, y));
        assert(sy * (dy - k) == 0) by (nonlinear_arith)
            requires
                k == dy,
        ;
    } else {
        let yn = if e2 > dx {
            y + sy
        } else {
            y
        };
        let en = if e2 > dx {
            e2 - 2 * dx
        } else {
            e2
        };
        let kn = if e2 > dx {
            k + 1
        } else {
            k
        };
        assert(2 * dy * (dx - (x1 - x - 1)) == 2 * dy * (dx - (x1 - x)) + 2 * dy)
            by (nonlinear_arith);
        assert(2 * dx * (k + 1) == 2 * dx * k + 2 * dx) by (nonlinear_arith);
        assert(en == 2 * dy * (dx - (x1 - (x + 1))) - 2 * dx * kn);
        if dx == 0 {
            assert(dy == 0 && e2 == 0);
        }
        lemma_bres_last(x + 1, yn, en, dx, dy, sy, x1, kn);
        let t = bres_seq(x + 1, yn, en, dx, dy, sy, x1);
        lemma_bres_shape(x + 1, yn, en, dx, dy, sy, x1);
        assert(s.last() == t.last());
        if e2 > dx {
            assert(yn + sy * (dy - kn) == y + sy * (dy - k)) by (nonlinear_arith)
                requires
                    yn == y + sy,
                    kn == k + 1,
            ;
        }
    }
}

/// Line rasterization colors both endpoints: the walk starts at one and the
/// error window makes it end exactly at the other.
pub proof fn lemma_line_endpoints(v0: Vec2, v1: Vec2)
    ensures
        line_seq(v0, v1).contains((v0.x as int, v0.y as int)),
        line_seq(v0, v1).contains((v1.x as int, v1.y as int)),
{
    let steep = mag(v0.x - v1.x) < mag(v0.y - v1.y);
    let (ax, ay, bx, by): (int, int, int, int) = if steep {
        (v0.y as int, v0.x as int, v1.y as int, v1.x as int)
    } else {
        (v0.x as int, v0.y as int, v1.x as int, v1.y as int)
    };
    let (x0, y0, x1, y1): (int, int, int, int) = if ax > bx {
        (bx, by, ax, ay)
    } else {
        (ax, ay, bx, by)
    };
    let dx = x1 - x0;
    let dy = mag(y1 - y0);
    let sy: int = if y1 > y0 {
        1
    } else {
        -1
    };
    let walk = bres_seq(x0, y0, 0, dx, dy, sy, x1);
    lemma_bres_shape(x0, y0, 0, dx, dy, sy, x1);
    assert(2 * dy * (dx - (x1 - x0)) == 0) by (nonlinear_arith)
        requires
            dx == x1 - x0,
    ;
    assert(2 * dx * 0 == 0) by (nonlinear_arith);
    lemma_bres_last(x0, y0, 0, dx, dy, sy, x1, 0);
    assert(sy * (dy - 0) == sy * dy);
    assert(y0 + sy * dy == y1) by (nonlinear_arith)
        requires
            sy == 1 || sy == -1,
            dy == mag(y1 - y0),
            sy == 1 ==> y1 > y0 || y1 == y0,
            sy == -1 ==> y1 <= y0,
            (if y1 - y0 < 0 {
                mag(y1 - y0) == y0 - y1
            } else {
                mag(y1 - y0) == y1 - y0
            }),
            sy == 1 ==> dy == y1 - y0,
            sy == -1 ==> dy == y0 - y1,
    ;
    assert(walk[0] == (x0, y0));
    assert(walk.last() == (x1, y1));
    assert(walk.contains((x0, y0)));
    assert(walk.contains((x1, y1)));
    if steep {
        let ts = transpose_seq(walk);
        assert forall|qx: int, qy: int| walk.contains((qy, qx)) implies ts.contains(
            (qx, qy),
        ) by {
            let i = choose|i: int| 0 <= i < walk.len() && walk[i] == (qy, qx);
            assert(ts[i] == (qx, qy));
        }
        assert(ts.contains((v0.x as int, v0.y as int)));
        assert(ts.contains((v1.x as int, v1.y as int)));
    }
}

// ---------------------------------------------------------------------------
// Depth monotonicity
// ---------------------------------------------------------------------------

/// For two triangles drawn in order over a shared pixel, the pixel keeps
/// the first triangle's sampled color: the first scan fills the pixel's
/// depth slot, and the later scan's depth test then skips the pixel.
pub proof fn lemma_first_triangle_wins(
    a1: Vec2,
    b1: Vec2,
    c1: Vec2,
    ta1: TexCoord,
    tb1: TexCoord,
    tc1: TexCoord,
    tex1: TgaImage,
    it1: Intensity,
    a2: Vec2,
    b2: Vec2,
    c2: Vec2,
    ta2: TexCoord,
    tb2: TexCoord,
    tc2: TexCoord,
    tex2: TgaImage,
    it2: Intensity,
    img0: Image,
    zb0: Seq<i64>,
    img1: Image,
    zb1: Seq<i64>,
    img2: Image,
    zb2: Seq<i64>,
    px: int,
    py: int,
)
    requires
        triangle_post(a1, b1, c1, ta1, tb1, tc1, tex1, it1, img0, zb0, img1, zb1),
        triangle_post(a2, b2, c2, ta2, tb2, tc2, tex2, it2, img1, zb1, img2, zb2),
        0 <= px < img0.cols,
        0 <= py < img0.rows,
        in_bbox(a1, b1, c1, px, py),
        inside_triangle(a1, b1, c1, px, py),
        zb0[px + py * img0.cols] < 0,
    ensures
        img1.color_at(px, py) == sampled_color(a1, b1, c1, ta1, tb1, tc1, tex1, it1, px, py),
        img2.color_at(px, py) == img1.color_at(px, py),
{
    assert(pixel_written(a1, b1, c1, ta1, tb1, tc1, tex1, it1, img0, zb0, img1, zb1, px, py));
    if in_bbox(a2, b2, c2, px, py) {
        assert(pixel_written(a2, b2, c2, ta2, tb2, tc2, tex2, it2, img1, zb1, img2, zb2, px, py));
    } else {
        assert(pixel_kept(img1, zb1, img2, zb2, px, py));
    }
}

// ---------------------------------------------------------------------------
// Uniform textures
// ---------------------------------------------------------------------------

/// Every pixel a triangle scan writes samples a texel of the texture: both
/// sampled coordinates are in range.
pub proof fn lemma_sample_in_range(
    a: Vec2,
    b: Vec2,
    c: Vec2,
    ta: TexCoord,
    tb: TexCoord,
    tc: TexCoord,
    tex: TgaImage,
    it: Intensity,
    cols: int,
    rows: int,
    px: int,
    py: int,
)
    requires
        raster_inputs_ok(a, b, c, ta, tb, tc, tex, it, cols, rows),
        in_bbox(a, b, c, px, py),
        inside_triangle(a, b, c, px, py),
    ensures
        0 <= sample_x(a, b, c, ta, tb, tc, tex.width as int, px) < tex.width,
        0 <= sample_y(a, b, c, ta, tb, tc, tex.height as int, py) < tex.height,
{
    if max3(a.x as int, b.x as int, c.x as int) == min3(a.x as int, b.x as int, c.x as int) {
        lemma_flat_column_degenerate(a, b, c);
        assert(false);
    }
    if max3(a.y as int, b.y as int, c.y as int) == min3(a.y as int, b.y as int, c.y as int) {
        lemma_flat_row_degenerate(a, b, c);
        assert(false);
    }
    lemma_texel_coord_range(
        min3(ta.u as int, tb.u as int, tc.u as int),
        max3(ta.u as int, tb.u as int, tc.u as int),
        px - min3(a.x as int, b.x as int, c.x as int),
        max3(a.x as int, b.x as int, c.x as int) - min3(a.x as int, b.x as int, c.x as int),
        tex.width as int,
    );
    lemma_texel_coord_range(
        min3(ta.v as int, tb.v as int, tc.v as int),
        max3(ta.v as int, tb.v as int, tc.v as int),
        py - min3(a.y as int, b.y as int, c.y as int),
        max3(a.y as int, b.y as int, c.y as int) - min3(a.y as int, b.y as int, c.y as int),
        tex.height as int,
    );
}

/// With a uniform-color texture, every pixel a triangle scan writes becomes
/// exactly that color scaled by the triangle's intensity.
pub proof fn lemma_uniform_texture_shades(
    a: Vec2,
    b: Vec2,
    c: Vec2,
    ta: TexCoord,
    tb: TexCoord,
    tc: TexCoord,
    tex: TgaImage,
    it: Intensity,
    img0: Image,
    zb0: Seq<i64>,
    img1: Image,
    zb1: Seq<i64>,
    col: Vec3,
    px: int,
    py: int,
)
    requires
        triangle_post(a, b, c, ta, tb, tc, tex, it, img0, zb0, img1, zb1),
        raster_inputs_ok(a, b, c, ta, tb, tc, tex, it, img0.cols as int, img0.rows as int),
        forall|x: int, y: int|
            0 <= x < tex.width && 0 <= y < tex.height ==> #[trigger] tex.texel_at(x, y) == col,
        0 <= px < img0.cols,
        0 <= py < img0.rows,
        in_bbox(a, b, c, px, py),
        inside_triangle(a, b, c, px, py),
        zb0[px + py * img0.cols] < 0,
    ensures
        img1.color_at(px, py) == col.spec_scale(it.num as int, it.den as int),
{
    assert(pixel_written(a, b, c, ta, tb, tc, tex, it, img0, zb0, img1, zb1, px, py));
    lemma_sample_in_range(
        a,
        b,
        c,
        ta,
        tb,
        tc,
        tex,
        it,
        img0.cols as int,
        img0.rows as int,
        px,
        py,
    );
    assert(tex.texel_at(
        sample_x(a, b, c, ta, tb, tc, tex.width as int, px),
        sample_y(a, b, c, ta, tb, tc, tex.height as int, py),
    ) == col);
}

} // verus!
