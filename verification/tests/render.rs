use rasterizer::geometry::{barycentric, render_face, triangle, Intensity, TexCoord};
use rasterizer::image::Image;
use rasterizer::tga::TgaImage;
use rasterizer::vec2::Vec2;
use rasterizer::vec3::Vec3;

fn uniform_texture(r: i64, g: i64, b: i64) -> TgaImage {
    TgaImage {
        pixels: vec![Vec3::new(r, g, b); 4],
        width: 2,
        height: 2,
    }
}

fn unit_coords() -> [TexCoord; 3] {
    [
        TexCoord::new(65536, 65536),
        TexCoord::new(65536, 65536),
        TexCoord::new(65536, 65536),
    ]
}

fn fresh_buffers(cols: usize, rows: usize) -> (Image, Vec<i64>) {
    let image = Image::new(cols, rows);
    let zbuffer = vec![i64::MIN; cols * rows];
    (image, zbuffer)
}

#[test]
fn shaded_triangle_covers_interior_and_spares_exterior() {
    let (mut image, mut zbuffer) = fresh_buffers(64, 64);
    let texture = uniform_texture(255, 255, 255);
    let pts = [Vec2::new(10, 10), Vec2::new(50, 10), Vec2::new(30, 50)];

    triangle(
        pts,
        unit_coords(),
        &mut zbuffer,
        &texture,
        Intensity::new(1, 1),
        &mut image,
    );

    let white = Vec3::new(255, 255, 255);
    let black = Vec3::new(0, 0, 0);
    // Strictly interior pixels become the texture's white.
    assert_eq!(image.data[20][30], white);
    assert_eq!(image.data[12][30], white);
    assert_eq!(image.data[40][30], white);
    // Exterior pixels keep the framebuffer's initial default.
    assert_eq!(image.data[5][5], black);
    assert_eq!(image.data[0][0], black);
    assert_eq!(image.data[20][5], black);
    assert_eq!(image.data[63][63], black);
}

#[test]
fn first_triangle_keeps_shared_pixel() {
    let (mut image, mut zbuffer) = fresh_buffers(64, 64);
    let red = uniform_texture(200, 0, 0);
    let blue = uniform_texture(0, 0, 200);
    let t1 = [Vec2::new(10, 10), Vec2::new(30, 10), Vec2::new(20, 30)];
    let t2 = [Vec2::new(5, 5), Vec2::new(35, 5), Vec2::new(20, 35)];

    triangle(
        t1,
        unit_coords(),
        &mut zbuffer,
        &red,
        Intensity::new(1, 1),
        &mut image,
    );
    triangle(
        t2,
        unit_coords(),
        &mut zbuffer,
        &blue,
        Intensity::new(1, 1),
        &mut image,
    );

    // Both triangles cover (20, 20); the first drawn wins there.
    assert_eq!(image.data[20][20], Vec3::new(200, 0, 0));
    // A pixel only the second triangle covers gets the second's color.
    assert_eq!(image.data[7][20], Vec3::new(0, 0, 200));
}

#[test]
fn nonpositive_intensity_writes_nothing() {
    let (mut image, mut zbuffer) = fresh_buffers(32, 32);
    let texture = uniform_texture(255, 255, 255);
    let pts = [Vec2::new(2, 2), Vec2::new(20, 2), Vec2::new(10, 20)];

    render_face(
        pts,
        unit_coords(),
        &mut zbuffer,
        &texture,
        Intensity::new(-3, 8),
        &mut image,
    );
    render_face(
        pts,
        unit_coords(),
        &mut zbuffer,
        &texture,
        Intensity::new(0, 8),
        &mut image,
    );

    let black = Vec3::new(0, 0, 0);
    for y in 0..32 {
        for x in 0..32 {
            assert_eq!(image.data[y][x], black);
        }
    }
    for z in zbuffer {
        assert_eq!(z, i64::MIN);
    }
}

#[test]
fn positive_intensity_scales_texture_color() {
    let (mut image, mut zbuffer) = fresh_buffers(64, 64);
    let texture = uniform_texture(200, 100, 50);
    let pts = [Vec2::new(10, 10), Vec2::new(50, 10), Vec2::new(30, 50)];

    render_face(
        pts,
        unit_coords(),
        &mut zbuffer,
        &texture,
        Intensity::new(1, 2),
        &mut image,
    );

    // Half intensity: each channel is halved, rounded toward zero.
    assert_eq!(image.data[20][30], Vec3::new(100, 50, 25));
}

#[test]
fn zero_length_line_colors_exactly_its_pixel() {
    let mut image = Image::new(16, 16);
    let color = Vec3::new(9, 8, 7);

    rasterizer::geometry::line(Vec2::new(0, 0), Vec2::new(0, 0), color, &mut image);

    assert_eq!(image.data[0][0], color);
    let black = Vec3::new(0, 0, 0);
    for y in 0..16 {
        for x in 0..16 {
            if !(x == 0 && y == 0) {
                assert_eq!(image.data[y][x], black);
            }
        }
    }
}

#[test]
fn line_is_endpoint_symmetric() {
    let color = Vec3::new(255, 255, 255);
    let cases = [
        (Vec2::new(2, 3), Vec2::new(9, 5)),
        (Vec2::new(0, 0), Vec2::new(5, 11)),
        (Vec2::new(7, 1), Vec2::new(1, 7)),
        (Vec2::new(4, 4), Vec2::new(4, 9)),
        (Vec2::new(3, 6), Vec2::new(11, 6)),
    ];
    for (a, b) in cases {
        let mut forward = Image::new(16, 16);
        let mut backward = Image::new(16, 16);
        rasterizer::geometry::line(a, b, color, &mut forward);
        rasterizer::geometry::line(b, a, color, &mut backward);
        for y in 0..16 {
            for x in 0..16 {
                assert_eq!(forward.data[y][x], backward.data[y][x]);
            }
        }
    }
}

#[test]
fn line_colors_both_endpoints_and_walks_a_connected_path() {
    let color = Vec3::new(1, 2, 3);
    let black = Vec3::new(0, 0, 0);
    let mut image = Image::new(16, 16);

    rasterizer::geometry::line(Vec2::new(0, 0), Vec2::new(3, 1), color, &mut image);

    assert_eq!(image.data[0][0], color);
    assert_eq!(image.data[1][3], color);
    // The walk of this gentle slope: two pixels on each row.
    assert_eq!(image.data[0][1], color);
    assert_eq!(image.data[1][2], color);
    assert_eq!(image.data[0][2], black);
    assert_eq!(image.data[1][1], black);

    // Every drawn pixel has a drawn 8-neighbor (the path has no gaps).
    let mut drawn = Vec::new();
    for y in 0..16_i64 {
        for x in 0..16_i64 {
            if image.data[y as usize][x as usize] == color {
                drawn.push((x, y));
            }
        }
    }
    assert_eq!(drawn.len(), 4);
    for &(x, y) in &drawn {
        let lonely = !drawn
            .iter()
            .any(|&(qx, qy)| (qx, qy) != (x, y) && (qx - x).abs() <= 1 && (qy - y).abs() <= 1);
        assert!(!lonely);
    }
}

#[test]
fn steep_line_transposes_correctly() {
    let color = Vec3::new(200, 200, 200);
    let mut image = Image::new(16, 16);

    rasterizer::geometry::line(Vec2::new(5, 2), Vec2::new(6, 12), color, &mut image);

    assert_eq!(image.data[2][5], color);
    assert_eq!(image.data[12][6], color);
    // One pixel per row between the endpoints.
    for y in 2..=12 {
        let row_hits: usize = (0..16).filter(|&x| image.data[y][x] == color).count();
        assert_eq!(row_hits, 1);
    }
}

#[test]
fn barycentric_weights_are_exact_fractions() {
    let pts = [Vec2::new(0, 0), Vec2::new(4, 0), Vec2::new(0, 4)];

    // An interior point: weights (1/2, 1/4, 1/4).
    let inside = barycentric(pts, Vec2::new(1, 1));
    assert_eq!(inside.den, -16);
    assert_eq!(inside.w0, -8);
    assert_eq!(inside.w1, -4);
    assert_eq!(inside.w2, -4);
    assert_eq!(inside.w0 + inside.w1 + inside.w2, inside.den);
    assert!(inside.is_inside());

    // An exterior point: one weight of the opposite sign.
    let outside = barycentric(pts, Vec2::new(5, 5));
    assert_eq!(outside.w0 + outside.w1 + outside.w2, outside.den);
    assert!(!outside.is_inside());
}

#[test]
fn degenerate_triangle_discards_every_point() {
    let pts = [Vec2::new(0, 0), Vec2::new(2, 2), Vec2::new(4, 4)];
    let w = barycentric(pts, Vec2::new(2, 2));
    assert_eq!(w.w0, -1);
    assert_eq!(w.w1, 1);
    assert_eq!(w.w2, 1);
    assert_eq!(w.den, 1);
    assert!(!w.is_inside());

    let (mut image, mut zbuffer) = fresh_buffers(8, 8);
    let texture = uniform_texture(255, 255, 255);
    triangle(
        pts,
        unit_coords(),
        &mut zbuffer,
        &texture,
        Intensity::new(1, 1),
        &mut image,
    );
    let black = Vec3::new(0, 0, 0);
    for y in 0..8 {
        for x in 0..8 {
            assert_eq!(image.data[y][x], black);
        }
    }
}

#[test]
fn vector_operations_match_their_formulas() {
    let a = Vec3::new(1, 2, 3);
    let b = Vec3::new(4, 5, 6);
    assert_eq!(a.cross(&b), Vec3::new(-3, 6, -3));
    assert_eq!(a.dot(&b), 32);
    assert_eq!(a.add(&b), Vec3::new(5, 7, 9));
    assert_eq!(a.subtract(&b), Vec3::new(-3, -3, -3));
    assert_eq!(Vec3::zero(), Vec3::new(0, 0, 0));
    assert_eq!(Vec3::default(), Vec3::new(0, 0, 0));
    assert_eq!(Vec3::new(200, 100, 50).scale(2, 3), Vec3::new(133, 66, 33));

    let mut w = Vec3::new(1, 2, 3);
    w.swap(0, 2);
    assert_eq!(w, Vec3::new(3, 2, 1));
    w.swap(1, 1);
    assert_eq!(w, Vec3::new(3, 2, 1));

    let mut p = Vec2::new(3, 8);
    p.swap();
    assert_eq!(p, Vec2::new(8, 3));
    assert_eq!(Vec2::default(), Vec2::new(0, 0));
}

#[test]
fn framebuffer_set_changes_one_pixel() {
    let mut image = Image::new(4, 3);
    assert_eq!(image.cols, 4);
    assert_eq!(image.rows, 3);
    image.set(2, 1, Vec3::new(5, 6, 7));
    assert_eq!(image.data[1][2], Vec3::new(5, 6, 7));
    assert_eq!(image.data[0][0], Vec3::new(0, 0, 0));
    assert_eq!(image.data[2][3], Vec3::new(0, 0, 0));
}
