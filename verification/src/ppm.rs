//! Serialization of the framebuffer to the text-based pixel format.
//!
//! The functions here only build bytes; handing them to a file or a stream
//! is the caller's business. The header is three lines: the format
//! identifier (the two characters `P` and `3`), the extent, and the maximum
//! channel value 255. Each pixel becomes three whitespace-separated decimal
//! channel values on a line of its own, and rows are emitted from the last
//! row to the first so the stored top-to-bottom grid serializes with a
//! bottom-left visual origin.

use vstd::prelude::*;

use crate::image::Image;
use crate::vec3::Vec3;

verus! {

/// The decimal digits of `n`, most significant first, as ASCII bytes.
pub open spec fn dec_rep(n: int) -> Seq<u8>
    decreases n,
{
    if n < 10 {
        seq![(48 + n) as u8]
    } else {
        dec_rep(n / 10).push((48 + n % 10) as u8)
    }
}

/// The header of a serialized image: the format identifier, the extent,
/// and the maximum channel value 255, one line each.
pub open spec fn header_bytes(width: int, height: int) -> Seq<u8> {
    seq![80u8, 51u8, 10u8] + dec_rep(width) + seq![32u8] + dec_rep(height) + seq![
        10u8,
        50u8,
        53u8,
        53u8,
        10u8,
    ]
}

/// One pixel's line: the three channel values, space-separated.
pub open spec fn color_line_bytes(color: Vec3) -> Seq<u8> {
    dec_rep(color.x as int) + seq![32u8] + dec_rep(color.y as int) + seq![32u8] + dec_rep(
        color.z as int,
    ) + seq![10u8]
}

/// Appends the decimal representation of `n` to `out`.
fn push_decimal(out: &mut Vec<u8>, n: u64)
    ensures
        final(out)@ == old(out)@ + dec_rep(n as int),
    decreases n,
{
    if n >= 10 {
        push_decimal(out, n / 10);
        out.push(48 + (n % 10) as u8);
    } else {
        out.push(48 + n as u8);
    }
    proof {
        assert(out@ =~= old(out)@ + dec_rep(n as int));
    }
}

/// Builds the three header lines for a `width` by `height` image.
pub fn write_header(width: usize, height: usize) -> (r: Vec<u8>)
    ensures
        r@ == header_bytes(width as int, height as int),
{
    let mut out: Vec<u8> = Vec::new();
    // The format identifier: the characters 'P' and '3', then a newline.
    out.push(80);
    out.push(51);
    out.push(10);
    push_decimal(&mut out, width as u64);
    out.push(32);
    push_decimal(&mut out, height as u64);
    out.push(10);
    // The maximum channel value, 255, on a line of its own.
    out.push(50);
    out.push(53);
    out.push(53);
    out.push(10);
    proof {
        assert(out@ =~= header_bytes(width as int, height as int));
    }
    out
}

/// Builds one pixel's line: the three channel values as decimal integers.
pub fn write_color(color: &Vec3) -> (r: Vec<u8>)
    requires
        color.is_color(),
    ensures
        r@ == color_line_bytes(*color),
{
    let mut out: Vec<u8> = Vec::new();
    push_decimal(&mut out, color.x as u64);
    out.push(32);
    push_decimal(&mut out, color.y as u64);
    out.push(32);
    push_decimal(&mut out, color.z as u64);
    out.push(10);
    proof {
        assert(out@ =~= color_line_bytes(*color));
    }
    out
}

/// The lines of row `y`, from column `x` rightward.
pub open spec fn row_bytes(img: Image, y: int, x: int) -> Seq<u8>
    decreases img.cols - x,
{
    if x < 0 || x >= img.cols {
        Seq::empty()
    } else {
        color_line_bytes(img.color_at(x, y)) + row_bytes(img, y, x + 1)
    }
}

/// The lines of rows `y` down to 0, each row left to right.
pub open spec fn rows_bytes(img: Image, y: int) -> Seq<u8>
    decreases y + 1,
{
    if y < 0 {
        Seq::empty()
    } else {
        row_bytes(img, y, 0) + rows_bytes(img, y - 1)
    }
}

/// The whole serialized image: the header, then every pixel line, rows
/// emitted bottom-up relative to storage.
pub open spec fn image_bytes(img: Image) -> Seq<u8> {
    header_bytes(img.cols as int, img.rows as int) + rows_bytes(img, img.rows - 1)
}

/// Serializes the framebuffer: the header, then one line per pixel,
/// row-major from the last row to the first.
pub fn write_image(image: &Image) -> (r: Vec<u8>)
    requires
        image.wf(),
        forall|px: int, py: int|
            0 <= px < image.cols && 0 <= py < image.rows ==> (#[trigger] image.color_at(
                px,
                py,
            )).is_color(),
    ensures
        r@ == image_bytes(*image),
{
    let mut out = write_header(image.cols, image.rows);

    let mut y = image.rows;
    while y > 0
        invariant
            image.wf(),
            forall|px: int, py: int|
                0 <= px < image.cols && 0 <= py < image.rows ==> (#[trigger] image.color_at(
                    px,
                    py,
                )).is_color(),
            y <= image.rows,
            out@ + rows_bytes(*image, y - 1) == image_bytes(*image),
        decreases y,
    {
        y = y - 1;
        let ghost out_row_start = out@;

        let mut x: usize = 0;
        while x < image.cols
            invariant
                image.wf(),
                forall|px: int, py: int|
                    0 <= px < image.cols && 0 <= py < image.rows ==> (#[trigger] image.color_at(
                        px,
                        py,
                    )).is_color(),
                y < image.rows,
                x <= image.cols,
                out_row_start + rows_bytes(*image, y as int) == image_bytes(*image),
                out@ + row_bytes(*image, y as int, x as int) == out_row_start + row_bytes(
                    *image,
                    y as int,
                    0,
                ),
            decreases image.cols - x,
        {
            let line = write_color(&image.data[y][x]);
            let ghost out_before = out@;
            let mut i: usize = 0;
            while i < line.len()
                invariant
                    i <= line.len(),
                    out@ == out_before + line@.take(i as int),
                decreases line.len() - i,
            {
                out.push(line[i]);
                proof {
                    assert(out@ =~= out_before + line@.take(i + 1));
                }
                i = i + 1;
            }
            proof {
                assert(line@.take(line@.len() as int) =~= line@);
                assert(out@ =~= out_before + color_line_bytes(image.color_at(x as int, y as int)));
                assert(out@ + row_bytes(*image, y as int, x + 1) =~= out_before + row_bytes(
                    *image,
                    y as int,
                    x as int,
                ));
            }
            x = x + 1;
        }
        proof {
            assert(row_bytes(*image, y as int, image.cols as int) =~= Seq::<u8>::empty());
            assert(out@ =~= out_row_start + row_bytes(*image, y as int, 0));
            assert(out@ + rows_bytes(*image, y - 1) =~= out_row_start + rows_bytes(
                *image,
                y as int,
            ));
        }
    }
    proof {
        assert(rows_bytes(*image, -1) =~= Seq::<u8>::empty());
        assert(out@ =~= image_bytes(*image));
    }
    out
}

} // verus!
