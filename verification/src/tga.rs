//! Textures decoded from run-length encoded true-color TGA files.

use vstd::prelude::*;

use crate::error::ParseError;
use crate::vec3::Vec3;

verus! {

/// A decoded texture: `width * height` colors with total coverage. Lookups
/// are keyed by (x, y) with the origin at the bottom-left corner; rows are
/// stored in decoding order, top row first.
pub struct TgaImage {
    /// The texel colors, row-major, top row first.
    pub pixels: Vec<Vec3>,
    /// Width in texels; fits the format's 16-bit extent field.
    pub width: usize,
    /// Height in texels; fits the format's 16-bit extent field.
    pub height: usize,
}

impl TgaImage {
    /// The store covers every texel exactly once with genuine colors, and
    /// the extents fit the format's 16-bit fields.
    pub open spec fn wf(self) -> bool {
        &&& self.pixels@.len() == self.width * self.height
        &&& self.width <= 0xFFFF
        &&& self.height <= 0xFFFF
        &&& forall|i: int| 0 <= i < self.pixels@.len() ==> (#[trigger] self.pixels@[i]).is_color()
    }

    /// The color of the texel at (`x`, `y`), with y counted from the bottom.
    pub open spec fn texel_at(self, x: int, y: int) -> Vec3 {
        self.pixels@[x + (self.height - 1 - y) * self.width]
    }

    /// Looks the texel at (`x`, `y`) up, with y counted from the bottom.
    pub fn texel(&self, x: usize, y: usize) -> (r: Vec3)
        requires
            self.wf(),
            x < self.width,
            y < self.height,
        ensures
            r == self.texel_at(x as int, y as int),
            r.is_color(),
    {
        proof {
            lemma_row_major_index_bounds(x as int, y as int, self.width as int, self.height as int);
        }
        self.pixels[x + (self.height - 1 - y) * self.width]
    }
}

/// A row-major index built from in-range coordinates stays inside the store,
/// and with 16-bit extents the whole store fits even a 32-bit address space.
proof fn lemma_row_major_index_bounds(x: int, y: int, w: int, h: int)
    by (nonlinear_arith)
    requires
        0 <= x < w,
        0 <= y < h,
        w <= 0xFFFF,
        h <= 0xFFFF,
    ensures
        0 <= x + (h - 1 - y) * w < w * h,
        w * h <= 0xFFFE_0001,
{
}

/// With 16-bit extents the texel count fits even a 32-bit address space.
proof fn lemma_texel_count_bound(w: int, h: int)
    by (nonlinear_arith)
    requires
        0 <= w <= 0xFFFF,
        0 <= h <= 0xFFFF,
    ensures
        0 <= w * h <= 0xFFFE_0001,
{
}

// ---------------------------------------------------------------------------
// Decoding
// ---------------------------------------------------------------------------
//
// A file is an 18-byte header followed by run-length encoded image data. The
// decoder accepts exactly the layout the renderer needs: no image ID, no
// color map, run-length encoded true-color data, zero origin, 24 bits per
// pixel, default descriptor. The image data is a chain of packets, each a
// header byte whose low 7 bits give a pixel count less one: a packet with
// the high bit set repeats one 3-byte color, one with the high bit clear
// carries that many 3-byte colors verbatim. Packets are read until the
// image's pixels are covered; pixels an overshooting final packet would add
// past the end are dropped.

/// The 16-bit little-endian field at offset `i`.
pub open spec fn le16(s: Seq<u8>, i: int) -> int {
    s[i] + 256 * s[i + 1]
}

/// Whether the 18-byte header announces the supported layout.
pub open spec fn header_supported(s: Seq<u8>) -> bool {
    &&& s[0] == 0  // no image ID
    &&& s[1] == 0  // no color map included
    &&& s[2] == 10  // run-length encoded true-color image
    &&& le16(s, 3) == 0  // color map first entry index
    &&& le16(s, 5) == 0  // color map length
    &&& s[7] == 0  // color map entry size
    &&& le16(s, 8) == 0  // x origin
    &&& le16(s, 10) == 0  // y origin
    &&& s[16] == 24  // bits per pixel
    &&& s[17] == 0  // image descriptor
}

/// The color of the 3-byte texel at offset `i`, stored blue-green-red.
pub open spec fn color3(s: Seq<u8>, i: int) -> Vec3 {
    Vec3 { x: s[i + 2] as i64, y: s[i + 1] as i64, z: s[i] as i64 }
}

/// `n` copies of one color.
pub open spec fn repeat_color(c: Vec3, n: int) -> Seq<Vec3> {
    Seq::new(n as nat, |j: int| c)
}

/// The `n` verbatim colors starting at offset `i`.
pub open spec fn raw_colors(s: Seq<u8>, i: int, n: int) -> Seq<Vec3> {
    Seq::new(n as nat, |j: int| color3(s, i + 3 * j))
}

/// The colors decoded from the packet chain at offset `i`, until `need`
/// pixels are covered: `None` when the data runs out first. A final packet
/// may overshoot; its surplus pixels are dropped.
pub open spec fn rle_decode(s: Seq<u8>, i: int, need: int) -> Option<Seq<Vec3>>
    decreases need,
{
    if need <= 0 {
        Some(Seq::empty())
    } else if i >= s.len() {
        None
    } else {
        let h = s[i];
        let cnt = (h & 0x7f) + 1;
        let take = if cnt <= need {
            cnt as int
        } else {
            need
        };
        let left = if need - cnt >= 0 {
            need - cnt
        } else {
            0
        };
        if h & 0x80 != 0 {
            if i + 4 > s.len() {
                None
            } else {
                match rle_decode(s, i + 4, left) {
                    Some(rest) => Some(repeat_color(color3(s, i + 1), take) + rest),
                    None => None,
                }
            }
        } else {
            if i + 1 + 3 * cnt > s.len() {
                None
            } else {
                match rle_decode(s, i + 1 + 3 * cnt, left) {
                    Some(rest) => Some(raw_colors(s, i + 1, take) + rest),
                    None => None,
                }
            }
        }
    }
}

/// Builds a color from one blue-green-red byte triple.
fn color(b0: u8, b1: u8, b2: u8) -> (r: Vec3)
    ensures
        r == (Vec3 { x: b2 as i64, y: b1 as i64, z: b0 as i64 }),
        r.is_color(),
{
    Vec3 { x: b2 as i64, y: b1 as i64, z: b0 as i64 }
}

/// Decodes a run-length encoded true-color TGA file into a texture.
///
/// An input shorter than a header, or one whose packet chain ends before the
/// announced pixels are covered, is `TruncatedInput`; a header announcing
/// any layout other than the supported one is `UnsupportedFormat`; anything
/// else decodes to the announced extent with exactly the packet chain's
/// colors, top row first.
pub fn parse(input: &[u8]) -> (r: Result<TgaImage, ParseError>)
    ensures
        input@.len() < 18 ==> r == Err::<TgaImage, ParseError>(ParseError::TruncatedInput),
        input@.len() >= 18 && !header_supported(input@) ==> r == Err::<TgaImage, ParseError>(
            ParseError::UnsupportedFormat,
        ),
        input@.len() >= 18 && header_supported(input@) ==> match rle_decode(
            input@,
            18,
            le16(input@, 12) * le16(input@, 14),
        ) {
            Some(pix) => r matches Ok(img) && img.width == le16(input@, 12) && img.height == le16(
                input@,
                14,
            ) && img.pixels@ == pix && img.wf(),
            None => r == Err::<TgaImage, ParseError>(ParseError::TruncatedInput),
        },
{
    if input.len() < 18 {
        return Err(ParseError::TruncatedInput);
    }

    // Header: reject every layout but the one the renderer uses.
    if input[0] != 0 {
        return Err(ParseError::UnsupportedFormat);
    }
    if input[1] != 0 {
        return Err(ParseError::UnsupportedFormat);
    }
    if input[2] != 10 {
        return Err(ParseError::UnsupportedFormat);
    }
    let cmap_first = input[3] as usize + 256 * (input[4] as usize);
    if cmap_first != 0 {
        return Err(ParseError::UnsupportedFormat);
    }
    let cmap_len = input[5] as usize + 256 * (input[6] as usize);
    if cmap_len != 0 {
        return Err(ParseError::UnsupportedFormat);
    }
    if input[7] != 0 {
        return Err(ParseError::UnsupportedFormat);
    }
    let x_origin = input[8] as usize + 256 * (input[9] as usize);
    if x_origin != 0 {
        return Err(ParseError::UnsupportedFormat);
    }
    let y_origin = input[10] as usize + 256 * (input[11] as usize);
    if y_origin != 0 {
        return Err(ParseError::UnsupportedFormat);
    }
    let width = input[12] as usize + 256 * (input[13] as usize);
    let height = input[14] as usize + 256 * (input[15] as usize);
    if input[16] != 24 {
        return Err(ParseError::UnsupportedFormat);
    }
    if input[17] != 0 {
        return Err(ParseError::UnsupportedFormat);
    }
    proof {
        assert(header_supported(input@));
        lemma_texel_count_bound(width as int, height as int);
    }

    let total = width * height;
    let mut pixels: Vec<Vec3> = Vec::new();
    let mut remaining = total;
    let mut i: usize = 18;

    while remaining > 0
        invariant
            18 <= i <= input@.len(),
            input@.len() >= 18,
            input@.len() <= usize::MAX,
            header_supported(input@),
            width == le16(input@, 12),
            height == le16(input@, 14),
            remaining <= total,
            total == width * height,
            pixels@.len() == total - remaining,
            forall|j: int| 0 <= j < pixels@.len() ==> (#[trigger] pixels@[j]).is_color(),
            match rle_decode(input@, i as int, remaining as int) {
                Some(rest) => rle_decode(input@, 18, total as int) == Some(pixels@ + rest),
                None => rle_decode(input@, 18, total as int) is None,
            },
        decreases remaining,
    {
        if input.len() - i < 1 {
            return Err(ParseError::TruncatedInput);
        }
        let h = input[i];
        let cnt = (h & 0x7f) as usize + 1;
        let take = if cnt <= remaining {
            cnt
        } else {
            remaining
        };
        let ghost pixels_at = pixels@;

        if h & 0x80 != 0 {
            // Run-length packet: one color, repeated.
            if input.len() - i < 4 {
                return Err(ParseError::TruncatedInput);
            }
            let col = color(input[i + 1], input[i + 2], input[i + 3]);
            let mut j: usize = 0;
            while j < take
                invariant
                    j <= take,
                    pixels@ == pixels_at + repeat_color(col, j as int),
                    col.is_color(),
                decreases take - j,
            {
                pixels.push(col);
                proof {
                    assert(pixels@ =~= pixels_at + repeat_color(col, j + 1));
                }
                j = j + 1;
            }
            proof {
                assert(col == color3(input@, i + 1));
                assert(rle_decode(input@, i as int, remaining as int) == (match rle_decode(
                    input@,
                    i + 4,
                    if remaining - cnt >= 0 {
                        remaining - cnt
                    } else {
                        0
                    },
                ) {
                    Some(rest) => Some::<Seq<Vec3>>(
                        repeat_color(color3(input@, i + 1), take as int) + rest,
                    ),
                    None => None::<Seq<Vec3>>,
                }));
                if let Some(rest) = rle_decode(
                    input@,
                    i + 4,
                    if remaining - cnt >= 0 {
                        remaining - cnt
                    } else {
                        0
                    },
                ) {
                    assert(pixels_at + (repeat_color(col, take as int) + rest) =~= pixels@ + rest);
                }
            }
            i = i + 4;
            remaining = remaining - take;
        } else {
            // Raw packet: the colors follow verbatim.
            if input.len() - i < 1 + 3 * cnt {
                return Err(ParseError::TruncatedInput);
            }
            let mut j: usize = 0;
            while j < take
                invariant
                    j <= take <= cnt,
                    18 <= i,
                    i + 1 + 3 * cnt <= input@.len(),
                    input@.len() <= usize::MAX,
                    pixels@ == pixels_at + raw_colors(input@, i + 1, j as int),
                    forall|q: int|
                        0 <= q < pixels_at.len() ==> (#[trigger] pixels_at[q]).is_color(),
                decreases take - j,
            {
                let col = color(input[i + 1 + 3 * j], input[i + 2 + 3 * j], input[i + 3 + 3 * j]);
                pixels.push(col);
                proof {
                    assert(col == color3(input@, i + 1 + 3 * (j as int)));
                    assert(pixels@ =~= pixels_at + raw_colors(input@, i + 1, j + 1));
                }
                j = j + 1;
            }
            proof {
                assert(rle_decode(input@, i as int, remaining as int) == (match rle_decode(
                    input@,
                    i + 1 + 3 * (cnt as int),
                    if remaining - cnt >= 0 {
                        remaining - cnt
                    } else {
                        0
                    },
                ) {
                    Some(rest) => Some::<Seq<Vec3>>(
                        raw_colors(input@, i + 1, take as int) + rest,
                    ),
                    None => None::<Seq<Vec3>>,
                }));
                if let Some(rest) = rle_decode(
                    input@,
                    i + 1 + 3 * (cnt as int),
                    if remaining - cnt >= 0 {
                        remaining - cnt
                    } else {
                        0
                    },
                ) {
                    assert(pixels_at + (raw_colors(input@, i + 1, take as int) + rest) =~= pixels@
                        + rest);
                }
            }
            i = i + 1 + 3 * cnt;
            remaining = remaining - take;
        }
    }

    proof {
        assert(rle_decode(input@, i as int, remaining as int) == Some(Seq::<Vec3>::empty()));
        assert(pixels@ + Seq::<Vec3>::empty() =~= pixels@);
    }
    Ok(TgaImage { pixels, width, height })
}

} // verus!
