//! Rasterizing the triangles of a model: which pixels of a triangle are
//! shaded, with the scanned area clipped to the buffer.
use vstd::prelude::*;

use crate::geometry::Triangle;
use crate::geometry::ex02_winding_number_triangle::min3;
use super::SoftwareBuffer;
use super::ex06_texture_mapping_nearest::{clamp_texel, clamp_texel_exec, lemma_texel_in_texture};
use super::ex02_winding_number_triangle::{
    lemma_covers_in_box, lemma_rows_pixels_occurrences, occurrences, triangle_pixels,
    lemma_rows_pixels_in_range, max3_exec, min3_exec, row_pixels, rows_pixels,
};

verus! {

/// A buffer dimension less one, taken as an `i16` (values past `i16::MAX` wrap around).
pub open spec fn last_index_i16(dimension: u16) -> int {
    let v = dimension - 1;
    if v <= 0x7fff {
        v
    } else {
        v - 0x10000
    }
}

pub open spec fn min_int(a: int, b: int) -> int {
    if a <= b {
        a
    } else {
        b
    }
}

/// The pixels of `t` that a model drawing on a `width` by `height` buffer
/// shades, in order: those that `draw_triangle` draws, with the scanned area
/// also clipped at the buffer's last column and last row.
pub open spec fn fragment_pixels(t: Triangle, width: u16, height: u16) -> Seq<(u16, u16)> {
    rows_pixels(
        t,
        min_int(t.scan_max_x() as int, last_index_i16(width)),
        t.scan_min_y() as int,
        min_int(t.scan_max_y() as int, last_index_i16(height)),
    )
}

/// On a buffer at most 32768 pixels wide and high, every pixel a model
/// drawing shades lies in the buffer.
pub proof fn law_fragments_in_buffer(t: Triangle, width: u16, height: u16)
    requires
        1 <= width <= 0x8000,
        1 <= height <= 0x8000,
    ensures
        forall|k: int|
            0 <= k < fragment_pixels(t, width, height).len() ==> {
                let p = #[trigger] fragment_pixels(t, width, height)[k];
                p.0 < width && p.1 < height
            },
{
    lemma_rows_pixels_in_range(
        t,
        min_int(t.scan_max_x() as int, last_index_i16(width)),
        t.scan_min_y() as int,
        min_int(t.scan_max_y() as int, last_index_i16(height)),
    );
}

/// On a buffer at most 32768 pixels wide and high, the fragments of a
/// triangle are exactly the buffer's pixels that its winding rule covers,
/// each listed once.
pub proof fn law_fragments_are_covered_pixels(t: Triangle, width: u16, height: u16, x: u16, y: u16)
    requires
        1 <= width <= 0x8000,
        1 <= height <= 0x8000,
        x < width,
        y < height,
    ensures
        occurrences(fragment_pixels(t, width, height), (x, y)) == if t.covers(x as int, y as i16) {
            1int
        } else {
            0
        },
{
    lemma_rows_pixels_occurrences(
        t,
        min_int(t.scan_max_x() as int, last_index_i16(width)),
        t.scan_min_y() as int,
        min_int(t.scan_max_y() as int, last_index_i16(height)),
        x as int,
        y as int,
    );
    if t.covers(x as int, y as i16) {
        lemma_covers_in_box(t, x as int, y as i16);
    }
}

/// On a buffer that holds the triangle's bounding box, a model drawing
/// shades exactly the pixels that `draw_triangle` draws, in the same order.
pub proof fn law_fragments_match_drawing(t: Triangle, width: u16, height: u16)
    requires
        1 <= width <= 0x8000,
        1 <= height <= 0x8000,
        t.scan_max_x() < width,
        t.scan_max_y() < height,
    ensures
        fragment_pixels(t, width, height) == triangle_pixels(t),
{
}

fn last_index_i16_exec(dimension: u16) -> (r: i16)
    requires
        dimension >= 1,
    ensures
        r == last_index_i16(dimension),
{
    let v = dimension - 1;
    if v <= 0x7fff {
        v as i16
    } else {
        (v as i32 - 0x10000) as i16
    }
}

impl SoftwareBuffer {
    /// Returns the pixels of `triangle` that the pixel stage of a model
    /// drawing shades, in the order it shades them.
    pub fn triangle_fragments(&self, triangle: Triangle) -> (v: Vec<(u16, u16)>)
        requires
            self@.width >= 1,
            self@.height >= 1,
        ensures
            v@ == fragment_pixels(triangle, self@.width, self@.height),
    {
        let lx = min3_exec(triangle.a.x, triangle.b.x, triangle.c.x);
        let min_x: i16 = if lx >= 0 {
            lx
        } else {
            0
        };
        let bx = max3_exec(triangle.a.x, triangle.b.x, triangle.c.x);
        let cx = last_index_i16_exec(self.get_width());
        let max_x: i16 = if bx <= cx {
            bx
        } else {
            cx
        };
        let ly = min3_exec(triangle.a.y, triangle.b.y, triangle.c.y);
        let min_y: i16 = if ly >= 0 {
            ly
        } else {
            0
        };
        let by = max3_exec(triangle.a.y, triangle.b.y, triangle.c.y);
        let cy = last_index_i16_exec(self.get_height());
        let max_y: i16 = if by <= cy {
            by
        } else {
            cy
        };
        let mut out: Vec<(u16, u16)> = Vec::new();
        let mut y: i32 = min_y as i32;
        assert(rows_pixels(triangle, max_x as int, min_y as int, y - 1) =~= Seq::<(u16, u16)>::empty());
        while y <= max_y as i32
            invariant
                min_y <= y,
                y <= max_y + 1 || y == min_y,
                min_y == triangle.scan_min_y(),
                min_x == triangle.scan_min_x(),
                lx == min3(triangle.a.x, triangle.b.x, triangle.c.x),
                out@ == rows_pixels(triangle, max_x as int, min_y as int, y - 1),
            decreases max_y + 1 - y,
        {
            let ghost done = out@;
            let mut x: i32 = min_x as i32;
            assert(done + row_pixels(triangle, min_x as int, x - 1, y as i16) =~= done);
            while x <= max_x as i32
                invariant
                    min_y <= y <= max_y,
                    min_x <= x,
                    x <= max_x + 1 || x == min_x,
                    min_x == triangle.scan_min_x(),
                    lx == min3(triangle.a.x, triangle.b.x, triangle.c.x),
                    0 <= min_x,
                    0 <= min_y,
                    out@ == done + row_pixels(triangle, min_x as int, x - 1, y as i16),
                decreases max_x + 1 - x,
            {
                let ghost row = row_pixels(triangle, min_x as int, x - 1, y as i16);
                let w = triangle.winding_n(lx..=(x as i16), y as i16);
                if w % 2 != 0 {
                    out.push((x as u16, y as u16));
                    assert(done + row.push((x as u16, y as u16)) =~= (done + row).push(
                        (x as u16, y as u16),
                    ));
                }
                x = x + 1;
            }
            assert(row_pixels(triangle, min_x as int, x - 1, y as i16) == row_pixels(
                triangle,
                min_x as int,
                max_x as int,
                y as i16,
            ));
            assert(rows_pixels(triangle, max_x as int, min_y as int, y as int) == done + row_pixels(
                triangle,
                min_x as int,
                max_x as int,
                y as i16,
            ));
            y = y + 1;
        }
        assert(rows_pixels(triangle, max_x as int, min_y as int, y - 1) == rows_pixels(
            triangle,
            max_x as int,
            min_y as int,
            max_y as int,
        ));
        out
    }
}

/// The four texels around the texture position `(x, y)` that bilinear
/// sampling mixes: the texel at `(x, y)` clamped to the texture, the one
/// right of it, the one below it and the one below and right, each of the
/// further ones clamped to the last column or row in turn.
pub open spec fn bilinear_texels(x: u16, y: u16, width: u16, height: u16) -> [(int, int); 4] {
    let (x0, y0) = (clamp_texel(x, width), clamp_texel(y, height));
    let (x1, y1) = (clamp_texel((x0 + 1) as u16, width), clamp_texel((y0 + 1) as u16, height));
    [(x0, y0), (x1, y0), (x0, y1), (x1, y1)]
}

/// The indices, in a row-major `width` by `height` texture, of the four
/// texels that bilinear sampling at `(x, y)` mixes, in the order of
/// `bilinear_texels`. Each lies within the texture.
pub fn bilinear_texel_indices(x: u16, y: u16, width: u16, height: u16) -> (ids: [usize; 4])
    requires
        width >= 1,
        height >= 1,
    ensures
        forall|k: int|
            0 <= k < 4 ==> {
                let (tx, ty) = #[trigger] bilinear_texels(x, y, width, height)[k];
                &&& ids[k] == ty * width + tx
                &&& ids[k] < width * height
            },
{
    let x0 = clamp_texel_exec(x, width);
    let y0 = clamp_texel_exec(y, height);
    let x1 = clamp_texel_exec(x0 + 1, width);
    let y1 = clamp_texel_exec(y0 + 1, height);
    proof {
        lemma_texel_in_texture(x0, y0, width, height);
        lemma_texel_in_texture(x1, y0, width, height);
        lemma_texel_in_texture(x0, y1, width, height);
        lemma_texel_in_texture(x1, y1, width, height);
    }
    let w = width as usize;
    let ids = [
        y0 as usize * w + x0 as usize,
        y0 as usize * w + x1 as usize,
        y1 as usize * w + x0 as usize,
        y1 as usize * w + x1 as usize,
    ];
    assert(bilinear_texels(x, y, width, height)[0] == (x0 as int, y0 as int));
    assert(bilinear_texels(x, y, width, height)[1] == (x1 as int, y0 as int));
    assert(bilinear_texels(x, y, width, height)[2] == (x0 as int, y1 as int));
    assert(bilinear_texels(x, y, width, height)[3] == (x1 as int, y1 as int));
    ids
}

} // verus!
