//! Coloring a triangle by the barycentric coordinates of its pixels: red,
//! green and blue at the three corners, mixed in between.
use vstd::prelude::*;

use crate::geometry::Point;
use crate::geometry::ex04_barycentric_coordinates::law_barycentric_at_corners;
use super::{Canvas, Color24, SoftwareBuffer};
use super::ex02_winding_number_triangle::PixelDrawingCommand;

verus! {

/// The channel value `255 * num / den`, rounded to the nearest integer (halves
/// away from zero) and clamped to `0..=255`.
pub open spec fn channel(num: int, den: int) -> u8 {
    let (p, q) = if den > 0 {
        (255 * num, den)
    } else {
        (-255 * num, -den)
    };
    if p <= 0 {
        0
    } else {
        let rounded = (2 * p + q) / (2 * q);
        if rounded > 255 {
            255
        } else {
            rounded as u8
        }
    }
}

/// The pixel `(x, y)` as a point; coordinates past `i16::MAX` wrap around.
pub open spec fn pixel_point(x: u16, y: u16) -> Point {
    Point {
        x: if x <= 0x7fff { x as i16 } else { (x - 0x10000) as i16 },
        y: if y <= 0x7fff { y as i16 } else { (y - 0x10000) as i16 },
    }
}

/// The color at `(x, y)`: each corner's weight in red, green and blue; black
/// when the triangle is degenerate (its area is 0).
pub open spec fn barycentric_color(positions: [Point; 3], x: u16, y: u16) -> Color24 {
    let w = pixel_point(x, y).barycentric_areas(positions);
    if w[3] == 0 {
        Color24 { r: 0, g: 0, b: 0 }
    } else {
        Color24 { r: channel(w[0], w[3]), g: channel(w[1], w[3]), b: channel(w[2], w[3]) }
    }
}

/// A command that colors a pixel by its barycentric coordinates in a triangle.
pub struct DrawBarycentricTriangleCommand(pub [Point; 3]);

fn wrap_to_i16(v: u16) -> (r: i16)
    ensures
        r == (if v <= 0x7fff {
            v as i16
        } else {
            (v - 0x10000) as i16
        }),
{
    if v <= 0x7fff {
        v as i16
    } else {
        (v as i32 - 0x10000) as i16
    }
}

fn channel_exec(num: i64, den: i64) -> (c: u8)
    requires
        den != 0,
        -0x4_0000_0000 <= num <= 0x4_0000_0000,
        -0x4_0000_0000 <= den <= 0x4_0000_0000,
    ensures
        c == channel(num as int, den as int),
{
    assert(-255 * 0x4_0000_0000 <= 255 * num <= 255 * 0x4_0000_0000) by (nonlinear_arith)
        requires
            -0x4_0000_0000 <= num <= 0x4_0000_0000,
    ;
    let (p, q) = if den > 0 {
        (255 * num, den)
    } else {
        (0 - 255 * num, 0 - den)
    };
    if p <= 0 {
        0
    } else {
        let rounded = (2 * p + q) / (2 * q);
        if rounded > 255 {
            255
        } else {
            rounded as u8
        }
    }
}

impl PixelDrawingCommand for DrawBarycentricTriangleCommand {
    open spec fn obeys_drawing(&self) -> bool {
        true
    }

    open spec fn drawn(&self, before: Canvas, x: u16, y: u16) -> Canvas {
        before.with_pixel(x, y, barycentric_color(self.0, x, y))
    }

    fn draw_pixel(&self, software_buffer: &mut SoftwareBuffer, x: u16, y: u16) {
        let point = Point { x: wrap_to_i16(x), y: wrap_to_i16(y) };
        let w = point.barycentric_areas_in(self.0);
        let color = if w[3] == 0 {
            Color24 { r: 0, g: 0, b: 0 }
        } else {
            Color24 {
                r: channel_exec(w[0], w[3]),
                g: channel_exec(w[1], w[3]),
                b: channel_exec(w[2], w[3]),
            }
        };
        software_buffer.set_pixel(x, y, color);
    }
}

/// A whole coordinate is full intensity.
proof fn lemma_channel_full(den: int)
    requires
        den != 0,
    ensures
        channel(den, den) == 255,
        channel(0, den) == 0,
{
    if den > 0 {
        assert((2 * (255 * den) + den) / (2 * den) == 255) by (nonlinear_arith)
            requires
                den > 0,
        ;
    } else {
        assert((2 * (-255 * den) + (-den)) / (2 * (-den)) == 255) by (nonlinear_arith)
            requires
                den < 0,
        ;
    }
}

/// In a triangle that is not degenerate, the pixels on the corners are pure
/// red, green and blue, in the order of the corners.
pub proof fn law_corners_are_primary(positions: [Point; 3], x: u16, y: u16)
    requires
        positions[0].barycentric_areas(positions)[3] != 0,
    ensures
        pixel_point(x, y) == positions[0] ==> barycentric_color(positions, x, y) == (Color24 { r: 255, g: 0, b: 0 }),
        pixel_point(x, y) == positions[1] ==> barycentric_color(positions, x, y) == (Color24 { r: 0, g: 255, b: 0 }),
        pixel_point(x, y) == positions[2] ==> barycentric_color(positions, x, y) == (Color24 { r: 0, g: 0, b: 255 }),
{
    law_barycentric_at_corners(positions);
    lemma_channel_full(positions[0].barycentric_areas(positions)[3]);
}

/// A channel does not depend on the triangle's orientation: flipping the
/// sign of both the numerator and the denominator gives the same value.
pub proof fn law_channel_ignores_orientation(num: int, den: int)
    requires
        den != 0,
    ensures
        channel(-num, -den) == channel(num, den),
{
    assert(-255 * (-num) == 255 * num);
    assert(-(-den) == den);
}

/// A channel is `255 * num / den` rounded to the nearest integer, for a
/// proportion `num / den` between 0 and 1: twice it, times `den`, is within
/// `|den|` of `510 * num`.
pub proof fn law_channel_rounds_the_proportion(num: int, den: int)
    requires
        den != 0,
        0 <= num <= den || den <= num <= 0,
    ensures
        ({
            let e = 2 * den * channel(num, den) - 510 * num;
            let a = if den > 0 {
                den
            } else {
                -den
            };
            -a <= e <= a
        }),
{
    if den < 0 {
        law_channel_ignores_orientation(-num, -den);
        lemma_channel_rounds_positive(-num, -den);
        assert(2 * den * channel(num, den) - 510 * num == -(2 * (-den) * channel(-num, -den) - 510 * (
        -num))) by (nonlinear_arith);
    } else {
        lemma_channel_rounds_positive(num, den);
    }
}

proof fn lemma_channel_rounds_positive(num: int, den: int)
    requires
        0 <= num <= den,
        den > 0,
    ensures
        -den <= 2 * den * channel(num, den) - 510 * num <= den,
{
    if num > 0 {
        let x = 2 * (255 * num) + den;
        let q = 2 * den;
        let r = x / q;
        vstd::arithmetic::div_mod::lemma_fundamental_div_mod(x, q);
        vstd::arithmetic::div_mod::lemma_mod_pos_bound(x, q);
        assert(q * r <= x < q * r + q);
        assert(r <= 255) by (nonlinear_arith)
            requires
                q * r <= x,
                x == 510 * num + den,
                num <= den,
                q == 2 * den,
                den > 0,
        ;
        assert(r >= 0) by (nonlinear_arith)
            requires
                x < q * r + q,
                x > 0,
                q > 0,
        ;
        assert(channel(num, den) == r);
        assert(2 * den * r == q * r) by (nonlinear_arith)
            requires
                q == 2 * den,
        ;
        assert(-den <= 2 * den * r - 510 * num <= den);
    } else {
        assert(channel(num, den) == 0);
        assert(2 * den * 0 == 0);
    }
}

} // verus!
