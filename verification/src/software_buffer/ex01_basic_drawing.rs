//! Filled circles and rectangles.
use vstd::prelude::*;

use super::{keeps_size, Canvas, Color24, SoftwareBuffer};

verus! {

/// The squared distance from `(xo, yo)` to `(x, y)`.
pub open spec fn squared_distance(xo: int, yo: int, x: int, y: int) -> int {
    (xo - x) * (xo - x) + (yo - y) * (yo - y)
}

/// A shape that a filled area is made of.
pub enum Shape {
    /// The positions `(x, y)` with `xo <= x < xo + width` and `yo <= y < yo + height`.
    Rectangle { xo: i16, yo: i16, width: u16, height: u16 },
    /// The positions within `radius` of `(xo, yo)`.
    Disc { xo: i16, yo: i16, radius: u16 },
}

impl Shape {
    /// Whether the position `(x, y)` belongs to the shape.
    pub open spec fn keeps(self, x: int, y: int) -> bool {
        match self {
            Shape::Rectangle { xo, yo, width, height } => xo <= x < xo + width && yo <= y < yo
                + height,
            Shape::Disc { xo, yo, radius } => squared_distance(xo as int, yo as int, x, y) <= radius
                * radius,
        }
    }
}

/// `after` is the well-formed canvas `before` with every in-bounds pixel that
/// `shape` keeps set to `color`, and every other pixel as it was.
pub open spec fn filled(before: Canvas, after: Canvas, shape: Shape, color: Color24) -> bool {
    &&& keeps_size(before, after)
    &&& forall|x: u16, y: u16|
        x < after.width && y < after.height ==> #[trigger] after.pixel_at(x, y) == if shape.keeps(
            x as int,
            y as int,
        ) {
            Some(color)
        } else {
            before.pixel_at(x, y)
        }
}

/// `v` clamped to `0..=limit`.
fn clamp_to(v: i32, limit: u16) -> (r: u16)
    ensures
        r == (if v < 0 {
            0
        } else if v > limit {
            limit as int
        } else {
            v as int
        }),
{
    if v < 0 {
        0
    } else if v > limit as i32 {
        limit
    } else {
        v as u16
    }
}

/// A position within `radius` of `(xo, yo)` lies in the square of side
/// `2 * radius` around it.
proof fn lemma_disc_in_square(xo: int, yo: int, radius: int, x: int, y: int)
    requires
        radius >= 0,
        squared_distance(xo, yo, x, y) <= radius * radius,
    ensures
        xo - radius <= x <= xo + radius,
        yo - radius <= y <= yo + radius,
{
    let (dx, dy, r) = (xo - x, yo - y, radius);
    assert(-r <= dx <= r && -r <= dy <= r) by (nonlinear_arith)
        requires
            dx * dx + dy * dy <= r * r,
            r >= 0,
    ;
}

impl SoftwareBuffer {
    /// Whether `shape` keeps the pixel `(x, y)`, computed exactly.
    fn shape_keeps(shape: &Shape, x: u16, y: u16) -> (b: bool)
        ensures
            b == shape.keeps(x as int, y as int),
    {
        match shape {
            Shape::Rectangle { xo, yo, width, height } => {
                (*xo as i32) <= (x as i32) && (x as i32) < (*xo as i32) + (*width as i32) && (
                *yo as i32) <= (y as i32) && (y as i32) < (*yo as i32) + (*height as i32)
            },
            Shape::Disc { xo, yo, radius } => {
                let dx = *xo as i64 - x as i64;
                let dy = *yo as i64 - y as i64;
                let r = *radius as i64;
                assert(0 <= dx * dx <= 0x4_0000_0000) by (nonlinear_arith)
                    requires
                        -0x2_0000 <= dx <= 0x2_0000,
                ;
                assert(0 <= dy * dy <= 0x4_0000_0000) by (nonlinear_arith)
                    requires
                        -0x2_0000 <= dy <= 0x2_0000,
                ;
                assert(0 <= r * r <= 0x1_0000_0000_0000) by (nonlinear_arith)
                    requires
                        0 <= r <= 0x1_0000,
                ;
                dx * dx + dy * dy <= r * r
            },
        }
    }

    /// Fills the pixels that `shape` keeps, scanning the columns
    /// `min_x..max_x` and, in each, the rows `min_y..max_y`: an area of the
    /// buffer that holds every pixel of the shape.
    fn fill_area(&mut self, shape: Shape, min_x: u16, max_x: u16, min_y: u16, max_y: u16, color: Color24)
        requires
            max_x <= old(self)@.width,
            max_y <= old(self)@.height,
            forall|x: u16, y: u16|
                x < old(self)@.width && y < old(self)@.height && #[trigger] shape.keeps(
                    x as int,
                    y as int,
                ) ==> min_x <= x < max_x && min_y <= y < max_y,
        ensures
            filled(old(self)@, final(self)@, shape, color),
    {
        proof {
            use_type_invariant(&*self);
        }
        let ghost start = self@;
        let mut x = min_x;
        while x < max_x
            invariant
                min_x <= x,
                x <= max_x || x == min_x,
                max_x <= start.width,
                max_y <= start.height,
                start.wf(),
                self@.wf(),
                self@.width == start.width,
                self@.height == start.height,
                forall|px: u16, py: u16|
                    px < start.width && py < start.height && #[trigger] shape.keeps(
                        px as int,
                        py as int,
                    ) ==> min_x <= px < max_x && min_y <= py < max_y,
                forall|px: u16, py: u16|
                    px < start.width && py < start.height ==> #[trigger] self@.pixel_at(px, py) == if shape.keeps(
                        px as int,
                        py as int,
                    ) && px < x {
                        Some(color)
                    } else {
                        start.pixel_at(px, py)
                    },
            decreases max_x - x,
        {
            let mut y = min_y;
            while y < max_y
                invariant
                    min_x <= x < max_x,
                    min_y <= y,
                    y <= max_y || y == min_y,
                    max_x <= start.width,
                    max_y <= start.height,
                    start.wf(),
                    self@.wf(),
                    self@.width == start.width,
                    self@.height == start.height,
                    forall|px: u16, py: u16|
                        px < start.width && py < start.height ==> #[trigger] self@.pixel_at(px, py)
                            == if shape.keeps(px as int, py as int) && (px < x || (px == x && py
                            < y)) {
                            Some(color)
                        } else {
                            start.pixel_at(px, py)
                        },
                decreases max_y - y,
            {
                if Self::shape_keeps(&shape, x, y) {
                    proof {
                        self@.lemma_with_pixel_reads(x, y, color);
                    }
                    self.set_pixel(x, y, color);
                }
                y = y + 1;
            }
            x = x + 1;
        }
    }

    /// Draws a filled circle on the buffer: every pixel within `radius` of
    /// the origin (the distance computed exactly) takes `color`; the others
    /// stay as they were.
    pub fn fill_circle(&mut self, x_origin: i16, y_origin: i16, radius: u16, color: Color24)
        ensures
            filled(
                old(self)@,
                final(self)@,
                Shape::Disc { xo: x_origin, yo: y_origin, radius },
                color,
            ),
    {
        let w = self.get_width();
        let h = self.get_height();
        let min_x = clamp_to(x_origin as i32 - radius as i32, w);
        let max_x = clamp_to(x_origin as i32 + radius as i32 + 1, w);
        let min_y = clamp_to(y_origin as i32 - radius as i32, h);
        let max_y = clamp_to(y_origin as i32 + radius as i32 + 1, h);
        let shape = Shape::Disc { xo: x_origin, yo: y_origin, radius };
        assert forall|x: u16, y: u16|
            x < w && y < h && #[trigger] shape.keeps(x as int, y as int) implies min_x <= x < max_x
            && min_y <= y < max_y by {
            lemma_disc_in_square(x_origin as int, y_origin as int, radius as int, x as int, y as int);
        }
        self.fill_area(shape, min_x, max_x, min_y, max_y, color);
    }

    /// Draws a filled rectangle on the buffer: the pixels `(x, y)` with
    /// `x_origin <= x < x_origin + width` and `y_origin <= y < y_origin +
    /// height` take `color`; the others stay as they were.
    pub fn fill_rectangle(
        &mut self,
        x_origin: i16,
        y_origin: i16,
        width: u16,
        height: u16,
        color: Color24,
    )
        ensures
            filled(
                old(self)@,
                final(self)@,
                Shape::Rectangle { xo: x_origin, yo: y_origin, width, height },
                color,
            ),
    {
        let w = self.get_width();
        let h = self.get_height();
        let min_x = clamp_to(x_origin as i32, w);
        let max_x = clamp_to(x_origin as i32 + width as i32, w);
        let min_y = clamp_to(y_origin as i32, h);
        let max_y = clamp_to(y_origin as i32 + height as i32, h);
        let shape = Shape::Rectangle { xo: x_origin, yo: y_origin, width, height };
        self.fill_area(shape, min_x, max_x, min_y, max_y, color);
    }
}

} // verus!
