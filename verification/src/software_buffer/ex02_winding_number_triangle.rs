//! Filling triangles: a pixel is inside when the row segment from the left
//! of the triangle's bounding box to the pixel crosses an odd number of edges.
use vstd::prelude::*;

use crate::geometry::Triangle;
use crate::geometry::ex02_winding_number_triangle::{
    edge_side, lemma_edge_counted, lemma_side_swap, lemma_sides_balance, lemma_sign_mul, max3, min3,
    winding_number,
};
use super::{keeps_size, Canvas, Color24, SoftwareBuffer};

verus! {

/// A trait for a command that draws a pixel on the buffer.
///
/// Every command draws within the buffer it is given: it keeps the
/// buffer's dimensions. A command whose effect is known states it:
/// `obeys_drawing` holds, and `drawn` says what drawing a pixel makes of the
/// buffer. Commands that say nothing more keep the defaults, under which
/// nothing else is claimed of them.
pub trait PixelDrawingCommand {
    /// Whether `drawn` describes what `draw_pixel` does.
    open spec fn obeys_drawing(&self) -> bool {
        false
    }

    /// What drawing the pixel at `(x, y)` makes of the canvas `before`.
    open spec fn drawn(&self, before: Canvas, x: u16, y: u16) -> Canvas {
        before
    }

    fn draw_pixel(&self, software_buffer: &mut SoftwareBuffer, x: u16, y: u16)
        ensures
            keeps_size(old(software_buffer)@, final(software_buffer)@),
            self.obeys_drawing() ==> final(software_buffer)@ == self.drawn(
                old(software_buffer)@,
                x,
                y,
            ),
    ;
}

/// A command that fills the pixel with the given color.
pub struct FillPixelCommand(pub Color24);

impl PixelDrawingCommand for FillPixelCommand {
    open spec fn obeys_drawing(&self) -> bool {
        true
    }

    open spec fn drawn(&self, before: Canvas, x: u16, y: u16) -> Canvas {
        before.with_pixel(x, y, self.0)
    }

    fn draw_pixel(&self, software_buffer: &mut SoftwareBuffer, x: u16, y: u16) {
        software_buffer.set_pixel(x, y, self.0)
    }
}

/// Drawing the pixels `ps` one after the other, in order.
pub open spec fn draw_all<C: PixelDrawingCommand>(
    command: &C,
    before: Canvas,
    ps: Seq<(u16, u16)>,
) -> Canvas
    decreases ps.len(),
{
    if ps.len() == 0 {
        before
    } else {
        command.drawn(draw_all(command, before, ps.drop_last()), ps.last().0, ps.last().1)
    }
}

pub proof fn lemma_draw_all_push<C: PixelDrawingCommand>(
    command: &C,
    before: Canvas,
    ps: Seq<(u16, u16)>,
    p: (u16, u16),
)
    ensures
        draw_all(command, before, ps.push(p)) == command.drawn(
            draw_all(command, before, ps),
            p.0,
            p.1,
        ),
{
    assert(ps.push(p).drop_last() =~= ps);
}

/// Filling the pixels `ps` of a well-formed canvas with `color` sets
/// exactly the in-bounds pixels among them and keeps the canvas's
/// dimensions.
pub proof fn lemma_fill_all(before: Canvas, ps: Seq<(u16, u16)>, color: Color24)
    requires
        before.wf(),
    ensures
        ({
            let after = draw_all(&FillPixelCommand(color), before, ps);
            &&& after.width == before.width
            &&& after.height == before.height
            &&& after.wf()
            &&& forall|x: u16, y: u16|
                x < before.width && y < before.height ==> #[trigger] after.pixel_at(x, y) == if ps.contains(
                    (x, y),
                ) {
                    Some(color)
                } else {
                    before.pixel_at(x, y)
                }
        }),
    decreases ps.len(),
{
    if ps.len() > 0 {
        let prev = ps.drop_last();
        let p = ps.last();
        lemma_fill_all(before, prev, color);
        let mid = draw_all(&FillPixelCommand(color), before, prev);
        let after = draw_all(&FillPixelCommand(color), before, ps);
        if p.0 < mid.width && p.1 < mid.height {
            mid.lemma_with_pixel_reads(p.0, p.1, color);
        }
        assert forall|x: u16, y: u16| x < before.width && y < before.height implies #[trigger] after.pixel_at(
            x,
            y,
        ) == if ps.contains((x, y)) {
            Some(color)
        } else {
            before.pixel_at(x, y)
        } by {
            assert(after.pixel_at(x, y) == mid.pixel_at(x, y) || (x == p.0 && y == p.1));
            if prev.contains((x, y)) {
                let k = choose|k: int| 0 <= k < prev.len() && prev[k] == (x, y);
                assert(ps[k] == (x, y));
            }
            if ps.contains((x, y)) && !(x == p.0 && y == p.1) {
                let k = choose|k: int| 0 <= k < ps.len() && ps[k] == (x, y);
                assert(k < prev.len());
                assert(prev[k] == (x, y));
            }
            if x == p.0 && y == p.1 {
                assert(ps[ps.len() - 1] == (x, y));
            }
        }
    }
}

/// A pixel drawn by filling `ps`, where `ps` holds the in-bounds pixel
/// `(x, y)` of a well-formed canvas, reads `color`.
proof fn lemma_filled_pixel_reads(before: Canvas, ps: Seq<(u16, u16)>, color: Color24, x: u16, y: u16)
    requires
        before.wf(),
        x < before.width,
        y < before.height,
        ps.contains((x, y)),
    ensures
        draw_all(&FillPixelCommand(color), before, ps).pixel_at(x, y) == Some(color),
{
    lemma_fill_all(before, ps, color);
}

impl Triangle {
    /// The left column of the area that is scanned: the smallest `x` of the
    /// corners, but not left of column 0.
    pub open spec fn scan_min_x(self) -> i16 {
        let m = min3(self.a.x, self.b.x, self.c.x);
        if m >= 0 {
            m
        } else {
            0
        }
    }

    /// The top row of the area that is scanned: the smallest `y` of the
    /// corners, but not above row 0.
    pub open spec fn scan_min_y(self) -> i16 {
        let m = min3(self.a.y, self.b.y, self.c.y);
        if m >= 0 {
            m
        } else {
            0
        }
    }

    pub open spec fn scan_max_x(self) -> i16 {
        max3(self.a.x, self.b.x, self.c.x)
    }

    pub open spec fn scan_max_y(self) -> i16 {
        max3(self.a.y, self.b.y, self.c.y)
    }

    /// Whether the pixel `(x, y)` is inside: the row segment from the
    /// triangle's leftmost `x` to `x` crosses an odd number of edges.
    pub open spec fn covers(self, x: int, y: i16) -> bool {
        winding_number(self, min3(self.a.x, self.b.x, self.c.x) as int, x, y) % 2 != 0
    }
}

/// The inside pixels of row `y` with `x_lo <= x <= x_hi`, left to right.
pub open spec fn row_pixels(t: Triangle, x_lo: int, x_hi: int, y: i16) -> Seq<(u16, u16)>
    decreases x_hi - x_lo + 1,
{
    if x_hi < x_lo {
        seq![]
    } else {
        let before = row_pixels(t, x_lo, x_hi - 1, y);
        if t.covers(x_hi, y) {
            before.push((x_hi as u16, y as u16))
        } else {
            before
        }
    }
}

/// The inside pixels of the rows `y_lo..=y_hi`, row after row, each from
/// the left column of the scanned area to `x_hi`.
pub open spec fn rows_pixels(t: Triangle, x_hi: int, y_lo: int, y_hi: int) -> Seq<(u16, u16)>
    decreases y_hi - y_lo + 1,
{
    if y_hi < y_lo {
        seq![]
    } else {
        rows_pixels(t, x_hi, y_lo, y_hi - 1) + row_pixels(
            t,
            t.scan_min_x() as int,
            x_hi,
            y_hi as i16,
        )
    }
}

/// The pixels a triangle is drawn on, in drawing order: rows from the top of
/// its bounding box (but not above row 0) to its bottom, each row from the
/// left of its bounding box (but not left of column 0) to its right.
pub open spec fn triangle_pixels(t: Triangle) -> Seq<(u16, u16)> {
    rows_pixels(t, t.scan_max_x() as int, t.scan_min_y() as int, t.scan_max_y() as int)
}

pub(crate) proof fn lemma_row_pixels_in_range(t: Triangle, x_lo: int, x_hi: int, y: i16)
    requires
        0 <= x_lo,
        x_hi <= 0x7fff,
        0 <= y,
    ensures
        forall|k: int|
            0 <= k < row_pixels(t, x_lo, x_hi, y).len() ==> x_lo <= (#[trigger] row_pixels(
                t,
                x_lo,
                x_hi,
                y,
            )[k]).0 <= x_hi && row_pixels(t, x_lo, x_hi, y)[k].1 == y,
    decreases x_hi - x_lo + 1,
{
    if x_hi >= x_lo {
        lemma_row_pixels_in_range(t, x_lo, x_hi - 1, y);
        let before = row_pixels(t, x_lo, x_hi - 1, y);
        assert forall|k: int| 0 <= k < row_pixels(t, x_lo, x_hi, y).len() implies x_lo <= (
        #[trigger] row_pixels(t, x_lo, x_hi, y)[k]).0 <= x_hi && row_pixels(t, x_lo, x_hi, y)[k].1
            == y by {
            if k < before.len() {
                assert(row_pixels(t, x_lo, x_hi, y)[k] == before[k]);
            }
        }
    }
}

/// Every pixel of `rows_pixels(t, x_hi, y_lo, y_hi)` lies in the columns from
/// the left of the scanned area to `x_hi` and in the rows `y_lo..=y_hi`.
pub proof fn lemma_rows_pixels_in_range(t: Triangle, x_hi: int, y_lo: int, y_hi: int)
    requires
        x_hi <= 0x7fff,
        0 <= y_lo,
        y_hi <= 0x7fff,
    ensures
        forall|k: int|
            0 <= k < rows_pixels(t, x_hi, y_lo, y_hi).len() ==> {
                let p = #[trigger] rows_pixels(t, x_hi, y_lo, y_hi)[k];
                &&& t.scan_min_x() <= p.0 <= x_hi
                &&& y_lo <= p.1 <= y_hi
            },
    decreases y_hi - y_lo + 1,
{
    if y_hi >= y_lo {
        lemma_rows_pixels_in_range(t, x_hi, y_lo, y_hi - 1);
        let before = rows_pixels(t, x_hi, y_lo, y_hi - 1);
        let row = row_pixels(t, t.scan_min_x() as int, x_hi, y_hi as i16);
        lemma_row_pixels_in_range(t, t.scan_min_x() as int, x_hi, y_hi as i16);
        assert forall|k: int| 0 <= k < rows_pixels(t, x_hi, y_lo, y_hi).len() implies {
            let p = #[trigger] rows_pixels(t, x_hi, y_lo, y_hi)[k];
            &&& t.scan_min_x() <= p.0 <= x_hi
            &&& y_lo <= p.1 <= y_hi
        } by {
            if k < before.len() {
                assert(rows_pixels(t, x_hi, y_lo, y_hi)[k] == before[k]);
            } else {
                assert(rows_pixels(t, x_hi, y_lo, y_hi)[k] == row[k - before.len()]);
            }
        }
    }
}

/// A triangle is drawn only on pixels of its bounding box (clipped at
/// column and row 0).
pub proof fn law_triangle_pixels_in_box(t: Triangle)
    ensures
        forall|k: int|
            0 <= k < triangle_pixels(t).len() ==> {
                let p = #[trigger] triangle_pixels(t)[k];
                &&& t.scan_min_x() <= p.0 <= t.scan_max_x()
                &&& t.scan_min_y() <= p.1 <= t.scan_max_y()
            },
{
    lemma_rows_pixels_in_range(t, t.scan_max_x() as int, t.scan_min_y() as int, t.scan_max_y() as int);
}

pub(crate) fn min3_exec(a: i16, b: i16, c: i16) -> (m: i16)
    ensures
        m == min3(a, b, c),
{
    let ab = if a <= b {
        a
    } else {
        b
    };
    if ab <= c {
        ab
    } else {
        c
    }
}

pub(crate) fn max3_exec(a: i16, b: i16, c: i16) -> (m: i16)
    ensures
        m == max3(a, b, c),
{
    let ab = if a >= b {
        a
    } else {
        b
    };
    if ab >= c {
        ab
    } else {
        c
    }
}

impl SoftwareBuffer {
    /// Draws a triangle on the buffer using the given command.
    /// Uses a winding number to determine if the pixel is inside
    /// a triangle.
    pub fn draw_triangle(&mut self, triangle: Triangle, command: &impl PixelDrawingCommand)
        ensures
            command.obeys_drawing() ==> final(self)@ == draw_all(
                command,
                old(self)@,
                triangle_pixels(triangle),
            ),
            keeps_size(old(self)@, final(self)@),
    {
        let lx = min3_exec(triangle.a.x, triangle.b.x, triangle.c.x);
        let min_x: i16 = if lx >= 0 {
            lx
        } else {
            0
        };
        let max_x = max3_exec(triangle.a.x, triangle.b.x, triangle.c.x);
        let ly = min3_exec(triangle.a.y, triangle.b.y, triangle.c.y);
        let min_y: i16 = if ly >= 0 {
            ly
        } else {
            0
        };
        let max_y = max3_exec(triangle.a.y, triangle.b.y, triangle.c.y);
        proof {
            use_type_invariant(&*self);
        }
        let ghost start = self@;
        let mut y: i32 = min_y as i32;
        assert(rows_pixels(triangle, max_x as int, min_y as int, y - 1) =~= Seq::<(u16, u16)>::empty());
        while y <= max_y as i32
            invariant
                min_y <= y,
                y <= max_y + 1 || y == min_y,
                min_y == triangle.scan_min_y(),
                max_y == triangle.scan_max_y(),
                min_x == triangle.scan_min_x(),
                max_x == triangle.scan_max_x(),
                lx == min3(triangle.a.x, triangle.b.x, triangle.c.x),
                keeps_size(start, self@),
                command.obeys_drawing() ==> self@ == draw_all(
                    command,
                    start,
                    rows_pixels(triangle, max_x as int, min_y as int, y - 1),
                ),
            decreases max_y + 1 - y,
        {
            let ghost done = rows_pixels(triangle, max_x as int, min_y as int, y - 1);
            let mut x: i32 = min_x as i32;
            assert(done + row_pixels(triangle, min_x as int, x - 1, y as i16) =~= done);
            while x <= max_x as i32
                invariant
                    min_y <= y <= max_y,
                    min_x <= x,
                    x <= max_x + 1 || x == min_x,
                    min_x == triangle.scan_min_x(),
                    max_x == triangle.scan_max_x(),
                    lx == min3(triangle.a.x, triangle.b.x, triangle.c.x),
                    keeps_size(start, self@),
                    0 <= min_x,
                    0 <= min_y,
                    done == rows_pixels(triangle, max_x as int, min_y as int, y - 1),
                    command.obeys_drawing() ==> self@ == draw_all(
                        command,
                        start,
                        done + row_pixels(triangle, min_x as int, x - 1, y as i16),
                    ),
                decreases max_x + 1 - x,
            {
                let ghost row = row_pixels(triangle, min_x as int, x - 1, y as i16);
                let w = triangle.winding_n(lx..=(x as i16), y as i16);
                if w % 2 != 0 {
                    command.draw_pixel(self, x as u16, y as u16);
                    proof {
                        lemma_draw_all_push(command, start, done + row, (x as u16, y as u16));
                        assert(done + row.push((x as u16, y as u16)) =~= (done + row).push(
                            (x as u16, y as u16),
                        ));
                    }
                }
                x = x + 1;
            }
            assert(row_pixels(triangle, min_x as int, x - 1, y as i16) == row_pixels(
                triangle,
                min_x as int,
                max_x as int,
                y as i16,
            ));
            assert(rows_pixels(triangle, max_x as int, min_y as int, y as int) == done + row_pixels(
                triangle,
                min_x as int,
                max_x as int,
                y as i16,
            ));
            y = y + 1;
        }
        assert(rows_pixels(triangle, max_x as int, min_y as int, y - 1) == rows_pixels(
            triangle,
            max_x as int,
            min_y as int,
            max_y as int,
        ));
    }
}

} // verus!

verus! {

/// Row `y` is scanned off the grid: no corner lies on its scan line.
proof fn lemma_scan_off_corner(t: Triangle, y: i16, v: crate::geometry::Point)
    ensures
        200 * v.y != t.scan_line(y),
{
}

/// The winding rule decides the pixels off the triangle's edges as geometry
/// does: a pixel whose point (on the shifted scan line of its row) is
/// strictly inside the triangle is covered, and one strictly outside is not.
pub proof fn law_winding_parity_is_inside(t: Triangle, x: int, y: i16)
    ensures
        t.strictly_inside(x, t.scan_line(y)) ==> t.covers(x, y),
        t.strictly_outside(x, t.scan_line(y)) ==> !t.covers(x, y),
{
    let s = t.scan_line(y);
    let x0 = min3(t.a.x, t.b.x, t.c.x) as int;
    lemma_scan_off_corner(t, y, t.a);
    lemma_scan_off_corner(t, y, t.b);
    lemma_scan_off_corner(t, y, t.c);
    lemma_edge_counted(t.a, t.b, x0, x, s);
    lemma_edge_counted(t.b, t.c, x0, x, s);
    lemma_edge_counted(t.c, t.a, x0, x, s);
    lemma_side_swap(t.a, t.b, x, s);
    lemma_side_swap(t.b, t.c, x, s);
    lemma_side_swap(t.c, t.a, x, s);
    lemma_sides_balance(t, x, s);
    let (sa, sb, sc) = (edge_side(t.b, t.c, x, s), edge_side(t.c, t.a, x, s), edge_side(t.a, t.b, x, s));
    let (pa, pb, pc) = (200 * t.a.y - s, 200 * t.b.y - s, 200 * t.c.y - s);
    lemma_sign_mul(sa, pa);
    lemma_sign_mul(sb, pb);
    lemma_sign_mul(sc, pc);
}

proof fn lemma_row_pixels_contains(t: Triangle, x_lo: int, x_hi: int, y: i16, x: int)
    requires
        x_lo <= x <= x_hi,
        t.covers(x, y),
    ensures
        row_pixels(t, x_lo, x_hi, y).contains((x as u16, y as u16)),
    decreases x_hi - x_lo + 1,
{
    let row = row_pixels(t, x_lo, x_hi, y);
    if x == x_hi {
        assert(row[row.len() - 1] == (x as u16, y as u16));
    } else {
        lemma_row_pixels_contains(t, x_lo, x_hi - 1, y, x);
        let before = row_pixels(t, x_lo, x_hi - 1, y);
        let k = choose|k: int| 0 <= k < before.len() && before[k] == (x as u16, y as u16);
        assert(row[k] == before[k]);
    }
}

proof fn lemma_rows_pixels_contains(t: Triangle, x_hi: int, y_lo: int, y_hi: int, x: int, y: int)
    requires
        t.scan_min_x() <= x <= x_hi,
        y_lo <= y <= y_hi,
        t.covers(x, y as i16),
    ensures
        rows_pixels(t, x_hi, y_lo, y_hi).contains((x as u16, (y as i16) as u16)),
    decreases y_hi - y_lo + 1,
{
    let rows = rows_pixels(t, x_hi, y_lo, y_hi);
    let before = rows_pixels(t, x_hi, y_lo, y_hi - 1);
    let p = (x as u16, (y as i16) as u16);
    if y == y_hi {
        let row = row_pixels(t, t.scan_min_x() as int, x_hi, y_hi as i16);
        lemma_row_pixels_contains(t, t.scan_min_x() as int, x_hi, y_hi as i16, x);
        let k = choose|k: int| 0 <= k < row.len() && row[k] == p;
        assert(rows[before.len() + k] == row[k]);
    } else {
        lemma_rows_pixels_contains(t, x_hi, y_lo, y_hi - 1, x, y);
        let k = choose|k: int| 0 <= k < before.len() && before[k] == p;
        assert(rows[k] == before[k]);
    }
}

proof fn lemma_row_pixels_covered(t: Triangle, x_lo: int, x_hi: int, y: i16)
    requires
        0 <= x_lo,
        x_hi <= 0x7fff,
    ensures
        forall|k: int|
            0 <= k < row_pixels(t, x_lo, x_hi, y).len() ==> t.covers(
                (#[trigger] row_pixels(t, x_lo, x_hi, y)[k]).0 as int,
                y,
            ),
    decreases x_hi - x_lo + 1,
{
    if x_hi >= x_lo {
        lemma_row_pixels_covered(t, x_lo, x_hi - 1, y);
        let before = row_pixels(t, x_lo, x_hi - 1, y);
        assert forall|k: int| 0 <= k < row_pixels(t, x_lo, x_hi, y).len() implies t.covers(
            (#[trigger] row_pixels(t, x_lo, x_hi, y)[k]).0 as int,
            y,
        ) by {
            if k < before.len() {
                assert(row_pixels(t, x_lo, x_hi, y)[k] == before[k]);
            }
        }
    }
}

proof fn lemma_rows_pixels_covered(t: Triangle, x_hi: int, y_lo: int, y_hi: int)
    requires
        x_hi <= 0x7fff,
        0 <= y_lo,
        y_hi <= 0x7fff,
    ensures
        forall|k: int|
            0 <= k < rows_pixels(t, x_hi, y_lo, y_hi).len() ==> {
                let p = #[trigger] rows_pixels(t, x_hi, y_lo, y_hi)[k];
                t.covers(p.0 as int, p.1 as i16)
            },
    decreases y_hi - y_lo + 1,
{
    if y_hi >= y_lo {
        lemma_rows_pixels_covered(t, x_hi, y_lo, y_hi - 1);
        lemma_row_pixels_covered(t, t.scan_min_x() as int, x_hi, y_hi as i16);
        lemma_row_pixels_in_range(t, t.scan_min_x() as int, x_hi, y_hi as i16);
        let before = rows_pixels(t, x_hi, y_lo, y_hi - 1);
        let row = row_pixels(t, t.scan_min_x() as int, x_hi, y_hi as i16);
        assert forall|k: int| 0 <= k < rows_pixels(t, x_hi, y_lo, y_hi).len() implies {
            let p = #[trigger] rows_pixels(t, x_hi, y_lo, y_hi)[k];
            t.covers(p.0 as int, p.1 as i16)
        } by {
            if k < before.len() {
                assert(rows_pixels(t, x_hi, y_lo, y_hi)[k] == before[k]);
            } else {
                assert(rows_pixels(t, x_hi, y_lo, y_hi)[k] == row[k - before.len()]);
            }
        }
    }
}

/// A point strictly inside a triangle lies within its bounding box.
proof fn lemma_inside_in_box(t: Triangle, x: int, y: i16)
    requires
        t.strictly_inside(x, t.scan_line(y)),
    ensures
        min3(t.a.x, t.b.x, t.c.x) <= x <= t.scan_max_x(),
        min3(t.a.y, t.b.y, t.c.y) <= y <= t.scan_max_y(),
{
    let s = t.scan_line(y);
    lemma_sides_balance(t, x, s);
    let (sa, sb, sc) = (edge_side(t.b, t.c, x, s), edge_side(t.c, t.a, x, s), edge_side(t.a, t.b, x, s));
    lemma_sign_mul(sa, t.a.x - x);
    lemma_sign_mul(sb, t.b.x - x);
    lemma_sign_mul(sc, t.c.x - x);
    lemma_sign_mul(sa, 200 * t.a.y - s);
    lemma_sign_mul(sb, 200 * t.b.y - s);
    lemma_sign_mul(sc, 200 * t.c.y - s);
}

/// Filling a triangle colors every pixel of the buffer whose point lies
/// strictly inside it.
pub proof fn law_triangle_fills_inside(before: Canvas, t: Triangle, color: Color24, x: u16, y: u16)
    requires
        before.wf(),
        x < before.width,
        y < before.height,
        x <= 0x7fff,
        y <= 0x7fff,
        t.strictly_inside(x as int, t.scan_line(y as i16)),
    ensures
        draw_all(&FillPixelCommand(color), before, triangle_pixels(t)).pixel_at(x, y) == Some(
            color,
        ),
{
    lemma_inside_in_box(t, x as int, y as i16);
    law_winding_parity_is_inside(t, x as int, y as i16);
    lemma_rows_pixels_contains(
        t,
        t.scan_max_x() as int,
        t.scan_min_y() as int,
        t.scan_max_y() as int,
        x as int,
        y as int,
    );
    lemma_filled_pixel_reads(before, triangle_pixels(t), color, x, y);
}

/// Filling a triangle leaves every pixel whose point lies strictly outside
/// it as it was.
pub proof fn law_triangle_keeps_outside(before: Canvas, t: Triangle, color: Color24, x: u16, y: u16)
    requires
        before.wf(),
        x < before.width,
        y < before.height,
        x <= 0x7fff,
        y <= 0x7fff,
        t.strictly_outside(x as int, t.scan_line(y as i16)),
    ensures
        draw_all(&FillPixelCommand(color), before, triangle_pixels(t)).pixel_at(x, y)
            == before.pixel_at(x, y),
{
    let ps = triangle_pixels(t);
    lemma_fill_all(before, ps, color);
    law_triangle_pixels_in_box(t);
    lemma_rows_pixels_covered(t, t.scan_max_x() as int, t.scan_min_y() as int, t.scan_max_y() as int);
    if ps.contains((x, y)) {
        let k = choose|k: int| 0 <= k < ps.len() && ps[k] == (x, y);
        assert(ps[k] == (x, y));
        law_winding_parity_is_inside(t, x as int, y as i16);
        assert(t.covers(ps[k].0 as int, ps[k].1 as i16));
    }
}

} // verus!

verus! {

/// How many times `p` occurs in `ps`.
pub open spec fn occurrences(ps: Seq<(u16, u16)>, p: (u16, u16)) -> int
    decreases ps.len(),
{
    if ps.len() == 0 {
        0
    } else {
        occurrences(ps.drop_last(), p) + if ps.last() == p {
            1int
        } else {
            0
        }
    }
}

pub proof fn lemma_occurrences_concat(ps: Seq<(u16, u16)>, qs: Seq<(u16, u16)>, p: (u16, u16))
    ensures
        occurrences(ps + qs, p) == occurrences(ps, p) + occurrences(qs, p),
    decreases qs.len(),
{
    if qs.len() == 0 {
        assert(ps + qs =~= ps);
    } else {
        lemma_occurrences_concat(ps, qs.drop_last(), p);
        assert((ps + qs).drop_last() =~= ps + qs.drop_last());
    }
}

/// A pixel inside the triangle's winding rule lies in its bounding box.
pub(crate) proof fn lemma_covers_in_box(t: Triangle, x: int, y: i16)
    requires
        t.covers(x, y),
    ensures
        min3(t.a.x, t.b.x, t.c.x) <= x <= t.scan_max_x(),
        min3(t.a.y, t.b.y, t.c.y) <= y <= t.scan_max_y(),
{
    let s = t.scan_line(y);
    let x0 = min3(t.a.x, t.b.x, t.c.x) as int;
    lemma_scan_off_corner(t, y, t.a);
    lemma_scan_off_corner(t, y, t.b);
    lemma_scan_off_corner(t, y, t.c);
    lemma_edge_counted(t.a, t.b, x0, x, s);
    lemma_edge_counted(t.b, t.c, x0, x, s);
    lemma_edge_counted(t.c, t.a, x0, x, s);
    let (pa, pb, pc) = (200 * t.a.y - s, 200 * t.b.y - s, 200 * t.c.y - s);
    let (dxa, dxb, dxc) = (t.a.x - x, t.b.x - x, t.c.x - x);
    lemma_sign_mul(dxa, pb);
    lemma_sign_mul(dxb, pa);
    lemma_sign_mul(dxb, pc);
    lemma_sign_mul(dxc, pb);
    lemma_sign_mul(dxc, pa);
    lemma_sign_mul(dxa, pc);
    lemma_sign_mul(pa, dxb);
    lemma_sign_mul(pb, dxa);
    lemma_sign_mul(pb, dxc);
    lemma_sign_mul(pc, dxb);
    lemma_sign_mul(pc, dxa);
    lemma_sign_mul(pa, dxc);
}

proof fn lemma_row_pixels_occurrences(t: Triangle, x_lo: int, x_hi: int, yr: i16, x: int, y: int)
    requires
        0 <= x_lo,
        x_hi <= 0x7fff,
        0 <= yr,
        0 <= x <= 0x7fff,
        0 <= y <= 0x7fff,
    ensures
        occurrences(row_pixels(t, x_lo, x_hi, yr), (x as u16, y as u16)) == if yr == y && x_lo <= x
            <= x_hi && t.covers(x, yr) {
            1int
        } else {
            0
        },
    decreases x_hi - x_lo + 1,
{
    if x_hi >= x_lo {
        lemma_row_pixels_occurrences(t, x_lo, x_hi - 1, yr, x, y);
        let before = row_pixels(t, x_lo, x_hi - 1, yr);
        if t.covers(x_hi, yr) {
            assert(before.push((x_hi as u16, yr as u16)).drop_last() =~= before);
        }
    }
}

pub(crate) proof fn lemma_rows_pixels_occurrences(t: Triangle, x_hi: int, y_lo: int, y_hi: int, x: int, y: int)
    requires
        x_hi <= 0x7fff,
        0 <= y_lo,
        y_hi <= 0x7fff,
        0 <= x <= 0x7fff,
        0 <= y <= 0x7fff,
    ensures
        occurrences(rows_pixels(t, x_hi, y_lo, y_hi), (x as u16, y as u16)) == if y_lo <= y <= y_hi
            && t.scan_min_x() <= x <= x_hi && t.covers(x, y as i16) {
            1int
        } else {
            0
        },
    decreases y_hi - y_lo + 1,
{
    if y_hi >= y_lo {
        lemma_rows_pixels_occurrences(t, x_hi, y_lo, y_hi - 1, x, y);
        lemma_row_pixels_occurrences(t, t.scan_min_x() as int, x_hi, y_hi as i16, x, y);
        lemma_occurrences_concat(
            rows_pixels(t, x_hi, y_lo, y_hi - 1),
            row_pixels(t, t.scan_min_x() as int, x_hi, y_hi as i16),
            (x as u16, y as u16),
        );
    }
}

/// A triangle is drawn once on each pixel that its winding rule covers, and
/// on no other pixel.
pub proof fn lemma_triangle_pixels_once(t: Triangle, x: int, y: int)
    requires
        0 <= x <= 0x7fff,
        0 <= y <= 0x7fff,
    ensures
        occurrences(triangle_pixels(t), (x as u16, y as u16)) == if t.covers(x, y as i16) {
            1int
        } else {
            0
        },
{
    lemma_rows_pixels_occurrences(
        t,
        t.scan_max_x() as int,
        t.scan_min_y() as int,
        t.scan_max_y() as int,
        x,
        y,
    );
    if t.covers(x, y as i16) {
        lemma_covers_in_box(t, x, y as i16);
    }
}

} // verus!
