//! Inverting colors: drawing shapes as a series of triangles that each invert
//! the picture under them.
use vstd::prelude::*;

use super::{Canvas, Color24, SoftwareBuffer};
use crate::geometry::{Point, Triangle};
use crate::geometry::ex02_winding_number_triangle::{edge_side, lemma_edge_counted, min3};
use super::ex02_winding_number_triangle::{
    draw_all, lemma_occurrences_concat, lemma_triangle_pixels_once, occurrences, triangle_pixels,
    PixelDrawingCommand,
};

verus! {

impl Color24 {
    /// The color with every channel `c` replaced by `255 - c`.
    pub open spec fn inverted(self) -> Color24 {
        Color24 { r: (255 - self.r) as u8, g: (255 - self.g) as u8, b: (255 - self.b) as u8 }
    }

    pub fn invert(self) -> (c: Color24)
        ensures
            c == self.inverted(),
    {
        Color24 { r: 255 - self.r, g: 255 - self.g, b: 255 - self.b }
    }
}

/// A command that inverts the color of the pixel.
pub struct InvertPixelCommand;

impl PixelDrawingCommand for InvertPixelCommand {
    open spec fn obeys_drawing(&self) -> bool {
        true
    }

    open spec fn drawn(&self, before: Canvas, x: u16, y: u16) -> Canvas {
        match before.pixel_at(x, y) {
            Some(c) => before.with_pixel(x, y, c.inverted()),
            None => before,
        }
    }

    fn draw_pixel(&self, software_buffer: &mut SoftwareBuffer, x: u16, y: u16) {
        let color = match software_buffer.get_pixel(x, y) {
            Some(color) => color,
            None => {
                return ;
            },
        };
        software_buffer.set_pixel(x, y, color.invert())
    }
}

/// Inverting a color twice gives it back.
pub proof fn lemma_invert_involutive(c: Color24)
    ensures
        c.inverted().inverted() == c,
{
}

/// How many of the pixels `ps` are in bounds of a `width` by `height` canvas
/// and sit at its index `i`.
pub open spec fn hits(width: u16, height: u16, ps: Seq<(u16, u16)>, i: int) -> nat
    decreases ps.len(),
{
    if ps.len() == 0 {
        0
    } else {
        hits(width, height, ps.drop_last(), i) + (if ps.last().0 < width && ps.last().1 < height
            && ps.last().1 * width + ps.last().0 == i {
            1nat
        } else {
            0nat
        })
    }
}

/// Inverting the pixels `ps` in order inverts each pixel as many times as
/// `ps` hits it: those hit an odd number of times end up inverted, the others
/// unchanged.
pub proof fn lemma_invert_all(before: Canvas, ps: Seq<(u16, u16)>)
    ensures
        ({
            let after = draw_all(&InvertPixelCommand, before, ps);
            &&& after.width == before.width
            &&& after.height == before.height
            &&& after.pixels.len() == before.pixels.len()
            &&& forall|i: int|
                0 <= i < before.pixels.len() ==> #[trigger] after.pixels[i] == if hits(
                    before.width,
                    before.height,
                    ps,
                    i,
                ) % 2 == 1 {
                    before.pixels[i].inverted()
                } else {
                    before.pixels[i]
                }
        }),
    decreases ps.len(),
{
    if ps.len() > 0 {
        lemma_invert_all(before, ps.drop_last());
        let mid = draw_all(&InvertPixelCommand, before, ps.drop_last());
        let p = ps.last();
        let after = draw_all(&InvertPixelCommand, before, ps);
        assert forall|i: int| 0 <= i < before.pixels.len() implies #[trigger] after.pixels[i]
            == if hits(before.width, before.height, ps, i) % 2 == 1 {
            before.pixels[i].inverted()
        } else {
            before.pixels[i]
        } by {
            let h = hits(before.width, before.height, ps.drop_last(), i);
            lemma_invert_involutive(before.pixels[i]);
            if p.0 < before.width && p.1 < before.height && p.1 * before.width + p.0 == i {
                assert(hits(before.width, before.height, ps, i) == h + 1);
            } else {
                assert(hits(before.width, before.height, ps, i) == h);
            }
        }
    }
}

/// Inverting the same pixels twice, in the same order, restores the canvas.
pub proof fn law_invert_twice_restores(before: Canvas, ps: Seq<(u16, u16)>)
    ensures
        draw_all(&InvertPixelCommand, draw_all(&InvertPixelCommand, before, ps), ps) == before,
{
    let mid = draw_all(&InvertPixelCommand, before, ps);
    let after = draw_all(&InvertPixelCommand, mid, ps);
    lemma_invert_all(before, ps);
    lemma_invert_all(mid, ps);
    assert forall|i: int| 0 <= i < before.pixels.len() implies after.pixels[i]
        == before.pixels[i] by {
        lemma_invert_involutive(before.pixels[i]);
        assert(after.pixels[i] == mid.pixels[i]
            || after.pixels[i] == mid.pixels[i].inverted());
    }
    assert(after.pixels =~= before.pixels);
}

} // verus!

verus! {

/// The triangle of a fan around `anchor` over the closed outline `outline`
/// made of corner `i` and the corner after it.
pub open spec fn fan_triangle(anchor: Point, outline: Seq<Point>, i: int) -> Triangle {
    Triangle { a: anchor, b: outline[i], c: outline[(i + 1) % outline.len() as int] }
}

/// How many of the first `m` triangles of the fan cover the pixel `(x, y)`.
pub open spec fn fan_cover_count(anchor: Point, outline: Seq<Point>, x: int, y: i16, m: int) -> int
    decreases m,
{
    if m <= 0 {
        0
    } else {
        fan_cover_count(anchor, outline, x, y, m - 1) + if fan_triangle(
            anchor,
            outline,
            m - 1,
        ).covers(x, y) {
            1int
        } else {
            0
        }
    }
}

/// No corner of the outline, nor the anchor, lies on row `y`.
pub open spec fn row_clear_of(anchor: Point, outline: Seq<Point>, y: i16) -> bool {
    anchor.y != y && forall|i: int| 0 <= i < outline.len() ==> #[trigger] outline[i].y != y
}

/// Whether the edge `u - v` (in either direction) crosses the scan line
/// `scan` at or left of `x`, as 1 or 0.
spec fn crossing(u: Point, v: Point, x: int, scan: int) -> int {
    if ((200 * u.y - scan < 0) != (200 * v.y - scan < 0)) && if u.y < v.y {
        edge_side(u, v, x, scan) <= 0
    } else {
        edge_side(v, u, x, scan) <= 0
    } {
        1
    } else {
        0
    }
}

/// On a row clear of its corners, a triangle covers a pixel exactly when an
/// odd number of its edges cross left of it.
proof fn lemma_covers_by_crossings(t: Triangle, x: int, y: i16)
    requires
        t.a.y != y,
        t.b.y != y,
        t.c.y != y,
    ensures
        t.scan_line(y) == 200 * y + 1,
        t.covers(x, y) == ((crossing(t.a, t.b, x, 200 * y + 1) + crossing(t.b, t.c, x, 200 * y + 1)
            + crossing(t.c, t.a, x, 200 * y + 1)) % 2 != 0),
{
    let s = 200 * y + 1;
    let x0 = min3(t.a.x, t.b.x, t.c.x) as int;
    lemma_edge_counted(t.a, t.b, x0, x, s);
    lemma_edge_counted(t.b, t.c, x0, x, s);
    lemma_edge_counted(t.c, t.a, x0, x, s);
}

/// The crossings of the fan's edges, each triangle's three edges in turn.
spec fn fan_crossings(anchor: Point, outline: Seq<Point>, x: int, s: int, m: int) -> int
    decreases m,
{
    if m <= 0 {
        0
    } else {
        let n = outline.len() as int;
        fan_crossings(anchor, outline, x, s, m - 1) + crossing(anchor, outline[m - 1], x, s)
            + crossing(outline[m - 1], outline[m % n], x, s) + crossing(outline[m % n], anchor, x, s)
    }
}

/// The crossings of the outline's edges.
spec fn outline_crossings(outline: Seq<Point>, x: int, s: int, m: int) -> int
    decreases m,
{
    if m <= 0 {
        0
    } else {
        outline_crossings(outline, x, s, m - 1) + crossing(
            outline[m - 1],
            outline[m % outline.len() as int],
            x,
            s,
        )
    }
}

/// Each spoke from the anchor is an edge of two neighbouring triangles, so
/// the fan's crossings differ from the outline's by an even number (the
/// first spoke and the spoke to corner `m` aside).
proof fn lemma_spokes_pair_up(anchor: Point, outline: Seq<Point>, x: int, s: int, m: int)
    requires
        0 <= m <= outline.len(),
        outline.len() >= 1,
    ensures
        (fan_crossings(anchor, outline, x, s, m) - outline_crossings(outline, x, s, m) - crossing(
            anchor,
            outline[0],
            x,
            s,
        ) - crossing(anchor, outline[m % outline.len() as int], x, s)) % 2 == 0,
    decreases m,
{
    let n = outline.len() as int;
    if m > 0 {
        lemma_spokes_pair_up(anchor, outline, x, s, m - 1);
        vstd::arithmetic::div_mod::lemma_small_mod((m - 1) as nat, n as nat);
        let c0 = crossing(anchor, outline[0], x, s);
        let prev = crossing(anchor, outline[m - 1], x, s);
        let next = crossing(anchor, outline[m % n], x, s);
        assert(crossing(outline[m % n], anchor, x, s) == next);
        let d = fan_crossings(anchor, outline, x, s, m - 1) - outline_crossings(outline, x, s, m - 1)
            - c0 - prev;
        assert(d % 2 == 0);
        assert(fan_crossings(anchor, outline, x, s, m) - outline_crossings(outline, x, s, m) - c0
            - next == d + 2 * prev);
    } else {
        vstd::arithmetic::div_mod::lemma_small_mod(0, n as nat);
    }
}

/// The number of covering triangles and the number of crossing edges of the
/// fan have the same parity.
proof fn lemma_count_parity(anchor: Point, outline: Seq<Point>, x: int, y: i16, m: int)
    requires
        0 <= m <= outline.len(),
        row_clear_of(anchor, outline, y),
    ensures
        (fan_cover_count(anchor, outline, x, y, m) - fan_crossings(
            anchor,
            outline,
            x,
            200 * y + 1,
            m,
        )) % 2 == 0,
    decreases m,
{
    if m > 0 {
        let n = outline.len() as int;
        lemma_count_parity(anchor, outline, x, y, m - 1);
        vstd::arithmetic::div_mod::lemma_small_mod((m - 1) as nat, n as nat);
        vstd::arithmetic::div_mod::lemma_mod_bound(m, n);
        let t = fan_triangle(anchor, outline, m - 1);
        assert(t.b.y != y);
        assert(t.c.y != y);
        lemma_covers_by_crossings(t, x, y);
    }
}

/// The inverting-fan trick does not depend on the anchor: on every row
/// that holds no corner of the outline nor either anchor, a pixel is
/// covered by an odd number of the fan's triangles around `anchor` exactly
/// when it is so around `other`. The parity is that of the outline's own
/// edges crossing the row left of the pixel.
pub proof fn law_fan_parity_ignores_anchor(
    anchor: Point,
    other: Point,
    outline: Seq<Point>,
    x: int,
    y: i16,
)
    requires
        outline.len() >= 1,
        row_clear_of(anchor, outline, y),
        row_clear_of(other, outline, y),
    ensures
        fan_cover_count(anchor, outline, x, y, outline.len() as int) % 2 == fan_cover_count(
            other,
            outline,
            x,
            y,
            outline.len() as int,
        ) % 2,
{
    let n = outline.len() as int;
    let s = 200 * y + 1;
    lemma_spokes_pair_up(anchor, outline, x, s, n);
    lemma_spokes_pair_up(other, outline, x, s, n);
    lemma_count_parity(anchor, outline, x, y, n);
    lemma_count_parity(other, outline, x, y, n);
    vstd::arithmetic::div_mod::lemma_mod_self_0(n);
}

/// The pixels that drawing the first `m` triangles of the fan visits, in
/// drawing order.
pub open spec fn fan_pixels(anchor: Point, outline: Seq<Point>, m: int) -> Seq<(u16, u16)>
    decreases m,
{
    if m <= 0 {
        seq![]
    } else {
        fan_pixels(anchor, outline, m - 1) + triangle_pixels(fan_triangle(anchor, outline, m - 1))
    }
}

/// On a well-formed canvas, the pixels of `ps` that hit the index of the
/// in-bounds position `(x, y)` are the occurrences of that position.
proof fn lemma_hits_are_occurrences(c: Canvas, ps: Seq<(u16, u16)>, x: u16, y: u16)
    requires
        c.wf(),
        x < c.width,
        y < c.height,
    ensures
        hits(c.width, c.height, ps, c.index_of(x, y)) == occurrences(ps, (x, y)),
    decreases ps.len(),
{
    if ps.len() > 0 {
        lemma_hits_are_occurrences(c, ps.drop_last(), x, y);
        let p = ps.last();
        if p.0 < c.width && p.1 < c.height && p.1 * c.width + p.0 == c.index_of(x, y) {
            c.lemma_index_injective(p.0, p.1, x, y);
        }
    }
}

proof fn lemma_fan_occurrences(anchor: Point, outline: Seq<Point>, x: int, y: int, m: int)
    requires
        0 <= x <= 0x7fff,
        0 <= y <= 0x7fff,
    ensures
        occurrences(fan_pixels(anchor, outline, m), (x as u16, y as u16)) == fan_cover_count(
            anchor,
            outline,
            x,
            y as i16,
            m,
        ),
    decreases m,
{
    if m > 0 {
        lemma_fan_occurrences(anchor, outline, x, y, m - 1);
        lemma_triangle_pixels_once(fan_triangle(anchor, outline, m - 1), x, y);
        lemma_occurrences_concat(
            fan_pixels(anchor, outline, m - 1),
            triangle_pixels(fan_triangle(anchor, outline, m - 1)),
            (x as u16, y as u16),
        );
    }
}

/// Drawing a shape as a fan of inverting triangles gives the same picture
/// whatever the anchor of the fan: every pixel on a row that holds no
/// corner of the outline nor either anchor ends up the same color.
pub proof fn law_fan_picture_ignores_anchor(
    before: Canvas,
    anchor: Point,
    other: Point,
    outline: Seq<Point>,
    x: u16,
    y: u16,
)
    requires
        before.wf(),
        x < before.width,
        y < before.height,
        x <= 0x7fff,
        y <= 0x7fff,
        outline.len() >= 1,
        row_clear_of(anchor, outline, y as i16),
        row_clear_of(other, outline, y as i16),
    ensures
        draw_all(&InvertPixelCommand, before, fan_pixels(anchor, outline, outline.len() as int)).pixel_at(
            x,
            y,
        ) == draw_all(&InvertPixelCommand, before, fan_pixels(other, outline, outline.len() as int)).pixel_at(
            x,
            y,
        ),
{
    let n = outline.len() as int;
    let ps = fan_pixels(anchor, outline, n);
    let qs = fan_pixels(other, outline, n);
    lemma_invert_all(before, ps);
    lemma_invert_all(before, qs);
    before.lemma_index_in_bounds(x, y);
    lemma_hits_are_occurrences(before, ps, x, y);
    lemma_hits_are_occurrences(before, qs, x, y);
    lemma_fan_occurrences(anchor, outline, x as int, y as int, n);
    lemma_fan_occurrences(other, outline, x as int, y as int, n);
    law_fan_parity_ignores_anchor(anchor, other, outline, x as int, y as i16);
}

} // verus!
