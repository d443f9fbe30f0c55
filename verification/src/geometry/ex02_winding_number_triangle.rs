//! The winding number of a horizontal scan segment against the edges of a
//! triangle, computed exactly with integers.
use vstd::prelude::*;
use std::ops::RangeInclusive;

use super::{Line, Point, Triangle};

verus! {

/// The scan line of row `y` is moved off the grid by this fraction of a
/// pixel, so that it never runs exactly through a corner.
pub open spec fn scan_shift_denominator() -> int {
    200
}

pub open spec fn max3(a: i16, b: i16, c: i16) -> i16 {
    let ab = if a >= b {
        a
    } else {
        b
    };
    if ab >= c {
        ab
    } else {
        c
    }
}

pub open spec fn min3(a: i16, b: i16, c: i16) -> i16 {
    let ab = if a <= b {
        a
    } else {
        b
    };
    if ab <= c {
        ab
    } else {
        c
    }
}

impl Triangle {
    /// The largest `y` of the three corners.
    pub open spec fn max_y(self) -> i16 {
        max3(self.a.y, self.b.y, self.c.y)
    }

    /// The scan line of row `y`, scaled by 200: `1/200` below the row, or
    /// `1/200` above it when `y` is the largest `y` of the triangle.
    pub open spec fn scan_line(self, y: i16) -> int {
        if y == self.max_y() {
            scan_shift_denominator() * y - 1
        } else {
            scan_shift_denominator() * y + 1
        }
    }
}

/// Whether the edge from `start` to `end` meets the scan line `scan` (scaled
/// by 200) at an `x` with `x0 <= x <= x1`. An edge crosses when the scan line
/// lies between its ends; a horizontal edge counts when one of its ends lies
/// in `[x0, x1]`.
pub open spec fn edge_crosses(start: Point, end: Point, x0: int, x1: int, scan: int) -> bool {
    let (min_x, min_y, max_x, max_y) = if start.y < end.y {
        (start.x as int, start.y as int, end.x as int, end.y as int)
    } else {
        (end.x as int, end.y as int, start.x as int, start.y as int)
    };
    let lo = scan_shift_denominator() * min_y;
    let hi = scan_shift_denominator() * max_y;
    if !(lo <= scan <= hi) {
        false
    } else if hi == lo {
        (x0 <= start.x <= x1) || (x0 <= end.x <= x1)
    } else {
        // The crossing is at x = min_x + (scan - lo) * (max_x - min_x) / (hi - lo).
        let num = min_x * (hi - lo) + (scan - lo) * (max_x - min_x);
        x0 * (hi - lo) <= num && num <= x1 * (hi - lo)
    }
}

/// How many of the edges `a -> b`, `b -> c`, `c -> a` cross the scan line of
/// row `y` between `x0` and `x1`.
pub open spec fn winding_number(t: Triangle, x0: int, x1: int, y: i16) -> int {
    let s = t.scan_line(y);
    (if edge_crosses(t.a, t.b, x0, x1, s) {
        1int
    } else {
        0
    }) + (if edge_crosses(t.b, t.c, x0, x1, s) {
        1int
    } else {
        0
    }) + (if edge_crosses(t.c, t.a, x0, x1, s) {
        1int
    } else {
        0
    })
}

/// `std::ops::RangeInclusive::start` returns a reference to the range's lower
/// bound. Claimed, for a range not iterated to exhaustion (after that its
/// documentation leaves the value unspecified): the value it points to is the
/// `start` of the range's view.
pub assume_specification<Idx>[ RangeInclusive::<Idx>::start ](r: &RangeInclusive<Idx>) -> (s: &Idx)
    ensures
        !r@.exhausted ==> *s == r@.start,
;

/// `std::ops::RangeInclusive::end` returns a reference to the range's upper
/// bound. Claimed, for a range not iterated to exhaustion (after that its
/// documentation leaves the value unspecified): the value it points to is the
/// `end` of the range's view.
pub assume_specification<Idx>[ RangeInclusive::<Idx>::end ](r: &RangeInclusive<Idx>) -> (e: &Idx)
    ensures
        !r@.exhausted ==> *e == r@.end,
;

/// Tells whether the edge `line` meets the scan line `scan` between `x0` and `x1`.
fn line_crosses(line: Line, x0: i16, x1: i16, scan: i64) -> (r: bool)
    requires
        -0x7fff_ffff <= scan <= 0x7fff_ffff,
    ensures
        r == edge_crosses(line.start, line.end, x0 as int, x1 as int, scan as int),
{
    let (a, b) = (line.start, line.end);
    let (min_x, min_y, max_x, max_y) = if a.y < b.y {
        (a.x as i64, a.y as i64, b.x as i64, b.y as i64)
    } else {
        (b.x as i64, b.y as i64, a.x as i64, a.y as i64)
    };
    let lo = 200 * min_y;
    let hi = 200 * max_y;
    if !(lo <= scan && scan <= hi) {
        return false;
    }
    if hi == lo {
        return (x0 <= a.x && a.x <= x1) || (x0 <= b.x && b.x <= x1);
    }
    let dy = hi - lo;
    assert(0 < dy <= 200 * 0xffff);
    assert(0 <= scan - lo <= dy);
    assert(-0xffff <= max_x - min_x <= 0xffff);
    assert(-0x8000 * dy <= min_x * dy <= 0x8000 * dy) by (nonlinear_arith)
        requires
            -0x8000 <= min_x <= 0x8000,
            0 < dy,
    ;
    assert(-0xffff * dy <= (scan - lo) * (max_x - min_x) <= 0xffff * dy) by (nonlinear_arith)
        requires
            0 <= scan - lo <= dy,
            -0xffff <= max_x - min_x <= 0xffff,
    ;
    assert(-0x8000 * dy <= (x0 as i64) * dy <= 0x8000 * dy) by (nonlinear_arith)
        requires
            -0x8000 <= x0 <= 0x8000,
            0 < dy,
    ;
    assert(-0x8000 * dy <= (x1 as i64) * dy <= 0x8000 * dy) by (nonlinear_arith)
        requires
            -0x8000 <= x1 <= 0x8000,
            0 < dy,
    ;
    let num = min_x * dy + (scan - lo) * (max_x - min_x);
    (x0 as i64) * dy <= num && num <= (x1 as i64) * dy
}

impl Triangle {
    /// Counts the edges of the triangle that cross row `y` between the ends of
    /// `x_range`. The row is taken `1/200` of a pixel below `y`, or above it
    /// when `y` is the lowest row of the triangle (its largest `y`), so that it
    /// never passes exactly through a corner. Crossings are computed exactly.
    /// Of a range already iterated to exhaustion, whose bounds std leaves
    /// unspecified, nothing is claimed.
    ///
    /// Because the crossings are exact, the count can differ from one taken
    /// in `f32` arithmetic where a crossing falls exactly on an end of the
    /// range (or within a rounding error of it): the exact crossing is
    /// counted there, where rounding may move it out of the range.
    pub fn winding_n(self, x_range: RangeInclusive<i16>, y: i16) -> (n: i32)
        ensures
            !x_range@.exhausted ==> n == winding_number(
                self,
                x_range@.start as int,
                x_range@.end as int,
                y,
            ),
    {
        let ab = if self.a.y >= self.b.y {
            self.a.y
        } else {
            self.b.y
        };
        let max_y = if ab >= self.c.y {
            ab
        } else {
            self.c.y
        };
        let scan: i64 = if y == max_y {
            200 * (y as i64) - 1
        } else {
            200 * (y as i64) + 1
        };
        let (x0, x1) = (*x_range.start(), *x_range.end());
        let mut winding_number: i32 = 0;
        let lines = self.lines();
        if line_crosses(lines[0], x0, x1, scan) {
            winding_number += 1;
        }
        if line_crosses(lines[1], x0, x1, scan) {
            winding_number += 1;
        }
        if line_crosses(lines[2], x0, x1, scan) {
            winding_number += 1;
        }
        winding_number
    }
}

} // verus!

verus! {

/// Twice the signed area of the triangle that the point `(x, scan / 200)`
/// makes with the edge `u -> v`, in the plane where `y` is scaled by 200.
/// It is positive when the point lies to the left of the edge (in a plane
/// whose `y` axis points up).
pub open spec fn edge_side(u: Point, v: Point, x: int, scan: int) -> int {
    (u.x - x) * (200 * v.y - scan) - (200 * u.y - scan) * (v.x - x)
}

impl Triangle {
    /// The point lies strictly on the same side of all three edges: it is
    /// inside the triangle and on none of its edges.
    pub open spec fn strictly_inside(self, x: int, scan: int) -> bool {
        let (sa, sb, sc) = (
            edge_side(self.b, self.c, x, scan),
            edge_side(self.c, self.a, x, scan),
            edge_side(self.a, self.b, x, scan),
        );
        (sa > 0 && sb > 0 && sc > 0) || (sa < 0 && sb < 0 && sc < 0)
    }

    /// The point lies strictly on the inner side of one edge and strictly on
    /// the outer side of another: it is outside the closed triangle.
    pub open spec fn strictly_outside(self, x: int, scan: int) -> bool {
        let (sa, sb, sc) = (
            edge_side(self.b, self.c, x, scan),
            edge_side(self.c, self.a, x, scan),
            edge_side(self.a, self.b, x, scan),
        );
        (sa > 0 || sb > 0 || sc > 0) && (sa < 0 || sb < 0 || sc < 0)
    }
}

proof fn lemma_crossing_as_side(px: int, py: int, qx: int, qy: int, x: int, scan: int)
    ensures
        px * (200 * qy - 200 * py) + (scan - 200 * py) * (qx - px) - x * (200 * qy - 200 * py)
            == (px - x) * (200 * qy - scan) - (200 * py - scan) * (qx - x),
{
    let (a, b, p, q) = (px - x, qx - x, 200 * py - scan, 200 * qy - scan);
    assert(a * (q - p) == a * q - a * p) by (nonlinear_arith);
    assert((0 - p) * (b - a) == p * a - p * b) by (nonlinear_arith);
    assert(px * (200 * qy - 200 * py) - x * (200 * qy - 200 * py) == a * (q - p)) by (
    nonlinear_arith)
        requires
            a == px - x,
            q - p == 200 * qy - 200 * py,
    ;
    assert((scan - 200 * py) * (qx - px) == (0 - p) * (b - a)) by (nonlinear_arith)
        requires
            scan - 200 * py == 0 - p,
            qx - px == b - a,
    ;
    assert(a * q == (px - x) * (200 * qy - scan));
    assert(p * b == (200 * py - scan) * (qx - x));
    assert(p * a == a * p) by (nonlinear_arith);
}

pub(crate) proof fn lemma_sign_mul(p: int, q: int)
    ensures
        p > 0 && q > 0 ==> p * q > 0,
        p > 0 && q < 0 ==> p * q < 0,
        p < 0 && q > 0 ==> p * q < 0,
        p < 0 && q < 0 ==> p * q > 0,
        p == 0 || q == 0 ==> p * q == 0,
        p >= 0 && q >= 0 ==> p * q >= 0,
        p <= 0 && q >= 0 ==> p * q <= 0,
        p >= 0 && q <= 0 ==> p * q <= 0,
        p <= 0 && q <= 0 ==> p * q >= 0,
{
    assert(p > 0 && q > 0 ==> p * q > 0) by (nonlinear_arith);
    assert(p > 0 && q < 0 ==> p * q < 0) by (nonlinear_arith);
    assert(p < 0 && q > 0 ==> p * q < 0) by (nonlinear_arith);
    assert(p < 0 && q < 0 ==> p * q > 0) by (nonlinear_arith);
    assert(p == 0 || q == 0 ==> p * q == 0) by (nonlinear_arith);
    assert(p >= 0 && q >= 0 ==> p * q >= 0) by (nonlinear_arith);
    assert(p <= 0 && q >= 0 ==> p * q <= 0) by (nonlinear_arith);
    assert(p >= 0 && q <= 0 ==> p * q <= 0) by (nonlinear_arith);
    assert(p <= 0 && q <= 0 ==> p * q >= 0) by (nonlinear_arith);
}

/// An edge whose ends are off the scan line is counted exactly when the scan
/// line passes between its ends and the point is on or right of the crossing:
/// on the outer side of the edge taken bottom to top.
pub(crate) proof fn lemma_edge_counted(u: Point, v: Point, x0: int, x: int, scan: int)
    requires
        200 * u.y != scan,
        200 * v.y != scan,
        x0 <= u.x,
        x0 <= v.x,
    ensures
        edge_crosses(u, v, x0, x, scan) == (((200 * u.y - scan < 0) != (200 * v.y - scan < 0))
            && if u.y < v.y {
            edge_side(u, v, x, scan) <= 0
        } else {
            edge_side(v, u, x, scan) <= 0
        }),
{
    let (p, q) = if u.y < v.y {
        (u, v)
    } else {
        (v, u)
    };
    let lo = 200 * p.y;
    let hi = 200 * q.y;
    if lo <= scan <= hi && hi != lo {
        let d = hi - lo;
        lemma_crossing_as_side(p.x as int, p.y as int, q.x as int, q.y as int, x, scan);
        lemma_crossing_as_side(p.x as int, p.y as int, q.x as int, q.y as int, x0, scan);
        // The crossing lies right of x0: the point (x0, scan) is on the inner side.
        lemma_sign_mul(p.x - x0, 200 * q.y - scan);
        lemma_sign_mul(200 * p.y - scan, q.x - x0);
        let num = p.x * d + (scan - lo) * (q.x - p.x);
        assert(x0 * d == x0 * (200 * q.y - 200 * p.y));
        assert(x * d == x * (200 * q.y - 200 * p.y));
    }
}

/// Swapping the ends of an edge flips the side.
pub(crate) proof fn lemma_side_swap(u: Point, v: Point, x: int, scan: int)
    ensures
        edge_side(v, u, x, scan) == -edge_side(u, v, x, scan),
{
    let (p, q, r, w) = (u.x - x, 200 * v.y - scan, 200 * u.y - scan, v.x - x);
    assert(w * r - q * p == -(p * q - r * w)) by (nonlinear_arith);
}

/// The barycentric identity: the three sides, as weights, balance the
/// corners around the point, in both coordinates.
pub(crate) proof fn lemma_sides_balance(t: Triangle, x: int, scan: int)
    ensures
        edge_side(t.b, t.c, x, scan) * (t.a.x - x) + edge_side(t.c, t.a, x, scan) * (t.b.x - x)
            + edge_side(t.a, t.b, x, scan) * (t.c.x - x) == 0,
        edge_side(t.b, t.c, x, scan) * (200 * t.a.y - scan) + edge_side(t.c, t.a, x, scan) * (200
            * t.b.y - scan) + edge_side(t.a, t.b, x, scan) * (200 * t.c.y - scan) == 0,
{
    let (ax, ay) = (t.a.x - x, 200 * t.a.y - scan);
    let (bx, by) = (t.b.x - x, 200 * t.b.y - scan);
    let (cx, cy) = (t.c.x - x, 200 * t.c.y - scan);
    assert((bx * cy - by * cx) * ax + (cx * ay - cy * ax) * bx + (ax * by - ay * bx) * cx == 0)
        by (nonlinear_arith);
    assert((bx * cy - by * cx) * ay + (cx * ay - cy * ax) * by + (ax * by - ay * bx) * cy == 0)
        by (nonlinear_arith);
}

/// The winding number depends only on the triangle's edges, not on which
/// corner comes first nor on the direction they are walked in.
pub proof fn law_winding_ignores_vertex_order(t: Triangle, x0: int, x1: int, y: i16)
    ensures
        winding_number(t, x0, x1, y) == winding_number(Triangle { a: t.b, b: t.c, c: t.a }, x0, x1, y),
        winding_number(t, x0, x1, y) == winding_number(Triangle { a: t.a, b: t.c, c: t.b }, x0, x1, y),
{
    let r = Triangle { a: t.b, b: t.c, c: t.a };
    let f = Triangle { a: t.a, b: t.c, c: t.b };
    assert(r.max_y() == t.max_y());
    assert(f.max_y() == t.max_y());
    let s = t.scan_line(y);
    assert(edge_crosses(t.c, t.b, x0, x1, s) == edge_crosses(t.b, t.c, x0, x1, s));
    assert(edge_crosses(t.b, t.a, x0, x1, s) == edge_crosses(t.a, t.b, x0, x1, s));
    assert(edge_crosses(t.a, t.c, x0, x1, s) == edge_crosses(t.c, t.a, x0, x1, s));
}

} // verus!
