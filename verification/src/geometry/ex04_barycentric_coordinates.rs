//! Barycentric coordinates of a point in a triangle, as exact ratios of
//! signed areas.
use vstd::prelude::*;

use super::Point;

verus! {

/// The z component of the cross product of `(ax, ay, 0)` and `(bx, by, 0)`:
/// twice the signed area of the triangle they span.
pub open spec fn cross(ax: int, ay: int, bx: int, by: int) -> int {
    ax * by - ay * bx
}

impl Point {
    /// The barycentric coordinates of `self` in the triangle `positions`,
    /// as numerators over the common denominator in the last place:
    /// `[area(p1, p2, self), area(p2, p0, self), area(p0, p1, self), area(p0, p1, p2)]`,
    /// each doubled and signed. The coordinates are the first three divided by
    /// the last; they sum to one when the last is not 0.
    pub open spec fn barycentric_areas(self, positions: [Point; 3]) -> [int; 4] {
        let (p0, p1, p2) = (positions[0], positions[1], positions[2]);
        let (e0x, e0y) = (p1.x - p0.x, p1.y - p0.y);
        let (e1x, e1y) = (p2.x - p1.x, p2.y - p1.y);
        let (v0x, v0y) = (self.x - p0.x, self.y - p0.y);
        let (v1x, v1y) = (self.x - p1.x, self.y - p1.y);
        let (v2x, v2y) = (self.x - p2.x, self.y - p2.y);
        [
            cross(v1x, v1y, v2x, v2y),
            cross(v2x, v2y, v0x, v0y),
            cross(v0x, v0y, v1x, v1y),
            cross(e0x, e0y, e1x, e1y),
        ]
    }

    /// Returns the barycentric coordinates of `self` in the triangle
    /// `positions` as three numerators and their common denominator, computed
    /// exactly.
    pub fn barycentric_areas_in(self, positions: [Self; 3]) -> (w: [i64; 4])
        ensures
            w[0] == self.barycentric_areas(positions)[0],
            w[1] == self.barycentric_areas(positions)[1],
            w[2] == self.barycentric_areas(positions)[2],
            w[3] == self.barycentric_areas(positions)[3],
            forall|i: int| 0 <= i < 4 ==> -0x2_0000_0000 <= #[trigger] w[i] <= 0x2_0000_0000,
    {
        let (p0, p1, p2) = (positions[0], positions[1], positions[2]);
        let (e0x, e0y) = (p1.x as i64 - p0.x as i64, p1.y as i64 - p0.y as i64);
        let (e1x, e1y) = (p2.x as i64 - p1.x as i64, p2.y as i64 - p1.y as i64);
        let (v0x, v0y) = (self.x as i64 - p0.x as i64, self.y as i64 - p0.y as i64);
        let (v1x, v1y) = (self.x as i64 - p1.x as i64, self.y as i64 - p1.y as i64);
        let (v2x, v2y) = (self.x as i64 - p2.x as i64, self.y as i64 - p2.y as i64);
        [
            cross_exec(v1x, v1y, v2x, v2y),
            cross_exec(v2x, v2y, v0x, v0y),
            cross_exec(v0x, v0y, v1x, v1y),
            cross_exec(e0x, e0y, e1x, e1y),
        ]
    }
}

fn cross_exec(ax: i64, ay: i64, bx: i64, by: i64) -> (c: i64)
    requires
        -0x10000 <= ax <= 0x10000,
        -0x10000 <= ay <= 0x10000,
        -0x10000 <= bx <= 0x10000,
        -0x10000 <= by <= 0x10000,
    ensures
        c == cross(ax as int, ay as int, bx as int, by as int),
        -0x2_0000_0000 <= c <= 0x2_0000_0000,
{
    assert(-0x1_0000_0000 <= ax * by <= 0x1_0000_0000) by (nonlinear_arith)
        requires
            -0x10000 <= ax <= 0x10000,
            -0x10000 <= by <= 0x10000,
    ;
    assert(-0x1_0000_0000 <= ay * bx <= 0x1_0000_0000) by (nonlinear_arith)
        requires
            -0x10000 <= ay <= 0x10000,
            -0x10000 <= bx <= 0x10000,
    ;
    ax * by - ay * bx
}

/// Multiplying out a product of two differences.
proof fn lemma_expand(a: int, b: int, c: int, d: int)
    ensures
        (a - b) * (c - d) == a * c - a * d - b * c + b * d,
        (c - d) * (a - b) == a * c - a * d - b * c + b * d,
{
    assert((a - b) * (c - d) == a * c - a * d - b * c + b * d) by (nonlinear_arith);
    assert((c - d) * (a - b) == a * c - a * d - b * c + b * d) by (nonlinear_arith);
}

/// Products with a zero factor vanish.
proof fn lemma_zero_products(ax: int, ay: int, zx: int, zy: int)
    requires
        zx == 0,
        zy == 0,
    ensures
        ax * zy == 0,
        ay * zx == 0,
        zx * ay == 0,
        zy * ax == 0,
{
    assert(ax * zy == 0 && ay * zx == 0 && zx * ay == 0 && zy * ax == 0) by (nonlinear_arith)
        requires
            zx == 0,
            zy == 0,
    ;
}

/// The three barycentric numerators add up to the denominator: the
/// coordinates sum to one.
pub proof fn law_barycentric_areas_sum(p: Point, positions: [Point; 3])
    ensures
        p.barycentric_areas(positions)[0] + p.barycentric_areas(positions)[1]
            + p.barycentric_areas(positions)[2] == p.barycentric_areas(positions)[3],
{
    let (x, y) = (p.x as int, p.y as int);
    let (x0, y0) = (positions[0].x as int, positions[0].y as int);
    let (x1, y1) = (positions[1].x as int, positions[1].y as int);
    let (x2, y2) = (positions[2].x as int, positions[2].y as int);
    lemma_expand(x, x1, y, y2);
    lemma_expand(x, x2, y, y1);
    lemma_expand(x, x2, y, y0);
    lemma_expand(x, x0, y, y2);
    lemma_expand(x, x0, y, y1);
    lemma_expand(x, x1, y, y0);
    lemma_expand(x1, x0, y2, y1);
    lemma_expand(x2, x1, y1, y0);
}

/// At a corner of the triangle its own coordinate is one and the other two
/// are zero.
pub proof fn law_barycentric_at_corners(positions: [Point; 3])
    ensures
        ({
            let w = positions[0].barycentric_areas(positions);
            w[0] == w[3] && w[1] == 0 && w[2] == 0
        }),
        ({
            let w = positions[1].barycentric_areas(positions);
            w[1] == w[3] && w[0] == 0 && w[2] == 0
        }),
        ({
            let w = positions[2].barycentric_areas(positions);
            w[2] == w[3] && w[0] == 0 && w[1] == 0
        }),
{
    law_barycentric_areas_sum(positions[0], positions);
    law_barycentric_areas_sum(positions[1], positions);
    law_barycentric_areas_sum(positions[2], positions);
    let q = positions;
    // At each corner the vector from that corner vanishes, and with it the two other numerators.
    lemma_zero_products(q[0].x - q[2].x, q[0].y - q[2].y, q[0].x - q[0].x, q[0].y - q[0].y);
    lemma_zero_products(q[0].x - q[1].x, q[0].y - q[1].y, q[0].x - q[0].x, q[0].y - q[0].y);
    lemma_zero_products(q[1].x - q[2].x, q[1].y - q[2].y, q[1].x - q[1].x, q[1].y - q[1].y);
    lemma_zero_products(q[1].x - q[0].x, q[1].y - q[0].y, q[1].x - q[1].x, q[1].y - q[1].y);
    lemma_zero_products(q[2].x - q[1].x, q[2].y - q[1].y, q[2].x - q[2].x, q[2].y - q[2].y);
    lemma_zero_products(q[2].x - q[0].x, q[2].y - q[0].y, q[2].x - q[2].x, q[2].y - q[2].y);
}

} // verus!

verus! {

/// Twice the signed area that `p` makes with `a` and `b` is affine in `p`.
proof fn lemma_cross_affine(ax: int, ay: int, bx: int, by: int, px: int, py: int)
    ensures
        cross(px - ax, py - ay, px - bx, py - by) == (ax * by - ay * bx) + px * (ay - by) + py * (bx
            - ax),
{
    assert((px - ax) * (py - by) == px * py - px * by - ax * py + ax * by) by (nonlinear_arith);
    assert((py - ay) * (px - bx) == px * py - py * bx - ay * px + ay * bx) by (nonlinear_arith);
    assert(px * (ay - by) == px * ay - px * by) by (nonlinear_arith);
    assert(py * (bx - ax) == py * bx - py * ax) by (nonlinear_arith);
    assert(ax * py == py * ax) by (nonlinear_arith);
    assert(ay * px == px * ay) by (nonlinear_arith);
}

/// An affine function takes the same sum at two pairs of points with the
/// same sum.
proof fn lemma_affine_pairs(k: int, cx: int, cy: int, p: Point, q: Point, r: Point, s: Point)
    requires
        p.x + q.x == r.x + s.x,
        p.y + q.y == r.y + s.y,
    ensures
        (k + p.x * cx + p.y * cy) + (k + q.x * cx + q.y * cy) == (k + r.x * cx + r.y * cy) + (k + s.x
            * cx + s.y * cy),
{
    let (px, py, qx, qy, rx, ry, sx, sy) = (
        p.x as int,
        p.y as int,
        q.x as int,
        q.y as int,
        r.x as int,
        r.y as int,
        s.x as int,
        s.y as int,
    );
    assert(px * cx + qx * cx == (px + qx) * cx) by (nonlinear_arith);
    assert(rx * cx + sx * cx == (rx + sx) * cx) by (nonlinear_arith);
    assert(py * cy + qy * cy == (py + qy) * cy) by (nonlinear_arith);
    assert(ry * cy + sy * cy == (ry + sy) * cy) by (nonlinear_arith);
}

/// Each numerator is twice the signed area of the point with the two other
/// corners, in the corners' order, whatever the triangle's orientation.
pub proof fn law_barycentric_numerators_are_areas(p: Point, positions: [Point; 3])
    ensures
        ({
            let w = p.barycentric_areas(positions);
            let (p0, p1, p2) = (positions[0], positions[1], positions[2]);
            &&& w[0] == cross(p1.x - p.x, p1.y - p.y, p2.x - p.x, p2.y - p.y)
            &&& w[1] == cross(p2.x - p.x, p2.y - p.y, p0.x - p.x, p0.y - p.y)
            &&& w[2] == cross(p0.x - p.x, p0.y - p.y, p1.x - p.x, p1.y - p.y)
            &&& w[3] == cross(p1.x - p0.x, p1.y - p0.y, p2.x - p1.x, p2.y - p1.y)
        }),
{
    let (p0, p1, p2) = (positions[0], positions[1], positions[2]);
    let (x, y) = (p.x as int, p.y as int);
    lemma_cross_negated(x - p1.x, y - p1.y, x - p2.x, y - p2.y);
    lemma_cross_negated(x - p2.x, y - p2.y, x - p0.x, y - p0.y);
    lemma_cross_negated(x - p0.x, y - p0.y, x - p1.x, y - p1.y);
}

proof fn lemma_cross_negated(ax: int, ay: int, bx: int, by: int)
    ensures
        cross(ax, ay, bx, by) == cross(-ax, -ay, -bx, -by),
{
    assert((-ax) * (-by) == ax * by) by (nonlinear_arith);
    assert((-ay) * (-bx) == ay * bx) by (nonlinear_arith);
}

/// For a fixed triangle each barycentric numerator is affine in the point:
/// two pairs of points with the same sum give the same sum of numerators.
pub proof fn law_barycentric_numerators_affine(
    positions: [Point; 3],
    p: Point,
    q: Point,
    r: Point,
    s: Point,
)
    requires
        p.x + q.x == r.x + s.x,
        p.y + q.y == r.y + s.y,
    ensures
        forall|i: int|
            0 <= i < 3 ==> #[trigger] p.barycentric_areas(positions)[i] + q.barycentric_areas(
                positions,
            )[i] == r.barycentric_areas(positions)[i] + s.barycentric_areas(positions)[i],
        p.barycentric_areas(positions)[3] == r.barycentric_areas(positions)[3],
{
    let (p0, p1, p2) = (positions[0], positions[1], positions[2]);
    let (x0, y0, x1, y1, x2, y2) = (
        p0.x as int,
        p0.y as int,
        p1.x as int,
        p1.y as int,
        p2.x as int,
        p2.y as int,
    );
    let pts = seq![p, q, r, s];
    assert forall|j: int| 0 <= j < 4 implies {
        let w = (#[trigger] pts[j]).barycentric_areas(positions);
        let (px, py) = (pts[j].x as int, pts[j].y as int);
        &&& w[0] == (x1 * y2 - y1 * x2) + px * (y1 - y2) + py * (x2 - x1)
        &&& w[1] == (x2 * y0 - y2 * x0) + px * (y2 - y0) + py * (x0 - x2)
        &&& w[2] == (x0 * y1 - y0 * x1) + px * (y0 - y1) + py * (x1 - x0)
    } by {
        let (px, py) = (pts[j].x as int, pts[j].y as int);
        lemma_cross_affine(x1, y1, x2, y2, px, py);
        lemma_cross_affine(x2, y2, x0, y0, px, py);
        lemma_cross_affine(x0, y0, x1, y1, px, py);
    }
    assert(pts[0] == p && pts[1] == q && pts[2] == r && pts[3] == s);
    lemma_affine_pairs(x1 * y2 - y1 * x2, y1 - y2, x2 - x1, p, q, r, s);
    lemma_affine_pairs(x2 * y0 - y2 * x0, y2 - y0, x0 - x2, p, q, r, s);
    lemma_affine_pairs(x0 * y1 - y0 * x1, y0 - y1, x1 - x0, p, q, r, s);
    assert forall|i: int| 0 <= i < 3 implies #[trigger] p.barycentric_areas(positions)[i]
        + q.barycentric_areas(positions)[i] == r.barycentric_areas(positions)[i]
        + s.barycentric_areas(positions)[i] by {
        if i == 0 {
        } else if i == 1 {
        } else {
        }
    }
}

} // verus!
