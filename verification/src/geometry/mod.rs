use vstd::prelude::*;

pub mod ex02_winding_number_triangle;
pub mod ex04_barycentric_coordinates;

verus! {

/// A point on the pixel grid.
#[derive(Copy, Clone, Debug, PartialEq, Eq, Structural)]
pub struct Point {
    pub x: i16,
    pub y: i16,
}

/// A directed segment from `start` to `end`.
#[derive(Copy, Clone, Debug, PartialEq, Eq, Structural)]
pub struct Line {
    pub start: Point,
    pub end: Point,
}

impl Line {
    pub fn new(start: Point, end: Point) -> (line: Self)
        ensures
            line.start == start,
            line.end == end,
    {
        Self { start, end }
    }
}

/// A triangle given by its three corners.
#[derive(Copy, Clone, Debug, PartialEq, Eq, Structural)]
pub struct Triangle {
    pub a: Point,
    pub b: Point,
    pub c: Point,
}

impl Triangle {
    pub fn new(a: Point, b: Point, c: Point) -> (t: Self)
        ensures
            t.a == a,
            t.b == b,
            t.c == c,
    {
        Self { a, b, c }
    }

    /// The three edges of the triangle, `a -> b`, `b -> c`, `c -> a`.
    pub open spec fn spec_lines(self) -> [Line; 3] {
        [
            Line { start: self.a, end: self.b },
            Line { start: self.b, end: self.c },
            Line { start: self.c, end: self.a },
        ]
    }

    /// Returns the edges `a -> b`, `b -> c` and `c -> a`, in this order.
    pub fn lines(self) -> (lines: [Line; 3])
        ensures
            lines == self.spec_lines(),
    {
        [Line::new(self.a, self.b), Line::new(self.b, self.c), Line::new(self.c, self.a)]
    }
}

impl Triangle {
    /// The triangle whose corners are the first three points, in order; the
    /// points after them are ignored.
    pub fn from_points(points: &[Point]) -> (t: Triangle)
        requires
            points@.len() >= 3,
        ensures
            t.a == points@[0],
            t.b == points@[1],
            t.c == points@[2],
    {
        Triangle { a: points[0], b: points[1], c: points[2] }
    }
}

impl From<[Point; 3]> for Triangle {
    /// The triangle with corners `a`, `b`, `c` taken from the array in order.
    fn from(points: [Point; 3]) -> (t: Triangle) {
        Triangle { a: points[0], b: points[1], c: points[2] }
    }
}

impl vstd::std_specs::convert::FromSpecImpl<[Point; 3]> for Triangle {
    open spec fn obeys_from_spec() -> bool {
        true
    }

    open spec fn from_spec(points: [Point; 3]) -> Triangle {
        Triangle { a: points[0], b: points[1], c: points[2] }
    }
}

} // verus!
