use mev_graphics_tutorial::geometry::{Line, Point, Triangle};

fn p(x: i16, y: i16) -> Point {
    Point { x, y }
}

#[test]
fn line_new_keeps_ends() {
    let l = Line::new(p(1, 2), p(3, 4));
    assert_eq!(l.start, p(1, 2));
    assert_eq!(l.end, p(3, 4));
}

#[test]
fn triangle_lines_go_round() {
    let t = Triangle::new(p(0, 0), p(4, 0), p(0, 4));
    let lines = t.lines();
    assert_eq!(lines[0], Line::new(p(0, 0), p(4, 0)));
    assert_eq!(lines[1], Line::new(p(4, 0), p(0, 4)));
    assert_eq!(lines[2], Line::new(p(0, 4), p(0, 0)));
}

#[test]
fn triangle_from_points_takes_the_first_three() {
    let points = [p(1, 2), p(3, 4), p(5, 6), p(7, 8)];
    assert_eq!(Triangle::from_points(&points), Triangle::new(p(1, 2), p(3, 4), p(5, 6)));
    let v = vec![p(-1, 0), p(0, 9), p(4, 4)];
    assert_eq!(Triangle::from_points(&v), Triangle::new(p(-1, 0), p(0, 9), p(4, 4)));
}

#[test]
fn triangle_from_array() {
    let t: Triangle = [p(1, 1), p(2, 2), p(3, 1)].into();
    assert_eq!(t, Triangle::new(p(1, 1), p(2, 2), p(3, 1)));
}

#[test]
fn winding_counts_crossings_left_of_x() {
    let t = Triangle::new(p(0, 0), p(4, 0), p(0, 4));
    // Row 2 meets the edge c -> a at x = 0 and the edge b -> c near x = 2.
    assert_eq!(t.winding_n(0..=0, 2), 1);
    assert_eq!(t.winding_n(0..=1, 2), 1);
    assert_eq!(t.winding_n(0..=2, 2), 2);
    assert_eq!(t.winding_n(0..=10, 2), 2);
    // Rows outside the triangle meet no edge.
    assert_eq!(t.winding_n(-10..=10, 5), 0);
    assert_eq!(t.winding_n(-10..=10, -1), 0);
}

#[test]
fn winding_on_lowest_row_looks_just_above_it() {
    let t = Triangle::new(p(0, 0), p(4, 0), p(0, 4));
    // y = 4 is the largest y: the scan line is taken just above it.
    assert_eq!(t.winding_n(0..=0, 4), 1);
    assert_eq!(t.winding_n(0..=1, 4), 2);
}

#[test]
fn winding_of_empty_range_is_zero() {
    let t = Triangle::new(p(0, 0), p(4, 0), p(0, 4));
    assert_eq!(t.winding_n(3..=1, 2), 0);
}

#[test]
fn barycentric_areas_of_midpoint() {
    let w = p(5, 0).barycentric_areas_in([p(0, 0), p(10, 0), p(0, 10)]);
    assert_eq!(w, [50, 50, 0, 100]);
}

#[test]
fn barycentric_areas_sum_to_total() {
    let corners = [p(-7, 3), p(20, -11), p(4, 17)];
    for (x, y) in [(0, 0), (100, -50), (4, 17), (-7, 3)] {
        let w = p(x, y).barycentric_areas_in(corners);
        assert_eq!(w[0] + w[1] + w[2], w[3]);
    }
}

#[test]
fn barycentric_areas_at_corners() {
    let corners = [p(-7, 3), p(20, -11), p(4, 17)];
    let w0 = corners[0].barycentric_areas_in(corners);
    assert_eq!((w0[0], w0[1], w0[2]), (w0[3], 0, 0));
    let w2 = corners[2].barycentric_areas_in(corners);
    assert_eq!((w2[0], w2[1], w2[2]), (0, 0, w2[3]));
}

#[test]
fn barycentric_areas_extreme_coordinates() {
    let corners = [p(i16::MIN, i16::MIN), p(i16::MAX, i16::MIN), p(i16::MIN, i16::MAX)];
    let w = p(i16::MAX, i16::MAX).barycentric_areas_in(corners);
    assert_eq!(w[0] + w[1] + w[2], w[3]);
    assert_eq!(w[3], 65535i64 * 65535);
}

#[test]
fn winding_ignores_vertex_order() {
    let (a, b, c) = (p(179, 63), p(-221, 72), p(211, -101));
    for y in [-120i16, -101, -50, 0, 63, 67, 70, 72, 80] {
        for (x0, x1) in [(-221i16, 1i16), (-300, 300), (0, 100), (150, 150)] {
            let n = Triangle::new(a, b, c).winding_n(x0..=x1, y);
            assert_eq!(n, Triangle::new(b, c, a).winding_n(x0..=x1, y));
            assert_eq!(n, Triangle::new(c, a, b).winding_n(x0..=x1, y));
            assert_eq!(n, Triangle::new(a, c, b).winding_n(x0..=x1, y));
            assert_eq!(n, Triangle::new(c, b, a).winding_n(x0..=x1, y));
        }
    }
}

#[test]
fn winding_counts_an_exact_crossing_at_the_range_end() {
    // Row 67 (scanned at 67.005) meets the edge from (179, 63) to (-221, 72)
    // exactly at x = 1, the end of the range, and the edge from (-221, 72)
    // to (211, -101) near x = -208.5.
    let t = Triangle::new(p(179, 63), p(-221, 72), p(211, -101));
    assert_eq!(t.winding_n(-221..=1, 67), 2);
    assert_eq!(t.winding_n(-221..=0, 67), 1);
}
