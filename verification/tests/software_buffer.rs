use mev_graphics_tutorial::geometry::{Point, Triangle};
use mev_graphics_tutorial::software_buffer::ex02_winding_number_triangle::{
    FillPixelCommand, PixelDrawingCommand,
};
use mev_graphics_tutorial::software_buffer::ex03_winding_trick_for_shapes::InvertPixelCommand;
use mev_graphics_tutorial::software_buffer::ex04_barycentric_coordinates::DrawBarycentricTriangleCommand;
use mev_graphics_tutorial::software_buffer::ex06_texture_mapping_nearest::texel_index;
use mev_graphics_tutorial::software_buffer::ex08_drawing_simple_unlit_3d_model::bilinear_texel_indices;
use mev_graphics_tutorial::software_buffer::{Color24, SoftwareBuffer};

const BLACK: Color24 = Color24 { r: 0, g: 0, b: 0 };
const RED: Color24 = Color24 { r: 255, g: 0, b: 0 };
const NICE_RED: Color24 = Color24 { r: 207, g: 81, b: 99 };

fn p(x: i16, y: i16) -> Point {
    Point { x, y }
}

fn lit(buffer: &SoftwareBuffer, color: Color24) -> Vec<(u16, u16)> {
    let mut out = Vec::new();
    for y in 0..buffer.get_height() {
        for x in 0..buffer.get_width() {
            if buffer.get_pixel(x, y) == Some(color) {
                out.push((x, y));
            }
        }
    }
    out
}

#[test]
fn new_buffer_is_black() {
    let buffer = SoftwareBuffer::new(640, 480);
    assert_eq!(buffer.get_width(), 640);
    assert_eq!(buffer.get_height(), 480);
    assert_eq!(buffer.get_pixel(0, 0), Some(BLACK));
    assert_eq!(buffer.get_pixel(639, 479), Some(BLACK));
}

#[test]
fn default_color_is_black() {
    assert_eq!(Color24::default(), BLACK);
}

#[test]
fn get_after_set() {
    let mut buffer = SoftwareBuffer::new(4, 3);
    buffer.set_pixel(3, 2, RED);
    assert_eq!(buffer.get_pixel(3, 2), Some(RED));
    assert_eq!(buffer.get_pixel(2, 2), Some(BLACK));
}

#[test]
fn get_out_of_bounds_is_none() {
    let buffer = SoftwareBuffer::new(4, 3);
    assert_eq!(buffer.get_pixel(4, 0), None);
    assert_eq!(buffer.get_pixel(0, 3), None);
    assert_eq!(buffer.get_pixel(u16::MAX, u16::MAX), None);
}

#[test]
fn set_past_the_end_changes_nothing() {
    let mut buffer = SoftwareBuffer::new(4, 3);
    buffer.set_pixel(0, 3, RED);
    buffer.set_pixel(u16::MAX, u16::MAX, RED);
    assert!(lit(&buffer, RED).is_empty());
}

#[test]
fn set_past_the_row_end_changes_nothing() {
    let mut buffer = SoftwareBuffer::new(4, 3);
    buffer.set_pixel(5, 0, RED);
    buffer.set_pixel(4, 1, RED);
    assert!(lit(&buffer, RED).is_empty());
    let mut square = SoftwareBuffer::new(2, 2);
    square.set_pixel(2, 0, RED);
    square.set_pixel(0, 5, RED);
    assert!(lit(&square, RED).is_empty());
}

#[test]
fn clear_paints_everything() {
    let mut buffer = SoftwareBuffer::new(640, 480);
    buffer.clear(NICE_RED);
    assert_eq!(lit(&buffer, NICE_RED).len(), 640 * 480);
}

#[test]
fn zero_sized_buffer() {
    let mut buffer = SoftwareBuffer::new(0, 5);
    buffer.clear(RED);
    buffer.set_pixel(0, 0, RED);
    assert_eq!(buffer.get_pixel(0, 0), None);
}

#[test]
fn invert_flips_every_channel() {
    let c = Color24 { r: 0, g: 100, b: 255 };
    assert_eq!(c.invert(), Color24 { r: 255, g: 155, b: 0 });
    assert_eq!(c.invert().invert(), c);
}

#[test]
fn fill_rectangle_excludes_far_edges() {
    let mut buffer = SoftwareBuffer::new(8, 8);
    buffer.fill_rectangle(2, 3, 2, 1, RED);
    assert_eq!(lit(&buffer, RED), vec![(2, 3), (3, 3)]);
    let mut small = SoftwareBuffer::new(4, 4);
    small.fill_rectangle(1, 1, 2, 2, RED);
    assert_eq!(lit(&small, RED), vec![(1, 1), (2, 1), (1, 2), (2, 2)]);
}

#[test]
fn fill_rectangle_of_zero_size_is_empty() {
    let mut buffer = SoftwareBuffer::new(8, 8);
    buffer.fill_rectangle(2, 3, 0, 4, RED);
    buffer.fill_rectangle(2, 3, 4, 0, RED);
    assert!(lit(&buffer, RED).is_empty());
}

#[test]
fn fill_rectangle_outside_the_buffer_paints_nothing() {
    let mut buffer = SoftwareBuffer::new(4, 4);
    buffer.fill_rectangle(-10, -10, 5, 5, RED);
    buffer.fill_rectangle(10, 0, 5, 5, RED);
    buffer.fill_rectangle(0, 4, 5, 5, RED);
    assert!(lit(&buffer, RED).is_empty());
}

#[test]
fn fill_rectangle_clamps_to_buffer() {
    let mut buffer = SoftwareBuffer::new(4, 4);
    buffer.fill_rectangle(-5, -5, 7, 7, RED);
    assert_eq!(lit(&buffer, RED), vec![(0, 0), (1, 0), (0, 1), (1, 1)]);
}

#[test]
fn fill_rectangle_stops_at_the_right_edge() {
    let mut buffer = SoftwareBuffer::new(4, 4);
    buffer.fill_rectangle(3, 0, 5, 1, RED);
    assert_eq!(lit(&buffer, RED), vec![(3, 0)]);
}

#[test]
fn fill_circle_small() {
    let mut buffer = SoftwareBuffer::new(10, 10);
    buffer.fill_circle(5, 5, 1, RED);
    assert_eq!(lit(&buffer, RED), vec![(5, 4), (4, 5), (5, 5), (6, 5), (5, 6)]);
}

#[test]
fn fill_circle_at_the_right_edge_stays_in_its_row() {
    let mut buffer = SoftwareBuffer::new(4, 4);
    buffer.fill_circle(3, 1, 1, RED);
    assert_eq!(lit(&buffer, RED), vec![(3, 0), (2, 1), (3, 1), (3, 2)]);
}

#[test]
fn fill_circle_larger_than_the_buffer_covers_it() {
    let mut buffer = SoftwareBuffer::new(4, 4);
    buffer.fill_circle(0, 0, 300, RED);
    assert_eq!(lit(&buffer, RED).len(), 16);
    let mut far = SoftwareBuffer::new(4, 4);
    far.fill_circle(i16::MIN, i16::MIN, 46000, RED);
    assert!(lit(&far, RED).is_empty());
    let mut huge = SoftwareBuffer::new(4, 4);
    huge.fill_circle(i16::MAX, i16::MAX, u16::MAX, RED);
    assert_eq!(lit(&huge, RED).len(), 16);
}

#[test]
fn fill_circle_of_radius_zero_is_one_pixel() {
    let mut buffer = SoftwareBuffer::new(10, 10);
    buffer.fill_circle(3, 7, 0, RED);
    assert_eq!(lit(&buffer, RED), vec![(3, 7)]);
}

#[test]
fn draw_moon_scene() {
    const MOON_COLOR: Color24 = Color24 { r: 244, g: 244, b: 220 };
    const SKY_COLOR: Color24 = Color24 { r: 17, g: 13, b: 22 };
    const GROUND_COLOR: Color24 = Color24 { r: 112, g: 104, b: 170 };
    let mut buffer = SoftwareBuffer::new(640, 480);
    buffer.clear(SKY_COLOR);
    buffer.fill_circle(488, 113, 32, MOON_COLOR);
    buffer.fill_circle(468, 123, 32, SKY_COLOR);
    buffer.fill_rectangle(0, 297, 640, 183, GROUND_COLOR);
    assert_eq!(buffer.get_pixel(515, 113), Some(MOON_COLOR));
    assert_eq!(buffer.get_pixel(468, 123), Some(SKY_COLOR));
    assert_eq!(buffer.get_pixel(100, 400), Some(GROUND_COLOR));
    assert_eq!(buffer.get_pixel(100, 100), Some(SKY_COLOR));
}

#[test]
fn draw_triangle_fills_inside() {
    let mut buffer = SoftwareBuffer::new(8, 8);
    let t = Triangle::new(p(0, 0), p(4, 0), p(0, 4));
    buffer.draw_triangle(t, &FillPixelCommand(RED));
    assert_eq!(
        lit(&buffer, RED),
        vec![(0, 0), (1, 0), (2, 0), (3, 0), (0, 1), (1, 1), (2, 1), (0, 2), (1, 2), (0, 3), (0, 4)]
    );
}

#[test]
fn draw_triangle_across_the_left_edge_fills_only_its_inside() {
    let mut buffer = SoftwareBuffer::new(20, 20);
    let t = Triangle::new(p(-10, 0), p(10, 0), p(0, 10));
    buffer.draw_triangle(t, &FillPixelCommand(RED));
    assert_eq!(buffer.get_pixel(0, 2), Some(RED));
    assert_eq!(buffer.get_pixel(5, 2), Some(RED));
    assert_eq!(buffer.get_pixel(7, 2), Some(RED));
    // Row 2 is scanned 1/200 of a pixel below it, where the triangle ends at x = 7.995.
    assert_eq!(buffer.get_pixel(8, 2), Some(BLACK));
    assert_eq!(buffer.get_pixel(9, 2), Some(BLACK));
    assert_eq!(buffer.get_pixel(0, 9), Some(RED));
    assert_eq!(buffer.get_pixel(1, 9), Some(BLACK));
}

#[test]
fn draw_triangle_left_of_screen_draws_nothing() {
    let mut buffer = SoftwareBuffer::new(8, 8);
    let t = Triangle::new(p(-10, 0), p(-4, 0), p(-10, 4));
    buffer.draw_triangle(t, &FillPixelCommand(RED));
    assert!(lit(&buffer, RED).is_empty());
}

#[test]
fn inverting_a_triangle_twice_restores_the_picture() {
    let mut buffer = SoftwareBuffer::new(16, 16);
    buffer.clear(NICE_RED);
    buffer.fill_circle(8, 8, 5, RED);
    let t = Triangle::new(p(1, 2), p(14, 5), p(6, 15));
    let before: Vec<Option<Color24>> =
        (0..16).flat_map(|y| (0..16).map(move |x| (x, y))).map(|(x, y)| buffer.get_pixel(x, y)).collect();
    buffer.draw_triangle(t, &InvertPixelCommand);
    assert_ne!(buffer.get_pixel(7, 8), Some(RED));
    buffer.draw_triangle(t, &InvertPixelCommand);
    let after: Vec<Option<Color24>> =
        (0..16).flat_map(|y| (0..16).map(move |x| (x, y))).map(|(x, y)| buffer.get_pixel(x, y)).collect();
    assert_eq!(before, after);
}

#[test]
fn invert_command_out_of_bounds_does_nothing() {
    let mut buffer = SoftwareBuffer::new(4, 4);
    InvertPixelCommand.draw_pixel(&mut buffer, 5, 0);
    assert_eq!(lit(&buffer, BLACK).len(), 16);
    InvertPixelCommand.draw_pixel(&mut buffer, 1, 1);
    assert_eq!(buffer.get_pixel(1, 1), Some(Color24 { r: 255, g: 255, b: 255 }));
}

#[test]
fn barycentric_colors() {
    let corners = [p(0, 0), p(10, 0), p(0, 10)];
    let mut buffer = SoftwareBuffer::new(16, 16);
    let command = DrawBarycentricTriangleCommand(corners);
    for (x, y) in [(0, 0), (10, 0), (0, 10), (5, 0), (2, 3)] {
        command.draw_pixel(&mut buffer, x, y);
    }
    assert_eq!(buffer.get_pixel(0, 0), Some(Color24 { r: 255, g: 0, b: 0 }));
    assert_eq!(buffer.get_pixel(10, 0), Some(Color24 { r: 0, g: 255, b: 0 }));
    assert_eq!(buffer.get_pixel(0, 10), Some(Color24 { r: 0, g: 0, b: 255 }));
    assert_eq!(buffer.get_pixel(5, 0), Some(Color24 { r: 128, g: 128, b: 0 }));
    // (2, 3): weights 0.5, 0.2 and 0.3 of 255.
    assert_eq!(buffer.get_pixel(2, 3), Some(Color24 { r: 128, g: 51, b: 77 }));
}

#[test]
fn barycentric_outside_and_degenerate() {
    let mut buffer = SoftwareBuffer::new(32, 32);
    DrawBarycentricTriangleCommand([p(0, 0), p(10, 0), p(0, 10)]).draw_pixel(&mut buffer, 20, 0);
    // Weights -1, 2, 0 clamp to 0, 255, 0.
    assert_eq!(buffer.get_pixel(20, 0), Some(Color24 { r: 0, g: 255, b: 0 }));
    buffer.clear(RED);
    DrawBarycentricTriangleCommand([p(0, 0), p(5, 5), p(10, 10)]).draw_pixel(&mut buffer, 1, 1);
    assert_eq!(buffer.get_pixel(1, 1), Some(BLACK));
}

#[test]
fn triangle_fragments_are_clipped() {
    let buffer = SoftwareBuffer::new(3, 3);
    let t = Triangle::new(p(0, 0), p(4, 0), p(0, 4));
    let fragments = buffer.triangle_fragments(t);
    assert_eq!(fragments, vec![(0, 0), (1, 0), (2, 0), (0, 1), (1, 1), (2, 1), (0, 2), (1, 2)]);
}

fn side(u: Point, v: Point, x: i64, scan: i64) -> i64 {
    (u.x as i64 - x) * (200 * v.y as i64 - scan) - (200 * u.y as i64 - scan) * (v.x as i64 - x)
}

#[test]
fn draw_triangle_matches_geometry_off_the_edges() {
    let mut buffer = SoftwareBuffer::new(16, 16);
    let (a, b, c) = (p(2, 1), p(12, 3), p(5, 11));
    buffer.draw_triangle(Triangle::new(a, b, c), &FillPixelCommand(RED));
    let mut inside_seen = 0;
    for y in 0..16u16 {
        let scan = if y == 11 { 200 * y as i64 - 1 } else { 200 * y as i64 + 1 };
        for x in 0..16u16 {
            let s = [side(b, c, x as i64, scan), side(c, a, x as i64, scan), side(a, b, x as i64, scan)];
            let inside = s.iter().all(|&v| v > 0) || s.iter().all(|&v| v < 0);
            let outside = s.iter().any(|&v| v > 0) && s.iter().any(|&v| v < 0);
            if inside {
                inside_seen += 1;
                assert_eq!(buffer.get_pixel(x, y), Some(RED), "({}, {})", x, y);
            }
            if outside {
                assert_eq!(buffer.get_pixel(x, y), Some(BLACK), "({}, {})", x, y);
            }
        }
    }
    assert!(inside_seen > 20);
}

#[test]
fn texel_index_clamps_to_the_texture() {
    assert_eq!(texel_index(2, 1, 4, 3), 6);
    assert_eq!(texel_index(9, 1, 4, 3), 7);
    assert_eq!(texel_index(0, 7, 4, 3), 8);
    assert_eq!(texel_index(65535, 65535, 4, 3), 11);
    assert_eq!(texel_index(5, 5, 1, 1), 0);
}

#[test]
fn bilinear_texels_around_a_position() {
    assert_eq!(bilinear_texel_indices(1, 1, 4, 3), [5, 6, 9, 10]);
    assert_eq!(bilinear_texel_indices(3, 1, 4, 3), [7, 7, 11, 11]);
    assert_eq!(bilinear_texel_indices(1, 2, 4, 3), [9, 10, 9, 10]);
    assert_eq!(bilinear_texel_indices(100, 100, 4, 3), [11, 11, 11, 11]);
    assert_eq!(bilinear_texel_indices(0, 0, 1, 1), [0, 0, 0, 0]);
}

#[test]
fn ppm_text_of_a_small_buffer() {
    let mut buffer = SoftwareBuffer::new(2, 1);
    buffer.set_pixel(0, 0, Color24 { r: 255, g: 0, b: 7 });
    let text = String::from_utf8(buffer.to_ppm()).unwrap();
    assert_eq!(text, "P3\n2 1\n255\n 255 0 7 \n 0 0 0 \n");
}

#[test]
fn ppm_text_of_an_empty_buffer() {
    let buffer = SoftwareBuffer::new(640, 0);
    let text = String::from_utf8(buffer.to_ppm()).unwrap();
    assert_eq!(text, "P3\n640 0\n255\n");
}

fn draw_fan(buffer: &mut SoftwareBuffer, anchor: Point, outline: &[Point]) {
    for i in 0..outline.len() {
        let t = Triangle::new(anchor, outline[i], outline[(i + 1) % outline.len()]);
        buffer.draw_triangle(t, &InvertPixelCommand);
    }
}

#[test]
fn fan_picture_does_not_depend_on_the_anchor() {
    let outline = [p(5, 2), p(5, 12), p(10, 12), p(10, 8), p(6, 8), p(6, 2)];
    let corner_rows = [2u16, 12, 8, 0, 15, 3];
    let mut first = SoftwareBuffer::new(16, 16);
    draw_fan(&mut first, p(0, 0), &outline);
    let mut second = SoftwareBuffer::new(16, 16);
    draw_fan(&mut second, p(15, 15), &outline);
    let mut third = SoftwareBuffer::new(16, 16);
    draw_fan(&mut third, p(-7, 3), &outline);
    let white = Color24 { r: 255, g: 255, b: 255 };
    for y in 0..16u16 {
        if corner_rows.contains(&y) {
            continue;
        }
        for x in 0..16u16 {
            assert_eq!(first.get_pixel(x, y), second.get_pixel(x, y), "({}, {})", x, y);
            assert_eq!(first.get_pixel(x, y), third.get_pixel(x, y), "({}, {})", x, y);
        }
    }
    // Row 5 crosses the left bar of the shape only.
    assert_eq!(first.get_pixel(5, 5), Some(white));
    assert_eq!(first.get_pixel(7, 5), Some(BLACK));
    // Row 10 crosses the foot of the shape.
    assert_eq!(first.get_pixel(9, 10), Some(white));
    assert_eq!(first.get_pixel(11, 10), Some(BLACK));
}

#[test]
fn no_drawing_call_resizes_the_buffer() {
    let mut buffer = SoftwareBuffer::new(13, 7);
    buffer.clear(NICE_RED);
    buffer.set_pixel(20, 20, RED);
    buffer.fill_circle(-3, 40, 500, RED);
    buffer.fill_rectangle(i16::MIN, i16::MIN, u16::MAX, u16::MAX, RED);
    buffer.draw_triangle(Triangle::new(p(-50, -50), p(50, 3), p(0, 90)), &FillPixelCommand(RED));
    buffer.draw_triangle(Triangle::new(p(1, 1), p(9, 2), p(3, 6)), &InvertPixelCommand);
    assert_eq!(buffer.get_width(), 13);
    assert_eq!(buffer.get_height(), 7);
    assert!(buffer.get_pixel(12, 6).is_some());
    assert_eq!(buffer.get_pixel(13, 0), None);
    assert_eq!(buffer.to_ppm().iter().filter(|&&b| b == b'\n').count(), 3 + 13 * 7);
}
