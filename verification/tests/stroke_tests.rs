use paint_core::color::Color;
use paint_core::paint_engine::PaintStroke;
use paint_core::pixmap::Pixmap;

fn opaque_black() -> Color {
    Color::rgba(0, 0, 0, 255)
}

#[test]
fn single_point_paints_a_dot_of_brush_diameter() {
    let mut pm = Pixmap::new(100, 100).unwrap();
    let mut stroke = PaintStroke::new(opaque_black(), 10);
    stroke.add_point(50, 50);
    stroke.draw_to_pixmap(&mut pm);
    // The pixel at the sampled point is fully inside the circle.
    assert_eq!(pm.pixel(50, 50), opaque_black());
    // Pixels well inside radius 5 are fully covered.
    assert_eq!(pm.pixel(52, 50), opaque_black());
    assert_eq!(pm.pixel(50, 47), opaque_black());
    // Pixels past half the width plus one pixel are untouched.
    assert_eq!(pm.pixel(57, 50), Color::transparent());
    assert_eq!(pm.pixel(43, 50), Color::transparent());
    assert_eq!(pm.pixel(50, 58), Color::transparent());
    assert_eq!(pm.pixel(0, 0), Color::transparent());
    // The circle edge is anti-aliased: on the diagonal the edge pixel is
    // partially covered, between full coverage and none.
    let edge = pm.pixel(53, 53);
    assert!(edge.a > 0 && edge.a < 255);
    assert_eq!(pm.pixel(54, 54), Color::transparent());
}

#[test]
fn sampled_points_are_covered() {
    let mut pm = Pixmap::new(100, 100).unwrap();
    let mut stroke = PaintStroke::new(opaque_black(), 4);
    stroke.add_point(10, 10);
    stroke.add_point(80, 60);
    stroke.add_point(20, 90);
    stroke.draw_to_pixmap(&mut pm);
    assert!(pm.pixel(10, 10).a > 0);
    assert!(pm.pixel(80, 60).a > 0);
    assert!(pm.pixel(20, 90).a > 0);
}

#[test]
fn distant_samples_leave_a_continuous_mark() {
    // Two samples 60 pixels apart with a narrow brush: interpolation must
    // fill the gap so the segment between them is covered throughout.
    let mut pm = Pixmap::new(100, 100).unwrap();
    let mut stroke = PaintStroke::new(opaque_black(), 6);
    stroke.add_point(20, 50);
    stroke.add_point(80, 50);
    stroke.draw_to_pixmap(&mut pm);
    for x in 20..=80 {
        assert!(pm.pixel(x, 50).a > 0, "gap at x = {}", x);
    }
    // Far from the segment the surface is untouched.
    assert_eq!(pm.pixel(50, 60), Color::transparent());
    assert_eq!(pm.pixel(10, 50), Color::transparent());
}

#[test]
fn empty_stroke_changes_nothing() {
    let mut pm = Pixmap::new(10, 10).unwrap();
    let stroke = PaintStroke::new(opaque_black(), 10);
    stroke.draw_to_pixmap(&mut pm);
    for y in 0..10 {
        for x in 0..10 {
            assert_eq!(pm.pixel(x, y), Color::transparent());
        }
    }
}

#[test]
fn rasterization_is_deterministic() {
    let mut a = Pixmap::new(64, 64).unwrap();
    let mut b = Pixmap::new(64, 64).unwrap();
    let mut stroke = PaintStroke::new(Color::rgba(30, 60, 90, 180), 7);
    stroke.add_point(5, 5);
    stroke.add_point(40, 20);
    stroke.add_point(60, 60);
    stroke.draw_to_pixmap(&mut a);
    stroke.draw_to_pixmap(&mut b);
    for y in 0..64 {
        for x in 0..64 {
            assert_eq!(a.pixel(x, y), b.pixel(x, y));
        }
    }
}

#[test]
fn stroke_width_is_clamped_into_range() {
    let s = PaintStroke::new(opaque_black(), 0);
    assert_eq!(s.stroke_width, 1);
    let s2 = PaintStroke::new(opaque_black(), 1_000_000);
    assert_eq!(s2.stroke_width, 4096);
}

#[test]
fn stroke_clone_is_a_deep_copy() {
    let mut s = PaintStroke::new(Color::rgba(1, 2, 3, 4), 9);
    s.add_point(7, 8);
    s.add_point(9, 10);
    let c = s.clone();
    assert_eq!(c.stroke_width, 9);
    assert_eq!(c.color, Color::rgba(1, 2, 3, 4));
    assert_eq!(c.points.len(), 2);
    assert_eq!(c.points[0], s.points[0]);
    assert_eq!(c.points[1], s.points[1]);
}

#[test]
fn stroke_len_and_is_empty() {
    let mut s = PaintStroke::new(opaque_black(), 5);
    assert!(s.is_empty());
    assert_eq!(s.len(), 0);
    s.add_point(1, 1);
    assert!(!s.is_empty());
    assert_eq!(s.len(), 1);
}

#[test]
fn off_canvas_points_are_harmless() {
    let mut pm = Pixmap::new(16, 16).unwrap();
    let mut stroke = PaintStroke::new(opaque_black(), 4);
    stroke.add_point(-50, -50);
    stroke.add_point(100, 100);
    stroke.draw_to_pixmap(&mut pm);
    // The interpolated path crosses the surface; corners near the path are
    // painted, and nothing crashes.
    assert!(pm.pixel(8, 8).a > 0);
}

#[test]
fn faint_brush_still_marks_its_samples() {
    let mut pm = Pixmap::new(32, 32).unwrap();
    let mut stroke = PaintStroke::new(Color::rgba(0, 0, 0, 8), 4);
    stroke.add_point(10, 10);
    stroke.draw_to_pixmap(&mut pm);
    assert!(pm.pixel(10, 10).a > 0);
}

#[test]
fn fully_transparent_brush_leaves_no_mark() {
    let mut pm = Pixmap::new(32, 32).unwrap();
    let mut stroke = PaintStroke::new(Color::rgba(0, 0, 0, 0), 4);
    stroke.add_point(10, 10);
    stroke.draw_to_pixmap(&mut pm);
    for y in 0..32 {
        for x in 0..32 {
            assert_eq!(pm.pixel(x, y), Color::transparent());
        }
    }
}
