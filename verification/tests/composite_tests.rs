use paint_core::color::Color;
use paint_core::layer_system::LayerManager;
use paint_core::paint_engine::PaintStroke;
use paint_core::pixmap::Pixmap;

fn opaque_black() -> Color {
    Color::rgba(0, 0, 0, 255)
}

fn opaque_white() -> Color {
    Color::rgba(255, 255, 255, 255)
}

/// A stroke whose brush covers the whole canvas, used to fill a layer.
fn fill_active(m: &mut LayerManager, color: Color) {
    let mut s = PaintStroke::new(color, 300);
    s.add_point(50, 50);
    m.add_stroke_to_active(s);
}

fn pixels_equal(a: &Pixmap, b: &Pixmap) -> bool {
    if a.width != b.width || a.height != b.height {
        return false;
    }
    for y in 0..a.height {
        for x in 0..a.width {
            if a.pixel(x, y) != b.pixel(x, y) {
                return false;
            }
        }
    }
    true
}

#[test]
fn composite_has_exactly_the_canvas_size() {
    let m = LayerManager::with_size(100, 50).unwrap();
    let out = m.composite().unwrap();
    assert_eq!(out.width, 100);
    assert_eq!(out.height, 50);
    assert_eq!(out.pixels.len(), 5000);
    let m2 = LayerManager::with_size(1, 1).unwrap();
    let out2 = m2.composite().unwrap();
    assert_eq!(out2.width, 1);
    assert_eq!(out2.height, 1);
}

#[test]
fn empty_stack_composites_to_white_background() {
    let m = LayerManager::with_size(16, 16).unwrap();
    let out = m.composite().unwrap();
    for y in 0..16 {
        for x in 0..16 {
            assert_eq!(out.pixel(x, y), opaque_white());
        }
    }
}

#[test]
fn opaque_top_layer_replaces_everything_below() {
    // Default layer filled opaque white, second layer filled opaque black
    // on top: the composite equals the top layer's content exactly.
    let mut m = LayerManager::with_size(100, 100).unwrap();
    fill_active(&mut m, opaque_white());
    m.add_layer(String::from("top"));
    fill_active(&mut m, opaque_black());
    let out = m.composite().unwrap();
    for y in 0..100 {
        for x in 0..100 {
            assert_eq!(out.pixel(x, y), opaque_black());
        }
    }
}

#[test]
fn hiding_the_top_of_two_layers_composites_the_bottom_alone() {
    let mut m = LayerManager::with_size(64, 64).unwrap();
    let mut s = PaintStroke::new(opaque_black(), 8);
    s.add_point(20, 20);
    m.add_stroke_to_active(s);
    let bottom_alone = m.composite().unwrap();
    m.add_layer(String::from("top"));
    let mut s2 = PaintStroke::new(Color::rgba(200, 0, 0, 255), 8);
    s2.add_point(40, 40);
    m.add_stroke_to_active(s2);
    let with_top = m.composite().unwrap();
    assert!(!pixels_equal(&bottom_alone, &with_top));
    m.set_layer_visible(1, false);
    let hidden_top = m.composite().unwrap();
    assert!(pixels_equal(&bottom_alone, &hidden_top));
}

#[test]
fn zero_opacity_layer_contributes_nothing() {
    let mut m = LayerManager::with_size(64, 64).unwrap();
    let mut s = PaintStroke::new(opaque_black(), 8);
    s.add_point(10, 10);
    m.add_stroke_to_active(s);
    m.add_layer(String::from("mid"));
    let mut s2 = PaintStroke::new(Color::rgba(0, 120, 0, 255), 8);
    s2.add_point(30, 30);
    m.add_stroke_to_active(s2);
    m.add_layer(String::from("top"));
    let mut s3 = PaintStroke::new(Color::rgba(0, 0, 120, 255), 8);
    s3.add_point(50, 50);
    m.add_stroke_to_active(s3);

    // The same stack with the middle layer removed entirely.
    let mut without = LayerManager::with_size(64, 64).unwrap();
    let mut t1 = PaintStroke::new(opaque_black(), 8);
    t1.add_point(10, 10);
    without.add_stroke_to_active(t1);
    without.add_layer(String::from("top"));
    let mut t3 = PaintStroke::new(Color::rgba(0, 0, 120, 255), 8);
    t3.add_point(50, 50);
    without.add_stroke_to_active(t3);

    m.set_layer_opacity(1, 0);
    let dimmed = m.composite().unwrap();
    let removed = without.composite().unwrap();
    assert!(pixels_equal(&dimmed, &removed));
}

#[test]
fn half_opacity_layer_blends_toward_background() {
    let mut m = LayerManager::with_size(32, 32).unwrap();
    fill_active(&mut m, opaque_black());
    m.set_layer_opacity(0, 128);
    let out = m.composite().unwrap();
    // Black at opacity 128 over white: 127 in each color channel.
    assert_eq!(out.pixel(16, 16), Color::rgba(127, 127, 127, 255));
}

#[test]
fn composite_is_a_fresh_surface_each_call() {
    let m = LayerManager::with_size(16, 16).unwrap();
    let mut a = m.composite().unwrap();
    a.set_pixel(0, 0, opaque_black());
    let b = m.composite().unwrap();
    assert_eq!(b.pixel(0, 0), opaque_white());
}
