use paint_core::color::Color;
use paint_core::pixmap::{Pixmap, MAX_DIM};

#[test]
fn allocation_fails_on_degenerate_dimensions() {
    assert!(Pixmap::new(0, 5).is_none());
    assert!(Pixmap::new(5, 0).is_none());
    assert!(Pixmap::new(0, 0).is_none());
    assert!(Pixmap::new(MAX_DIM + 1, 5).is_none());
    assert!(Pixmap::new(5, MAX_DIM + 1).is_none());
}

#[test]
fn new_surface_is_transparent_and_sized() {
    let pm = Pixmap::new(4, 3).unwrap();
    assert_eq!(pm.width, 4);
    assert_eq!(pm.height, 3);
    assert_eq!(pm.pixels.len(), 12);
    for y in 0..3 {
        for x in 0..4 {
            assert_eq!(pm.pixel(x, y), Color::transparent());
        }
    }
}

#[test]
fn fill_overwrites_every_pixel() {
    let mut pm = Pixmap::new(3, 3).unwrap();
    pm.fill(Color::white());
    for y in 0..3 {
        for x in 0..3 {
            assert_eq!(pm.pixel(x, y), Color::white());
        }
    }
}

#[test]
fn set_pixel_changes_only_its_target() {
    let mut pm = Pixmap::new(3, 2).unwrap();
    pm.set_pixel(2, 1, Color::black());
    assert_eq!(pm.pixel(2, 1), Color::black());
    assert_eq!(pm.pixel(0, 0), Color::transparent());
    assert_eq!(pm.pixel(1, 1), Color::transparent());
}
