use paint_core::color::{blend_pixel, mul16, mul255, premultiply, scale_coverage, scale_opacity, Color};

#[test]
fn mul255_exact_values() {
    assert_eq!(mul255(255, 255), 255);
    assert_eq!(mul255(255, 0), 0);
    assert_eq!(mul255(0, 255), 0);
    assert_eq!(mul255(128, 255), 128);
    // 128 * 128 / 255 = 64.25..., rounded to nearest
    assert_eq!(mul255(128, 128), 64);
    // 200 * 51 / 255 = 40 exactly
    assert_eq!(mul255(200, 51), 40);
}

#[test]
fn mul16_exact_values() {
    assert_eq!(mul16(255, 16), 255);
    assert_eq!(mul16(255, 0), 0);
    assert_eq!(mul16(255, 8), 128);
    // 255 * 1 / 16 = 15.9..., rounded to nearest = 16
    assert_eq!(mul16(255, 1), 16);
    assert_eq!(mul16(100, 4), 25);
}

#[test]
fn blend_opaque_source_replaces_destination() {
    let white = Color::white();
    let black = Color::black();
    assert_eq!(blend_pixel(white, black), black);
    let red = Color::rgba(200, 10, 30, 255);
    assert_eq!(blend_pixel(black, red), red);
}

#[test]
fn blend_transparent_source_keeps_destination() {
    let d = Color::rgba(12, 34, 56, 200);
    assert_eq!(blend_pixel(d, Color::transparent()), d);
}

#[test]
fn blend_half_alpha_black_over_white() {
    // Premultiplied black at alpha 128 over opaque white:
    // out = 0 + 255 * (255 - 128) / 255 = 127 per color channel,
    // out.a = 128 + 255 * 127 / 255 = 255.
    let src = Color::rgba(0, 0, 0, 128);
    let out = blend_pixel(Color::white(), src);
    assert_eq!(out, Color::rgba(127, 127, 127, 255));
}

#[test]
fn premultiply_scales_color_by_alpha() {
    assert_eq!(premultiply(Color::rgba(255, 128, 0, 255)), Color::rgba(255, 128, 0, 255));
    assert_eq!(premultiply(Color::rgba(255, 128, 0, 0)), Color::rgba(0, 0, 0, 0));
    // 255 * 128 / 255 = 128; 128 * 128 / 255 rounds to 64
    assert_eq!(premultiply(Color::rgba(255, 128, 0, 128)), Color::rgba(128, 64, 0, 128));
}

#[test]
fn scale_opacity_identity_and_zero() {
    let c = Color::rgba(120, 80, 40, 200);
    assert_eq!(scale_opacity(c, 255), c);
    assert_eq!(scale_opacity(c, 0), Color::transparent());
}

#[test]
fn scale_coverage_identity_and_zero() {
    let c = Color::rgba(120, 80, 40, 200);
    assert_eq!(scale_coverage(c, 16), c);
    assert_eq!(scale_coverage(c, 0), Color::transparent());
}
