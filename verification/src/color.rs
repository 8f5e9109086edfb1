//! RGBA colors and the integer channel math used for all pixel writes.
//!
//! Convention (applied consistently across the crate): surface pixels are
//! premultiplied alpha, brush colors are straight alpha. A brush color is
//! premultiplied before it is blended, and blending is source-over:
//! `out = src + dst * (255 - src.a) / 255`, with round-to-nearest division.

use vstd::prelude::*;

verus! {

/// An RGBA color with 8-bit channels, each mapping 0..=255 onto [0, 1].
///
/// Used both for brush colors (straight alpha) and for surface pixels
/// (premultiplied alpha, see [`premul_wf`]).
#[derive(Clone, Copy, Debug, PartialEq, Eq, Structural)]
pub struct Color {
    pub r: u8,
    pub g: u8,
    pub b: u8,
    pub a: u8,
}

/// `x * y / 255`, rounded to nearest: the scaling step of 8-bit channel math.
pub open spec fn m255(x: int, y: int) -> int {
    (x * y + 127) / 255
}

/// `x * cov / 16`, rounded to nearest: scaling a channel by a coverage
/// fraction measured in sixteenths.
pub open spec fn m16(x: int, cov: int) -> int {
    (x * cov + 8) / 16
}

/// A premultiplied pixel is well formed when no color channel exceeds alpha.
pub open spec fn premul_wf(c: Color) -> bool {
    c.r <= c.a && c.g <= c.a && c.b <= c.a
}

/// The fully transparent pixel.
pub open spec fn transparent_spec() -> Color {
    Color { r: 0, g: 0, b: 0, a: 0 }
}

/// One channel of source-over blending: `s` and `sa` are the premultiplied
/// source channel and source alpha, `d` the destination channel.
pub open spec fn blend_ch(d: int, s: int, sa: int) -> int {
    s + m255(d, 255 - sa)
}

/// Source-over blending of a premultiplied source pixel onto a premultiplied
/// destination pixel.
pub open spec fn blend_spec(d: Color, s: Color) -> Color {
    Color {
        r: blend_ch(d.r as int, s.r as int, s.a as int) as u8,
        g: blend_ch(d.g as int, s.g as int, s.a as int) as u8,
        b: blend_ch(d.b as int, s.b as int, s.a as int) as u8,
        a: blend_ch(d.a as int, s.a as int, s.a as int) as u8,
    }
}

/// Premultiplying a straight-alpha brush color.
pub open spec fn premul_spec(c: Color) -> Color {
    Color {
        r: m255(c.r as int, c.a as int) as u8,
        g: m255(c.g as int, c.a as int) as u8,
        b: m255(c.b as int, c.a as int) as u8,
        a: c.a,
    }
}

/// Scaling a premultiplied pixel by a coverage fraction `cov` in 0..=16.
pub open spec fn cov_scale_spec(c: Color, cov: int) -> Color {
    Color {
        r: m16(c.r as int, cov) as u8,
        g: m16(c.g as int, cov) as u8,
        b: m16(c.b as int, cov) as u8,
        a: m16(c.a as int, cov) as u8,
    }
}

/// Scaling a premultiplied pixel by a layer opacity in 0..=255.
pub open spec fn opacity_scale_spec(c: Color, o: int) -> Color {
    Color {
        r: m255(c.r as int, o) as u8,
        g: m255(c.g as int, o) as u8,
        b: m255(c.b as int, o) as u8,
        a: m255(c.a as int, o) as u8,
    }
}

/// Bounds and monotonicity of the `x * y / 255` channel scaling.
pub proof fn lemma_m255_bounds(x: int, y: int)
    requires
        0 <= x <= 255,
        0 <= y <= 255,
    ensures
        0 <= m255(x, y),
        m255(x, y) <= x,
        m255(x, y) <= y,
{
    assert(0 <= x * y && x * y <= x * 255 && x * y <= 255 * y) by (nonlinear_arith)
        requires
            0 <= x <= 255,
            0 <= y <= 255,
    ;
    assert((x * y + 127) / 255 <= (x * 255 + 127) / 255);
    assert((x * 255 + 127) / 255 == x);
    assert((x * y + 127) / 255 <= (255 * y + 127) / 255);
    assert((255 * y + 127) / 255 == y);
}

/// `m255` is monotone in its first argument.
pub proof fn lemma_m255_monotone(x1: int, x2: int, y: int)
    requires
        0 <= x1 <= x2,
        0 <= y,
    ensures
        m255(x1, y) <= m255(x2, y),
{
    assert(x1 * y <= x2 * y) by (nonlinear_arith)
        requires
            0 <= x1 <= x2,
            0 <= y,
    ;
}

/// Scaling by full alpha is the identity; scaling by zero gives zero.
pub proof fn lemma_m255_ends(x: int)
    requires
        0 <= x <= 255,
    ensures
        m255(x, 255) == x,
        m255(x, 0) == 0,
        m255(0, x) == 0,
{
}

/// Bounds and monotonicity of the `x * cov / 16` coverage scaling.
pub proof fn lemma_m16_bounds(x: int, cov: int)
    requires
        0 <= x <= 255,
        0 <= cov <= 16,
    ensures
        0 <= m16(x, cov),
        m16(x, cov) <= x,
        m16(x, cov) == x || cov < 16,
        m16(x, 16) == x,
        m16(x, 0) == 0,
{
    assert(0 <= x * cov && x * cov <= x * 16) by (nonlinear_arith)
        requires
            0 <= x <= 255,
            0 <= cov <= 16,
    ;
    assert((x * cov + 8) / 16 <= (x * 16 + 8) / 16);
    assert((x * 16 + 8) / 16 == x);
}

/// `m16` is monotone in its first argument.
pub proof fn lemma_m16_monotone(x1: int, x2: int, cov: int)
    requires
        0 <= x1 <= x2,
        0 <= cov,
    ensures
        m16(x1, cov) <= m16(x2, cov),
{
    assert(x1 * cov <= x2 * cov) by (nonlinear_arith)
        requires
            0 <= x1 <= x2,
            0 <= cov,
    ;
}

/// Blending stays within channel range and preserves premultiplied
/// well-formedness: one channel at a time.
pub proof fn lemma_blend_ch_bounds(d: int, da: int, s: int, sa: int)
    requires
        0 <= d <= da <= 255,
        0 <= s <= sa <= 255,
    ensures
        0 <= blend_ch(d, s, sa),
        blend_ch(d, s, sa) <= blend_ch(da, sa, sa),
        blend_ch(da, sa, sa) <= 255,
{
    lemma_m255_bounds(d, 255 - sa);
    lemma_m255_bounds(da, 255 - sa);
    lemma_m255_monotone(d, da, 255 - sa);
}

/// Blending two well-formed premultiplied pixels yields a well-formed
/// premultiplied pixel, and the spec-level u8 casts do not truncate.
pub proof fn lemma_blend_wf(d: Color, s: Color)
    requires
        premul_wf(d),
        premul_wf(s),
    ensures
        premul_wf(blend_spec(d, s)),
        blend_spec(d, s).r == blend_ch(d.r as int, s.r as int, s.a as int),
        blend_spec(d, s).g == blend_ch(d.g as int, s.g as int, s.a as int),
        blend_spec(d, s).b == blend_ch(d.b as int, s.b as int, s.a as int),
        blend_spec(d, s).a == blend_ch(d.a as int, s.a as int, s.a as int),
{
    lemma_blend_ch_bounds(d.r as int, d.a as int, s.r as int, s.a as int);
    lemma_blend_ch_bounds(d.g as int, d.a as int, s.g as int, s.a as int);
    lemma_blend_ch_bounds(d.b as int, d.a as int, s.b as int, s.a as int);
    lemma_blend_ch_bounds(d.a as int, d.a as int, s.a as int, s.a as int);
}

/// Blending a fully transparent source leaves the destination unchanged.
pub proof fn lemma_blend_transparent(d: Color)
    ensures
        blend_spec(d, transparent_spec()) == d,
{
    lemma_m255_ends(d.r as int);
    lemma_m255_ends(d.g as int);
    lemma_m255_ends(d.b as int);
    lemma_m255_ends(d.a as int);
}

/// Blending a fully opaque source replaces the destination.
pub proof fn lemma_blend_opaque(d: Color, s: Color)
    requires
        s.a == 255,
    ensures
        blend_spec(d, s) == s,
{
}

/// Blending never decreases alpha: coverage only accumulates.
pub proof fn lemma_blend_alpha_monotone(d: Color, s: Color)
    requires
        premul_wf(s),
    ensures
        blend_spec(d, s).a >= d.a,
        blend_spec(d, s).a >= s.a,
{
    let da = d.a as int;
    let sa = s.a as int;
    lemma_m255_bounds(da, 255 - sa);
    assert(da * (255 - sa) + 127 >= 255 * (da - sa)) by (nonlinear_arith)
        requires
            0 <= da <= 255,
            0 <= sa <= 255,
    ;
    assert((da * (255 - sa) + 127) / 255 >= (255 * (da - sa)) / 255);
    assert((255 * (da - sa)) / 255 == da - sa);
}

impl Color {
    /// Builds a color from its four straight-alpha channels.
    pub fn rgba(r: u8, g: u8, b: u8, a: u8) -> (c: Color)
        ensures
            c == (Color { r, g, b, a }),
    {
        Color { r, g, b, a }
    }

    /// The fully transparent pixel.
    pub fn transparent() -> (c: Color)
        ensures
            c == transparent_spec(),
            premul_wf(c),
    {
        Color { r: 0, g: 0, b: 0, a: 0 }
    }

    /// Opaque white, the compositing background.
    pub fn white() -> (c: Color)
        ensures
            c == (Color { r: 255, g: 255, b: 255, a: 255 }),
            premul_wf(c),
    {
        Color { r: 255, g: 255, b: 255, a: 255 }
    }

    /// Opaque black.
    pub fn black() -> (c: Color)
        ensures
            c == (Color { r: 0, g: 0, b: 0, a: 255 }),
            premul_wf(c),
    {
        Color { r: 0, g: 0, b: 0, a: 255 }
    }
}

/// `x * y / 255` rounded to nearest, the executable channel scaling.
pub fn mul255(x: u8, y: u8) -> (r: u8)
    ensures
        r as int == m255(x as int, y as int),
{
    proof {
        lemma_m255_bounds(x as int, y as int);
    }
    ((x as u32 * y as u32 + 127) / 255) as u8
}

/// `x * cov / 16` rounded to nearest, the executable coverage scaling.
pub fn mul16(x: u8, cov: u8) -> (r: u8)
    requires
        cov <= 16,
    ensures
        r as int == m16(x as int, cov as int),
{
    proof {
        lemma_m16_bounds(x as int, cov as int);
    }
    ((x as u32 * cov as u32 + 8) / 16) as u8
}

/// Premultiplies a straight-alpha brush color.
pub fn premultiply(c: Color) -> (r: Color)
    ensures
        r == premul_spec(c),
        premul_wf(r),
{
    proof {
        lemma_m255_bounds(c.r as int, c.a as int);
        lemma_m255_bounds(c.g as int, c.a as int);
        lemma_m255_bounds(c.b as int, c.a as int);
    }
    Color { r: mul255(c.r, c.a), g: mul255(c.g, c.a), b: mul255(c.b, c.a), a: c.a }
}

/// Scales a premultiplied pixel by a coverage fraction in sixteenths.
pub fn scale_coverage(c: Color, cov: u8) -> (r: Color)
    requires
        cov <= 16,
        premul_wf(c),
    ensures
        r == cov_scale_spec(c, cov as int),
        premul_wf(r),
{
    proof {
        lemma_m16_bounds(c.r as int, cov as int);
        lemma_m16_bounds(c.g as int, cov as int);
        lemma_m16_bounds(c.b as int, cov as int);
        lemma_m16_bounds(c.a as int, cov as int);
        lemma_m16_monotone(c.r as int, c.a as int, cov as int);
        lemma_m16_monotone(c.g as int, c.a as int, cov as int);
        lemma_m16_monotone(c.b as int, c.a as int, cov as int);
    }
    Color { r: mul16(c.r, cov), g: mul16(c.g, cov), b: mul16(c.b, cov), a: mul16(c.a, cov) }
}

/// Scales a premultiplied pixel by a layer opacity in 0..=255.
pub fn scale_opacity(c: Color, o: u8) -> (r: Color)
    requires
        premul_wf(c),
    ensures
        r == opacity_scale_spec(c, o as int),
        premul_wf(r),
{
    proof {
        lemma_m255_bounds(c.r as int, o as int);
        lemma_m255_bounds(c.g as int, o as int);
        lemma_m255_bounds(c.b as int, o as int);
        lemma_m255_bounds(c.a as int, o as int);
        lemma_m255_monotone(c.r as int, c.a as int, o as int);
        lemma_m255_monotone(c.g as int, c.a as int, o as int);
        lemma_m255_monotone(c.b as int, c.a as int, o as int);
    }
    Color { r: mul255(c.r, o), g: mul255(c.g, o), b: mul255(c.b, o), a: mul255(c.a, o) }
}

/// Source-over blend of a premultiplied source pixel onto a premultiplied
/// destination pixel.
pub fn blend_pixel(d: Color, s: Color) -> (r: Color)
    requires
        premul_wf(d),
        premul_wf(s),
    ensures
        r == blend_spec(d, s),
        premul_wf(r),
{
    proof {
        lemma_blend_wf(d, s);
    }
    let ia: u8 = 255 - s.a;
    Color {
        r: s.r + mul255(d.r, ia),
        g: s.g + mul255(d.g, ia),
        b: s.b + mul255(d.b, ia),
        a: s.a + mul255(d.a, ia),
    }
}

} // verus!
