//! The stroke rasterizer: turning stroke geometry and brush parameters into
//! pixel writes on a target surface.
//!
//! A stroke is rendered as a sequence of circular brush stamps: one stamp per
//! sampled point, plus interpolated stamps between consecutive samples spaced
//! a quarter of the brush width apart, so that fast pointer motion still
//! reads as a continuous mark. Each stamp blends the brush color over the
//! surface with per-pixel anti-aliased coverage (see [`crate::coverage`]).

use vstd::prelude::*;
use vstd::arithmetic::div_mod::{
    lemma_div_is_ordered,
    lemma_div_multiples_vanish,
    lemma_div_multiples_vanish_fancy,
    lemma_div_nonincreasing,
    lemma_div_pos_is_pos,
    lemma_fundamental_div_mod,
    lemma_mod_bound,
    lemma_multiply_divide_lt,
};
use crate::color::{
    blend_spec,
    cov_scale_spec,
    lemma_blend_alpha_monotone,
    lemma_blend_transparent,
    lemma_m16_bounds,
    lemma_m255_bounds,
    premul_spec,
    premul_wf,
    scale_coverage,
    transparent_spec,
    blend_pixel,
    premultiply,
    Color,
};
use crate::coverage::{
    coverage,
    coverage_at,
    lemma_coverage_bounds,
    lemma_coverage_center,
    lemma_coverage_far,
    CENTER_LIMIT,
    MAX_BRUSH,
};
use crate::pixmap::Pixmap;

verus! {

/// Canvas coordinates sampled from pointer input are clamped to this
/// magnitude, so every piece of interpolation arithmetic stays in range.
pub const COORD_LIMIT: i32 = 1048576;

/// A sampled canvas position, in whole-pixel coordinates.
#[derive(Clone, Copy, Debug, PartialEq, Eq, Structural)]
pub struct Point {
    pub x: i32,
    pub y: i32,
}

/// Whether a point is within the clamped coordinate range.
pub open spec fn point_in_range(p: Point) -> bool {
    -COORD_LIMIT <= p.x <= COORD_LIMIT && -COORD_LIMIT <= p.y <= COORD_LIMIT
}

/// The premultiplied source pixel contributed by brush color `col` at a
/// pixel it covers with fraction `cov` (in sixteenths).
pub open spec fn src_pixel_spec(col: Color, cov: int) -> Color {
    cov_scale_spec(premul_spec(col), cov)
}

/// The surface contents after one circular brush stamp of width `bw`
/// centered at `(cx, cy)` with color `col`: every pixel is blended with the
/// brush color scaled by that pixel's coverage. `w` is the surface width and
/// pixels are row-major, so pixel `i` sits at `(i % w, i / w)`.
pub open spec fn stamp_spec(
    pixels: Seq<Color>,
    w: int,
    cx: int,
    cy: int,
    bw: int,
    col: Color,
) -> Seq<Color> {
    Seq::new(
        pixels.len(),
        |i: int|
            blend_spec(pixels[i], src_pixel_spec(col, coverage(i % w, i / w, cx, cy, bw))),
    )
}

/// Zero coverage contributes a fully transparent source pixel.
pub proof fn lemma_src_pixel_zero(col: Color)
    ensures
        src_pixel_spec(col, 0) == transparent_spec(),
{
    lemma_m255_bounds(col.r as int, col.a as int);
    lemma_m255_bounds(col.g as int, col.a as int);
    lemma_m255_bounds(col.b as int, col.a as int);
    lemma_m16_bounds(premul_spec(col).r as int, 0);
    lemma_m16_bounds(premul_spec(col).g as int, 0);
    lemma_m16_bounds(premul_spec(col).b as int, 0);
    lemma_m16_bounds(premul_spec(col).a as int, 0);
}

/// A pixel with zero coverage is left unchanged by a stamp.
pub proof fn lemma_stamp_unchanged_pixel(d: Color, col: Color)
    ensures
        blend_spec(d, src_pixel_spec(col, 0)) == d,
{
    lemma_src_pixel_zero(col);
    lemma_blend_transparent(d);
}

/// Decomposing a row-major index into its column and row.
pub proof fn lemma_rowmajor_split(i: int, w: int, h: int)
    requires
        0 < w,
        0 <= i < w * h,
    ensures
        0 <= i % w < w,
        0 <= i / w < h,
        i == (i / w) * w + (i % w),
{
    lemma_mod_bound(i, w);
    lemma_div_pos_is_pos(i, w);
    lemma_multiply_divide_lt(i, w, h);
    lemma_fundamental_div_mod(i, w);
    assert(w * (i / w) == (i / w) * w) by (nonlinear_arith);
}

/// Composing in-range coordinates into a row-major index.
pub proof fn lemma_rowmajor_join(px: int, py: int, w: int, h: int)
    requires
        0 <= px < w,
        0 <= py < h,
    ensures
        0 <= py * w + px < w * h,
        (py * w + px) % w == px,
        (py * w + px) / w == py,
{
    assert(0 <= py * w && py * w + px < w * h && py * w + px == w * py + px) by (nonlinear_arith)
        requires
            0 <= px < w,
            0 <= py < h,
    ;
    lemma_div_multiples_vanish_fancy(py, px, w);
    lemma_fundamental_div_mod(py * w + px, w);
}

/// Applies one circular brush stamp of width `bw`, centered at `(cx, cy)`,
/// to the surface: the executable counterpart of [`stamp_spec`].
pub fn stamp(pm: &mut Pixmap, cx: i64, cy: i64, bw: u32, col: Color)
    requires
        old(pm).wf(),
        1 <= bw <= MAX_BRUSH,
        -CENTER_LIMIT <= cx <= CENTER_LIMIT,
        -CENTER_LIMIT <= cy <= CENTER_LIMIT,
    ensures
        final(pm).wf(),
        final(pm).width == old(pm).width,
        final(pm).height == old(pm).height,
        final(pm).pixels@ == stamp_spec(
            old(pm).pixels@,
            old(pm).width as int,
            cx as int,
            cy as int,
            bw as int,
            col,
        ),
{
    let ghost orig: Seq<Color> = pm.pixels@;
    let ghost w_spec: int = pm.width as int;
    let ghost h_spec: int = pm.height as int;
    let ghost target: Seq<Color> = stamp_spec(orig, w_spec, cx as int, cy as int, bw as int, col);
    let w64: i64 = pm.width as i64;
    let h64: i64 = pm.height as i64;
    let b: i64 = (bw / 2) as i64 + 1;
    let x_lo: i64 = if cx - b > 0 { cx - b } else { 0 };
    let x_hi: i64 = if cx + b < w64 - 1 { cx + b } else { w64 - 1 };
    let y_lo: i64 = if cy - b > 0 { cy - b } else { 0 };
    let y_hi: i64 = if cy + b < h64 - 1 { cy + b } else { h64 - 1 };

    if x_lo > x_hi || y_lo > y_hi {
        // The brush circle misses the surface entirely.
        proof {
            assert forall|i: int| 0 <= i < orig.len() implies target[i] == orig[i] by {
                lemma_rowmajor_split(i, w_spec, h_spec);
                lemma_coverage_far(i % w_spec, i / w_spec, cx as int, cy as int, bw as int);
                lemma_stamp_unchanged_pixel(orig[i], col);
            }
            assert(pm.pixels@ =~= target);
        }
        return;
    }
    let src_full: Color = premultiply(col);
    let mut py: i64 = y_lo;
    while py <= y_hi
        invariant
            pm.wf(),
            pm.width == old(pm).width,
            pm.height == old(pm).height,
            pm.pixels@.len() == orig.len(),
            orig.len() == w_spec * h_spec,
            w_spec == pm.width as int,
            h_spec == pm.height as int,
            src_full == premul_spec(col),
            premul_wf(src_full),
            1 <= bw <= MAX_BRUSH,
            -CENTER_LIMIT <= cx <= CENTER_LIMIT,
            -CENTER_LIMIT <= cy <= CENTER_LIMIT,
            w64 == pm.width as i64,
            h64 == pm.height as i64,
            b == bw / 2 + 1,
            0 <= x_lo <= x_hi <= w64 - 1,
            0 <= y_lo <= py <= y_hi + 1,
            y_hi <= h64 - 1,
            x_lo == if cx - b > 0 { cx - b } else { 0 },
            x_hi == if cx + b < w64 - 1 { cx + b as int } else { w64 - 1 },
            y_lo == if cy - b > 0 { cy - b } else { 0 },
            y_hi == if cy + b < h64 - 1 { cy + b as int } else { h64 - 1 },
            target == stamp_spec(orig, w_spec, cx as int, cy as int, bw as int, col),
            forall|i: int|
                0 <= i < orig.len() ==> #[trigger] pm.pixels@[i] == if y_lo <= i / w_spec < py
                    && x_lo <= i % w_spec <= x_hi {
                    target[i]
                } else {
                    orig[i]
                },
        decreases y_hi + 1 - py,
    {
        let mut px: i64 = x_lo;
        while px <= x_hi
            invariant
                pm.wf(),
                pm.width == old(pm).width,
                pm.height == old(pm).height,
                pm.pixels@.len() == orig.len(),
                orig.len() == w_spec * h_spec,
                w_spec == pm.width as int,
                h_spec == pm.height as int,
                src_full == premul_spec(col),
                premul_wf(src_full),
                1 <= bw <= MAX_BRUSH,
                -CENTER_LIMIT <= cx <= CENTER_LIMIT,
                -CENTER_LIMIT <= cy <= CENTER_LIMIT,
                w64 == pm.width as i64,
                h64 == pm.height as i64,
                0 <= x_lo <= px <= x_hi + 1,
                x_hi <= w64 - 1,
                0 <= y_lo <= py <= y_hi,
                y_hi <= h64 - 1,
                target == stamp_spec(orig, w_spec, cx as int, cy as int, bw as int, col),
                forall|i: int|
                    0 <= i < orig.len() ==> #[trigger] pm.pixels@[i] == if (y_lo <= i / w_spec
                        < py && x_lo <= i % w_spec <= x_hi) || (i / w_spec == py && x_lo <= i
                        % w_spec < px) {
                        target[i]
                    } else {
                        orig[i]
                    },
            decreases x_hi + 1 - px,
        {
            let pxu: u32 = px as u32;
            let pyu: u32 = py as u32;
            proof {
                lemma_rowmajor_join(px as int, py as int, w_spec, h_spec);
            }
            let ghost idx: int = (py as int) * w_spec + (px as int);
            let ghost prev: Seq<Color> = pm.pixels@;
            let cov: u8 = coverage_at(px, py, cx, cy, bw);
            let src: Color = scale_coverage(src_full, cov);
            let d: Color = pm.pixel(pxu, pyu);
            proof {
                assert(d == pm.pixels@[idx]);
                assert(premul_wf(pm.pixels@[idx]));
                assert(pm.pixels@[idx] == orig[idx]);
            }
            let nb: Color = blend_pixel(d, src);
            proof {
                assert(target[idx] == blend_spec(
                    orig[idx],
                    src_pixel_spec(col, coverage(px as int, py as int, cx as int, cy as int, bw as int)),
                ));
                assert(nb == target[idx]);
            }
            pm.set_pixel(pxu, pyu, nb);
            proof {
                assert forall|i: int| 0 <= i < orig.len() implies #[trigger] pm.pixels@[i] == (if (
                    y_lo <= i / w_spec < py && x_lo <= i % w_spec <= x_hi) || (i / w_spec == py
                    && x_lo <= i % w_spec < px + 1) {
                    target[i]
                } else {
                    orig[i]
                }) by {
                    lemma_rowmajor_split(i, w_spec, h_spec);
                    if i != idx {
                        assert(pm.pixels@[i] == prev[i]);
                    }
                }
            }
            px = px + 1;
        }
        py = py + 1;
    }
    proof {
        assert forall|i: int| 0 <= i < orig.len() implies pm.pixels@[i] == target[i] by {
            lemma_rowmajor_split(i, w_spec, h_spec);
            let c = i % w_spec;
            let r = i / w_spec;
            if !(y_lo <= r <= y_hi && x_lo <= c <= x_hi) {
                assert(2 * (c - cx) >= bw + 2 || 2 * (cx - c) >= bw + 2 || 2 * (r - cy) >= bw + 2
                    || 2 * (cy - r) >= bw + 2);
                lemma_coverage_far(c, r, cx as int, cy as int, bw as int);
                lemma_stamp_unchanged_pixel(orig[i], col);
            }
        }
        assert(pm.pixels@ =~= target);
    }
}

/// The magnitude of an integer.
pub open spec fn abs_val(a: int) -> int {
    if a >= 0 {
        a
    } else {
        -a
    }
}

/// The chessboard distance between two displacements: the larger magnitude.
pub open spec fn cheb_dist(dx: int, dy: int) -> int {
    if abs_val(dx) >= abs_val(dy) {
        abs_val(dx)
    } else {
        abs_val(dy)
    }
}

/// Integer division truncated toward zero, as machine division computes it.
pub open spec fn tdiv(a: int, b: int) -> int {
    if a >= 0 {
        a / b
    } else {
        -((-a) / b)
    }
}

/// The number of interpolation segments between two consecutive samples:
/// enough that consecutive stamp centers are at most a quarter of the brush
/// width apart along each axis.
pub open spec fn steps_between(p: Point, q: Point, bw: int) -> int {
    (4 * cheb_dist(q.x - p.x, q.y - p.y) + bw - 1) / bw
}

/// The `j`-th of `steps` evenly spaced positions from `p` toward `q`.
pub open spec fn lerp_center(p: Point, q: Point, j: int, steps: int) -> (int, int) {
    (p.x + tdiv((q.x - p.x) * j, steps), p.y + tdiv((q.y - p.y) * j, steps))
}

/// The interior interpolated stamp centers between two consecutive samples,
/// in drawing order. Empty when the samples are within one step of each
/// other: their own stamps already overlap.
pub open spec fn interp_pair(p: Point, q: Point, bw: int) -> Seq<(int, int)> {
    let s = steps_between(p, q, bw);
    if s <= 1 {
        Seq::empty()
    } else {
        Seq::new((s - 1) as nat, |j: int| lerp_center(p, q, j + 1, s))
    }
}

/// The sampled points themselves, as stamp centers.
pub open spec fn point_centers(points: Seq<Point>) -> Seq<(int, int)> {
    points.map_values(|p: Point| (p.x as int, p.y as int))
}

/// The interpolated centers of the first `upto` samples' segments,
/// concatenated in drawing order.
pub open spec fn interp_centers(points: Seq<Point>, bw: int, upto: int) -> Seq<(int, int)>
    decreases upto,
{
    if upto <= 1 {
        Seq::empty()
    } else {
        interp_centers(points, bw, upto - 1) + interp_pair(
            points[upto - 2],
            points[upto - 1],
            bw,
        )
    }
}

/// Every stamp center of a stroke, in drawing order: first one stamp per
/// sampled point, then the interpolated stamps of each segment.
pub open spec fn stroke_centers(points: Seq<Point>, bw: int) -> Seq<(int, int)> {
    point_centers(points) + interp_centers(points, bw, points.len() as int)
}

/// The surface contents after stamping every center of `cs` in order.
pub open spec fn stamp_all(
    pixels: Seq<Color>,
    w: int,
    cs: Seq<(int, int)>,
    bw: int,
    col: Color,
) -> Seq<Color>
    decreases cs.len(),
{
    if cs.len() == 0 {
        pixels
    } else {
        stamp_all(
            stamp_spec(pixels, w, cs[0].0, cs[0].1, bw, col),
            w,
            cs.subrange(1, cs.len() as int),
            bw,
            col,
        )
    }
}

/// Stamping a list of centers and then one more is stamping the list and
/// then stamping the extra center on the result.
pub proof fn lemma_stamp_all_push(
    pixels: Seq<Color>,
    w: int,
    cs: Seq<(int, int)>,
    c: (int, int),
    bw: int,
    col: Color,
)
    ensures
        stamp_all(pixels, w, cs.push(c), bw, col) == stamp_spec(
            stamp_all(pixels, w, cs, bw, col),
            w,
            c.0,
            c.1,
            bw,
            col,
        ),
    decreases cs.len(),
{
    if cs.len() == 0 {
        assert(cs.push(c)[0] == c);
        assert(cs.push(c).subrange(1, cs.push(c).len() as int) =~= Seq::<(int, int)>::empty());
        assert(stamp_all(stamp_spec(pixels, w, c.0, c.1, bw, col), w, Seq::<(int, int)>::empty(), bw, col)
            == stamp_spec(pixels, w, c.0, c.1, bw, col));
    } else {
        let rest = cs.subrange(1, cs.len() as int);
        assert(cs.push(c)[0] == cs[0]);
        assert(cs.push(c).subrange(1, cs.push(c).len() as int) =~= rest.push(c));
        lemma_stamp_all_push(stamp_spec(pixels, w, cs[0].0, cs[0].1, bw, col), w, rest, c, bw, col);
    }
}


/// An interpolated offset never overshoots the segment displacement:
/// `d * j / s` stays within the magnitude of `d` whenever `j <= s`.
pub proof fn lemma_tdiv_scale_bound(d: int, j: int, s: int)
    requires
        0 <= j <= s,
        1 <= s,
    ensures
        d >= 0 ==> 0 <= tdiv(d * j, s) <= d,
        d < 0 ==> d <= tdiv(d * j, s) <= 0,
{
    if d >= 0 {
        assert(0 <= d * j && d * j <= s * d) by (nonlinear_arith)
            requires
                0 <= j <= s,
                0 <= d,
        ;
        lemma_div_pos_is_pos(d * j, s);
        lemma_div_is_ordered(d * j, s * d, s);
        lemma_div_multiples_vanish(d, s);
    } else {
        let e = -d;
        assert(0 <= e * j && e * j <= s * e && -(d * j) == e * j && d * j <= 0) by (nonlinear_arith)
            requires
                0 <= j <= s,
                e == -d,
                0 <= e,
        ;
        lemma_div_pos_is_pos(e * j, s);
        lemma_div_is_ordered(e * j, s * e, s);
        lemma_div_multiples_vanish(e, s);
    }
}

/// Truncated division of a bounded numerator by a positive denominator.
fn tdiv_i64(a: i64, b: i64) -> (r: i64)
    requires
        1 <= b,
        -0x4000_0000_0000 <= a <= 0x4000_0000_0000,
    ensures
        r as int == tdiv(a as int, b as int),
        a >= 0 ==> 0 <= r <= a,
        a < 0 ==> a <= r <= 0,
{
    if a >= 0 {
        proof {
            lemma_div_pos_is_pos(a as int, b as int);
            lemma_div_nonincreasing(a as int, b as int);
        }
        ((a as u64) / (b as u64)) as i64
    } else {
        proof {
            lemma_div_pos_is_pos(-(a as int), b as int);
            lemma_div_nonincreasing(-(a as int), b as int);
        }
        -(((-a) as u64 / (b as u64)) as i64)
    }
}

/// Whether every point of a sequence is within the clamped coordinate range.
pub open spec fn points_in_range(points: Seq<Point>) -> bool {
    forall|i: int| 0 <= i < points.len() ==> point_in_range(#[trigger] points[i])
}

/// Rasterizes a whole stroke path onto a surface: one anti-aliased circular
/// stamp per sampled point, then interpolated stamps along each segment so
/// the mark is continuous however far apart the samples are.
pub fn rasterize_stroke(pm: &mut Pixmap, points: &Vec<Point>, bw: u32, col: Color)
    requires
        old(pm).wf(),
        1 <= bw <= MAX_BRUSH,
        points_in_range(points@),
    ensures
        final(pm).wf(),
        final(pm).width == old(pm).width,
        final(pm).height == old(pm).height,
        final(pm).pixels@ == stamp_all(
            old(pm).pixels@,
            old(pm).width as int,
            stroke_centers(points@, bw as int),
            bw as int,
            col,
        ),
{
    let ghost orig: Seq<Color> = pm.pixels@;
    let ghost w_spec: int = pm.width as int;
    let ghost pcs: Seq<(int, int)> = point_centers(points@);
    let n: usize = points.len();
    if n == 0 {
        proof {
            assert(pcs =~= Seq::<(int, int)>::empty());
            assert(stroke_centers(points@, bw as int) =~= Seq::<(int, int)>::empty());
        }
        return;
    }
    let mut i: usize = 0;
    while i < n
        invariant
            pm.wf(),
            pm.width == old(pm).width,
            pm.height == old(pm).height,
            w_spec == pm.width as int,
            i <= n,
            n == points@.len(),
            points_in_range(points@),
            1 <= bw <= MAX_BRUSH,
            pcs == point_centers(points@),
            pm.pixels@ == stamp_all(orig, w_spec, pcs.subrange(0, i as int), bw as int, col),
            orig.len() == pm.pixels@.len(),
        decreases n - i,
    {
        let p: Point = points[i];
        let ghost before: Seq<Color> = pm.pixels@;
        stamp(pm, p.x as i64, p.y as i64, bw, col);
        proof {
            assert(pcs[i as int] == (p.x as int, p.y as int));
            assert(pcs.subrange(0, i + 1 as int) =~= pcs.subrange(0, i as int).push(pcs[i as int]));
            lemma_stamp_all_push(orig, w_spec, pcs.subrange(0, i as int), pcs[i as int], bw as int, col);
        }
        i = i + 1;
    }
    proof {
        assert(pcs.subrange(0, n as int) =~= pcs);
    }
    let mut seg: usize = 1;
    while seg < n
        invariant
            pm.wf(),
            pm.width == old(pm).width,
            pm.height == old(pm).height,
            w_spec == pm.width as int,
            1 <= seg <= n,
            n == points@.len(),
            points_in_range(points@),
            1 <= bw <= MAX_BRUSH,
            pcs == point_centers(points@),
            pm.pixels@ == stamp_all(
                orig,
                w_spec,
                pcs + interp_centers(points@, bw as int, seg as int),
                bw as int,
                col,
            ),
            orig.len() == pm.pixels@.len(),
        decreases n - seg,
    {
        let p: Point = points[seg - 1];
        let q: Point = points[seg];
        let dx: i64 = q.x as i64 - p.x as i64;
        let dy: i64 = q.y as i64 - p.y as i64;
        let adx: i64 = if dx >= 0 { dx } else { -dx };
        let ady: i64 = if dy >= 0 { dy } else { -dy };
        let dist: i64 = if adx >= ady { adx } else { ady };
        let steps: u64 = (4 * (dist as u64) + (bw as u64) - 1) / (bw as u64);
        proof {
            assert(point_in_range(points@[seg - 1 as int]));
            assert(point_in_range(points@[seg as int]));
            assert(dist as int == cheb_dist(q.x - p.x, q.y - p.y));
            assert(0 <= dist <= 0x20_0000);
            assert(steps as int == steps_between(p, q, bw as int));
            lemma_div_nonincreasing(4 * (dist as int) + bw - 1, bw as int);
            assert(steps <= 0x80_1000);
        }
        let ghost base: Seq<(int, int)> = pcs + interp_centers(points@, bw as int, seg as int);
        if steps > 1 {
            let ghost pair: Seq<(int, int)> = interp_pair(p, q, bw as int);
            let mut j: u64 = 1;
            while j < steps
                invariant
                    pm.wf(),
                    pm.width == old(pm).width,
                    pm.height == old(pm).height,
                    w_spec == pm.width as int,
                    1 <= j <= steps,
                    2 <= steps,
                    steps as int == steps_between(p, q, bw as int),
                    steps <= 0x80_1000,
                    -0x20_0000 <= dx <= 0x20_0000,
                    -0x20_0000 <= dy <= 0x20_0000,
                    1 <= bw <= MAX_BRUSH,
                    point_in_range(p),
                    point_in_range(q),
                    dx as int == q.x - p.x,
                    dy as int == q.y - p.y,
                    pair == interp_pair(p, q, bw as int),
                    pair.len() == steps - 1,
                    pm.pixels@ == stamp_all(
                        orig,
                        w_spec,
                        base + pair.subrange(0, j as int - 1),
                        bw as int,
                        col,
                    ),
                    orig.len() == pm.pixels@.len(),
                decreases steps - j,
            {
                proof {
                    assert(-0x4000_0000_0000 <= (dx as int) * (j as int) <= 0x4000_0000_0000
                        && -0x4000_0000_0000 <= (dy as int) * (j as int) <= 0x4000_0000_0000)
                        by (nonlinear_arith)
                        requires
                            -0x20_0000 <= dx as int <= 0x20_0000,
                            -0x20_0000 <= dy as int <= 0x20_0000,
                            0 <= j as int <= 0x80_1000,
                    ;
                }
                proof {
                    lemma_tdiv_scale_bound(dx as int, j as int, steps as int);
                    lemma_tdiv_scale_bound(dy as int, j as int, steps as int);
                }
                let ox: i64 = tdiv_i64(dx * (j as i64), steps as i64);
                let oy: i64 = tdiv_i64(dy * (j as i64), steps as i64);
                let cx: i64 = p.x as i64 + ox;
                let cy: i64 = p.y as i64 + oy;
                proof {
                    assert((cx as int, cy as int) == lerp_center(p, q, j as int, steps as int));
                    assert(pair[j as int - 1] == lerp_center(p, q, j as int, steps as int));
                }
                stamp(pm, cx, cy, bw, col);
                proof {
                    assert(base + pair.subrange(0, j as int) =~= (base + pair.subrange(
                        0,
                        j as int - 1,
                    )).push(pair[j as int - 1]));
                    lemma_stamp_all_push(
                        orig,
                        w_spec,
                        base + pair.subrange(0, j as int - 1),
                        pair[j as int - 1],
                        bw as int,
                        col,
                    );
                }
                j = j + 1;
            }
            proof {
                assert(pair.subrange(0, steps as int - 1) =~= pair);
                assert(interp_centers(points@, bw as int, seg + 1 as int) == interp_centers(
                    points@,
                    bw as int,
                    seg as int,
                ) + interp_pair(points@[seg - 1 as int], points@[seg as int], bw as int));
                assert(base + pair =~= pcs + interp_centers(points@, bw as int, seg + 1 as int));
            }
        } else {
            proof {
                assert(interp_pair(p, q, bw as int) =~= Seq::<(int, int)>::empty());
                assert(interp_centers(points@, bw as int, seg + 1 as int) == interp_centers(
                    points@,
                    bw as int,
                    seg as int,
                ) + interp_pair(points@[seg - 1 as int], points@[seg as int], bw as int));
                assert(base + interp_pair(p, q, bw as int) =~= base);
                assert(pcs + interp_centers(points@, bw as int, seg + 1 as int) =~= base);
            }
        }
        seg = seg + 1;
    }
    proof {
        assert(interp_centers(points@, bw as int, n as int) == interp_centers(
            points@,
            bw as int,
            points@.len() as int,
        ));
    }
}


/// The brush source pixel is well formed for any coverage fraction, and its
/// alpha is the brush alpha scaled by the coverage.
pub proof fn lemma_src_pixel_wf(col: Color, cov: int)
    requires
        0 <= cov <= 16,
    ensures
        premul_wf(src_pixel_spec(col, cov)),
        src_pixel_spec(col, cov).a as int == crate::color::m16(col.a as int, cov),
{
    lemma_m255_bounds(col.r as int, col.a as int);
    lemma_m255_bounds(col.g as int, col.a as int);
    lemma_m255_bounds(col.b as int, col.a as int);
    let pc = premul_spec(col);
    lemma_m16_bounds(pc.r as int, cov);
    lemma_m16_bounds(pc.g as int, cov);
    lemma_m16_bounds(pc.b as int, cov);
    lemma_m16_bounds(pc.a as int, cov);
    crate::color::lemma_m16_monotone(pc.r as int, pc.a as int, cov);
    crate::color::lemma_m16_monotone(pc.g as int, pc.a as int, cov);
    crate::color::lemma_m16_monotone(pc.b as int, pc.a as int, cov);
}

/// A stamp never lowers the alpha of any pixel.
pub proof fn lemma_stamp_spec_alpha(pixels: Seq<Color>, w: int, cx: int, cy: int, bw: int, col: Color)
    requires
        0 < w,
    ensures
        stamp_spec(pixels, w, cx, cy, bw, col).len() == pixels.len(),
        forall|i: int|
            0 <= i < pixels.len() ==> #[trigger] stamp_spec(pixels, w, cx, cy, bw, col)[i].a
                >= pixels[i].a,
{
    let res = stamp_spec(pixels, w, cx, cy, bw, col);
    assert forall|i: int| 0 <= i < pixels.len() implies #[trigger] res[i].a >= pixels[i].a by {
        lemma_coverage_bounds(i % w, i / w, cx, cy, bw);
        lemma_src_pixel_wf(col, coverage(i % w, i / w, cx, cy, bw));
        lemma_blend_alpha_monotone(pixels[i], src_pixel_spec(col, coverage(i % w, i / w, cx, cy, bw)));
    }
}

/// Stamping any list of centers preserves the pixel count and never lowers
/// the alpha of any pixel.
pub proof fn lemma_stamp_all_alpha(pixels: Seq<Color>, w: int, cs: Seq<(int, int)>, bw: int, col: Color)
    requires
        0 < w,
    ensures
        stamp_all(pixels, w, cs, bw, col).len() == pixels.len(),
        forall|i: int|
            0 <= i < pixels.len() ==> #[trigger] stamp_all(pixels, w, cs, bw, col)[i].a
                >= pixels[i].a,
    decreases cs.len(),
{
    if cs.len() > 0 {
        let first = stamp_spec(pixels, w, cs[0].0, cs[0].1, bw, col);
        lemma_stamp_spec_alpha(pixels, w, cs[0].0, cs[0].1, bw, col);
        lemma_stamp_all_alpha(first, w, cs.subrange(1, cs.len() as int), bw, col);
    }
}

/// A stamp of a brush with alpha at least 8 leaves non-zero alpha at the
/// pixel holding the stamp center: even the smallest rounded contribution
/// survives.
pub proof fn lemma_stamp_center_alpha(pixels: Seq<Color>, w: int, h: int, cx: int, cy: int, bw: int, col: Color)
    requires
        0 < w,
        0 < h,
        pixels.len() == w * h,
        1 <= bw,
        col.a >= 8,
        0 <= cx < w,
        0 <= cy < h,
    ensures
        stamp_spec(pixels, w, cx, cy, bw, col)[cy * w + cx].a >= 1,
{
    lemma_rowmajor_join(cx, cy, w, h);
    let idx = cy * w + cx;
    lemma_coverage_center(cx, cy, bw);
    lemma_coverage_bounds(cx, cy, cx, cy, bw);
    let cov = coverage(cx, cy, cx, cy, bw);
    lemma_src_pixel_wf(col, cov);
    assert(col.a * cov >= 8) by (nonlinear_arith)
        requires
            col.a >= 8,
            1 <= cov,
    ;
    assert((col.a * cov + 8) / 16 >= (8 + 8) / 16);
    assert(src_pixel_spec(col, cov).a >= 1);
    lemma_blend_alpha_monotone(pixels[idx], src_pixel_spec(col, cov));
}

/// Stamping a list of centers is stamping any prefix and then the rest.
pub proof fn lemma_stamp_all_split(pixels: Seq<Color>, w: int, cs: Seq<(int, int)>, m: int, bw: int, col: Color)
    requires
        0 <= m <= cs.len(),
    ensures
        stamp_all(pixels, w, cs, bw, col) == stamp_all(
            stamp_all(pixels, w, cs.subrange(0, m), bw, col),
            w,
            cs.subrange(m, cs.len() as int),
            bw,
            col,
        ),
    decreases m,
{
    if m == 0 {
        assert(cs.subrange(0, 0) =~= Seq::<(int, int)>::empty());
        assert(cs.subrange(0, cs.len() as int) =~= cs);
    } else {
        let sp1 = stamp_spec(pixels, w, cs[0].0, cs[0].1, bw, col);
        let rest = cs.subrange(1, cs.len() as int);
        lemma_stamp_all_split(sp1, w, rest, m - 1, bw, col);
        let head = cs.subrange(0, m);
        assert(head[0] == cs[0]);
        assert(head.subrange(1, m) =~= rest.subrange(0, m - 1));
        assert(cs.subrange(m, cs.len() as int) =~= rest.subrange(m - 1, rest.len() as int));
    }
}

/// A committed stroke leaves non-transparent coverage at every sampled
/// point that lies on the surface, whatever else it paints: each sample's
/// own stamp marks its pixel and later stamps only add coverage. The brush
/// alpha must be at least 8: below that, the rounded contribution of a
/// barely covered pixel can be zero.
pub proof fn lemma_stroke_covers_samples(
    pixels: Seq<Color>,
    w: int,
    h: int,
    points: Seq<Point>,
    bw: int,
    col: Color,
)
    requires
        0 < w,
        0 < h,
        pixels.len() == w * h,
        1 <= bw,
        col.a >= 8,
    ensures
        stamp_all(pixels, w, stroke_centers(points, bw), bw, col).len() == pixels.len(),
        forall|k: int|
            0 <= k < points.len() && 0 <= #[trigger] points[k].x < w && 0 <= points[k].y < h
                ==> stamp_all(pixels, w, stroke_centers(points, bw), bw, col)[points[k].y * w
                + points[k].x].a > 0,
{
    let cs = stroke_centers(points, bw);
    lemma_stamp_all_alpha(pixels, w, cs, bw, col);
    assert forall|k: int|
        0 <= k < points.len() && 0 <= #[trigger] points[k].x < w && 0 <= points[k].y < h
        implies stamp_all(pixels, w, cs, bw, col)[points[k].y * w + points[k].x].a > 0 by {
        let px = points[k].x as int;
        let py = points[k].y as int;
        lemma_rowmajor_join(px, py, w, h);
        let idx = py * w + px;
        assert(cs[k] == (px, py));
        lemma_stamp_all_split(pixels, w, cs, k + 1, bw, col);
        let pre = cs.subrange(0, k + 1);
        assert(pre.subrange(0, k) =~= cs.subrange(0, k));
        assert(pre =~= cs.subrange(0, k).push(cs[k]));
        lemma_stamp_all_push(pixels, w, cs.subrange(0, k), cs[k], bw, col);
        let before = stamp_all(pixels, w, cs.subrange(0, k), bw, col);
        lemma_stamp_all_alpha(pixels, w, cs.subrange(0, k), bw, col);
        lemma_stamp_center_alpha(before, w, h, px, py, bw, col);
        let mid = stamp_all(pixels, w, pre, bw, col);
        assert(mid[idx].a >= 1);
        lemma_stamp_all_alpha(mid, w, cs.subrange(k + 1, cs.len() as int), bw, col);
    }
}

/// A stroke with exactly one sampled point paints exactly one brush stamp: a
/// single anti-aliased dot of the brush diameter at that point. Pixels more
/// than half the brush width plus one pixel from the point, along either
/// axis, are untouched.
pub proof fn lemma_single_point_dot(pixels: Seq<Color>, w: int, h: int, points: Seq<Point>, bw: int, col: Color)
    requires
        0 < w,
        0 < h,
        pixels.len() == w * h,
        1 <= bw,
        points.len() == 1,
    ensures
        stamp_all(pixels, w, stroke_centers(points, bw), bw, col) == stamp_spec(
            pixels,
            w,
            points[0].x as int,
            points[0].y as int,
            bw,
            col,
        ),
        forall|i: int|
            0 <= i < pixels.len() && (2 * (i % w - points[0].x) >= bw + 2 || 2 * (points[0].x - i
                % w) >= bw + 2 || 2 * (i / w - points[0].y) >= bw + 2 || 2 * (points[0].y - i / w)
                >= bw + 2) ==> #[trigger] stamp_all(pixels, w, stroke_centers(points, bw), bw, col)[i]
                == pixels[i],
{
    let px = points[0].x as int;
    let py = points[0].y as int;
    let cs = stroke_centers(points, bw);
    assert(point_centers(points).len() == 1);
    assert(interp_centers(points, bw, 1) =~= Seq::<(int, int)>::empty());
    assert(cs =~= Seq::<(int, int)>::empty().push((px, py)));
    lemma_stamp_all_push(pixels, w, Seq::<(int, int)>::empty(), (px, py), bw, col);
    let res = stamp_spec(pixels, w, px, py, bw, col);
    assert forall|i: int|
        0 <= i < pixels.len() && (2 * (i % w - px) >= bw + 2 || 2 * (px - i % w) >= bw + 2 || 2 * (
        i / w - py) >= bw + 2 || 2 * (py - i / w) >= bw + 2) implies #[trigger] stamp_all(
        pixels,
        w,
        cs,
        bw,
        col,
    )[i] == pixels[i] by {
        lemma_coverage_far(i % w, i / w, px, py, bw);
        lemma_stamp_unchanged_pixel(pixels[i], col);
    }
}


/// Every stamp center of a stroke lies within the bounding box of its
/// sampled points: interpolation only fills in between samples.
proof fn lemma_interp_in_box(
    points: Seq<Point>,
    bw: int,
    upto: int,
    lox: int,
    hix: int,
    loy: int,
    hiy: int,
)
    requires
        1 <= bw,
        upto <= points.len(),
        forall|k: int|
            0 <= k < points.len() ==> lox <= (#[trigger] points[k]).x <= hix && loy
                <= points[k].y <= hiy,
    ensures
        forall|j: int|
            0 <= j < interp_centers(points, bw, upto).len() ==> lox <= (
            #[trigger] interp_centers(points, bw, upto)[j]).0 <= hix && loy <= interp_centers(
                points,
                bw,
                upto,
            )[j].1 <= hiy,
    decreases upto,
{
    if upto > 1 {
        lemma_interp_in_box(points, bw, upto - 1, lox, hix, loy, hiy);
        let p = points[upto - 2];
        let q = points[upto - 1];
        let pair = interp_pair(p, q, bw);
        let st = steps_between(p, q, bw);
        assert forall|t: int| 0 <= t < pair.len() implies lox <= (#[trigger] pair[t]).0 <= hix
            && loy <= pair[t].1 <= hiy by {
            lemma_tdiv_scale_bound(q.x - p.x, t + 1, st);
            lemma_tdiv_scale_bound(q.y - p.y, t + 1, st);
        }
        let prior = interp_centers(points, bw, upto - 1);
        assert forall|j: int| 0 <= j < interp_centers(points, bw, upto).len() implies lox <= (
        #[trigger] interp_centers(points, bw, upto)[j]).0 <= hix && loy <= interp_centers(
            points,
            bw,
            upto,
        )[j].1 <= hiy by {
            if j < prior.len() {
                assert(interp_centers(points, bw, upto)[j] == prior[j]);
            } else {
                assert(interp_centers(points, bw, upto)[j] == pair[j - prior.len()]);
            }
        }
    }
}

/// A pixel far from every center in a list, along some axis, is untouched
/// by stamping that list.
proof fn lemma_stamp_all_far_pixel(
    pixels: Seq<Color>,
    w: int,
    cs: Seq<(int, int)>,
    bw: int,
    col: Color,
    i: int,
)
    requires
        0 < w,
        1 <= bw,
        0 <= i < pixels.len(),
        forall|j: int|
            0 <= j < cs.len() ==> 2 * (i % w - (#[trigger] cs[j]).0) >= bw + 2 || 2 * (cs[j].0 - i
                % w) >= bw + 2 || 2 * (i / w - cs[j].1) >= bw + 2 || 2 * (cs[j].1 - i / w) >= bw
                + 2,
    ensures
        stamp_all(pixels, w, cs, bw, col).len() == pixels.len(),
        stamp_all(pixels, w, cs, bw, col)[i] == pixels[i],
    decreases cs.len(),
{
    if cs.len() > 0 {
        let first = stamp_spec(pixels, w, cs[0].0, cs[0].1, bw, col);
        lemma_coverage_far(i % w, i / w, cs[0].0, cs[0].1, bw);
        lemma_stamp_unchanged_pixel(pixels[i], col);
        let rest = cs.subrange(1, cs.len() as int);
        assert forall|j: int|
            0 <= j < rest.len() implies 2 * (i % w - (#[trigger] rest[j]).0) >= bw + 2 || 2 * (
        rest[j].0 - i % w) >= bw + 2 || 2 * (i / w - rest[j].1) >= bw + 2 || 2 * (rest[j].1 - i
            / w) >= bw + 2 by {
            assert(rest[j] == cs[j + 1]);
        }
        lemma_stamp_all_far_pixel(first, w, rest, bw, col, i);
    }
}

/// A stroke is confined to its samples: a pixel farther than half the brush
/// width plus one pixel, along some axis, from the bounding box of the
/// sampled points is untouched, because interpolated stamps never wander
/// beyond the samples.
pub proof fn lemma_stroke_confined(
    pixels: Seq<Color>,
    w: int,
    h: int,
    points: Seq<Point>,
    bw: int,
    col: Color,
    lox: int,
    hix: int,
    loy: int,
    hiy: int,
    px: int,
    py: int,
)
    requires
        0 < w,
        0 < h,
        pixels.len() == w * h,
        1 <= bw,
        forall|k: int|
            0 <= k < points.len() ==> lox <= (#[trigger] points[k]).x <= hix && loy
                <= points[k].y <= hiy,
        0 <= px < w,
        0 <= py < h,
        2 * (px - hix) >= bw + 2 || 2 * (lox - px) >= bw + 2 || 2 * (py - hiy) >= bw + 2 || 2 * (
        loy - py) >= bw + 2,
    ensures
        stamp_all(pixels, w, stroke_centers(points, bw), bw, col)[py * w + px] == pixels[py * w
            + px],
{
    let cs = stroke_centers(points, bw);
    let pc = point_centers(points);
    lemma_interp_in_box(points, bw, points.len() as int, lox, hix, loy, hiy);
    lemma_rowmajor_join(px, py, w, h);
    let i: int = py * w + px;
    assert forall|j: int|
        0 <= j < cs.len() implies 2 * (i % w - (#[trigger] cs[j]).0) >= bw + 2 || 2 * (cs[j].0 - i
        % w) >= bw + 2 || 2 * (i / w - cs[j].1) >= bw + 2 || 2 * (cs[j].1 - i / w) >= bw + 2 by {
        if j < pc.len() {
            assert(cs[j] == pc[j]);
            assert(pc[j] == (points[j].x as int, points[j].y as int));
        } else {
            assert(cs[j] == interp_centers(points, bw, points.len() as int)[j - pc.len()]);
        }
        assert(lox <= cs[j].0 <= hix && loy <= cs[j].1 <= hiy);
    }
    lemma_stamp_all_far_pixel(pixels, w, cs, bw, col, i);
}


} // verus!
