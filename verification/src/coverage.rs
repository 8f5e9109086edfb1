//! Brush coverage: how much of a pixel a circular brush stamp covers.
//!
//! The brush is a filled circle of diameter `w` (the brush width) centered on
//! a canvas lattice point. Coverage of a pixel is measured by a deterministic
//! 4x4 grid of subsamples inside the pixel's unit square: the count of
//! subsample centers that fall inside the circle, a fraction in sixteenths.
//! This anti-aliases circle edges while keeping every computation in integer
//! arithmetic, so identical inputs always rasterize identically.
//!
//! All geometry below is scaled by 8: a pixel `(px, py)` spans the square
//! `[8px, 8px + 8) x [8py, 8py + 8)`, its subsample centers sit at odd scaled
//! offsets `2k + 1`, and the brush circle has scaled radius `4w`.

use vstd::prelude::*;

verus! {

/// The largest accepted brush width (diameter in pixels).
pub const MAX_BRUSH: u32 = 4096;

/// Stamp centers handed to the rasterizer are kept within this magnitude so
/// that the scaled-by-8 coverage arithmetic stays far from overflow.
pub const CENTER_LIMIT: i64 = 4194304;

/// Whether subsample `(k, j)` of pixel `(px, py)` lies inside the brush
/// circle of width `w` centered at `(cx, cy)`.
pub open spec fn sub_hit(px: int, py: int, cx: int, cy: int, w: int, k: int, j: int) -> bool {
    let dx = 8 * px + 2 * k + 1 - 8 * cx;
    let dy = 8 * py + 2 * j + 1 - 8 * cy;
    dx * dx + dy * dy <= 16 * (w * w)
}

/// The number of hits among the first `n` subsamples, enumerated row-major:
/// subsample `i` is `(k, j) = (i / 4, i % 4)`.
pub open spec fn cov_count(px: int, py: int, cx: int, cy: int, w: int, n: nat) -> int
    decreases n,
{
    if n == 0 {
        0
    } else {
        cov_count(px, py, cx, cy, w, (n - 1) as nat) + if sub_hit(
            px,
            py,
            cx,
            cy,
            w,
            ((n - 1) as int) / 4,
            ((n - 1) as int) % 4,
        ) {
            1int
        } else {
            0int
        }
    }
}

/// The coverage of pixel `(px, py)` by a brush stamp of width `w` centered at
/// `(cx, cy)`: the number of its sixteen subsamples inside the circle.
pub open spec fn coverage(px: int, py: int, cx: int, cy: int, w: int) -> int {
    cov_count(px, py, cx, cy, w, 16)
}

/// The partial subsample counts are bounded by how many subsamples they saw.
pub proof fn lemma_cov_count_bounds(px: int, py: int, cx: int, cy: int, w: int, n: nat)
    ensures
        0 <= cov_count(px, py, cx, cy, w, n) <= n,
    decreases n,
{
    if n > 0 {
        lemma_cov_count_bounds(px, py, cx, cy, w, (n - 1) as nat);
    }
}

/// Coverage is a fraction in sixteenths.
pub proof fn lemma_coverage_bounds(px: int, py: int, cx: int, cy: int, w: int)
    ensures
        0 <= coverage(px, py, cx, cy, w) <= 16,
{
    lemma_cov_count_bounds(px, py, cx, cy, w, 16);
}

/// Seeing more subsamples can only increase the count.
pub proof fn lemma_cov_count_monotone(px: int, py: int, cx: int, cy: int, w: int, m: nat, n: nat)
    requires
        m <= n,
    ensures
        cov_count(px, py, cx, cy, w, m) <= cov_count(px, py, cx, cy, w, n),
    decreases n,
{
    if m < n {
        lemma_cov_count_monotone(px, py, cx, cy, w, m, (n - 1) as nat);
    }
}

/// The pixel at the stamp center is always covered: its first subsample sits
/// at scaled offset `(1, 1)` from the center, inside any brush of width >= 1.
pub proof fn lemma_coverage_center(cx: int, cy: int, w: int)
    requires
        w >= 1,
    ensures
        coverage(cx, cy, cx, cy, w) >= 1,
{
    assert(16 * (w * w) >= 16) by (nonlinear_arith)
        requires
            w >= 1,
    ;
    let dx = 8 * cx + 2 * 0 + 1 - 8 * cx;
    let dy = 8 * cy + 2 * 0 + 1 - 8 * cy;
    assert(dx == 1 && dy == 1);
    assert(dx * dx + dy * dy == 2) by (nonlinear_arith)
        requires
            dx == 1,
            dy == 1,
    ;
    assert(sub_hit(cx, cy, cx, cy, w, 0, 0));
    assert(cov_count(cx, cy, cx, cy, w, 0) == 0);
    assert(cov_count(cx, cy, cx, cy, w, 1) == 1);
    lemma_cov_count_monotone(cx, cy, cx, cy, w, 1, 16);
    lemma_cov_count_bounds(cx, cy, cx, cy, w, 16);
}

/// No subsample of a pixel a half-width plus a pixel away from the center can
/// be inside the circle.
proof fn lemma_sub_miss_far(px: int, py: int, cx: int, cy: int, w: int, k: int, j: int)
    requires
        w >= 1,
        0 <= k < 4,
        0 <= j < 4,
        2 * (px - cx) >= w + 2 || 2 * (cx - px) >= w + 2 || 2 * (py - cy) >= w + 2 || 2 * (cy
            - py) >= w + 2,
    ensures
        !sub_hit(px, py, cx, cy, w, k, j),
{
    let dx = 8 * px + 2 * k + 1 - 8 * cx;
    let dy = 8 * py + 2 * j + 1 - 8 * cy;
    if 2 * (px - cx) >= w + 2 {
        assert(dx >= 4 * w + 9);
        assert(dx * dx > 16 * (w * w)) by (nonlinear_arith)
            requires
                dx >= 4 * w + 9,
                w >= 1,
        ;
        assert(dy * dy >= 0) by (nonlinear_arith);
    } else if 2 * (cx - px) >= w + 2 {
        assert(dx <= -(4 * w) - 1);
        assert(dx * dx > 16 * (w * w)) by (nonlinear_arith)
            requires
                dx <= -(4 * w) - 1,
                w >= 1,
        ;
        assert(dy * dy >= 0) by (nonlinear_arith);
    } else if 2 * (py - cy) >= w + 2 {
        assert(dy >= 4 * w + 9);
        assert(dy * dy > 16 * (w * w)) by (nonlinear_arith)
            requires
                dy >= 4 * w + 9,
                w >= 1,
        ;
        assert(dx * dx >= 0) by (nonlinear_arith);
    } else {
        assert(dy <= -(4 * w) - 1);
        assert(dy * dy > 16 * (w * w)) by (nonlinear_arith)
            requires
                dy <= -(4 * w) - 1,
                w >= 1,
        ;
        assert(dx * dx >= 0) by (nonlinear_arith);
    }
}

/// All partial counts vanish for a pixel far from the stamp center.
proof fn lemma_cov_count_far(px: int, py: int, cx: int, cy: int, w: int, n: nat)
    requires
        w >= 1,
        n <= 16,
        2 * (px - cx) >= w + 2 || 2 * (cx - px) >= w + 2 || 2 * (py - cy) >= w + 2 || 2 * (cy
            - py) >= w + 2,
    ensures
        cov_count(px, py, cx, cy, w, n) == 0,
    decreases n,
{
    if n > 0 {
        lemma_cov_count_far(px, py, cx, cy, w, (n - 1) as nat);
        lemma_sub_miss_far(px, py, cx, cy, w, ((n - 1) as int) / 4, ((n - 1) as int) % 4);
    }
}

/// A pixel more than half the brush width plus one pixel away from the stamp
/// center, along either axis, is not covered at all.
pub proof fn lemma_coverage_far(px: int, py: int, cx: int, cy: int, w: int)
    requires
        w >= 1,
        2 * (px - cx) >= w + 2 || 2 * (cx - px) >= w + 2 || 2 * (py - cy) >= w + 2 || 2 * (cy
            - py) >= w + 2,
    ensures
        coverage(px, py, cx, cy, w) == 0,
{
    lemma_cov_count_far(px, py, cx, cy, w, 16);
}

/// Computes the coverage of pixel `(px, py)` by a stamp at `(cx, cy)`.
pub fn coverage_at(px: i64, py: i64, cx: i64, cy: i64, w: u32) -> (c: u8)
    requires
        0 <= px <= 16384,
        0 <= py <= 16384,
        -CENTER_LIMIT <= cx <= CENTER_LIMIT,
        -CENTER_LIMIT <= cy <= CENTER_LIMIT,
        1 <= w <= MAX_BRUSH,
    ensures
        c as int == coverage(px as int, py as int, cx as int, cy as int, w as int),
        c <= 16,
{
    let wi: i64 = w as i64;
    proof {
        assert(wi * wi <= 4096 * 4096) by (nonlinear_arith)
            requires
                1 <= wi <= 4096,
        ;
    }
    let rhs: i64 = 16 * (wi * wi);
    let mut count: u8 = 0;
    let mut n: usize = 0;
    while n < 16
        invariant
            n <= 16,
            count as int == cov_count(px as int, py as int, cx as int, cy as int, w as int, n as nat),
            count <= n,
            0 <= px <= 16384,
            0 <= py <= 16384,
            -CENTER_LIMIT <= cx <= CENTER_LIMIT,
            -CENTER_LIMIT <= cy <= CENTER_LIMIT,
            1 <= w <= MAX_BRUSH,
            rhs == 16 * ((w as int) * (w as int)),
            wi == w,
            rhs <= 0x1000_0000,
        decreases 16 - n,
    {
        let k: i64 = (n as i64) / 4;
        let j: i64 = (n as i64) % 4;
        let dx: i64 = 8 * px + 2 * k + 1 - 8 * cx;
        let dy: i64 = 8 * py + 2 * j + 1 - 8 * cy;
        proof {
            assert(dx * dx <= 0x10_0000_0000_0000 && dy * dy <= 0x10_0000_0000_0000)
                by (nonlinear_arith)
                requires
                    -0x400_0000 <= dx <= 0x400_0000,
                    -0x400_0000 <= dy <= 0x400_0000,
            ;
            assert(dx * dx >= 0 && dy * dy >= 0) by (nonlinear_arith);
        }
        let hit: bool = dx * dx + dy * dy <= rhs;
        proof {
            assert(hit == sub_hit(
                px as int,
                py as int,
                cx as int,
                cy as int,
                w as int,
                k as int,
                j as int,
            ));
            assert(cov_count(px as int, py as int, cx as int, cy as int, w as int, (n + 1) as nat)
                == cov_count(px as int, py as int, cx as int, cy as int, w as int, n as nat) + if sub_hit(
                px as int,
                py as int,
                cx as int,
                cy as int,
                w as int,
                (n as int) / 4,
                (n as int) % 4,
            ) {
                1int
            } else {
                0int
            });
        }
        if hit {
            count = count + 1;
        }
        n = n + 1;
    }
    count
}

} // verus!
