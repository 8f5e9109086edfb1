//! A fixed-size RGBA pixel surface with premultiplied-alpha pixels.

use vstd::prelude::*;
use crate::color::{Color, premul_wf, transparent_spec};

verus! {

/// The largest accepted surface edge, keeping every index and every piece of
/// coordinate arithmetic comfortably inside machine integer ranges.
pub const MAX_DIM: u32 = 16384;

/// Surface dimensions that can be allocated: neither zero nor degenerate,
/// and small enough that `width * height` indexing cannot overflow.
pub open spec fn dims_valid(w: int, h: int) -> bool {
    1 <= w <= MAX_DIM && 1 <= h <= MAX_DIM
}

/// A pixel surface of fixed `width` x `height`, stored row-major.
///
/// Pixels are premultiplied RGBA; a freshly allocated surface is fully
/// transparent.
#[derive(Clone, Debug)]
pub struct Pixmap {
    pub width: u32,
    pub height: u32,
    pub pixels: Vec<Color>,
}

impl Pixmap {
    /// The surface holds exactly `width * height` well-formed premultiplied
    /// pixels.
    pub open spec fn wf(self) -> bool {
        &&& dims_valid(self.width as int, self.height as int)
        &&& self.pixels@.len() == self.width * self.height
        &&& forall|i: int|
            0 <= i < self.pixels@.len() ==> premul_wf(#[trigger] self.pixels@[i])
    }

    /// Row-major index of the pixel at `(x, y)`.
    pub open spec fn spec_idx(self, x: int, y: int) -> int {
        y * self.width + x
    }

    /// Allocates a fully transparent surface, or reports an allocation
    /// failure: `None` exactly when the requested dimensions are invalid.
    pub fn new(width: u32, height: u32) -> (r: Option<Pixmap>)
        ensures
            r is Some <==> dims_valid(width as int, height as int),
            r is Some ==> {
                &&& r->Some_0.wf()
                &&& r->Some_0.width == width
                &&& r->Some_0.height == height
                &&& r->Some_0.pixels@ =~= Seq::new(
                    (width * height) as nat,
                    |i: int| transparent_spec(),
                )
            },
    {
        if width == 0 || height == 0 || width > MAX_DIM || height > MAX_DIM {
            return None;
        }
        proof {
            assert(width * height <= MAX_DIM * MAX_DIM) by (nonlinear_arith)
                requires
                    0 < width <= MAX_DIM,
                    0 < height <= MAX_DIM,
            ;
        }
        let n: usize = (width as usize) * (height as usize);
        let mut pixels: Vec<Color> = Vec::new();
        let mut i: usize = 0;
        while i < n
            invariant
                i <= n,
                pixels@.len() == i,
                forall|j: int| 0 <= j < i ==> pixels@[j] == transparent_spec(),
            decreases n - i,
        {
            pixels.push(Color::transparent());
            i = i + 1;
        }
        Some(Pixmap { width, height, pixels })
    }

    /// Overwrites every pixel with `c`.
    pub fn fill(&mut self, c: Color)
        requires
            old(self).wf(),
            premul_wf(c),
        ensures
            final(self).wf(),
            final(self).width == old(self).width,
            final(self).height == old(self).height,
            final(self).pixels@ =~= Seq::new(old(self).pixels@.len(), |i: int| c),
    {
        let n: usize = self.pixels.len();
        let mut i: usize = 0;
        while i < n
            invariant
                i <= n,
                self.pixels@.len() == n,
                self.width == old(self).width,
                self.height == old(self).height,
                dims_valid(self.width as int, self.height as int),
                n == self.width * self.height,
                premul_wf(c),
                forall|j: int| 0 <= j < i ==> self.pixels@[j] == c,
                forall|j: int|
                    i <= j < n ==> premul_wf(#[trigger] self.pixels@[j]),
            decreases n - i,
        {
            self.pixels.set(i, c);
            i = i + 1;
        }
    }

    /// Reads the pixel at `(x, y)`.
    pub fn pixel(&self, x: u32, y: u32) -> (c: Color)
        requires
            self.wf(),
            x < self.width,
            y < self.height,
        ensures
            c == self.pixels@[self.spec_idx(x as int, y as int)],
    {
        proof {
            lemma_idx_in_range(x as int, y as int, self.width as int, self.height as int);
        }
        self.pixels[(y as usize) * (self.width as usize) + (x as usize)]
    }

    /// Overwrites the pixel at `(x, y)`.
    pub fn set_pixel(&mut self, x: u32, y: u32, c: Color)
        requires
            old(self).wf(),
            x < old(self).width,
            y < old(self).height,
            premul_wf(c),
        ensures
            final(self).wf(),
            final(self).width == old(self).width,
            final(self).height == old(self).height,
            final(self).pixels@ == old(self).pixels@.update(
                old(self).spec_idx(x as int, y as int),
                c,
            ),
    {
        proof {
            lemma_idx_in_range(x as int, y as int, self.width as int, self.height as int);
        }
        self.pixels.set((y as usize) * (self.width as usize) + (x as usize), c);
    }
}

/// A row-major index formed from in-range coordinates is in range, and small
/// enough that the machine arithmetic computing it cannot overflow.
pub proof fn lemma_idx_in_range(x: int, y: int, w: int, h: int)
    requires
        0 <= x < w <= MAX_DIM,
        0 <= y < h <= MAX_DIM,
    ensures
        0 <= y * w,
        y * w + x < w * h,
        w * h <= MAX_DIM * MAX_DIM,
{
    assert(y * w + x < w * h && 0 <= y * w && w * h <= MAX_DIM * MAX_DIM) by (nonlinear_arith)
        requires
            0 <= x < w <= MAX_DIM,
            0 <= y < h <= MAX_DIM,
    ;
}

} // verus!
