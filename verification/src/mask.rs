//! Binary mask: a dense, immutable boolean grid over an image's
//! thresholded alpha channel (`true` iff alpha > 0).
//!
//! The mask is the sole data source of the region-detection algorithm.
//! It is built once, from plain values that an image-decoding collaborator
//! supplies, and read by `(x, y)` under a caller-side bounds contract.

use vstd::prelude::*;

verus! {

/// Mathematical model of a mask: dimensions and a row-major cell grid.
pub ghost struct GridView {
    pub width: int,
    pub height: int,
    pub cells: Seq<bool>,
}

impl GridView {
    /// The grid stores exactly one boolean per pixel.
    pub open spec fn wf(self) -> bool {
        &&& self.width >= 0
        &&& self.height >= 0
        &&& self.cells.len() == self.width * self.height
    }

    /// The cell at column `x`, row `y` (row-major order).
    pub open spec fn cell(self, x: int, y: int) -> bool {
        self.cells[y * self.width + x]
    }

    /// `(x, y)` lies on the grid.
    pub open spec fn in_bounds(self, x: int, y: int) -> bool {
        0 <= x < self.width && 0 <= y < self.height
    }
}

/// A thresholded binary image: `true` where the source pixel's alpha
/// channel is non-zero.
pub struct ImageMask {
    dims: (u32, u32),
    cells: Vec<bool>,
}

impl View for ImageMask {
    type V = GridView;

    closed spec fn view(&self) -> GridView {
        GridView {
            width: self.dims.0 as int,
            height: self.dims.1 as int,
            cells: self.cells@,
        }
    }
}

impl ImageMask {
    /// Every mask built by `new` satisfies this; all read access assumes it.
    pub open spec fn wf(&self) -> bool {
        self@.wf()
    }

    /// Builds a mask of the given dimensions from row-major cell values,
    /// one per pixel, `true` meaning opaque (alpha > 0 in the source).
    pub fn new(width: u32, height: u32, cells: Vec<bool>) -> (m: Self)
        requires
            cells@.len() == width * height,
        ensures
            m.wf(),
            m@ == (GridView { width: width as int, height: height as int, cells: cells@ }),
    {
        ImageMask { dims: (width, height), cells }
    }

    /// The mask's (width, height).
    pub fn dimensions(&self) -> (d: (u32, u32))
        ensures
            d.0 == self@.width,
            d.1 == self@.height,
    {
        self.dims
    }

    /// The stored boolean at `(x, y)`. Reading out of range is a contract
    /// violation on the caller's side, never a silent wraparound.
    pub fn at(&self, x: u32, y: u32) -> (b: bool)
        requires
            self.wf(),
            self@.in_bounds(x as int, y as int),
        ensures
            b == self@.cell(x as int, y as int),
    {
        let n = self.cells.len();
        let w = self.dims.0;
        let h = self.dims.1;
        assert((y as int) * (w as int) + (x as int) < (w as int) * (h as int))
            by (nonlinear_arith)
            requires
                0 <= (x as int) < (w as int),
                0 <= (y as int) < (h as int),
        ;
        let idx: usize = (y as usize) * (w as usize) + (x as usize);
        self.cells[idx]
    }
}

} // verus!
