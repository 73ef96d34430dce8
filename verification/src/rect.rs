//! Axis-aligned rectangle value type.
//!
//! A `Rect(x, y, w, h)` covers the pixel range `x..=x+w` horizontally and
//! `y..=y+h` vertically — both endpoints inclusive, so it nominally spans
//! `(w+1) * (h+1)` pixels. This inclusive-both-ends convention is a hard
//! contract of the whole library: containment and rendering are shifted by
//! one pixel against the usual half-open convention.

use vstd::prelude::*;

verus! {

/// A region of an image; fields are (x, y, width, height) with both edges
/// of each axis inclusive.
#[derive(Debug, Clone, Copy, PartialEq, Eq, PartialOrd, Ord)]
pub struct Rect(pub u32, pub u32, pub u32, pub u32);

/// Mathematical containment: `(x, y)` lies in the inclusive pixel range
/// `[r.0, r.0 + r.2] x [r.1, r.1 + r.3]`.
pub open spec fn rect_contains(r: Rect, x: int, y: int) -> bool {
    &&& r.0 <= x <= r.0 + r.2
    &&& r.1 <= y <= r.1 + r.3
}

impl Rect {
    /// Identifies whether a given point lies within this rectangle,
    /// counting both the near and the far edge as inside.
    pub fn contains(&self, p: (u32, u32)) -> (b: bool)
        ensures
            b == rect_contains(*self, p.0 as int, p.1 as int),
    {
        let (x, y) = p;
        x >= self.0 && x as u64 <= self.0 as u64 + self.2 as u64
            && y >= self.1 && y as u64 <= self.1 as u64 + self.3 as u64
    }

    /// The scan cursor's jump target once this rectangle has been seen:
    /// one pixel past the right edge, on the same row. Meant to be called
    /// with a point this rectangle contains, though it reads only the row.
    pub fn skip(&self, p: (u32, u32)) -> (q: (u32, u32))
        requires
            self.0 + self.2 + 1 <= u32::MAX,
        ensures
            q.0 == self.0 + self.2 + 1,
            q.1 == p.1,
    {
        let n_x: u32 = self.0 + self.2 + 1;
        let n_y: u32 = p.1;
        (n_x, n_y)
    }
}

} // verus!
