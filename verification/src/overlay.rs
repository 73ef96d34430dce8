//! The per-pixel rule of the overlay renderer.
//!
//! The renderer paints detected rectangles back onto a fresh image of the
//! same dimensions: every pixel contained (inclusive both ends) in any
//! returned rectangle gets its alpha channel set to the fixed overlay
//! value 205; every other pixel of the fresh image keeps alpha 0. Only
//! this per-pixel decision is the library's logic; creating, encoding and
//! saving the image file stays with the caller.

use vstd::prelude::*;

use crate::rect::Rect;
use crate::rect::rect_contains;

verus! {

/// `(x, y)` lies in at least one rectangle of the sequence.
pub open spec fn covered(regions: Seq<Rect>, x: int, y: int) -> bool {
    exists|j: int| 0 <= j < regions.len() && rect_contains(#[trigger] regions[j], x, y)
}

/// Whether any rectangle of the sequence contains `(x, y)`. Every
/// rectangle is checked, in order, as the renderer does per pixel.
pub fn covered_by_any(regions: &Vec<Rect>, x: u32, y: u32) -> (b: bool)
    ensures
        b == covered(regions@, x as int, y as int),
{
    let mut found = false;
    let n = regions.len();
    let mut j: usize = 0;
    while j < n
        invariant
            n == regions@.len(),
            j <= n,
            found == covered(regions@.take(j as int), x as int, y as int),
        decreases n - j,
    {
        let r = regions[j];
        let hit = r.contains((x, y));
        proof {
            let xi = x as int;
            let yi = y as int;
            let t0 = regions@.take(j as int);
            let t1 = regions@.take(j as int + 1);
            assert(t1 =~= t0.push(regions@[j as int]));
            if covered(t0, xi, yi) {
                let jj = choose|jj: int| 0 <= jj < t0.len() && rect_contains(t0[jj], xi, yi);
                assert(rect_contains(t1[jj], xi, yi));
            }
            if rect_contains(regions@[j as int], xi, yi) {
                assert(rect_contains(t1[j as int], xi, yi));
            }
            if covered(t1, xi, yi) && !covered(t0, xi, yi) {
                let jj = choose|jj: int| 0 <= jj < t1.len() && rect_contains(t1[jj], xi, yi);
                if jj < j as int {
                    assert(rect_contains(t0[jj], xi, yi));
                }
            }
        }
        if hit {
            found = true;
        }
        j = j + 1;
    }
    proof {
        assert(regions@.take(n as int) =~= regions@);
    }
    found
}

/// The alpha channel the overlay gives a pixel of the fresh output image:
/// 205 where any detected rectangle covers it, 0 everywhere else.
pub fn overlay_alpha(regions: &Vec<Rect>, x: u32, y: u32) -> (a: u8)
    ensures
        a == (if covered(regions@, x as int, y as int) { 205u8 } else { 0u8 }),
{
    if covered_by_any(regions, x, y) {
        205
    } else {
        0
    }
}

} // verus!
