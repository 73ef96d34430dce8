//! Region scanner: raster-scans the mask and collects one bounding
//! rectangle per discovered region.
//!
//! The cursor starts at (1, 1) — the 1-offset start lets the tracer look
//! one pixel up and left without falling off the mask's outer border. On
//! every opaque cursor pixel the boundary tracer runs and its rectangle is
//! appended. After each cursor move, every rectangle found so far is
//! checked in discovery order, with no early exit: each one containing the
//! cursor jumps it one pixel past that rectangle's right edge, so the
//! *last* matching rectangle determines the final jump. The whole scan is
//! modelled one cursor move at a time by [`scan_step`]; the executable
//! scanner is proved to return exactly the rectangle sequence of the
//! first finished scan state.

use vstd::prelude::*;

use crate::mask::GridView;
use crate::mask::ImageMask;
use crate::rect::Rect;
use crate::rect::rect_contains;
use crate::trace::TraceOutcome;
use crate::trace::lemma_trace_result_bounds;
use crate::trace::lemma_trace_result_unique;
use crate::trace::marching_squares;
use crate::trace::outcome_gives;
use crate::trace::step_cap;
use crate::trace::trace_at;
use crate::trace::trace_diverges;
use crate::trace::trace_returns;

verus! {

/// The scanner's loop-carried state: cursor position and the rectangles
/// discovered so far, in discovery order.
pub ghost struct ScanState {
    pub x: int,
    pub y: int,
    pub regions: Seq<Rect>,
}

/// What one scanner move yields: a next state, a finished scan with its
/// rectangle sequence, or a stuck scan (a trace that did not converge).
pub ghost enum ScanOutcome {
    Next(ScanState),
    Stuck,
    Done(Seq<Rect>),
}

/// The skip-ahead rule: every discovered rectangle is checked in order and
/// each one containing the (possibly already jumped) cursor moves it one
/// pixel past its right edge. No early exit: the last match wins.
pub open spec fn skip_x(regions: Seq<Rect>, x: int, y: int) -> int
    decreases regions.len(),
{
    if regions.len() == 0 {
        x
    } else {
        let x1 = skip_x(regions.drop_last(), x, y);
        let r = regions.last();
        if rect_contains(r, x1, y) {
            r.0 + r.2 + 1
        } else {
            x1
        }
    }
}

/// Where the scan starts: cursor at (1, 1), nothing discovered.
pub open spec fn scan_init() -> ScanState {
    ScanState { x: 1, y: 1, regions: Seq::empty() }
}

/// One scanner move from state `s`. A cursor past the last row finishes
/// the scan; a cursor past the row's end wraps to column 1 of the next
/// row and applies the skip-ahead rule there; an opaque cursor pixel runs
/// the tracer, appends its rectangle and then advances; a transparent one
/// just advances. Advancing is one column right followed by the
/// skip-ahead rule over all rectangles found so far.
pub open spec fn scan_step(m: GridView, s: ScanState) -> ScanOutcome {
    if s.y >= m.height {
        ScanOutcome::Done(s.regions)
    } else if s.x >= m.width {
        let ny = s.y + 1;
        ScanOutcome::Next(ScanState { x: skip_x(s.regions, 1, ny), y: ny, regions: s.regions })
    } else if m.cell(s.x, s.y) {
        if trace_diverges(m, s.x, s.y) {
            ScanOutcome::Stuck
        } else {
            let r = choose|r: Rect| trace_returns(m, s.x, s.y, r);
            let rs = s.regions.push(r);
            ScanOutcome::Next(ScanState { x: skip_x(rs, s.x + 1, s.y), y: s.y, regions: rs })
        }
    } else {
        ScanOutcome::Next(
            ScanState { x: skip_x(s.regions, s.x + 1, s.y), y: s.y, regions: s.regions },
        )
    }
}

/// The scan after `k` moves; terminal outcomes absorb.
pub open spec fn scan_at(m: GridView, k: nat) -> ScanOutcome
    decreases k,
{
    if k == 0 {
        ScanOutcome::Next(scan_init())
    } else {
        match scan_at(m, (k - 1) as nat) {
            ScanOutcome::Next(s) => scan_step(m, s),
            o => o,
        }
    }
}

/// The scan finishes and `rs` is its rectangle sequence.
pub open spec fn scan_done(m: GridView, rs: Seq<Rect>) -> bool {
    exists|k: nat| scan_at(m, k) == ScanOutcome::Done(rs)
}

/// The scan hits a trace that does not converge.
pub open spec fn scan_stuck(m: GridView) -> bool {
    exists|k: nat| scan_at(m, k) == ScanOutcome::Stuck
}

/// Once the scan has reached a terminal outcome it keeps it: iterating
/// further changes nothing.
pub proof fn lemma_scan_absorbing(m: GridView, k1: nat, k2: nat)
    requires
        k1 <= k2,
        !(scan_at(m, k1) is Next),
    ensures
        scan_at(m, k2) == scan_at(m, k1),
    decreases k2 - k1,
{
    if k1 < k2 {
        lemma_scan_absorbing(m, k1, (k2 - 1) as nat);
    }
}

/// A scan has at most one result: the rectangle sequence of its first
/// finished state.
pub proof fn lemma_scan_done_unique(m: GridView, rs1: Seq<Rect>, rs2: Seq<Rect>)
    requires
        scan_done(m, rs1),
        scan_done(m, rs2),
    ensures
        rs1 == rs2,
{
    let k1 = choose|k: nat| scan_at(m, k) == ScanOutcome::Done(rs1);
    let k2 = choose|k: nat| scan_at(m, k) == ScanOutcome::Done(rs2);
    if k1 <= k2 {
        lemma_scan_absorbing(m, k1, k2);
    } else {
        lemma_scan_absorbing(m, k2, k1);
    }
}

/// The skip-ahead rule of one scanner move, as executable code: check
/// every rectangle in discovery order against the current cursor and jump
/// past each match, the last match winning.
pub fn skip_covered(regions: &Vec<Rect>, x: u32, y: u32) -> (nx: u32)
    requires
        forall|j: int|
            0 <= j < regions@.len() ==> (#[trigger] regions@[j]).0 + regions@[j].2 < u32::MAX,
    ensures
        nx == skip_x(regions@, x as int, y as int),
        nx >= x,
{
    let mut cur: u32 = x;
    let n = regions.len();
    let mut j: usize = 0;
    while j < n
        invariant
            n == regions@.len(),
            j <= n,
            forall|jj: int|
                0 <= jj < regions@.len() ==> (#[trigger] regions@[jj]).0 + regions@[jj].2
                    < u32::MAX,
            cur == skip_x(regions@.take(j as int), x as int, y as int),
            cur >= x,
        decreases n - j,
    {
        let r = regions[j];
        proof {
            assert(regions@.take(j as int + 1).drop_last() =~= regions@.take(j as int));
            assert(regions@.take(j as int + 1).last() == regions@[j as int]);
        }
        if r.contains((cur, y)) {
            let q = r.skip((cur, y));
            cur = q.0;
        }
        j = j + 1;
    }
    proof {
        assert(regions@.take(n as int) =~= regions@);
    }
    cur
}

/// Raster-scans the mask for connected opaque regions and returns their
/// bounding rectangles in discovery order, or `None` if some boundary
/// trace did not converge within its step budget.
pub fn find_non_transparent_regions(image: &ImageMask) -> (res: Option<Vec<Rect>>)
    requires
        image.wf(),
        image@.width < u32::MAX,
    ensures
        (match res {
            Option::Some(regions) => scan_done(image@, regions@) && forall|j: int|
                0 <= j < regions@.len() ==> (#[trigger] regions@[j]).0 + regions@[j].2
                    <= image@.width && regions@[j].1 + regions@[j].3 <= image@.height,
            Option::None => scan_stuck(image@),
        }),
{
    let d = image.dimensions();
    let width: u32 = d.0;
    let height: u32 = d.1;
    let mut x: u32 = 1;
    let mut y: u32 = 1;
    let mut regions: Vec<Rect> = Vec::new();

    let ghost m = image@;
    let ghost mut k: nat = 0;

    loop
        invariant
            image.wf(),
            m == image@,
            width == m.width,
            height == m.height,
            width < u32::MAX,
            scan_at(m, k) == ScanOutcome::Next(
                (ScanState { x: x as int, y: y as int, regions: regions@ }),
            ),
            forall|j: int|
                0 <= j < regions@.len() ==> (#[trigger] regions@[j]).0 + regions@[j].2 <= m.width
                    && regions@[j].1 + regions@[j].3 <= m.height,
        decreases
                m.height - y,
                (if (x as int) < m.width {
                    m.width - x
                } else {
                    0int
                }),
    {
        let ghost s_cur = ScanState { x: x as int, y: y as int, regions: regions@ };
        if y >= height {
            proof {
                assert(scan_step(m, s_cur) == ScanOutcome::Done(regions@));
                assert(scan_at(m, k + 1) == ScanOutcome::Done(regions@));
            }
            return Option::Some(regions);
        }
        if x < width {
            if image.at(x, y) {
                match marching_squares((x, y), (width, height), image) {
                    Option::None => {
                        proof {
                            assert(scan_step(m, s_cur) == ScanOutcome::Stuck);
                            assert(scan_at(m, k + 1) == ScanOutcome::Stuck);
                        }
                        return Option::None;
                    },
                    Option::Some(r) => {
                        proof {
                            let xi = x as int;
                            let yi = y as int;
                            let kk = choose|kk: nat|
                                kk <= step_cap(m) && outcome_gives(
                                    trace_at(m, xi, yi, kk),
                                    m,
                                    r,
                                );
                            assert(!(trace_at(m, xi, yi, kk) is Step));
                            assert(!trace_diverges(m, xi, yi));
                            let rc = choose|rc: Rect| trace_returns(m, xi, yi, rc);
                            lemma_trace_result_unique(m, xi, yi, rc, r);
                            lemma_trace_result_bounds(m, xi, yi, r);
                        }
                        regions.push(r);
                    },
                }
            }
            let x1: u32 = x + 1;
            x = skip_covered(&regions, x1, y);
            proof {
                assert(scan_step(m, s_cur) == ScanOutcome::Next(
                    (ScanState { x: x as int, y: y as int, regions: regions@ }),
                ));
                k = k + 1;
            }
        } else {
            y = y + 1;
            x = skip_covered(&regions, 1, y);
            proof {
                assert(scan_step(m, s_cur) == ScanOutcome::Next(
                    (ScanState { x: x as int, y: y as int, regions: regions@ }),
                ));
                k = k + 1;
            }
        }
    }
}

/// The inductive heart of the empty-mask law: over a mask with no opaque
/// cell the scan never discovers a rectangle, never runs a trace, and can
/// only finish empty.
proof fn lemma_empty_scan_at(m: GridView, k: nat)
    requires
        forall|x: int, y: int|
            0 <= x < m.width && 0 <= y < m.height ==> !(#[trigger] m.cell(x, y)),
    ensures
        (match scan_at(m, k) {
            ScanOutcome::Next(s) => s.regions.len() == 0 && s.x >= 1 && s.y >= 1,
            ScanOutcome::Done(rs) => rs.len() == 0,
            ScanOutcome::Stuck => false,
        }),
    decreases k,
{
    if k > 0 {
        lemma_empty_scan_at(m, (k - 1) as nat);
    }
}

/// An all-transparent mask yields no regions: a scan over a mask with no
/// opaque cell can only finish with the empty rectangle sequence.
pub proof fn lemma_empty_mask_yields_no_regions(m: GridView, rs: Seq<Rect>)
    requires
        forall|x: int, y: int|
            0 <= x < m.width && 0 <= y < m.height ==> !(#[trigger] m.cell(x, y)),
        scan_done(m, rs),
    ensures
        rs == Seq::<Rect>::empty(),
{
    let k = choose|k: nat| scan_at(m, k) == ScanOutcome::Done(rs);
    lemma_empty_scan_at(m, k);
    assert(rs =~= Seq::<Rect>::empty());
}

/// And it never leaves the scan stuck: with no opaque cell no trace ever
/// runs, so the scan always finishes.
pub proof fn lemma_empty_mask_never_stuck(m: GridView)
    requires
        forall|x: int, y: int|
            0 <= x < m.width && 0 <= y < m.height ==> !(#[trigger] m.cell(x, y)),
    ensures
        !scan_stuck(m),
{
    if scan_stuck(m) {
        let k = choose|k: nat| scan_at(m, k) == ScanOutcome::Stuck;
        lemma_empty_scan_at(m, k);
    }
}

} // verus!
