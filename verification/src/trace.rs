//! Boundary tracer: marching squares around one opaque region.
//!
//! Given a seed pixel known to be opaque, the tracer walks the contour of
//! the enclosing region. Per step it forms a 4-bit cell configuration from
//! the 2x2 neighborhood up-left of the cursor, resolves a step direction
//! from a fixed lookup rule (with two special-cased "pinch" configurations
//! and one ambiguous sentinel), records a corner whenever both direction
//! components change, and folds each recorded corner into a bounding
//! rectangle with inclusive far edges.
//!
//! The whole walk is modelled one step at a time by [`trace_step`], and
//! [`trace_at`] iterates it from the seed; the executable tracer is proved
//! to return exactly the rectangle of the first terminal step. A walk that
//! reaches no terminal step within [`step_cap`] steps is reported as
//! non-convergent instead of being allowed to run forever.

use vstd::prelude::*;

use crate::mask::GridView;
use crate::mask::ImageMask;
use crate::rect::Rect;

verus! {

/// Loop-carried tracer state: cursor position, the last recorded direction
/// (unset until the first corner), and the bounding rectangle so far.
pub ghost struct TraceState {
    pub x: int,
    pub y: int,
    pub pdx: Option<int>,
    pub pdy: Option<int>,
    pub rx: int,
    pub ry: int,
    pub rw: int,
    pub rh: int,
}

/// What one tracer step yields: a next state, the ambiguous abort, or a
/// finished walk whose state carries the final rectangle.
pub ghost enum TraceOutcome {
    Step(TraceState),
    Ambiguous,
    Done(TraceState),
}

/// 1 for an opaque cell, 0 for a transparent one.
pub open spec fn bit(b: bool) -> int {
    if b { 1 } else { 0 }
}

/// The 4-bit cell configuration at `(x, y)`: most-significant bit the
/// current pixel, then the pixel to the left, above, and diagonally
/// up-left; off-grid neighbors count as transparent.
#[verifier::opaque]
pub open spec fn cell_index(m: GridView, x: int, y: int) -> int {
    8 * bit(m.cell(x, y))
        + 4 * bit(x > 0 && m.cell(x - 1, y))
        + 2 * bit(y > 0 && m.cell(x, y - 1))
        + bit(x > 0 && y > 0 && m.cell(x - 1, y - 1))
}

/// The fixed direction table of the marching-squares edge-following rule,
/// for the configurations that take no special casing (all but 6, 9, 15).
#[verifier::opaque]
pub open spec fn lut_dir(i: int) -> (int, int) {
    if i == 0 { (1, 0) }
    else if i == 1 { (0, -1) }
    else if i == 2 { (1, 0) }
    else if i == 3 { (1, 0) }
    else if i == 4 { (-1, 0) }
    else if i == 5 { (0, -1) }
    else if i == 7 { (1, 0) }
    else if i == 8 { (0, 1) }
    else if i == 10 { (0, 1) }
    else if i == 11 { (0, 1) }
    else if i == 12 { (-1, 0) }
    else if i == 13 { (0, -1) }
    else if i == 14 { (-1, 0) }
    else { (0, 0) }
}

/// Direction resolution for one step. Configuration 6 (a diagonal pinch)
/// forces a horizontal step whose sign keeps the previous vertical motion;
/// configuration 9 (the mirrored pinch) forces a vertical step whose sign
/// keeps the previous horizontal motion; configuration 15 (fully interior)
/// is the ambiguous sentinel and resolves to no direction at all.
#[verifier::opaque]
pub open spec fn resolve_dir(i: int, pdx: Option<int>, pdy: Option<int>) -> Option<(int, int)> {
    if i == 6 {
        Option::Some((if pdy == Option::Some(-1int) { -1int } else { 1int }, 0int))
    } else if i == 9 {
        Option::Some((0int, if pdx == Option::Some(1int) { -1int } else { 1int }))
    } else if i == 15 {
        Option::None
    } else {
        Option::Some(lut_dir(i))
    }
}

/// A corner is recorded exactly when both direction components differ from
/// the last recorded direction, or when none has been recorded yet.
pub open spec fn records_corner(s: TraceState, dx: int, dy: int) -> bool {
    &&& (match s.pdx { Option::None => true, Option::Some(v) => v != dx })
    &&& (match s.pdy { Option::None => true, Option::Some(v) => v != dy })
}

/// Folds the corner at the current cursor into the bounding rectangle (and
/// updates the recorded direction), if this step records a corner at all.
/// A corner at or before the left edge moves that edge while keeping the
/// far corner; a corner at or past the far edge extends the width; the
/// vertical axis follows the same rule.
#[verifier::opaque]
pub open spec fn record_corner(s: TraceState, dx: int, dy: int) -> TraceState {
    if records_corner(s, dx, dy) {
        let nx = s.x;
        let ny = s.y;
        let (rx1, rw1) = if nx <= s.rx { (nx, s.rx + s.rw - nx) } else { (s.rx, s.rw) };
        let rw2 = if nx >= rx1 + rw1 { nx - rx1 } else { rw1 };
        let (ry1, rh1) = if ny <= s.ry { (ny, s.ry + s.rh - ny) } else { (s.ry, s.rh) };
        let rh2 = if ny >= ry1 + rh1 { ny - ry1 } else { rh1 };
        TraceState {
            x: s.x,
            y: s.y,
            pdx: Option::Some(dx),
            pdy: Option::Some(dy),
            rx: rx1,
            ry: ry1,
            rw: rw2,
            rh: rh2,
        }
    } else {
        s
    }
}

/// The state the trace starts from: cursor at the seed, no direction
/// recorded, bounding rectangle degenerate at the seed.
pub open spec fn init_state(sx: int, sy: int) -> TraceState {
    TraceState {
        x: sx,
        y: sy,
        pdx: Option::None,
        pdy: Option::None,
        rx: sx,
        ry: sy,
        rw: 0,
        rh: 0,
    }
}

/// One full tracer step from state `s`: resolve the direction at the
/// cursor (or abort as ambiguous), record a corner if due, move the
/// cursor, and finish when the new position leaves the grid or returns
/// to the seed.
pub open spec fn trace_step(m: GridView, sx: int, sy: int, s: TraceState) -> TraceOutcome {
    let i = cell_index(m, s.x, s.y);
    match resolve_dir(i, s.pdx, s.pdy) {
        Option::None => TraceOutcome::Ambiguous,
        Option::Some(d) => {
            let s1 = record_corner(s, d.0, d.1);
            let nx = s1.x + d.0;
            let ny = s1.y + d.1;
            let s2 = TraceState { x: nx, y: ny, ..s1 };
            if nx < 0 || nx >= m.width || ny < 0 || ny >= m.height {
                TraceOutcome::Done(s2)
            } else if nx == sx && ny == sy {
                TraceOutcome::Done(s2)
            } else {
                TraceOutcome::Step(s2)
            }
        },
    }
}

/// The trace after `k` steps from the seed `(sx, sy)`; terminal outcomes
/// absorb, so every `k` at or past the first terminal step yields it.
pub open spec fn trace_at(m: GridView, sx: int, sy: int, k: nat) -> TraceOutcome
    decreases k,
{
    if k == 0 {
        TraceOutcome::Step(init_state(sx, sy))
    } else {
        match trace_at(m, sx, sy, (k - 1) as nat) {
            TraceOutcome::Step(s) => trace_step(m, sx, sy, s),
            o => o,
        }
    }
}

/// The step budget of one trace: four times the image's half-perimeter.
/// A contour that has not closed within this many steps is reported as
/// non-convergent rather than walked forever.
pub open spec fn step_cap(m: GridView) -> int {
    4 * (m.width + m.height)
}

/// `r` is the rectangle the trace outcome `o` stands for: the whole image
/// on the ambiguous abort, the accumulated bounding rectangle on a
/// finished walk, and nothing at all mid-walk.
pub open spec fn outcome_gives(o: TraceOutcome, m: GridView, r: Rect) -> bool {
    match o {
        TraceOutcome::Step(_) => false,
        TraceOutcome::Ambiguous => {
            r.0 == 0 && r.1 == 0 && r.2 == m.width && r.3 == m.height
        },
        TraceOutcome::Done(s) => {
            r.0 == s.rx && r.1 == s.ry && r.2 == s.rw && r.3 == s.rh
        },
    }
}

/// The trace from `(sx, sy)` reaches a terminal step within the budget,
/// and `r` is its rectangle.
pub open spec fn trace_returns(m: GridView, sx: int, sy: int, r: Rect) -> bool {
    exists|k: nat| k <= step_cap(m) && outcome_gives(trace_at(m, sx, sy, k), m, r)
}

/// The trace from `(sx, sy)` is still mid-walk at every step within the
/// budget: it did not converge.
pub open spec fn trace_diverges(m: GridView, sx: int, sy: int) -> bool {
    forall|k: nat| k <= step_cap(m) ==> trace_at(m, sx, sy, k) is Step
}

/// Once the trace has reached a terminal outcome it keeps it: iterating
/// further changes nothing.
pub proof fn lemma_trace_absorbing(m: GridView, sx: int, sy: int, k1: nat, k2: nat)
    requires
        k1 <= k2,
        !(trace_at(m, sx, sy, k1) is Step),
    ensures
        trace_at(m, sx, sy, k2) == trace_at(m, sx, sy, k1),
    decreases k2 - k1,
{
    if k1 < k2 {
        lemma_trace_absorbing(m, sx, sy, k1, (k2 - 1) as nat);
    }
}

/// Conversely, a trace still mid-walk at step `k2` was mid-walk at every
/// earlier step.
pub proof fn lemma_trace_step_prefix(m: GridView, sx: int, sy: int, k1: nat, k2: nat)
    requires
        k1 <= k2,
        trace_at(m, sx, sy, k2) is Step,
    ensures
        trace_at(m, sx, sy, k1) is Step,
{
    if !(trace_at(m, sx, sy, k1) is Step) {
        lemma_trace_absorbing(m, sx, sy, k1, k2);
    }
}

/// A trace has at most one result: the rectangle of its first terminal
/// step.
pub proof fn lemma_trace_result_unique(m: GridView, sx: int, sy: int, r1: Rect, r2: Rect)
    requires
        trace_returns(m, sx, sy, r1),
        trace_returns(m, sx, sy, r2),
    ensures
        r1 == r2,
{
    let k1 = choose|k: nat| k <= step_cap(m) && outcome_gives(trace_at(m, sx, sy, k), m, r1);
    let k2 = choose|k: nat| k <= step_cap(m) && outcome_gives(trace_at(m, sx, sy, k), m, r2);
    if k1 <= k2 {
        lemma_trace_absorbing(m, sx, sy, k1, k2);
    } else {
        lemma_trace_absorbing(m, sx, sy, k2, k1);
    }
    assert(r1.0 == r2.0 && r1.1 == r2.1 && r1.2 == r2.2 && r1.3 == r2.3);
}

/// Cursor in bounds: every mid-walk state keeps the cursor on the grid.
pub open spec fn state_in_bounds(m: GridView, s: TraceState) -> bool {
    0 <= s.x < m.width && 0 <= s.y < m.height
}

/// Rectangle in bounds: nonnegative origin and size, far corner strictly
/// inside the grid.
pub open spec fn rect_in_bounds(m: GridView, s: TraceState) -> bool {
    &&& 0 <= s.rx && 0 <= s.rw && s.rx + s.rw < m.width
    &&& 0 <= s.ry && 0 <= s.rh && s.ry + s.rh < m.height
}

/// Every state the trace passes through keeps its cursor (while mid-walk)
/// and its bounding rectangle on the grid.
pub proof fn lemma_trace_state_bounds(m: GridView, sx: int, sy: int, k: nat)
    requires
        0 <= sx < m.width,
        0 <= sy < m.height,
    ensures
        (match trace_at(m, sx, sy, k) {
            TraceOutcome::Step(s) => state_in_bounds(m, s) && rect_in_bounds(m, s),
            TraceOutcome::Done(s) => rect_in_bounds(m, s),
            TraceOutcome::Ambiguous => true,
        }),
    decreases k,
{
    reveal(record_corner);
    if k > 0 {
        lemma_trace_state_bounds(m, sx, sy, (k - 1) as nat);
    }
}

/// A returned rectangle never reaches past the grid: its inclusive far
/// corner is at most the image dimensions.
pub proof fn lemma_trace_result_bounds(m: GridView, sx: int, sy: int, r: Rect)
    requires
        0 <= sx < m.width,
        0 <= sy < m.height,
        trace_returns(m, sx, sy, r),
    ensures
        r.0 + r.2 <= m.width,
        r.1 + r.3 <= m.height,
{
    let k = choose|k: nat| k <= step_cap(m) && outcome_gives(trace_at(m, sx, sy, k), m, r);
    lemma_trace_state_bounds(m, sx, sy, k);
}

/// The ghost mirror of an executable `Option<i32>` direction component.
pub open spec fn opt_i32(o: Option<i32>) -> Option<int> {
    match o {
        Option::None => Option::None,
        Option::Some(v) => Option::Some(v as int),
    }
}

/// A resolved direction means the configuration was not the ambiguous
/// sentinel.
proof fn lemma_resolved_not_ambiguous(i: int, pdx: Option<int>, pdy: Option<int>)
    requires
        resolve_dir(i, pdx, pdy) is Some,
    ensures
        i != 15,
{
    reveal(resolve_dir);
}

/// The direction table as executable code, for the configurations that
/// reach it.
fn lookup_dir(i: u8) -> (d: (i32, i32))
    requires
        i < 16,
        i != 6,
        i != 9,
        i != 15,
    ensures
        d.0 == lut_dir(i as int).0,
        d.1 == lut_dir(i as int).1,
{
    proof {
        reveal(lut_dir);
    }
    match i {
        0 => (1, 0),
        1 => (0, -1),
        2 => (1, 0),
        3 => (1, 0),
        4 => (-1, 0),
        5 => (0, -1),
        7 => (1, 0),
        8 => (0, 1),
        10 => (0, 1),
        11 => (0, 1),
        12 => (-1, 0),
        13 => (0, -1),
        14 => (-1, 0),
        _ => (0, 0),
    }
}

/// One direction resolution, as the trace loop performs it: the two pinch
/// configurations first, then the sentinel, then the table.
fn resolve_step(i: u8, pdx: Option<i32>, pdy: Option<i32>) -> (d: Option<(i32, i32)>)
    requires
        i < 16,
    ensures
        (match d {
            Option::Some(v) => resolve_dir(i as int, opt_i32(pdx), opt_i32(pdy))
                == Option::Some((v.0 as int, v.1 as int)),
            Option::None => resolve_dir(i as int, opt_i32(pdx), opt_i32(pdy)) is None,
        }),
{
    proof {
        reveal(resolve_dir);
    }
    if i == 6 {
        let ddx: i32 = match pdy {
            Option::Some(v) => if v == -1 { -1 } else { 1 },
            Option::None => 1,
        };
        Option::Some((ddx, 0))
    } else if i == 9 {
        let ddy: i32 = match pdx {
            Option::Some(v) => if v == 1 { -1 } else { 1 },
            Option::None => 1,
        };
        Option::Some((0, ddy))
    } else if i == 15 {
        Option::None
    } else {
        Option::Some(lookup_dir(i))
    }
}

/// One corner-recording pass, as the trace loop performs it. The new
/// rectangle and recorded direction are exactly [`record_corner`] of the
/// old ones; the far corner of the rectangle either stays or moves to the
/// cursor, on each axis.
fn record_step(
    x: u32,
    y: u32,
    dx: i32,
    dy: i32,
    pdx: &mut Option<i32>,
    pdy: &mut Option<i32>,
    r_x: &mut u32,
    r_y: &mut u32,
    r_w: &mut u32,
    r_h: &mut u32,
)
    requires
        *old(r_x) + *old(r_w) <= u32::MAX,
        *old(r_y) + *old(r_h) <= u32::MAX,
    ensures
        (TraceState {
            x: x as int,
            y: y as int,
            pdx: opt_i32(*final(pdx)),
            pdy: opt_i32(*final(pdy)),
            rx: *final(r_x) as int,
            ry: *final(r_y) as int,
            rw: *final(r_w) as int,
            rh: *final(r_h) as int,
        }) == record_corner(
            (TraceState {
                x: x as int,
                y: y as int,
                pdx: opt_i32(*old(pdx)),
                pdy: opt_i32(*old(pdy)),
                rx: *old(r_x) as int,
                ry: *old(r_y) as int,
                rw: *old(r_w) as int,
                rh: *old(r_h) as int,
            }),
            dx as int,
            dy as int,
        ),
        *final(r_x) + *final(r_w) == *old(r_x) + *old(r_w) || *final(r_x) + *final(r_w) == x as int,
        *final(r_y) + *final(r_h) == *old(r_y) + *old(r_h) || *final(r_y) + *final(r_h) == y as int,
{
    proof {
        reveal(record_corner);
    }
    let rec: bool = (match *pdx {
        Option::None => true,
        Option::Some(v) => v != dx,
    }) && (match *pdy {
        Option::None => true,
        Option::Some(v) => v != dy,
    });
    if rec {
        if x <= *r_x {
            let corner_x: u32 = *r_x + *r_w;
            *r_x = x;
            *r_w = corner_x - x;
        }
        if x >= *r_x + *r_w {
            *r_w = x - *r_x;
        }
        if y <= *r_y {
            let corner_y: u32 = *r_y + *r_h;
            *r_y = y;
            *r_h = corner_y - y;
        }
        if y >= *r_y + *r_h {
            *r_h = y - *r_y;
        }
        *pdx = Option::Some(dx);
        *pdy = Option::Some(dy);
    }
}

/// Walks the marching-squares contour from an opaque seed pixel and
/// returns the bounding rectangle of the recorded corners; the whole-image
/// rectangle if an ambiguous (fully interior) configuration is hit; or
/// `None` if the walk reached no terminal step within the step budget
/// (the trace did not converge).
pub fn marching_squares(seed: (u32, u32), dims: (u32, u32), mask: &ImageMask) -> (res: Option<
    Rect,
>)
    requires
        mask.wf(),
        dims.0 == mask@.width,
        dims.1 == mask@.height,
        mask@.in_bounds(seed.0 as int, seed.1 as int),
        mask@.cell(seed.0 as int, seed.1 as int),
    ensures
        (match res {
            Option::Some(r) => trace_returns(mask@, seed.0 as int, seed.1 as int, r),
            Option::None => trace_diverges(mask@, seed.0 as int, seed.1 as int),
        }),
        cell_index(mask@, seed.0 as int, seed.1 as int) == 15 ==> res == Option::Some(
            Rect(0, 0, dims.0, dims.1),
        ),
{
    let width: u32 = dims.0;
    let height: u32 = dims.1;
    let mut x: u32 = seed.0;
    let mut y: u32 = seed.1;

    let mut pdx: Option<i32> = Option::None;
    let mut pdy: Option<i32> = Option::None;
    let mut r_x: u32 = x;
    let mut r_y: u32 = y;
    let mut r_w: u32 = 0;
    let mut r_h: u32 = 0;

    let cap: u64 = 4u64 * (width as u64 + height as u64);
    let mut steps: u64 = 0;

    let ghost m = mask@;
    let ghost sx = seed.0 as int;
    let ghost sy = seed.1 as int;

    while steps < cap
        invariant
            mask.wf(),
            m == mask@,
            width == m.width,
            height == m.height,
            width == dims.0,
            height == dims.1,
            sx == seed.0 as int,
            sy == seed.1 as int,
            0 <= sx < m.width,
            0 <= sy < m.height,
            cap == step_cap(m),
            steps <= cap,
            x < width,
            y < height,
            r_x + r_w < width,
            r_y + r_h < height,
            trace_at(m, sx, sy, steps as nat) == TraceOutcome::Step(
                (TraceState {
                    x: x as int,
                    y: y as int,
                    pdx: opt_i32(pdx),
                    pdy: opt_i32(pdy),
                    rx: r_x as int,
                    ry: r_y as int,
                    rw: r_w as int,
                    rh: r_h as int,
                }),
            ),
            steps > 0 ==> cell_index(m, sx, sy) != 15,
        decreases cap - steps,
    {
        let ghost s_cur = TraceState {
            x: x as int,
            y: y as int,
            pdx: opt_i32(pdx),
            pdy: opt_i32(pdy),
            rx: r_x as int,
            ry: r_y as int,
            rw: r_w as int,
            rh: r_h as int,
        };
        proof {
            if steps == 0 {
                assert(s_cur == init_state(sx, sy));
            }
        }

        // the 4-bit cell configuration of the 2x2 neighborhood
        let c0 = mask.at(x, y);
        let c1 = if x > 0 { mask.at(x - 1, y) } else { false };
        let c2 = if y > 0 { mask.at(x, y - 1) } else { false };
        let c3 = if x > 0 && y > 0 { mask.at(x - 1, y - 1) } else { false };
        let i: u8 = (if c0 { 8 } else { 0 }) + (if c1 { 4 } else { 0 }) + (if c2 { 2 } else { 0 })
            + (if c3 { 1 } else { 0 });
        proof {
            assert(i as int == cell_index(m, x as int, y as int)) by {
                reveal(cell_index);
            }
        }

        let step_dir = resolve_step(i, pdx, pdy);
        let dx: i32;
        let dy: i32;
        match step_dir {
            Option::None => {
                // ambiguous configuration: fall back to the whole image
                let whole = Rect(0, 0, width, height);
                proof {
                    assert(trace_step(m, sx, sy, s_cur) == TraceOutcome::Ambiguous);
                    let k1 = (steps + 1) as nat;
                    assert(trace_at(m, sx, sy, k1) == TraceOutcome::Ambiguous);
                    assert(k1 <= step_cap(m) && outcome_gives(trace_at(m, sx, sy, k1), m, whole));
                }
                return Option::Some(whole);
            },
            Option::Some(d) => {
                dx = d.0;
                dy = d.1;
            },
        }
        proof {
            lemma_resolved_not_ambiguous(i as int, opt_i32(pdx), opt_i32(pdy));
            if steps == 0 {
                assert(cell_index(m, sx, sy) != 15);
            }
        }

        // record a corner exactly when both direction components changed
        record_step(x, y, dx, dy, &mut pdx, &mut pdy, &mut r_x, &mut r_y, &mut r_w, &mut r_h);
        let ghost s1 = record_corner(s_cur, dx as int, dy as int);
        proof {
            assert(s1 == (TraceState {
                x: x as int,
                y: y as int,
                pdx: opt_i32(pdx),
                pdy: opt_i32(pdy),
                rx: r_x as int,
                ry: r_y as int,
                rw: r_w as int,
                rh: r_h as int,
            }));
        }

        // step the cursor; stop off-grid or back at the seed
        let nx_i: i64 = x as i64 + dx as i64;
        let ny_i: i64 = y as i64 + dy as i64;
        let ghost s2 = TraceState {
            x: nx_i as int,
            y: ny_i as int,
            pdx: s1.pdx,
            pdy: s1.pdy,
            rx: s1.rx,
            ry: s1.ry,
            rw: s1.rw,
            rh: s1.rh,
        };
        if nx_i < 0 || nx_i >= width as i64 || ny_i < 0 || ny_i >= height as i64 {
            let out = Rect(r_x, r_y, r_w, r_h);
            proof {
                assert(trace_step(m, sx, sy, s_cur) == TraceOutcome::Done(s2));
                let k1 = (steps + 1) as nat;
                assert(trace_at(m, sx, sy, k1) == TraceOutcome::Done(s2));
                assert(k1 <= step_cap(m) && outcome_gives(trace_at(m, sx, sy, k1), m, out));
            }
            return Option::Some(out);
        }
        x = nx_i as u32;
        y = ny_i as u32;
        if x == seed.0 && y == seed.1 {
            let out = Rect(r_x, r_y, r_w, r_h);
            proof {
                assert(trace_step(m, sx, sy, s_cur) == TraceOutcome::Done(s2));
                let k1 = (steps + 1) as nat;
                assert(trace_at(m, sx, sy, k1) == TraceOutcome::Done(s2));
                assert(k1 <= step_cap(m) && outcome_gives(trace_at(m, sx, sy, k1), m, out));
            }
            return Option::Some(out);
        }
        proof {
            assert(trace_step(m, sx, sy, s_cur) == TraceOutcome::Step(s2));
            assert(trace_at(m, sx, sy, (steps + 1) as nat) == TraceOutcome::Step(s2));
        }
        steps = steps + 1;
    }
    proof {
        assert forall|k: nat| k <= step_cap(m) implies trace_at(m, sx, sy, k) is Step by {
            lemma_trace_step_prefix(m, sx, sy, k, steps as nat);
        }
    }
    Option::None
}

} // verus!
