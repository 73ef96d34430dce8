//! Whole-run properties of the detector, proved against the step models.
//!
//! For a mask whose opaque pixels form an isolated axis-aligned box with
//! a transparent margin, the boundary walk from the box's top-left pixel
//! is fully determined: down the left edge inside the shape, right along
//! the row just below it, up along the column just right of it, and back
//! along its top row into the seed. Corners are recorded at the seed and
//! at the three outside turning points, so the resulting rectangle is
//! anchored at the box's top-left corner and its inclusive far corner
//! lies one pixel below and right of the box's far corner.
//!
//! On top of that walk this module proves what whole scans return: one
//! isolated box yields exactly its one rectangle; two boxes stacked with
//! a two-row gap yield exactly their two rectangles in raster order; and
//! re-detecting the overlay rendering of a detected box covers every
//! opaque pixel of the box (weak idempotence).

use vstd::prelude::*;

use crate::mask::GridView;
use crate::overlay::covered;
use crate::rect::Rect;
use crate::rect::rect_contains;
use crate::scan::ScanOutcome;
use crate::scan::ScanState;
use crate::scan::lemma_scan_done_unique;
use crate::scan::scan_at;
use crate::scan::scan_done;
use crate::scan::scan_init;
use crate::trace::TraceOutcome;
use crate::trace::TraceState;
use crate::trace::cell_index;
use crate::trace::init_state;
use crate::trace::lemma_trace_result_unique;
use crate::trace::lut_dir;
use crate::trace::outcome_gives;
use crate::trace::record_corner;
use crate::trace::resolve_dir;
use crate::trace::step_cap;
use crate::trace::trace_at;
use crate::trace::trace_diverges;
use crate::trace::trace_returns;

verus! {

/// The mask holds exactly one opaque box `[a..c] x [b..d]` (inclusive),
/// with at least one transparent pixel on every side of it.
pub open spec fn lone_box(m: GridView, a: int, b: int, c: int, d: int) -> bool {
    &&& 1 <= a <= c && c + 1 < m.width
    &&& 1 <= b <= d && d + 1 < m.height
    &&& forall|x: int, y: int|
        0 <= x < m.width && 0 <= y < m.height ==> ((#[trigger] m.cell(x, y)) == (a <= x <= c && b
            <= y <= d))
}

/// Locally, the mask looks like one opaque box `[a..c] x [b..d]`: on the
/// box and its one-pixel margin the cells are exactly the box membership.
/// The boundary trace never leaves this window, so this is all it needs.
pub open spec fn box_window(m: GridView, a: int, b: int, c: int, d: int) -> bool {
    &&& 1 <= a <= c && c + 1 < m.width
    &&& 1 <= b <= d && d + 1 < m.height
    &&& forall|x: int, y: int|
        a - 1 <= x <= c + 1 && b - 1 <= y <= d + 1 ==> ((#[trigger] m.cell(x, y)) == (a <= x <= c
            && b <= y <= d))
}

/// A mask holding just the one box looks like that box locally too.
proof fn lemma_lone_box_window(m: GridView, a: int, b: int, c: int, d: int)
    requires
        lone_box(m, a, b, c, d),
    ensures
        box_window(m, a, b, c, d),
{
}

/// Phase one: after `t` steps the cursor has walked `t` pixels down the
/// box's left edge, with one corner recorded at the seed.
proof fn lemma_box_walk_down(m: GridView, a: int, b: int, c: int, d: int, t: int)
    requires
        box_window(m, a, b, c, d),
        1 <= t <= d + 1 - b,
    ensures
        trace_at(m, a, b, t as nat) == TraceOutcome::Step(
            (TraceState {
                x: a,
                y: b + t,
                pdx: Option::Some(0int),
                pdy: Option::Some(1int),
                rx: a,
                ry: b,
                rw: 0,
                rh: 0,
            }),
        ),
    decreases t,
{
    reveal(cell_index);
    reveal(resolve_dir);
    reveal(lut_dir);
    reveal(record_corner);
    if t == 1 {
        assert(trace_at(m, a, b, 0) == TraceOutcome::Step(init_state(a, b)));
        assert(cell_index(m, a, b) == 8);
    } else {
        lemma_box_walk_down(m, a, b, c, d, t - 1);
        assert(cell_index(m, a, b + t - 1) == 10);
    }
}

/// Phase two: the cursor leaves the shape at `(a, d+1)`, records the
/// turn there (stretching the height one past the box), and walks right
/// along the row below the box.
proof fn lemma_box_walk_right(m: GridView, a: int, b: int, c: int, d: int, u: int)
    requires
        box_window(m, a, b, c, d),
        1 <= u <= c + 1 - a,
    ensures
        trace_at(m, a, b, ((d + 1 - b) + u) as nat) == TraceOutcome::Step(
            (TraceState {
                x: a + u,
                y: d + 1,
                pdx: Option::Some(1int),
                pdy: Option::Some(0int),
                rx: a,
                ry: b,
                rw: 0,
                rh: d + 1 - b,
            }),
        ),
    decreases u,
{
    reveal(cell_index);
    reveal(resolve_dir);
    reveal(lut_dir);
    reveal(record_corner);
    if u == 1 {
        lemma_box_walk_down(m, a, b, c, d, d + 1 - b);
        assert(cell_index(m, a, d + 1) == 2);
    } else {
        lemma_box_walk_right(m, a, b, c, d, u - 1);
        assert(cell_index(m, a + u - 1, d + 1) == 3);
    }
}

/// Phase three: the cursor turns at `(c+1, d+1)`, records the corner
/// there (stretching the width one past the box), and walks up along the
/// column right of the box.
proof fn lemma_box_walk_up(m: GridView, a: int, b: int, c: int, d: int, v: int)
    requires
        box_window(m, a, b, c, d),
        1 <= v <= d + 1 - b,
    ensures
        trace_at(m, a, b, ((d + 1 - b) + (c + 1 - a) + v) as nat) == TraceOutcome::Step(
            (TraceState {
                x: c + 1,
                y: d + 1 - v,
                pdx: Option::Some(0int),
                pdy: Option::Some(-1int),
                rx: a,
                ry: b,
                rw: c + 1 - a,
                rh: d + 1 - b,
            }),
        ),
    decreases v,
{
    reveal(cell_index);
    reveal(resolve_dir);
    reveal(lut_dir);
    reveal(record_corner);
    if v == 1 {
        lemma_box_walk_right(m, a, b, c, d, c + 1 - a);
        assert(cell_index(m, c + 1, d + 1) == 1);
    } else {
        lemma_box_walk_up(m, a, b, c, d, v - 1);
        assert(cell_index(m, c + 1, d + 2 - v) == 5);
    }
}

/// Phase four: the cursor turns at `(c+1, b)` (the corner there leaves
/// the rectangle unchanged) and walks left along the box's top row while
/// it is still right of the seed.
proof fn lemma_box_walk_left(m: GridView, a: int, b: int, c: int, d: int, w: int)
    requires
        box_window(m, a, b, c, d),
        1 <= w <= c - a,
    ensures
        trace_at(m, a, b, (2 * (d + 1 - b) + (c + 1 - a) + w) as nat) == TraceOutcome::Step(
            (TraceState {
                x: c + 1 - w,
                y: b,
                pdx: Option::Some(-1int),
                pdy: Option::Some(0int),
                rx: a,
                ry: b,
                rw: c + 1 - a,
                rh: d + 1 - b,
            }),
        ),
    decreases w,
{
    reveal(cell_index);
    reveal(resolve_dir);
    reveal(lut_dir);
    reveal(record_corner);
    if w == 1 {
        lemma_box_walk_up(m, a, b, c, d, d + 1 - b);
        assert(cell_index(m, c + 1, b) == 4);
    } else {
        lemma_box_walk_left(m, a, b, c, d, w - 1);
        assert(cell_index(m, c + 2 - w, b) == 12);
    }
}

/// The boundary trace of a single isolated opaque rectangle: seeded at
/// the box's top-left pixel it closes in `2*(c+1-a) + 2*(d+1-b)` steps,
/// and the rectangle it accumulates is anchored at that pixel with its
/// inclusive far corner one below and one right of the box's far corner:
/// `(a, b, c+1-a, d+1-b)`.
pub proof fn lemma_isolated_rectangle_trace(m: GridView, a: int, b: int, c: int, d: int)
    requires
        box_window(m, a, b, c, d),
    ensures
        exists|k: nat|
            k <= step_cap(m) && ((#[trigger] trace_at(m, a, b, k)) matches TraceOutcome::Done(s)
                && s.rx == a && s.ry == b && s.rw == c + 1 - a && s.rh == d + 1 - b),
{
    reveal(cell_index);
    reveal(resolve_dir);
    reveal(lut_dir);
    reveal(record_corner);
    if c == a {
        // the column-wide box: the turn at (c+1, b) steps straight back
        // into the seed
        lemma_box_walk_up(m, a, b, c, d, d + 1 - b);
        assert(cell_index(m, c + 1, b) == 4);
        let k = (2 * (d + 1 - b) + (c + 1 - a) + 1) as nat;
        assert(trace_at(m, a, b, k) matches TraceOutcome::Done(s) && s.rx == a && s.ry == b
            && s.rw == c + 1 - a && s.rh == d + 1 - b);
        assert(k <= step_cap(m));
    } else {
        lemma_box_walk_left(m, a, b, c, d, c - a);
        assert(cell_index(m, a + 1, b) == 12);
        let k = (2 * (d + 1 - b) + 2 * (c + 1 - a)) as nat;
        assert(trace_at(m, a, b, k) matches TraceOutcome::Done(s) && s.rx == a && s.ry == b
            && s.rw == c + 1 - a && s.rh == d + 1 - b);
        assert(k <= step_cap(m));
    }
}

/// Before the first seed: over a transparent stretch that ends at
/// `(a, b)` in raster order, the scan just advances the cursor, so it
/// reaches that pixel with nothing discovered.
proof fn lemma_box_scan_pre(m: GridView, a: int, b: int, k: nat, s: ScanState)
    requires
        1 <= a < m.width,
        1 <= b < m.height,
        forall|x: int, y: int|
            0 <= x < m.width && 0 <= y < m.height && (y < b || (y == b && x < a)) ==> !(
            #[trigger] m.cell(x, y)),
        scan_at(m, k) == ScanOutcome::Next(s),
        s.regions == Seq::<Rect>::empty(),
        1 <= s.x,
        1 <= s.y,
        s.y < b || (s.y == b && s.x <= a),
        s.x <= m.width,
    ensures
        exists|k2: nat|
            (#[trigger] scan_at(m, k2)) == ScanOutcome::Next(
                (ScanState { x: a, y: b, regions: Seq::<Rect>::empty() }),
            ),
    decreases b - s.y, m.width - s.x,
{
    if s.y == b && s.x == a {
        assert(scan_at(m, k) == ScanOutcome::Next(
            (ScanState { x: a, y: b, regions: Seq::<Rect>::empty() }),
        ));
    } else if s.x >= m.width {
        let s2 = ScanState { x: 1, y: s.y + 1, regions: s.regions };
        assert(scan_at(m, k + 1) == ScanOutcome::Next(s2));
        lemma_box_scan_pre(m, a, b, k + 1, s2);
    } else {
        assert(!m.cell(s.x, s.y));
        let s2 = ScanState { x: s.x + 1, y: s.y, regions: s.regions };
        assert(scan_at(m, k + 1) == ScanOutcome::Next(s2));
        lemma_box_scan_pre(m, a, b, k + 1, s2);
    }
}

/// The skip-ahead rule over a single rectangle: jump past it if it
/// contains the cursor, stay otherwise.
proof fn lemma_skip_x_single(r: Rect, x: int, y: int)
    ensures
        crate::scan::skip_x(seq![r], x, y) == (if rect_contains(r, x, y) {
            r.0 + r.2 + 1
        } else {
            x
        }),
{
    assert(seq![r].drop_last() =~= Seq::<Rect>::empty());
    assert(crate::scan::skip_x(Seq::<Rect>::empty(), x, y) == x);
    assert(seq![r].last() == r);
}

/// After the box's rectangle is discovered: every cursor position the
/// skip-ahead rule leaves lies outside the rectangle, hence outside the
/// box, so the scan reads only transparent pixels and finishes with that
/// one rectangle.
proof fn lemma_box_scan_post(m: GridView, a: int, b: int, c: int, d: int, r: Rect, k: nat, s: ScanState)
    requires
        lone_box(m, a, b, c, d),
        r.0 == a,
        r.1 == b,
        r.2 == c + 1 - a,
        r.3 == d + 1 - b,
        scan_at(m, k) == ScanOutcome::Next(s),
        s.regions == seq![r],
        1 <= s.x,
        1 <= s.y,
        s.y <= m.height,
        !rect_contains(r, s.x, s.y),
    ensures
        exists|k2: nat| (#[trigger] scan_at(m, k2)) == ScanOutcome::Done(seq![r]),
    decreases m.height - s.y, (if s.x < m.width { m.width - s.x } else { 0int }),
{
    if s.y >= m.height {
        assert(scan_at(m, k + 1) == ScanOutcome::Done(seq![r]));
    } else if s.x >= m.width {
        lemma_skip_x_single(r, 1, s.y + 1);
        let nx = crate::scan::skip_x(seq![r], 1, s.y + 1);
        let s2 = ScanState { x: nx, y: s.y + 1, regions: s.regions };
        assert(scan_at(m, k + 1) == ScanOutcome::Next(s2));
        assert(!rect_contains(r, s2.x, s2.y));
        lemma_box_scan_post(m, a, b, c, d, r, k + 1, s2);
    } else {
        assert(!m.cell(s.x, s.y));
        lemma_skip_x_single(r, s.x + 1, s.y);
        let nx = crate::scan::skip_x(seq![r], s.x + 1, s.y);
        let s2 = ScanState { x: nx, y: s.y, regions: s.regions };
        assert(scan_at(m, k + 1) == ScanOutcome::Next(s2));
        assert(!rect_contains(r, s2.x, s2.y));
        lemma_box_scan_post(m, a, b, c, d, r, k + 1, s2);
    }
}

/// The whole detection run over a single isolated opaque rectangle: the
/// scan finds exactly one rectangle, anchored at the box's top-left pixel
/// with its inclusive far corner one below and one right of the box's far
/// corner.
pub proof fn lemma_isolated_rectangle_scan(m: GridView, a: int, b: int, c: int, d: int)
    requires
        lone_box(m, a, b, c, d),
        m.width <= u32::MAX,
        m.height <= u32::MAX,
    ensures
        scan_done(
            m,
            seq![Rect(a as u32, b as u32, (c + 1 - a) as u32, (d + 1 - b) as u32)],
        ),
{
    let r = Rect(a as u32, b as u32, (c + 1 - a) as u32, (d + 1 - b) as u32);
    assert(r.0 == a && r.1 == b && r.2 == c + 1 - a && r.3 == d + 1 - b);

    // the trace from the seed returns exactly r
    lemma_lone_box_window(m, a, b, c, d);
    lemma_isolated_rectangle_trace(m, a, b, c, d);
    let ktr = choose|k: nat|
        k <= step_cap(m) && ((#[trigger] trace_at(m, a, b, k)) matches TraceOutcome::Done(s)
            && s.rx == a && s.ry == b && s.rw == c + 1 - a && s.rh == d + 1 - b);
    assert(outcome_gives(trace_at(m, a, b, ktr), m, r));
    assert(trace_returns(m, a, b, r));
    assert(!(trace_at(m, a, b, ktr) is Step));
    assert(!trace_diverges(m, a, b));

    // the scan reaches the seed with nothing discovered
    assert(scan_at(m, 0) == ScanOutcome::Next(scan_init()));
    lemma_box_scan_pre(m, a, b, 0, scan_init());
    let k2 = choose|k2: nat|
        (#[trigger] scan_at(m, k2)) == ScanOutcome::Next(
            (ScanState { x: a, y: b, regions: Seq::<Rect>::empty() }),
        );

    // the seed step runs the trace, appends r and jumps past it
    let rc = choose|rc: Rect| trace_returns(m, a, b, rc);
    lemma_trace_result_unique(m, a, b, rc, r);
    let rs = Seq::<Rect>::empty().push(r);
    assert(rs =~= seq![r]);
    lemma_skip_x_single(r, a + 1, b);
    let nx = crate::scan::skip_x(rs, a + 1, b);
    assert(rect_contains(r, a + 1, b));
    assert(nx == c + 2);
    let s2 = ScanState { x: c + 2, y: b, regions: seq![r] };
    assert(scan_at(m, k2 + 1) == ScanOutcome::Next(s2));

    // past the rectangle, the scan finishes with it alone
    lemma_box_scan_post(m, a, b, c, d, r, k2 + 1, s2);
}

/// Between two discoveries: over a stretch that is transparent except
/// inside the one rectangle found so far, and that ends at `(a2, b2)` in
/// raster order, the scan advances the cursor (skipping through that
/// rectangle) until it reaches that pixel. The rectangle must lie wholly
/// above row `b2`.
proof fn lemma_box_scan_between(m: GridView, r1: Rect, a2: int, b2: int, k: nat, s: ScanState)
    requires
        1 <= a2 < m.width,
        1 <= b2 < m.height,
        r1.1 + r1.3 < b2,
        forall|x: int, y: int|
            0 <= x < m.width && 0 <= y < m.height && (y < b2 || (y == b2 && x < a2))
                && !rect_contains(r1, x, y) ==> !(#[trigger] m.cell(x, y)),
        scan_at(m, k) == ScanOutcome::Next(s),
        s.regions == seq![r1],
        1 <= s.x,
        1 <= s.y,
        s.y < b2 || (s.y == b2 && s.x <= a2),
        !rect_contains(r1, s.x, s.y),
    ensures
        exists|k2: nat|
            (#[trigger] scan_at(m, k2)) == ScanOutcome::Next(
                (ScanState { x: a2, y: b2, regions: seq![r1] }),
            ),
    decreases b2 - s.y, (if s.x < m.width { m.width - s.x } else { 0int }),
{
    if s.y == b2 && s.x == a2 {
        assert(scan_at(m, k) == ScanOutcome::Next(
            (ScanState { x: a2, y: b2, regions: seq![r1] }),
        ));
    } else if s.x >= m.width {
        lemma_skip_x_single(r1, 1, s.y + 1);
        let nx = crate::scan::skip_x(seq![r1], 1, s.y + 1);
        let s2 = ScanState { x: nx, y: s.y + 1, regions: s.regions };
        assert(scan_at(m, k + 1) == ScanOutcome::Next(s2));
        assert(!rect_contains(r1, s2.x, s2.y));
        lemma_box_scan_between(m, r1, a2, b2, k + 1, s2);
    } else {
        assert(!m.cell(s.x, s.y));
        lemma_skip_x_single(r1, s.x + 1, s.y);
        let nx = crate::scan::skip_x(seq![r1], s.x + 1, s.y);
        let s2 = ScanState { x: nx, y: s.y, regions: s.regions };
        assert(scan_at(m, k + 1) == ScanOutcome::Next(s2));
        assert(!rect_contains(r1, s2.x, s2.y));
        lemma_box_scan_between(m, r1, a2, b2, k + 1, s2);
    }
}

/// The skip-ahead rule over two rectangles in order: jump past the first
/// if it contains the cursor, then past the second if it contains the
/// (possibly jumped) cursor.
proof fn lemma_skip_x_pair(r1: Rect, r2: Rect, x: int, y: int)
    ensures
        crate::scan::skip_x(seq![r1, r2], x, y) == ({
            let x1 = if rect_contains(r1, x, y) {
                r1.0 + r1.2 + 1
            } else {
                x
            };
            if rect_contains(r2, x1, y) {
                r2.0 + r2.2 + 1
            } else {
                x1
            }
        }),
{
    assert(seq![r1, r2].drop_last() =~= seq![r1]);
    lemma_skip_x_single(r1, x, y);
    assert(seq![r1, r2].last() == r2);
}

/// After both rectangles are discovered: every cursor position the
/// skip-ahead rule leaves lies outside both, every opaque pixel lies
/// inside one of them, so the scan reads only transparent pixels and
/// finishes with the two rectangles. The first must lie wholly above the
/// second.
proof fn lemma_two_box_scan_post(m: GridView, r1: Rect, r2: Rect, k: nat, s: ScanState)
    requires
        r1.1 + r1.3 < r2.1,
        forall|x: int, y: int|
            0 <= x < m.width && 0 <= y < m.height && !rect_contains(r1, x, y) && !rect_contains(
                r2,
                x,
                y,
            ) ==> !(#[trigger] m.cell(x, y)),
        scan_at(m, k) == ScanOutcome::Next(s),
        s.regions == seq![r1, r2],
        1 <= s.x,
        1 <= s.y,
        s.y <= m.height,
        !rect_contains(r1, s.x, s.y),
        !rect_contains(r2, s.x, s.y),
    ensures
        exists|k2: nat| (#[trigger] scan_at(m, k2)) == ScanOutcome::Done(seq![r1, r2]),
    decreases m.height - s.y, (if s.x < m.width { m.width - s.x } else { 0int }),
{
    if s.y >= m.height {
        assert(scan_at(m, k + 1) == ScanOutcome::Done(seq![r1, r2]));
    } else if s.x >= m.width {
        lemma_skip_x_pair(r1, r2, 1, s.y + 1);
        let nx = crate::scan::skip_x(seq![r1, r2], 1, s.y + 1);
        let s2 = ScanState { x: nx, y: s.y + 1, regions: s.regions };
        assert(scan_at(m, k + 1) == ScanOutcome::Next(s2));
        assert(!rect_contains(r1, s2.x, s2.y) && !rect_contains(r2, s2.x, s2.y));
        lemma_two_box_scan_post(m, r1, r2, k + 1, s2);
    } else {
        assert(!m.cell(s.x, s.y));
        lemma_skip_x_pair(r1, r2, s.x + 1, s.y);
        let nx = crate::scan::skip_x(seq![r1, r2], s.x + 1, s.y);
        let s2 = ScanState { x: nx, y: s.y, regions: s.regions };
        assert(scan_at(m, k + 1) == ScanOutcome::Next(s2));
        assert(!rect_contains(r1, s2.x, s2.y) && !rect_contains(r2, s2.x, s2.y));
        lemma_two_box_scan_post(m, r1, r2, k + 1, s2);
    }
}

/// The mask holds exactly two opaque boxes, the second strictly below the
/// first with at least two transparent rows between them, each with a
/// transparent margin on every side.
pub open spec fn two_stacked_boxes(
    m: GridView,
    a1: int,
    b1: int,
    c1: int,
    d1: int,
    a2: int,
    b2: int,
    c2: int,
    d2: int,
) -> bool {
    &&& 1 <= a1 <= c1 && c1 + 1 < m.width
    &&& 1 <= b1 <= d1
    &&& 1 <= a2 <= c2 && c2 + 1 < m.width
    &&& b2 <= d2 && d2 + 1 < m.height
    &&& d1 + 2 < b2
    &&& forall|x: int, y: int|
        0 <= x < m.width && 0 <= y < m.height ==> ((#[trigger] m.cell(x, y)) == ((a1 <= x <= c1
            && b1 <= y <= d1) || (a2 <= x <= c2 && b2 <= y <= d2)))
}

/// Two disjoint opaque rectangles, one below the other with at least two
/// transparent rows between them, yield exactly two rectangles, in the
/// order their seed pixels are met by the raster scan.
pub proof fn lemma_two_stacked_rectangles_scan(
    m: GridView,
    a1: int,
    b1: int,
    c1: int,
    d1: int,
    a2: int,
    b2: int,
    c2: int,
    d2: int,
)
    requires
        two_stacked_boxes(m, a1, b1, c1, d1, a2, b2, c2, d2),
        m.width <= u32::MAX,
        m.height <= u32::MAX,
    ensures
        scan_done(
            m,
            seq![
                Rect(a1 as u32, b1 as u32, (c1 + 1 - a1) as u32, (d1 + 1 - b1) as u32),
                Rect(a2 as u32, b2 as u32, (c2 + 1 - a2) as u32, (d2 + 1 - b2) as u32),
            ],
        ),
{
    let r1 = Rect(a1 as u32, b1 as u32, (c1 + 1 - a1) as u32, (d1 + 1 - b1) as u32);
    let r2 = Rect(a2 as u32, b2 as u32, (c2 + 1 - a2) as u32, (d2 + 1 - b2) as u32);
    assert(r1.0 == a1 && r1.1 == b1 && r1.2 == c1 + 1 - a1 && r1.3 == d1 + 1 - b1);
    assert(r2.0 == a2 && r2.1 == b2 && r2.2 == c2 + 1 - a2 && r2.3 == d2 + 1 - b2);

    // the first box's trace returns exactly r1
    assert(box_window(m, a1, b1, c1, d1));
    lemma_isolated_rectangle_trace(m, a1, b1, c1, d1);
    let ktr1 = choose|k: nat|
        k <= step_cap(m) && ((#[trigger] trace_at(m, a1, b1, k)) matches TraceOutcome::Done(s)
            && s.rx == a1 && s.ry == b1 && s.rw == c1 + 1 - a1 && s.rh == d1 + 1 - b1);
    assert(outcome_gives(trace_at(m, a1, b1, ktr1), m, r1));
    assert(trace_returns(m, a1, b1, r1));
    assert(!(trace_at(m, a1, b1, ktr1) is Step));
    assert(!trace_diverges(m, a1, b1));

    // the scan reaches the first seed with nothing discovered
    assert(scan_at(m, 0) == ScanOutcome::Next(scan_init()));
    lemma_box_scan_pre(m, a1, b1, 0, scan_init());
    let k2 = choose|k2: nat|
        (#[trigger] scan_at(m, k2)) == ScanOutcome::Next(
            (ScanState { x: a1, y: b1, regions: Seq::<Rect>::empty() }),
        );

    // the first seed step appends r1 and jumps past it
    let rc1 = choose|rc: Rect| trace_returns(m, a1, b1, rc);
    lemma_trace_result_unique(m, a1, b1, rc1, r1);
    let rs1 = Seq::<Rect>::empty().push(r1);
    assert(rs1 =~= seq![r1]);
    lemma_skip_x_single(r1, a1 + 1, b1);
    assert(rect_contains(r1, a1 + 1, b1));
    let s_mid = ScanState { x: c1 + 2, y: b1, regions: seq![r1] };
    assert(scan_at(m, k2 + 1) == ScanOutcome::Next(s_mid));

    // onwards to the second seed, skipping through r1
    lemma_box_scan_between(m, r1, a2, b2, k2 + 1, s_mid);
    let k3 = choose|k3: nat|
        (#[trigger] scan_at(m, k3)) == ScanOutcome::Next(
            (ScanState { x: a2, y: b2, regions: seq![r1] }),
        );

    // the second box's trace returns exactly r2
    assert(box_window(m, a2, b2, c2, d2));
    lemma_isolated_rectangle_trace(m, a2, b2, c2, d2);
    let ktr2 = choose|k: nat|
        k <= step_cap(m) && ((#[trigger] trace_at(m, a2, b2, k)) matches TraceOutcome::Done(s)
            && s.rx == a2 && s.ry == b2 && s.rw == c2 + 1 - a2 && s.rh == d2 + 1 - b2);
    assert(outcome_gives(trace_at(m, a2, b2, ktr2), m, r2));
    assert(trace_returns(m, a2, b2, r2));
    assert(!(trace_at(m, a2, b2, ktr2) is Step));
    assert(!trace_diverges(m, a2, b2));

    // the second seed step appends r2 and jumps past it
    let rc2 = choose|rc: Rect| trace_returns(m, a2, b2, rc);
    lemma_trace_result_unique(m, a2, b2, rc2, r2);
    let rs2 = seq![r1].push(r2);
    assert(rs2 =~= seq![r1, r2]);
    lemma_skip_x_pair(r1, r2, a2 + 1, b2);
    assert(!rect_contains(r1, a2 + 1, b2));
    assert(rect_contains(r2, a2 + 1, b2));
    let s_post = ScanState { x: c2 + 2, y: b2, regions: seq![r1, r2] };
    assert(scan_at(m, k3 + 1) == ScanOutcome::Next(s_post));

    // past both rectangles, the scan finishes with the two of them
    lemma_two_box_scan_post(m, r1, r2, k3 + 1, s_post);
}

/// Weak idempotence for a single rectangular shape: detect a lone opaque
/// box, render the detected rectangles as an overlay (opaque exactly
/// where some rectangle covers), and detect again on that overlay. No
/// opaque pixel of the original box is left outside all rectangles of
/// the second run. (The second rectangle grows by one pixel again, so
/// bit-for-bit re-detection is not claimed.)
pub proof fn lemma_redetection_covers_box(
    m1: GridView,
    m2: GridView,
    a: int,
    b: int,
    c: int,
    d: int,
    rs1: Seq<Rect>,
    rs2: Seq<Rect>,
)
    requires
        lone_box(m1, a, b, c, d),
        c + 2 < m1.width,
        d + 2 < m1.height,
        m1.width <= u32::MAX,
        m1.height <= u32::MAX,
        scan_done(m1, rs1),
        m2.width == m1.width,
        m2.height == m1.height,
        forall|x: int, y: int|
            0 <= x < m2.width && 0 <= y < m2.height ==> ((#[trigger] m2.cell(x, y)) == covered(
                rs1,
                x,
                y,
            )),
        scan_done(m2, rs2),
    ensures
        forall|x: int, y: int| a <= x <= c && b <= y <= d ==> covered(rs2, x, y),
{
    // the first run found exactly the box's rectangle
    let r1 = Rect(a as u32, b as u32, (c + 1 - a) as u32, (d + 1 - b) as u32);
    lemma_isolated_rectangle_scan(m1, a, b, c, d);
    lemma_scan_done_unique(m1, rs1, seq![r1]);

    // its overlay is itself a lone box, one pixel larger on each axis
    assert forall|x: int, y: int|
        0 <= x < m2.width && 0 <= y < m2.height implies ((#[trigger] m2.cell(x, y)) == (a <= x <= c
        + 1 && b <= y <= d + 1)) by {
        assert(rs1[0] == r1);
        if rect_contains(r1, x, y) {
            assert(rect_contains(rs1[0], x, y));
        }
        if covered(rs1, x, y) {
            let j = choose|j: int| 0 <= j < rs1.len() && rect_contains(#[trigger] rs1[j], x, y);
            assert(rs1[j] == r1);
        }
    }
    assert(lone_box(m2, a, b, c + 1, d + 1));

    // so the second run finds exactly that larger rectangle
    let r2 = Rect(a as u32, b as u32, (c + 2 - a) as u32, (d + 2 - b) as u32);
    lemma_isolated_rectangle_scan(m2, a, b, c + 1, d + 1);
    lemma_scan_done_unique(m2, rs2, seq![r2]);

    // and it covers every pixel of the original box
    assert forall|x: int, y: int| a <= x <= c && b <= y <= d implies covered(rs2, x, y) by {
        assert(rect_contains(seq![r2][0], x, y));
    }
}

} // verus!
