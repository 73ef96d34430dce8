use marching_rects::mask::ImageMask;
use marching_rects::overlay::covered_by_any;
use marching_rects::overlay::overlay_alpha;
use marching_rects::rect::Rect;
use marching_rects::scan::find_non_transparent_regions;
use marching_rects::scan::skip_covered;
use marching_rects::trace::marching_squares;

/// Builds a mask whose opaque pixels are exactly those inside one of the
/// given inclusive pixel boxes (x0, y0, x1, y1).
fn mask_with_boxes(width: u32, height: u32, boxes: &[(u32, u32, u32, u32)]) -> ImageMask {
    let mut cells: Vec<bool> = Vec::new();
    for y in 0..height {
        for x in 0..width {
            let mut v = false;
            for &(x0, y0, x1, y1) in boxes {
                if x >= x0 && x <= x1 && y >= y0 && y <= y1 {
                    v = true;
                }
            }
            cells.push(v);
        }
    }
    ImageMask::new(width, height, cells)
}

#[test]
fn empty_mask_yields_empty_sequence() {
    let mask = mask_with_boxes(10, 10, &[]);
    let regions = find_non_transparent_regions(&mask).expect("scan must finish");
    assert!(regions.is_empty());
}

#[test]
fn tiny_empty_mask_yields_empty_sequence() {
    let mask = mask_with_boxes(2, 2, &[]);
    let regions = find_non_transparent_regions(&mask).expect("scan must finish");
    assert!(regions.is_empty());
}

#[test]
fn single_rectangle_yields_one_rect() {
    // One isolated opaque box (3,3)..(6,6) on a 10x10 mask. The tracer
    // walks the left and top edges inside the shape but the bottom and
    // right edges one pixel outside it, and records its corners there,
    // so the bounding rectangle reaches one pixel past the far corner.
    let mask = mask_with_boxes(10, 10, &[(3, 3, 6, 6)]);
    let regions = find_non_transparent_regions(&mask).expect("scan must finish");
    assert_eq!(regions, vec![Rect(3, 3, 4, 4)]);
}

#[test]
fn two_disjoint_rectangles_in_raster_order() {
    // Two opaque boxes separated by well over two transparent pixels in
    // both axes; the upper-left one's seed is reached first.
    let mask = mask_with_boxes(16, 14, &[(2, 2, 4, 4), (8, 7, 10, 9)]);
    let regions = find_non_transparent_regions(&mask).expect("scan must finish");
    assert_eq!(regions.len(), 2);
    assert_eq!(regions[0], Rect(2, 2, 3, 3));
    assert_eq!(regions[1], Rect(8, 7, 3, 3));
}

#[test]
fn stacked_rectangles_in_seed_order() {
    // The second box starts lower but further left than the first: the
    // raster scan still finds the upper box first.
    let mask = mask_with_boxes(10, 12, &[(4, 1, 6, 2), (2, 6, 3, 7)]);
    let regions = find_non_transparent_regions(&mask).expect("scan must finish");
    assert_eq!(regions, vec![Rect(4, 1, 3, 2), Rect(2, 6, 2, 2)]);
}

#[test]
fn contains_checks_inclusive_bounds() {
    let r = Rect(2, 2, 3, 3);
    assert!(r.contains((5, 5)));
    assert!(!r.contains((6, 5)));
    assert!(!r.contains((5, 6)));
    assert!(r.contains((2, 2)));
    assert!(!r.contains((1, 2)));
}

#[test]
fn skip_jumps_one_past_right_edge() {
    let r = Rect(2, 2, 3, 3);
    assert_eq!(r.skip((5, 5)), (6, 5));
    assert_eq!(r.skip((3, 4)), (6, 4));
}

#[test]
fn ambiguous_seed_gives_whole_image() {
    // An opaque block covering (0,0)..(3,3): the raster scan seeds at
    // (1,1), whose whole 2x2 neighborhood is opaque - the ambiguous
    // configuration - so the tracer falls back to the whole image.
    let mask = mask_with_boxes(8, 8, &[(0, 0, 3, 3)]);
    let direct = marching_squares((1, 1), (8, 8), &mask);
    assert_eq!(direct, Some(Rect(0, 0, 8, 8)));
    let regions = find_non_transparent_regions(&mask).expect("scan must finish");
    assert_eq!(regions, vec![Rect(0, 0, 8, 8)]);
}

#[test]
fn last_matching_rectangle_determines_jump() {
    // Both rectangles contain the cursor (6,3). The skip-ahead rule
    // checks every rectangle in order with no early exit, so the second
    // one sees the cursor already jumped to 9 and moves it to 11; a
    // first-match rule would have stopped at 9.
    let regions = vec![Rect(2, 2, 6, 3), Rect(6, 2, 4, 3)];
    assert_eq!(skip_covered(&regions, 6, 3), 11);
    // With only the first rectangle the jump stays at 9.
    let first_only = vec![Rect(2, 2, 6, 3)];
    assert_eq!(skip_covered(&first_only, 6, 3), 9);
}

#[test]
fn overlay_alpha_marks_exactly_covered_pixels() {
    let regions = vec![Rect(3, 3, 3, 3)];
    assert!(covered_by_any(&regions, 3, 3));
    assert!(covered_by_any(&regions, 6, 6));
    assert!(!covered_by_any(&regions, 7, 6));
    assert!(!covered_by_any(&regions, 2, 3));
    assert_eq!(overlay_alpha(&regions, 4, 5), 205);
    assert_eq!(overlay_alpha(&regions, 7, 7), 0);
}

#[test]
fn redetection_covers_original_shape() {
    // Detect a single rectangular shape, render its rectangles as an
    // overlay (alpha 205 on a fresh image), threshold that overlay into
    // a new mask, and detect again: no opaque pixel of the original
    // shape may be left outside all rectangles of the second run.
    let width: u32 = 12;
    let height: u32 = 12;
    let mask = mask_with_boxes(width, height, &[(3, 3, 6, 6)]);
    let first = find_non_transparent_regions(&mask).expect("scan must finish");

    let mut overlay_cells: Vec<bool> = Vec::new();
    for y in 0..height {
        for x in 0..width {
            overlay_cells.push(overlay_alpha(&first, x, y) > 0);
        }
    }
    let remask = ImageMask::new(width, height, overlay_cells);
    let second = find_non_transparent_regions(&remask).expect("scan must finish");

    for y in 3..=6 {
        for x in 3..=6 {
            assert!(
                covered_by_any(&second, x, y),
                "pixel ({}, {}) of the original shape left uncovered",
                x,
                y
            );
        }
    }
}

#[test]
fn serpentine_trace_does_not_converge() {
    // A single-pixel-wide path snaking over the mask has a contour far
    // longer than the step budget of four times the half-perimeter, so
    // the trace from its seed is reported as non-convergent.
    let width: u32 = 20;
    let height: u32 = 20;
    let mut boxes: Vec<(u32, u32, u32, u32)> = Vec::new();
    let mut y: u32 = 1;
    let mut link_right = true;
    while y <= 17 {
        boxes.push((1, y, 17, y));
        if y + 2 <= 17 {
            if link_right {
                boxes.push((17, y + 1, 17, y + 1));
            } else {
                boxes.push((1, y + 1, 1, y + 1));
            }
        }
        link_right = !link_right;
        y += 2;
    }
    let mask = mask_with_boxes(width, height, &boxes);
    assert_eq!(marching_squares((1, 1), (width, height), &mask), None);
    assert_eq!(find_non_transparent_regions(&mask), None);
}

#[test]
fn mask_reports_dimensions_and_cells() {
    let mask = mask_with_boxes(5, 4, &[(1, 1, 2, 2)]);
    assert_eq!(mask.dimensions(), (5, 4));
    assert!(mask.at(1, 1));
    assert!(mask.at(2, 2));
    assert!(!mask.at(3, 1));
    assert!(!mask.at(0, 0));
}
