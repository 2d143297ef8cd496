use forge::grid::{estimate_inner, grid_dims, grid_rect, Rect};

#[test]
fn grid_dims_1() {
    assert_eq!(grid_dims(1), (1, 1));
}

#[test]
fn grid_dims_2() {
    assert_eq!(grid_dims(2), (2, 1));
}

#[test]
fn grid_dims_3() {
    assert_eq!(grid_dims(3), (3, 1));
}

#[test]
fn grid_dims_4() {
    assert_eq!(grid_dims(4), (2, 2));
}

#[test]
fn grid_dims_5() {
    assert_eq!(grid_dims(5), (3, 2));
}

#[test]
fn grid_dims_6() {
    assert_eq!(grid_dims(6), (3, 2));
}

#[test]
fn grid_dims_7() {
    assert_eq!(grid_dims(7), (4, 2));
}

#[test]
fn grid_dims_8() {
    assert_eq!(grid_dims(8), (4, 2));
}

#[test]
fn grid_dims_9() {
    assert_eq!(grid_dims(9), (5, 2));
}

/// Check that a set of rects fully covers an area with no gaps and no
/// overlaps, and all rects are within bounds.
fn assert_grid_coverage(area: Rect, total: usize) {
    let rects: Vec<Rect> = (0..total).map(|i| grid_rect(area, i, total)).collect();

    // All rects within bounds
    for (i, r) in rects.iter().enumerate() {
        assert!(
            r.x >= area.x
                && r.y >= area.y
                && r.x + r.width <= area.x + area.width
                && r.y + r.height <= area.y + area.height,
            "pane {i} rect {r:?} out of bounds {area:?}",
        );
        assert!(r.width > 0 && r.height > 0, "pane {i} has zero dimension");
    }

    // No overlap: check all pairs
    for i in 0..rects.len() {
        for j in (i + 1)..rects.len() {
            let a = rects[i];
            let b = rects[j];
            let overlap_x = a.x < b.x + b.width && b.x < a.x + a.width;
            let overlap_y = a.y < b.y + b.height && b.y < a.y + a.height;
            assert!(
                !(overlap_x && overlap_y),
                "panes {i} and {j} overlap: {a:?} vs {b:?}",
            );
        }
    }

    // Full coverage: every cell covered exactly once
    let mut covered = vec![vec![false; area.width as usize]; area.height as usize];
    for r in &rects {
        for dy in 0..r.height {
            for dx in 0..r.width {
                let py = (r.y - area.y + dy) as usize;
                let px = (r.x - area.x + dx) as usize;
                assert!(!covered[py][px], "cell ({px},{py}) covered twice");
                covered[py][px] = true;
            }
        }
    }
    for py in 0..area.height as usize {
        for px in 0..area.width as usize {
            assert!(covered[py][px], "cell ({px},{py}) not covered");
        }
    }
}

#[test]
fn grid_rect_coverage_1_to_9() {
    let area = Rect { x: 0, y: 0, width: 100, height: 80 };
    for n in 1..=9 {
        assert_grid_coverage(area, n);
    }
}

#[test]
fn grid_rect_single_pane_full_area() {
    let area = Rect { x: 0, y: 0, width: 100, height: 80 };
    let r = grid_rect(area, 0, 1);
    assert_eq!(r, area);
}

#[test]
fn grid_rect_odd_last_pane_spans_full_width() {
    let area = Rect { x: 0, y: 0, width: 100, height: 80 };
    for &total in &[5, 7, 9] {
        let last = grid_rect(area, total - 1, total);
        assert_eq!(
            last.width, area.width,
            "for {total} panes, last pane width={} expected={}",
            last.width, area.width,
        );
        assert_eq!(
            last.x, area.x,
            "for {total} panes, last pane x={} expected={}",
            last.x, area.x,
        );
    }
}

#[test]
fn grid_rect_with_offset_area() {
    let area = Rect { x: 5, y: 10, width: 100, height: 80 };
    for n in 1..=9 {
        assert_grid_coverage(area, n);
    }
}

#[test]
fn estimate_inner_positive_dimensions() {
    for nr in 1..=9u16 {
        let (rows, cols) = estimate_inner(80, 200, nr);
        assert!(rows > 0, "rows should be positive for {nr} panes");
        assert!(cols > 0, "cols should be positive for {nr} panes");
    }
}

#[test]
fn estimate_inner_smaller_than_outer() {
    let (rows, cols) = estimate_inner(80, 200, 1);
    // inner must be strictly smaller (borders + status bar consume space)
    assert!(rows < 80);
    assert!(cols < 200);
}

#[test]
fn estimate_inner_shrinks_with_more_panes() {
    let (r1, c1) = estimate_inner(80, 200, 1);
    let (r4, c4) = estimate_inner(80, 200, 4);
    // More panes → smaller per-pane area
    assert!(r4 < r1, "rows should shrink: {r4} vs {r1}");
    assert!(c4 < c1, "cols should shrink: {c4} vs {c1}");
}
