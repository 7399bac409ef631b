use backdrop_blur::rect::Rect;
use backdrop_blur::region::{region_to_non_overlapping_rects, RegionOp};
use backdrop_blur::region::RegionOp::{Add, Subtract};

fn rect(x1: i32, y1: i32, x2: i32, y2: i32) -> Rect {
    Rect { x1, y1, x2, y2 }
}

fn decompose(ops: &[(RegionOp, (i32, i32, i32, i32))]) -> Vec<Rect> {
    let mut region: Vec<(RegionOp, Rect)> = Vec::new();
    for (kind, (x1, y1, x2, y2)) in ops {
        region.push((*kind, rect(*x1, *y1, *x2, *y2)));
    }
    let mut output = Vec::new();
    region_to_non_overlapping_rects(&region, &mut output);
    output
}

#[test]
fn test_region_to_non_overlapping_rects() {
    // empty_region
    assert_eq!(decompose(&[]), vec![]);

    // single_rectangle
    assert_eq!(decompose(&[(Add, (0, 0, 10, 10))]), vec![rect(0, 0, 10, 10)]);

    // empty_rectangle
    assert_eq!(decompose(&[(Add, (0, 0, 0, 1))]), vec![]);
    assert_eq!(decompose(&[(Add, (0, 0, 1, 0))]), vec![]);

    // two_non_overlapping
    assert_eq!(
        decompose(&[(Add, (0, 0, 5, 10)), (Add, (7, 0, 12, 10))]),
        vec![rect(0, 0, 5, 10), rect(7, 0, 12, 10)]
    );

    // two_overlapping
    assert_eq!(
        decompose(&[(Add, (0, 0, 10, 10)), (Add, (5, 5, 15, 15))]),
        vec![rect(0, 0, 10, 5), rect(0, 5, 15, 10), rect(5, 10, 15, 15)]
    );

    // subtraction
    assert_eq!(
        decompose(&[(Add, (0, 0, 20, 20)), (Subtract, (5, 5, 15, 15))]),
        vec![
            rect(0, 0, 20, 5),
            rect(0, 5, 5, 15),
            rect(15, 5, 20, 15),
            rect(0, 15, 20, 20),
        ]
    );

    // adjacent_rectangles
    assert_eq!(
        decompose(&[(Add, (0, 0, 10, 10)), (Add, (10, 0, 20, 10))]),
        vec![rect(0, 0, 20, 10)]
    );
}

#[test]
fn empty_input_gives_empty_output() {
    assert_eq!(decompose(&[]), vec![]);
}

#[test]
fn adjacent_vertical_rectangles_merge_per_band() {
    // Two vertically adjacent rectangles sharing the Y edge decompose into
    // two edge-aligned bands with no gap and no overlap.
    assert_eq!(
        decompose(&[(Add, (0, 0, 10, 10)), (Add, (0, 10, 10, 20))]),
        vec![rect(0, 0, 10, 10), rect(0, 10, 10, 20)]
    );
}

#[test]
fn subtract_from_nothing_is_empty() {
    assert_eq!(decompose(&[(Subtract, (0, 0, 10, 10))]), vec![]);
}

#[test]
fn subtract_everything_is_empty() {
    assert_eq!(
        decompose(&[(Add, (2, 2, 8, 8)), (Subtract, (0, 0, 10, 10))]),
        vec![]
    );
}

#[test]
fn add_after_subtract_repaints() {
    assert_eq!(
        decompose(&[
            (Add, (0, 0, 10, 10)),
            (Subtract, (0, 0, 10, 10)),
            (Add, (2, 2, 4, 4)),
        ]),
        vec![rect(2, 2, 4, 4)]
    );
}

#[test]
fn negative_size_rectangle_contributes_nothing() {
    assert_eq!(decompose(&[(Add, (10, 0, 0, 10))]), vec![]);
    assert_eq!(
        decompose(&[(Add, (0, 0, 10, 10)), (Add, (30, 0, 20, 10))]),
        vec![rect(0, 0, 10, 10)]
    );
}

/// Paints the operations onto a boolean grid in order, as a decomposition
/// oracle.
fn paint_grid(ops: &[(RegionOp, (i32, i32, i32, i32))], w: i32, h: i32) -> Vec<bool> {
    let mut grid = vec![false; (w * h) as usize];
    for (kind, (x1, y1, x2, y2)) in ops {
        for y in (*y1).max(0)..(*y2).min(h) {
            for x in (*x1).max(0)..(*x2).min(w) {
                grid[(y * w + x) as usize] = matches!(kind, RegionOp::Add);
            }
        }
    }
    grid
}

fn rects_grid(rects: &[Rect], w: i32, h: i32) -> Vec<bool> {
    let mut grid = vec![false; (w * h) as usize];
    for r in rects {
        for y in r.y1.max(0)..r.y2.min(h) {
            for x in r.x1.max(0)..r.x2.min(w) {
                grid[(y * w + x) as usize] = true;
            }
        }
    }
    grid
}

fn overlaps(a: &Rect, b: &Rect) -> bool {
    a.x1 < b.x2 && b.x1 < a.x2 && a.y1 < b.y2 && b.y1 < a.y2
}

#[test]
fn decomposition_matches_grid_oracle() {
    // A small deterministic generator over coordinates in 0..20.
    let mut state: u64 = 0x2545_f491_4f6c_dd1d;
    let mut next = move || {
        state ^= state << 13;
        state ^= state >> 7;
        state ^= state << 17;
        state
    };
    for _case in 0..200 {
        let n = (next() % 8 + 1) as usize;
        let mut ops = Vec::new();
        for _ in 0..n {
            let kind = if next() % 2 == 0 {
                RegionOp::Add
            } else {
                RegionOp::Subtract
            };
            let x = (next() % 20) as i32;
            let y = (next() % 20) as i32;
            let w = (next() % 20) as i32;
            let h = (next() % 20) as i32;
            ops.push((kind, (x, y, x + w, y + h)));
        }
        let out = decompose(&ops);

        // Covered area matches the painting oracle.
        assert_eq!(paint_grid(&ops, 40, 40), rects_grid(&out, 40, 40));

        // Output rectangles are non-empty and pairwise non-overlapping.
        for i in 0..out.len() {
            assert!(out[i].x1 < out[i].x2 && out[i].y1 < out[i].y2);
            for j in (i + 1)..out.len() {
                assert!(
                    !overlaps(&out[i], &out[j]),
                    "rectangles overlap: {:?} and {:?}",
                    out[i],
                    out[j]
                );
            }
        }
    }
}
