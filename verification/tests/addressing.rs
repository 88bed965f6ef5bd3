use mouseless::grid::{cell_code, cell_rect, idx_to_letter, letter_to_idx, Grid, Rect};

#[test]
fn letters_are_uppercase_and_distinct() {
    let mut seen = [false; 26];
    for idx in 0..26 {
        let c = idx_to_letter(idx);
        assert!(c.is_ascii_uppercase());
        let slot = (c as u8 - b'A') as usize;
        assert!(!seen[slot], "letter {c} produced twice");
        seen[slot] = true;
    }
}

#[test]
fn letter_of_first_and_last_index() {
    assert_eq!(idx_to_letter(0), 'A');
    assert_eq!(idx_to_letter(1), 'B');
    assert_eq!(idx_to_letter(25), 'Z');
}

#[test]
fn letters_round_trip_for_every_cell() {
    for column in 0..26 {
        for row in 0..26 {
            let code = cell_code(column, row);
            let mut chars = code.chars();
            let c0 = chars.next().unwrap();
            let c1 = chars.next().unwrap();
            assert!(chars.next().is_none());
            assert_eq!(letter_to_idx(c0), column);
            assert_eq!(letter_to_idx(c1), row);
        }
    }
}

#[test]
fn cell_code_is_column_letter_then_row_letter() {
    assert_eq!(cell_code(0, 0), "AA");
    assert_eq!(cell_code(1, 0), "BA");
    assert_eq!(cell_code(0, 1), "AB");
    assert_eq!(cell_code(25, 25), "ZZ");
    assert_eq!(cell_code(7, 3), "HD");
}

fn demo_grid(left: i32, top: i32, width: i32, height: i32, size: usize) -> Grid {
    Grid {
        size,
        bounds: Rect {
            left,
            top,
            width,
            height,
        },
    }
}

#[test]
fn cell_rects_tile_the_bounds_exactly() {
    // A width that 26 does not divide, and an origin off zero: the cells must
    // still cover every pixel of the bounds with no gap and no overlap.
    let grid = demo_grid(-13, 7, 2601, 1083, 26);
    for row in 0..26 {
        let mut next_left = grid.bounds.left;
        let mut last_right = grid.bounds.left;
        for column in 0..26 {
            let r = cell_rect(&grid, column, row);
            assert_eq!(r.left, next_left, "gap or overlap before column {column}");
            assert!(r.width >= 0);
            next_left = r.left + r.width;
            last_right = next_left;
        }
        assert_eq!(last_right, grid.bounds.left + grid.bounds.width);
    }
    for column in 0..26 {
        let mut next_top = grid.bounds.top;
        let mut last_bottom = grid.bounds.top;
        for row in 0..26 {
            let r = cell_rect(&grid, column, row);
            assert_eq!(r.top, next_top, "gap or overlap before row {row}");
            assert!(r.height >= 0);
            next_top = r.top + r.height;
            last_bottom = next_top;
        }
        assert_eq!(last_bottom, grid.bounds.top + grid.bounds.height);
    }
}

#[test]
fn tiny_bounds_still_tile_and_keep_centers_inside() {
    // Bounds far smaller than the grid: most cells collapse to zero width or
    // height, yet the cells still tile the bounds and every center stays
    // inside them.
    let grid = demo_grid(5, -9, 13, 7, 26);
    for row in 0..26 {
        let mut next_left = grid.bounds.left;
        for column in 0..26 {
            let r = cell_rect(&grid, column, row);
            assert_eq!(r.left, next_left);
            assert!(r.width >= 0);
            next_left = r.left + r.width;

            let (cx, cy) = mouseless::grid::cell_center(&grid, column, row);
            assert!(grid.bounds.left <= cx && cx <= grid.bounds.left + grid.bounds.width);
            assert!(grid.bounds.top <= cy && cy <= grid.bounds.top + grid.bounds.height);
        }
        assert_eq!(next_left, grid.bounds.left + grid.bounds.width);
    }
}

#[test]
fn cell_rect_of_evenly_divisible_bounds() {
    let grid = demo_grid(0, 0, 2600, 1300, 26);
    let r = cell_rect(&grid, 0, 0);
    assert_eq!((r.left, r.top, r.width, r.height), (0, 0, 100, 50));
    let r = cell_rect(&grid, 3, 2);
    assert_eq!((r.left, r.top, r.width, r.height), (300, 100, 100, 50));
    let r = cell_rect(&grid, 25, 25);
    assert_eq!((r.left, r.top, r.width, r.height), (2500, 1250, 100, 50));
}
