//! The addressing scheme: letters for grid indices and two-letter cell codes.

use vstd::arithmetic::div_mod::{
    lemma_div_by_multiple, lemma_div_is_ordered, lemma_div_nonincreasing, lemma_div_of0,
    lemma_div_pos_is_pos,
};
use vstd::arithmetic::mul::{
    lemma_mul_inequality, lemma_mul_is_commutative, lemma_mul_nonnegative, lemma_mul_upper_bound,
};
use vstd::prelude::*;

verus! {

/// A pixel-aligned rectangle on the screen: a top-left corner and an extent.
pub struct Rect {
    pub left: i32,
    pub top: i32,
    pub width: i32,
    pub height: i32,
}

impl Rect {
    /// A rectangle is well formed when its extent is nonnegative and its far
    /// corner still fits in pixel coordinates.
    pub open spec fn wf(self) -> bool {
        &&& 0 <= self.width
        &&& 0 <= self.height
        &&& self.left + self.width <= i32::MAX
        &&& self.top + self.height <= i32::MAX
    }
}

/// The distance from the near edge of an axis of extent `extent` to the
/// `k`-th of the `size + 1` evenly spaced grid lines along it.
pub open spec fn grid_line(k: int, extent: int, size: int) -> int {
    (k * extent) / size
}

/// The fixed grid a session lays over the screen: `size` rows and `size`
/// columns subdividing `bounds` evenly.
pub struct Grid {
    pub size: usize,
    pub bounds: Rect,
}

impl Grid {
    /// A grid is well formed when its bounds are and its size is at least one
    /// cell and at most the alphabet length, so that every row and column
    /// index has its own letter.
    pub open spec fn wf(self) -> bool {
        &&& 1 <= self.size <= 26
        &&& self.bounds.wf()
    }

    /// The x coordinate of the `k`-th vertical grid line, counting from the
    /// left edge of the bounds; line `size` is the right edge.
    pub open spec fn col_edge(self, k: int) -> int {
        self.bounds.left + grid_line(k, self.bounds.width as int, self.size as int)
    }

    /// The y coordinate of the `k`-th horizontal grid line, counting from the
    /// top edge of the bounds; line `size` is the bottom edge.
    pub open spec fn row_edge(self, k: int) -> int {
        self.bounds.top + grid_line(k, self.bounds.height as int, self.size as int)
    }

    /// The x coordinate of the center of any cell in column `k`.
    pub open spec fn cell_center_x(self, k: int) -> int {
        self.col_edge(k) + (self.col_edge(k + 1) - self.col_edge(k)) / 2
    }

    /// The y coordinate of the center of any cell in row `k`.
    pub open spec fn cell_center_y(self, k: int) -> int {
        self.row_edge(k) + (self.row_edge(k + 1) - self.row_edge(k)) / 2
    }
}

/// A grid line stays between the two ends of its axis.
proof fn lemma_edge_within(k: int, extent: int, size: int)
    requires
        0 <= k <= size,
        0 <= extent,
        1 <= size,
    ensures
        0 <= grid_line(k, extent, size) <= extent,
{
    lemma_mul_nonnegative(k, extent);
    lemma_div_pos_is_pos(k * extent, size);
    lemma_mul_inequality(k, size, extent);
    lemma_div_is_ordered(k * extent, size * extent, size);
    lemma_mul_is_commutative(size, extent);
    lemma_div_by_multiple(extent, size);
}

/// Grid lines never cross: each one lies at or to the right of the one
/// before it.
proof fn lemma_edge_monotone(k: int, extent: int, size: int)
    requires
        0 <= k,
        0 <= extent,
        1 <= size,
    ensures
        grid_line(k, extent, size) <= grid_line(k + 1, extent, size),
{
    lemma_mul_inequality(k, k + 1, extent);
    lemma_div_is_ordered(k * extent, (k + 1) * extent, size);
}

/// Grid lines keep their order over any distance: an earlier line never
/// lies to the right of a later one.
proof fn lemma_edge_monotone_range(k1: int, k2: int, extent: int, size: int)
    requires
        0 <= k1 <= k2,
        0 <= extent,
        1 <= size,
    ensures
        grid_line(k1, extent, size) <= grid_line(k2, extent, size),
    decreases k2 - k1,
{
    if k1 < k2 {
        lemma_edge_monotone(k2 - 1, extent, size);
        lemma_edge_monotone_range(k1, k2 - 1, extent, size);
    }
}

/// Every offset short of the axis extent falls between one pair of
/// consecutive grid lines among the first `k`, provided it falls short of
/// line `k` itself.
proof fn lemma_offset_has_a_cell(x: int, k: int, extent: int, size: int)
    requires
        1 <= size,
        0 <= extent,
        1 <= k <= size,
        0 <= x < grid_line(k, extent, size),
    ensures
        exists|c: int|
            0 <= c < k && #[trigger] grid_line(c, extent, size) <= x < grid_line(
                c + 1,
                extent,
                size,
            ),
    decreases k,
{
    if grid_line(k - 1, extent, size) <= x {
        assert(0 <= k - 1 < k && grid_line(k - 1, extent, size) <= x < grid_line(
            k - 1 + 1,
            extent,
            size,
        ));
    } else {
        lemma_div_of0(size);
        assert(grid_line(0, extent, size) == 0);
        lemma_offset_has_a_cell(x, k - 1, extent, size);
        let c = choose|c: int|
            0 <= c < k - 1 && #[trigger] grid_line(c, extent, size) <= x < grid_line(
                c + 1,
                extent,
                size,
            );
        assert(0 <= c < k && grid_line(c, extent, size) <= x < grid_line(c + 1, extent, size));
    }
}

/// The character that labels row or column `i`: the `i`-th uppercase letter.
pub open spec fn letter_of(i: int) -> char
    recommends
        0 <= i < 26,
{
    ((65 + i) as u8) as char
}

/// Maps a row or column index to its letter: `0` to `'A'`, `1` to `'B'`, and
/// so on. Only indices below the alphabet length are meaningful.
pub fn idx_to_letter(idx: usize) -> (c: char)
    requires
        idx < 26,
    ensures
        c == letter_of(idx as int),
{
    (65u8 + idx as u8) as char
}

/// Whether `c` is one of the characters that may label a row or a column:
/// an uppercase ASCII letter.
pub open spec fn is_code_letter(c: char) -> bool {
    65 <= c as int <= 90
}

/// The index whose letter is `c`: the inverse of `letter_of` on the alphabet.
pub open spec fn index_of_letter(c: char) -> int {
    c as int - 65
}

/// Maps a code letter back to its row or column index: `'A'` to `0`, `'B'`
/// to `1`, and so on.
pub fn letter_to_idx(c: char) -> (idx: usize)
    requires
        is_code_letter(c),
    ensures
        idx == index_of_letter(c),
        idx < 26,
{
    ((c as u32) - 65) as usize
}

/// Relies on `String::push`: appends the given character to the end of the
/// string.
#[verifier::external_body]
fn push_char(s: &mut String, c: char)
    ensures
        final(s)@ == old(s)@.push(c),
{
    s.push(c)
}

/// The two-letter code of the cell in column `x` and row `y`: the column
/// letter first, then the row letter.
pub fn cell_code(x: usize, y: usize) -> (code: String)
    requires
        x < 26,
        y < 26,
    ensures
        code@.len() == 2,
        code@[0] == letter_of(x as int),
        code@[1] == letter_of(y as int),
{
    let c1 = idx_to_letter(x); // column letter
    let c2 = idx_to_letter(y); // row letter
    let mut code = String::new();
    push_char(&mut code, c1);
    push_char(&mut code, c2);
    code
}

/// The pixel rectangle of the cell in column `column` and row `row`: the
/// grid's bounds divided into a `size` by `size` uniform grid, with cell
/// edges on the integer grid lines.
pub fn cell_rect(grid: &Grid, column: usize, row: usize) -> (r: Rect)
    requires
        grid.wf(),
        column < grid.size,
        row < grid.size,
    ensures
        r.left == grid.col_edge(column as int),
        r.top == grid.row_edge(row as int),
        r.left + r.width == grid.col_edge(column as int + 1),
        r.top + r.height == grid.row_edge(row as int + 1),
        r.wf(),
{
    proof {
        lemma_mul_nonnegative(column as int, grid.bounds.width as int);
        lemma_mul_nonnegative(column as int + 1, grid.bounds.width as int);
        lemma_mul_upper_bound(column as int, 25, grid.bounds.width as int, i32::MAX as int);
        lemma_mul_upper_bound(column as int + 1, 26, grid.bounds.width as int, i32::MAX as int);
        lemma_mul_nonnegative(row as int, grid.bounds.height as int);
        lemma_mul_nonnegative(row as int + 1, grid.bounds.height as int);
        lemma_mul_upper_bound(row as int, 25, grid.bounds.height as int, i32::MAX as int);
        lemma_mul_upper_bound(row as int + 1, 26, grid.bounds.height as int, i32::MAX as int);
        lemma_edge_within(column as int, grid.bounds.width as int, grid.size as int);
        lemma_edge_within(column as int + 1, grid.bounds.width as int, grid.size as int);
        lemma_edge_monotone(column as int, grid.bounds.width as int, grid.size as int);
        lemma_edge_within(row as int, grid.bounds.height as int, grid.size as int);
        lemma_edge_within(row as int + 1, grid.bounds.height as int, grid.size as int);
        lemma_edge_monotone(row as int, grid.bounds.height as int, grid.size as int);
    }
    let size = grid.size as i64;
    let x0 = grid.bounds.left as i64 + (column as i64 * grid.bounds.width as i64) / size;
    let x1 = grid.bounds.left as i64 + ((column as i64 + 1) * grid.bounds.width as i64) / size;
    let y0 = grid.bounds.top as i64 + (row as i64 * grid.bounds.height as i64) / size;
    let y1 = grid.bounds.top as i64 + ((row as i64 + 1) * grid.bounds.height as i64) / size;
    Rect {
        left: x0 as i32,
        top: y0 as i32,
        width: (x1 - x0) as i32,
        height: (y1 - y0) as i32,
    }
}

/// The pixel at the center of the cell in the given column and row: the
/// point a session resolves to when that cell's code is typed.
pub fn cell_center(grid: &Grid, column: usize, row: usize) -> (p: (i32, i32))
    requires
        grid.wf(),
        column < grid.size,
        row < grid.size,
    ensures
        p.0 == grid.cell_center_x(column as int),
        p.1 == grid.cell_center_y(row as int),
{
    let r = cell_rect(grid, column, row);
    (r.left + r.width / 2, r.top + r.height / 2)
}

/// The cell rectangles tile the grid's bounds exactly: along each axis the
/// first cell starts at the bounds' near edge, the last cell ends at the far
/// edge, the grid lines never cross, and each cell ends exactly where the
/// next one begins — no gaps and no overlaps.
pub proof fn lemma_cells_tile(grid: Grid)
    requires
        grid.wf(),
    ensures
        grid.col_edge(0) == grid.bounds.left,
        grid.col_edge(grid.size as int) == grid.bounds.left + grid.bounds.width,
        grid.row_edge(0) == grid.bounds.top,
        grid.row_edge(grid.size as int) == grid.bounds.top + grid.bounds.height,
        forall|k: int|
            0 <= k < grid.size ==> #[trigger] grid.col_edge(k) <= grid.col_edge(k + 1),
        forall|k: int|
            0 <= k < grid.size ==> #[trigger] grid.row_edge(k) <= grid.row_edge(k + 1),
        forall|k: int|
            0 <= k <= grid.size ==> grid.bounds.left <= #[trigger] grid.col_edge(k)
                <= grid.bounds.left + grid.bounds.width,
        forall|k: int|
            0 <= k <= grid.size ==> grid.bounds.top <= #[trigger] grid.row_edge(k)
                <= grid.bounds.top + grid.bounds.height,
{
    let size = grid.size as int;
    let w = grid.bounds.width as int;
    let h = grid.bounds.height as int;
    lemma_div_of0(size);
    lemma_mul_is_commutative(size, w);
    lemma_div_by_multiple(w, size);
    lemma_mul_is_commutative(size, h);
    lemma_div_by_multiple(h, size);
    assert forall|k: int| 0 <= k < grid.size implies #[trigger] grid.col_edge(k)
        <= grid.col_edge(k + 1) by {
        lemma_edge_monotone(k, w, size);
    }
    assert forall|k: int| 0 <= k < grid.size implies #[trigger] grid.row_edge(k)
        <= grid.row_edge(k + 1) by {
        lemma_edge_monotone(k, h, size);
    }
    assert forall|k: int| 0 <= k <= grid.size implies grid.bounds.left
        <= #[trigger] grid.col_edge(k) <= grid.bounds.left + grid.bounds.width by {
        lemma_edge_within(k, w, size);
    }
    assert forall|k: int| 0 <= k <= grid.size implies grid.bounds.top
        <= #[trigger] grid.row_edge(k) <= grid.bounds.top + grid.bounds.height by {
        lemma_edge_within(k, h, size);
    }
}

/// Between them the columns cover every x coordinate inside the bounds
/// exactly once: each such x falls within one column's span and only one.
pub proof fn lemma_point_in_exactly_one_column(grid: Grid, x: int)
    requires
        grid.wf(),
        grid.bounds.left <= x < grid.bounds.left + grid.bounds.width,
    ensures
        exists|c: int|
            0 <= c < grid.size && #[trigger] grid.col_edge(c) <= x < grid.col_edge(c + 1),
        forall|c1: int, c2: int|
            #![trigger grid.col_edge(c1), grid.col_edge(c2)]
            0 <= c1 < grid.size && grid.col_edge(c1) <= x < grid.col_edge(c1 + 1) && 0 <= c2
                < grid.size && grid.col_edge(c2) <= x < grid.col_edge(c2 + 1) ==> c1 == c2,
{
    let size = grid.size as int;
    let w = grid.bounds.width as int;
    let off = x - grid.bounds.left;
    lemma_mul_is_commutative(size, w);
    lemma_div_by_multiple(w, size);
    assert(grid_line(size, w, size) == w);
    lemma_offset_has_a_cell(off, size, w, size);
    let c = choose|c: int|
        0 <= c < size && #[trigger] grid_line(c, w, size) <= off < grid_line(c + 1, w, size);
    assert(0 <= c < grid.size && grid.col_edge(c) <= x < grid.col_edge(c + 1));
    assert forall|c1: int, c2: int|
        #![trigger grid.col_edge(c1), grid.col_edge(c2)]
        0 <= c1 < grid.size && grid.col_edge(c1) <= x < grid.col_edge(c1 + 1) && 0 <= c2
            < grid.size && grid.col_edge(c2) <= x < grid.col_edge(c2 + 1) implies c1 == c2 by {
        if c1 < c2 {
            lemma_edge_monotone_range(c1 + 1, c2, w, size);
        }
        if c2 < c1 {
            lemma_edge_monotone_range(c2 + 1, c1, w, size);
        }
    }
}

/// Between them the rows cover every y coordinate inside the bounds exactly
/// once: each such y falls within one row's span and only one.
pub proof fn lemma_point_in_exactly_one_row(grid: Grid, y: int)
    requires
        grid.wf(),
        grid.bounds.top <= y < grid.bounds.top + grid.bounds.height,
    ensures
        exists|r: int|
            0 <= r < grid.size && #[trigger] grid.row_edge(r) <= y < grid.row_edge(r + 1),
        forall|r1: int, r2: int|
            #![trigger grid.row_edge(r1), grid.row_edge(r2)]
            0 <= r1 < grid.size && grid.row_edge(r1) <= y < grid.row_edge(r1 + 1) && 0 <= r2
                < grid.size && grid.row_edge(r2) <= y < grid.row_edge(r2 + 1) ==> r1 == r2,
{
    let size = grid.size as int;
    let h = grid.bounds.height as int;
    let off = y - grid.bounds.top;
    lemma_mul_is_commutative(size, h);
    lemma_div_by_multiple(h, size);
    assert(grid_line(size, h, size) == h);
    lemma_offset_has_a_cell(off, size, h, size);
    let r = choose|r: int|
        0 <= r < size && #[trigger] grid_line(r, h, size) <= off < grid_line(r + 1, h, size);
    assert(0 <= r < grid.size && grid.row_edge(r) <= y < grid.row_edge(r + 1));
    assert forall|r1: int, r2: int|
        #![trigger grid.row_edge(r1), grid.row_edge(r2)]
        0 <= r1 < grid.size && grid.row_edge(r1) <= y < grid.row_edge(r1 + 1) && 0 <= r2
            < grid.size && grid.row_edge(r2) <= y < grid.row_edge(r2 + 1) implies r1 == r2 by {
        if r1 < r2 {
            lemma_edge_monotone_range(r1 + 1, r2, h, size);
        }
        if r2 < r1 {
            lemma_edge_monotone_range(r2 + 1, r1, h, size);
        }
    }
}

/// A cell's center never leaves the cell's own span, and so a resolved
/// coordinate never leaves the grid's bounds.
pub proof fn lemma_center_within_bounds(grid: Grid, column: int, row: int)
    requires
        grid.wf(),
        0 <= column < grid.size,
        0 <= row < grid.size,
    ensures
        grid.col_edge(column) <= grid.cell_center_x(column) <= grid.col_edge(column + 1),
        grid.row_edge(row) <= grid.cell_center_y(row) <= grid.row_edge(row + 1),
        grid.bounds.left <= grid.cell_center_x(column) <= grid.bounds.left + grid.bounds.width,
        grid.bounds.top <= grid.cell_center_y(row) <= grid.bounds.top + grid.bounds.height,
{
    let size = grid.size as int;
    let w = grid.bounds.width as int;
    let h = grid.bounds.height as int;
    lemma_edge_monotone(column, w, size);
    let dw = grid.col_edge(column + 1) - grid.col_edge(column);
    lemma_div_pos_is_pos(dw, 2);
    lemma_div_nonincreasing(dw, 2);
    lemma_edge_monotone(row, h, size);
    let dh = grid.row_edge(row + 1) - grid.row_edge(row);
    lemma_div_pos_is_pos(dh, 2);
    lemma_div_nonincreasing(dh, 2);
    lemma_div_of0(size);
    lemma_edge_monotone_range(0, column, w, size);
    lemma_edge_monotone_range(column + 1, size, w, size);
    lemma_mul_is_commutative(size, w);
    lemma_div_by_multiple(w, size);
    lemma_edge_monotone_range(0, row, h, size);
    lemma_edge_monotone_range(row + 1, size, h, size);
    lemma_mul_is_commutative(size, h);
    lemma_div_by_multiple(h, size);
}

/// Each index in the alphabet gets its own letter: the labeling of rows and
/// of columns never reuses a character.
pub proof fn lemma_letter_of_injective(i: int, j: int)
    requires
        0 <= i < 26,
        0 <= j < 26,
        letter_of(i) == letter_of(j),
    ensures
        i == j,
{
}

/// Every label the grid uses is an uppercase ASCII letter.
pub proof fn lemma_letter_of_uppercase(i: int)
    requires
        0 <= i < 26,
    ensures
        is_code_letter(letter_of(i)),
{
}

/// A cell code round-trips: reading the two letters of `cell_code` back
/// through the inverse of `letter_of` recovers exactly the column and the
/// row they were made from.
pub proof fn lemma_code_round_trip(column: int, row: int)
    requires
        0 <= column < 26,
        0 <= row < 26,
    ensures
        index_of_letter(letter_of(column)) == column,
        index_of_letter(letter_of(row)) == row,
{
}

} // verus!
