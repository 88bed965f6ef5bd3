//! The per-frame overlay plan: what to draw for every cell of the grid.

use crate::grid::{cell_code, cell_rect, letter_of, Grid, Rect};
use crate::session::{spec_highlight, Session};
use vstd::arithmetic::mul::{
    lemma_mul_inequality, lemma_mul_is_distributive_add_other_way, lemma_mul_nonnegative,
};
use vstd::prelude::*;

verus! {

/// Everything the overlay needs in order to draw one cell: its place in the
/// grid, its pixel rectangle, its code label, and whether it is to be drawn
/// highlighted against the typed buffer.
pub struct CellRender {
    pub column: usize,
    pub row: usize,
    pub rect: Rect,
    pub code: String,
    pub highlighted: bool,
}

/// What a correct render entry for the cell in column `cx` and row `ry`
/// holds, against the typed buffer `buf` and the grid `grid`.
pub open spec fn cell_render_ok(
    c: CellRender,
    buf: Seq<char>,
    grid: Grid,
    cx: int,
    ry: int,
) -> bool {
    &&& c.column == cx
    &&& c.row == ry
    &&& c.rect.left == grid.col_edge(cx)
    &&& c.rect.left + c.rect.width == grid.col_edge(cx + 1)
    &&& c.rect.top == grid.row_edge(ry)
    &&& c.rect.top + c.rect.height == grid.row_edge(ry + 1)
    &&& c.code@.len() == 2
    &&& c.code@[0] == letter_of(cx)
    &&& c.code@[1] == letter_of(ry)
    &&& c.highlighted == spec_highlight(buf, cx, ry)
}

/// In a row-major scan every position of an earlier row comes before the
/// first position of row `y`.
proof fn lemma_row_major_bound(cx: int, ry: int, y: int, size: int)
    requires
        0 <= cx < size,
        0 <= ry < y,
    ensures
        0 <= ry * size + cx < y * size,
{
    lemma_mul_nonnegative(ry, size);
    lemma_mul_is_distributive_add_other_way(size, ry, 1);
    lemma_mul_inequality(ry + 1, y, size);
}

/// The full drawing plan for one frame: one entry per cell, rows scanned
/// top to bottom and columns left to right within each row, each entry
/// placed, labeled and highlighted as the rendering contract asks.
pub fn render_plan(session: &Session, grid: &Grid) -> (cells: Vec<CellRender>)
    requires
        session.wf(),
        grid.wf(),
    ensures
        cells@.len() == grid.size * grid.size,
        forall|cx: int, ry: int|
            0 <= cx < grid.size && 0 <= ry < grid.size ==> cell_render_ok(
                #[trigger] cells@[ry * (grid.size as int) + cx],
                session@,
                *grid,
                cx,
                ry,
            ),
{
    let size = grid.size;
    let mut cells: Vec<CellRender> = Vec::new();
    let mut y: usize = 0;
    while y < size
        invariant
            session.wf(),
            grid.wf(),
            size == grid.size,
            y <= size,
            cells@.len() == y as int * size as int,
            forall|cx: int, ry: int|
                0 <= cx < size && 0 <= ry < y ==> cell_render_ok(
                    #[trigger] cells@[ry * (size as int) + cx],
                    session@,
                    *grid,
                    cx,
                    ry,
                ),
        decreases size - y,
    {
        let mut x: usize = 0;
        while x < size
            invariant
                session.wf(),
                grid.wf(),
                size == grid.size,
                y < size,
                x <= size,
                cells@.len() == y as int * size as int + x,
                forall|cx: int, ry: int|
                    0 <= cx < size && 0 <= ry < y ==> cell_render_ok(
                        #[trigger] cells@[ry * (size as int) + cx],
                        session@,
                        *grid,
                        cx,
                        ry,
                    ),
                forall|cx: int|
                    0 <= cx < x ==> cell_render_ok(
                        #[trigger] cells@[y as int * (size as int) + cx],
                        session@,
                        *grid,
                        cx,
                        y as int,
                    ),
            decreases size - x,
        {
            let rect = cell_rect(grid, x, y);
            let code = cell_code(x, y);
            let highlighted = session.should_highlight(x, y);
            cells.push(CellRender { column: x, row: y, rect, code, highlighted });
            proof {
                assert forall|cx: int, ry: int| 0 <= cx < size && 0 <= ry < y implies cell_render_ok(
                    #[trigger] cells@[ry * (size as int) + cx],
                    session@,
                    *grid,
                    cx,
                    ry,
                ) by {
                    lemma_row_major_bound(cx, ry, y as int, size as int);
                }
            }
            x += 1;
        }
        proof {
            lemma_mul_is_distributive_add_other_way(size as int, y as int, 1);
            assert forall|cx: int, ry: int| 0 <= cx < size && 0 <= ry < y + 1 implies cell_render_ok(
                #[trigger] cells@[ry * (size as int) + cx],
                session@,
                *grid,
                cx,
                ry,
            ) by {
                if ry == y as int {
                    assert(cell_render_ok(
                        cells@[y as int * (size as int) + cx],
                        session@,
                        *grid,
                        cx,
                        y as int,
                    ));
                }
            }
        }
        y += 1;
    }
    cells
}

} // verus!
