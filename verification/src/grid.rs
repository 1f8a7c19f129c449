//! Row-major positions in a grid.
use vstd::prelude::*;

verus! {

/// The position of row `r`, column `c` in a row-major grid with `cols` columns.
pub open spec fn cell(r: int, c: int, cols: int) -> int {
    r * cols + c
}

/// A cell inside the grid has a position inside the grid.
pub proof fn cell_inside(r: int, c: int, rows: int, cols: int)
    requires
        0 <= r < rows,
        0 <= c < cols,
    ensures
        0 <= r * cols <= cell(r, c, cols) < rows * cols,
        (r + 1) * cols <= rows * cols,
        r * cols + cols == (r + 1) * cols,
{
    assert(0 <= r * cols && r * cols + cols == (r + 1) * cols && (r + 1) * cols <= rows * cols)
        by (nonlinear_arith)
        requires
            0 <= r < rows,
            0 <= cols,
    ;
}

/// A position determines its row and its column.
pub proof fn cell_unique(r: int, c: int, cols: int)
    requires
        0 <= r,
        0 <= c < cols,
    ensures
        cell(r, c, cols) / cols == r,
        cell(r, c, cols) % cols == c,
{
    vstd::arithmetic::div_mod::lemma_fundamental_div_mod_converse(r * cols + c, cols, r, c);
}

/// Every position inside the grid is the cell of its row and column.
pub proof fn cell_onto(p: int, rows: int, cols: int)
    requires
        0 <= p < rows * cols,
        0 <= cols,
    ensures
        0 < cols,
        0 <= p / cols < rows,
        0 <= p % cols < cols,
        cell(p / cols, p % cols, cols) == p,
{
    assert(cols != 0) by (nonlinear_arith)
        requires
            0 <= p < rows * cols,
    ;
    vstd::arithmetic::div_mod::lemma_fundamental_div_mod(p, cols);
    assert(0 <= p / cols < rows && p / cols * cols == cols * (p / cols)) by (nonlinear_arith)
        requires
            0 <= p < rows * cols,
            cols > 0,
            p == cols * (p / cols) + p % cols,
            0 <= p % cols < cols,
    ;
}

} // verus!
