//! The square pattern of a level and its index arithmetic.
//!
//! A level `L` has a pattern of `2L - 1` rows and as many columns. A cell is
//! named by its index `row * (2L - 1) + col`, with rows and columns counted
//! from zero. The middle cell is the one the cursor stands on.
use vstd::prelude::*;
use vstd::arithmetic::div_mod::lemma_fundamental_div_mod;
use vstd::arithmetic::div_mod::lemma_fundamental_div_mod_converse;

verus! {

/// Rows, and columns, of the pattern of `level`.
pub open spec fn side(level: int) -> int {
    2 * level - 1
}

/// Cells of the pattern of `level`.
pub open spec fn cell_count(level: int) -> int {
    side(level) * side(level)
}

/// Row of the cell `idx`.
pub open spec fn row(level: int, idx: int) -> int {
    idx / side(level)
}

/// Column of the cell `idx`.
pub open spec fn col(level: int, idx: int) -> int {
    idx % side(level)
}

/// Index of the cell in `row` and `col`.
pub open spec fn index_at(level: int, row: int, col: int) -> int {
    row * side(level) + col
}

/// Whether `idx` names a cell of the pattern of `level`.
pub open spec fn in_pattern(level: int, idx: int) -> bool {
    0 <= idx < cell_count(level)
}

/// Where a quarter turn of the pattern carries the cell `idx`: the cell of row
/// `r` and column `c` goes to row `c` and column `2L - 2 - r`.
pub open spec fn rotated_index(level: int, idx: int) -> int {
    index_at(level, col(level, idx), side(level) - 1 - row(level, idx))
}

/// Side, in pixels, of the square that the pattern covers when a cell is
/// `cell` pixels wide.
pub open spec fn footprint_width(level: int, cell: int) -> int {
    cell + (level - 1) * 2 * cell
}

/// Horizontal distance in pixels from the middle cell to the cell `idx`.
pub open spec fn offset_x(level: int, cell: int, idx: int) -> int {
    (row(level, idx) - (level - 1)) * cell
}

/// Vertical distance in pixels from the middle cell to the cell `idx`.
pub open spec fn offset_y(level: int, cell: int, idx: int) -> int {
    (col(level, idx) - (level - 1)) * cell
}

/// Row and column of a cell lie within the pattern, and give its index back.
pub proof fn lemma_row_col(level: int, idx: int)
    requires
        level >= 1,
        in_pattern(level, idx),
    ensures
        0 <= row(level, idx) < side(level),
        0 <= col(level, idx) < side(level),
        index_at(level, row(level, idx), col(level, idx)) == idx,
{
    let n = side(level);
    lemma_fundamental_div_mod(idx, n);
    let q = idx / n;
    assert(0 <= q < n) by (nonlinear_arith)
        requires
            n > 0,
            0 <= idx < n * n,
            idx == n * q + idx % n,
            0 <= idx % n < n,
    ;
    assert(q * n == n * q) by (nonlinear_arith);
}

/// A row and a column within the pattern name a cell, whose row and column
/// they are.
pub proof fn lemma_index_at(level: int, r: int, c: int)
    requires
        level >= 1,
        0 <= r < side(level),
        0 <= c < side(level),
    ensures
        in_pattern(level, index_at(level, r, c)),
        row(level, index_at(level, r, c)) == r,
        col(level, index_at(level, r, c)) == c,
{
    let n = side(level);
    lemma_fundamental_div_mod_converse(r * n + c, n, r, c);
    assert(0 <= r * n + c < n * n) by (nonlinear_arith)
        requires
            0 <= r < n,
            0 <= c < n,
    ;
}

/// A quarter turn carries each cell of the pattern to a cell of the pattern,
/// the row becoming the column.
pub proof fn lemma_rotated_index(level: int, idx: int)
    requires
        level >= 1,
        in_pattern(level, idx),
    ensures
        in_pattern(level, rotated_index(level, idx)),
        row(level, rotated_index(level, idx)) == col(level, idx),
        col(level, rotated_index(level, idx)) == side(level) - 1 - row(level, idx),
{
    lemma_row_col(level, idx);
    lemma_index_at(level, col(level, idx), side(level) - 1 - row(level, idx));
}

/// A quarter turn carries the cell at the offset `(x, y)` to the cell at the
/// offset `(y, -x)`.
pub proof fn lemma_rotated_offset(level: int, cell: int, idx: int)
    requires
        level >= 1,
        in_pattern(level, idx),
    ensures
        offset_x(level, cell, rotated_index(level, idx)) == offset_y(level, cell, idx),
        offset_y(level, cell, rotated_index(level, idx)) == -offset_x(level, cell, idx),
{
    lemma_rotated_index(level, idx);
    let r = row(level, idx);
    let h = level - 1;
    assert((2 * level - 1 - 1 - r - h) * cell == -((r - h) * cell)) by (nonlinear_arith)
        requires
            h == level - 1,
    ;
}

/// Four quarter turns carry each cell of the pattern back to itself.
pub proof fn lemma_four_turns(level: int, idx: int)
    requires
        level >= 1,
        in_pattern(level, idx),
    ensures
        rotated_index(
            level,
            rotated_index(level, rotated_index(level, rotated_index(level, idx))),
        ) == idx,
{
    let a = rotated_index(level, idx);
    let b = rotated_index(level, a);
    let c = rotated_index(level, b);
    lemma_row_col(level, idx);
    lemma_rotated_index(level, idx);
    lemma_rotated_index(level, a);
    lemma_rotated_index(level, b);
    lemma_rotated_index(level, c);
    lemma_row_col(level, rotated_index(level, c));
}

/// Two cells of the pattern that a quarter turn carries to one cell are one
/// cell.
pub proof fn lemma_rotated_injective(level: int, i: int, j: int)
    requires
        level >= 1,
        in_pattern(level, i),
        in_pattern(level, j),
        rotated_index(level, i) == rotated_index(level, j),
    ensures
        i == j,
{
    lemma_rotated_index(level, i);
    lemma_rotated_index(level, j);
    lemma_row_col(level, i);
    lemma_row_col(level, j);
}

} // verus!
