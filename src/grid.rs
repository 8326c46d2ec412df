//! Row-major grid indexing shared by the terrain and analysis passes.
use vstd::prelude::*;
use vstd::arithmetic::div_mod::{
    lemma_fundamental_div_mod,
    lemma_fundamental_div_mod_converse,
    lemma_div_pos_is_pos,
    lemma_mod_bound,
};

verus! {

/// Column of the cell stored at row-major index `i`.
pub open spec fn col_of(i: int, width: int) -> int {
    i % width
}

/// Row of the cell stored at row-major index `i`.
pub open spec fn row_of(i: int, width: int) -> int {
    i / width
}

/// Row-major index of the cell at column `x`, row `y`.
pub open spec fn index_of(x: int, y: int, width: int) -> int {
    y * width + x
}

/// A row-major index splits into a row and a column inside the grid.
pub proof fn lemma_index_split(i: int, width: int, height: int)
    requires
        0 <= i < width * height,
        width > 0,
    ensures
        0 <= col_of(i, width) < width,
        0 <= row_of(i, width) < height,
        i == index_of(col_of(i, width), row_of(i, width), width),
{
    lemma_fundamental_div_mod(i, width);
    lemma_div_pos_is_pos(i, width);
    lemma_mod_bound(i, width);
    let y = i / width;
    let x = i % width;
    assert(width * y == y * width) by (nonlinear_arith);
    if y >= height {
        assert(y * width >= height * width) by (nonlinear_arith)
            requires y >= height, width > 0;
        assert(height * width == width * height) by (nonlinear_arith);
    }
}

/// A column and a row inside the grid give an index inside the grid, from
/// which they are recovered.
pub proof fn lemma_index_join(x: int, y: int, width: int, height: int)
    requires
        0 <= x < width,
        0 <= y < height,
    ensures
        0 <= index_of(x, y, width) < width * height,
        col_of(index_of(x, y, width), width) == x,
        row_of(index_of(x, y, width), width) == y,
{
    assert(0 <= y * width) by (nonlinear_arith)
        requires 0 <= y, 0 < width;
    assert(y * width + x < width * height) by (nonlinear_arith)
        requires 0 <= x < width, 0 <= y < height;
    lemma_fundamental_div_mod_converse(y * width + x, width, y, x);
}

} // verus!
