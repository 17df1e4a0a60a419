//! Cells of a `w` by `h` grid stored row by row.

use vstd::arithmetic::div_mod::{lemma_fundamental_div_mod, lemma_fundamental_div_mod_converse};
use vstd::arithmetic::mul::{lemma_mul_inequality, lemma_mul_is_commutative};
use vstd::prelude::*;

verus! {

/// Where the cell in column `x` of row `y` is stored when rows are `w` wide.
pub open spec fn cell(w: int, x: int, y: int) -> int {
    y * w + x
}

/// The column of a stored position.
pub open spec fn column(w: int, i: int) -> int {
    i % w
}

/// The row of a stored position.
pub open spec fn row(w: int, i: int) -> int {
    i / w
}

/// A column and a row inside the grid give a position inside the storage, and
/// the position gives the column and the row back.
pub proof fn lemma_cell(w: int, h: int, x: int, y: int)
    requires
        0 <= x < w,
        0 <= y < h,
    ensures
        0 <= cell(w, x, y) < w * h,
        column(w, cell(w, x, y)) == x,
        row(w, cell(w, x, y)) == y,
        0 <= y * w,
        (y + 1) * w <= w * h,
        (y + 1) * w == y * w + w,
{
    lemma_mul_inequality(0, y, w);
    lemma_mul_inequality(y + 1, h, w);
    lemma_mul_is_commutative(h, w);
    assert((y + 1) * w == y * w + w) by (nonlinear_arith);
    lemma_fundamental_div_mod_converse(cell(w, x, y), w, y, x);
}

/// A position inside the storage is the position of its own column and row.
pub proof fn lemma_position(w: int, h: int, i: int)
    requires
        w > 0,
        0 <= i < w * h,
    ensures
        0 <= column(w, i) < w,
        0 <= row(w, i) < h,
        cell(w, column(w, i), row(w, i)) == i,
{
    lemma_fundamental_div_mod(i, w);
    assert(0 <= i / w < h && (i / w) * w == w * (i / w)) by (nonlinear_arith)
        requires
            w > 0,
            0 <= i < w * h,
            i == w * (i / w) + i % w,
            0 <= i % w < w,
    ;
}

} // verus!
