//! Strided views over the storage of a matrix.

use vstd::prelude::*;

use super::matrix::MatrixRead;

verus! {

/// A read-only window of a matrix: element (i, j) is
/// `data[offset + i * row_stride + j * col_stride]`.
pub struct MatrixView<'a, T> {
    pub rows: usize,
    pub cols: usize,
    pub data: &'a [T],
    pub offset: usize,
    pub row_stride: usize,
    pub col_stride: usize,
}

/// A writable window of a matrix, laid out as `MatrixView`.
pub struct MatrixViewMut<'a, T> {
    pub rows: usize,
    pub cols: usize,
    pub data: &'a mut [T],
    pub offset: usize,
    pub row_stride: usize,
    pub col_stride: usize,
}

/// One row: element j is `data[offset + j * col_stride]`.
pub struct RowView<'a, T> {
    pub cols: usize,
    pub data: &'a [T],
    pub offset: usize,
    pub col_stride: usize,
}

/// One writable row, laid out as `RowView`.
pub struct RowViewMut<'a, T> {
    pub cols: usize,
    pub data: &'a mut [T],
    pub offset: usize,
    pub col_stride: usize,
}

/// One column: element i is `data[offset + i * row_stride]`.
pub struct ColView<'a, T> {
    pub rows: usize,
    pub data: &'a [T],
    pub offset: usize,
    pub row_stride: usize,
}

/// One writable column, laid out as `ColView`.
pub struct ColViewMut<'a, T> {
    pub rows: usize,
    pub data: &'a mut [T],
    pub offset: usize,
    pub row_stride: usize,
}

impl<'a, T> MatrixRead<T> for MatrixView<'a, T> {
    open spec fn nrows(&self) -> nat {
        self.rows as nat
    }

    open spec fn ncols(&self) -> nat {
        self.cols as nat
    }

    open spec fn storage(&self) -> Seq<T> {
        self.data@
    }

    open spec fn index_of(&self, row: int, col: int) -> int {
        self.offset + row * self.row_stride + col * self.col_stride
    }

    fn rows(&self) -> (n: usize) {
        self.rows
    }

    fn cols(&self) -> (n: usize) {
        self.cols
    }

    fn get(&self, row: usize, col: usize) -> (v: &T) {
        let len: usize = self.data.len();
        proof {
            vstd::arithmetic::mul::lemma_mul_nonnegative(row as int, self.row_stride as int);
            vstd::arithmetic::mul::lemma_mul_nonnegative(col as int, self.col_stride as int);
        }
        let index = self.offset + row * self.row_stride + col * self.col_stride;
        &self.data[index]
    }
}

impl<'a, T> MatrixRead<T> for MatrixViewMut<'a, T> {
    open spec fn nrows(&self) -> nat {
        self.rows as nat
    }

    open spec fn ncols(&self) -> nat {
        self.cols as nat
    }

    open spec fn storage(&self) -> Seq<T> {
        self.data@
    }

    open spec fn index_of(&self, row: int, col: int) -> int {
        self.offset + row * self.row_stride + col * self.col_stride
    }

    fn rows(&self) -> (n: usize) {
        self.rows
    }

    fn cols(&self) -> (n: usize) {
        self.cols
    }

    fn get(&self, row: usize, col: usize) -> (v: &T) {
        let len: usize = self.data.len();
        proof {
            vstd::arithmetic::mul::lemma_mul_nonnegative(row as int, self.row_stride as int);
            vstd::arithmetic::mul::lemma_mul_nonnegative(col as int, self.col_stride as int);
        }
        let index = self.offset + row * self.row_stride + col * self.col_stride;
        &self.data[index]
    }
}

impl<'a, T> MatrixRead<T> for RowView<'a, T> {
    open spec fn nrows(&self) -> nat {
        1
    }

    open spec fn ncols(&self) -> nat {
        self.cols as nat
    }

    open spec fn storage(&self) -> Seq<T> {
        self.data@
    }

    /// The row index is not read: every row index addresses the one row.
    open spec fn index_of(&self, row: int, col: int) -> int {
        self.offset + col * self.col_stride
    }

    fn rows(&self) -> (n: usize) {
        1
    }

    fn cols(&self) -> (n: usize) {
        self.cols
    }

    fn get(&self, row: usize, col: usize) -> (v: &T) {
        let len: usize = self.data.len();
        proof {
            vstd::arithmetic::mul::lemma_mul_nonnegative(col as int, self.col_stride as int);
        }
        let index = self.offset + col * self.col_stride;
        &self.data[index]
    }
}

impl<'a, T> MatrixRead<T> for RowViewMut<'a, T> {
    open spec fn nrows(&self) -> nat {
        1
    }

    open spec fn ncols(&self) -> nat {
        self.cols as nat
    }

    open spec fn storage(&self) -> Seq<T> {
        self.data@
    }

    /// The row index is not read: every row index addresses the one row.
    open spec fn index_of(&self, row: int, col: int) -> int {
        self.offset + col * self.col_stride
    }

    fn rows(&self) -> (n: usize) {
        1
    }

    fn cols(&self) -> (n: usize) {
        self.cols
    }

    fn get(&self, row: usize, col: usize) -> (v: &T) {
        let len: usize = self.data.len();
        proof {
            vstd::arithmetic::mul::lemma_mul_nonnegative(col as int, self.col_stride as int);
        }
        let index = self.offset + col * self.col_stride;
        &self.data[index]
    }
}

impl<'a, T> MatrixRead<T> for ColView<'a, T> {
    open spec fn nrows(&self) -> nat {
        self.rows as nat
    }

    open spec fn ncols(&self) -> nat {
        1
    }

    open spec fn storage(&self) -> Seq<T> {
        self.data@
    }

    /// The column index is not read: every column index addresses the one
    /// column.
    open spec fn index_of(&self, row: int, col: int) -> int {
        self.offset + row * self.row_stride
    }

    fn rows(&self) -> (n: usize) {
        self.rows
    }

    fn cols(&self) -> (n: usize) {
        1
    }

    fn get(&self, row: usize, col: usize) -> (v: &T) {
        let len: usize = self.data.len();
        proof {
            vstd::arithmetic::mul::lemma_mul_nonnegative(row as int, self.row_stride as int);
        }
        let index = self.offset + row * self.row_stride;
        &self.data[index]
    }
}

/// Reading through a window: element (0, 0) is `data[offset]`, and each step to the next
/// column moves `col_stride` slots, each step to the next row `row_stride`
/// slots, of `data`.
pub proof fn lemma_matrix_view_addressing<'a, T>(v: &MatrixView<'a, T>, r: int, c: int)
    ensures
        v.storage() == v.data@,
        v.index_of(0, 0) == v.offset,
        v.index_of(r, c + 1) == v.index_of(r, c) + v.col_stride,
        v.index_of(r + 1, c) == v.index_of(r, c) + v.row_stride,
{
    assert((c + 1) * v.col_stride == c * v.col_stride + v.col_stride) by (nonlinear_arith);
    assert((r + 1) * v.row_stride == r * v.row_stride + v.row_stride) by (nonlinear_arith);
}

/// Reading through a writable window: element (0, 0) is `data[offset]`, and each step to the next
/// column moves `col_stride` slots, each step to the next row `row_stride`
/// slots, of `data`.
pub proof fn lemma_matrix_view_mut_addressing<'a, T>(v: &MatrixViewMut<'a, T>, r: int, c: int)
    ensures
        v.storage() == old(v.data)@,
        v.index_of(0, 0) == v.offset,
        v.index_of(r, c + 1) == v.index_of(r, c) + v.col_stride,
        v.index_of(r + 1, c) == v.index_of(r, c) + v.row_stride,
{
    assert((c + 1) * v.col_stride == c * v.col_stride + v.col_stride) by (nonlinear_arith);
    assert((r + 1) * v.row_stride == r * v.row_stride + v.row_stride) by (nonlinear_arith);
}

/// Reading through a row view: whatever the row index, column 0 is `data[offset]` and each
/// step to the next column moves `col_stride` slots of `data`.
pub proof fn lemma_row_view_addressing<'a, T>(v: &RowView<'a, T>, r: int, c: int)
    ensures
        v.storage() == v.data@,
        v.index_of(r, 0) == v.offset,
        v.index_of(r, c + 1) == v.index_of(r, c) + v.col_stride,
        v.index_of(r, c) == v.index_of(0, c),
{
    assert((c + 1) * v.col_stride == c * v.col_stride + v.col_stride) by (nonlinear_arith);
}

/// Reading through a writable row view: whatever the row index, column 0 is `data[offset]` and each
/// step to the next column moves `col_stride` slots of `data`.
pub proof fn lemma_row_view_mut_addressing<'a, T>(v: &RowViewMut<'a, T>, r: int, c: int)
    ensures
        v.storage() == old(v.data)@,
        v.index_of(r, 0) == v.offset,
        v.index_of(r, c + 1) == v.index_of(r, c) + v.col_stride,
        v.index_of(r, c) == v.index_of(0, c),
{
    assert((c + 1) * v.col_stride == c * v.col_stride + v.col_stride) by (nonlinear_arith);
}

/// Reading through a column view: whatever the column index, row 0 is `data[offset]` and each
/// step to the next row moves `row_stride` slots of `data`.
pub proof fn lemma_col_view_addressing<'a, T>(v: &ColView<'a, T>, r: int, c: int)
    ensures
        v.storage() == v.data@,
        v.index_of(0, c) == v.offset,
        v.index_of(r + 1, c) == v.index_of(r, c) + v.row_stride,
        v.index_of(r, c) == v.index_of(r, 0),
{
    assert((r + 1) * v.row_stride == r * v.row_stride + v.row_stride) by (nonlinear_arith);
}

} // verus!
