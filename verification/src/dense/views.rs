//! Strided views into the storage of a matrix.

use vstd::prelude::*;

use super::matrix::{same_layout, Matrix, MatrixRead, MatrixWrite};

verus! {

/// A read-only window of a matrix: element (i, j) is
/// `data[offset + i * row_stride + j * col_stride]`.
pub struct MatrixView<'a, T> {
    pub rows: usize,
    pub cols: usize,
    pub data: &'a [T],
    pub offset: usize,
    pub row_stride: usize,
    pub col_stride: usize,
}

/// A writable window of a matrix, laid out as `MatrixView`.
pub struct MatrixViewMut<'a, T> {
    pub rows: usize,
    pub cols: usize,
    pub data: &'a mut [T],
    pub offset: usize,
    pub row_stride: usize,
    pub col_stride: usize,
}

/// One row: element j is `data[offset + j * col_stride]`.
pub struct RowView<'a, T> {
    pub cols: usize,
    pub data: &'a [T],
    pub offset: usize,
    pub col_stride: usize,
}

/// One writable row, laid out as `RowView`.
pub struct RowViewMut<'a, T> {
    pub cols: usize,
    pub data: &'a mut [T],
    pub offset: usize,
    pub col_stride: usize,
}

/// One column: element i is `data[offset + i * row_stride]`.
pub struct ColView<'a, T> {
    pub rows: usize,
    pub data: &'a [T],
    pub offset: usize,
    pub row_stride: usize,
}

/// One writable column, laid out as `ColView`.
pub struct ColViewMut<'a, T> {
    pub rows: usize,
    pub data: &'a mut [T],
    pub offset: usize,
    pub row_stride: usize,
}



/// The only index below one is zero, whatever it is scaled by.
proof fn lemma_unit_range_scaled(stride: int)
    ensures
        forall|k: int| 0 <= k < 1 ==> #[trigger] (k * stride) == 0,
{
    assert forall|k: int| 0 <= k < 1 implies #[trigger] (k * stride) == 0 by {
        assert(k == 0);
    }
}

impl<'a, T> MatrixRead<T> for MatrixView<'a, T> {
    open spec fn nrows(&self) -> nat {
        self.rows as nat
    }

    open spec fn ncols(&self) -> nat {
        self.cols as nat
    }

    open spec fn storage(&self) -> Seq<T> {
        self.data@
    }

    open spec fn index_of(&self, row: int, col: int) -> int {
        self.offset + row * self.row_stride + col * self.col_stride
    }

    open spec fn row_contiguous(&self) -> bool {
        self.col_stride == 1
    }

    open spec fn row_ok(&self, row: int) -> bool {
        0 <= row < self.rows && self.offset + row * self.row_stride <= usize::MAX
    }

    open spec fn col_ok(&self, col: int) -> bool {
        0 <= col < self.cols && self.offset + col * self.col_stride <= usize::MAX
    }

    fn rows(&self) -> (n: usize) {
        self.rows
    }

    fn cols(&self) -> (n: usize) {
        self.cols
    }

    fn get(&self, row: usize, col: usize) -> (v: &T) {
        let len: usize = self.data.len();
        proof {
            vstd::arithmetic::mul::lemma_mul_nonnegative(row as int, self.row_stride as int);
            vstd::arithmetic::mul::lemma_mul_nonnegative(col as int, self.col_stride as int);
        }
        let index = self.offset + row * self.row_stride + col * self.col_stride;
        &self.data[index]
    }

    fn is_row_contiguous(&self) -> (b: bool) {
        self.col_stride == 1
    }

    fn row(&self, row: usize) -> (v: RowView<'_, T>) {
        RowView {
            cols: self.cols,
            data: self.data,
            offset: self.offset + row * self.row_stride,
            col_stride: self.col_stride,
        }
    }

    fn col(&self, col: usize) -> (v: ColView<'_, T>) {
        ColView {
            rows: self.rows,
            data: self.data,
            offset: self.offset + col * self.col_stride,
            row_stride: self.row_stride,
        }
    }
}

impl<'a, T> MatrixRead<T> for RowView<'a, T> {
    open spec fn nrows(&self) -> nat {
        1
    }

    open spec fn ncols(&self) -> nat {
        self.cols as nat
    }

    open spec fn storage(&self) -> Seq<T> {
        self.data@
    }

    open spec fn index_of(&self, row: int, col: int) -> int {
        self.offset + col * self.col_stride
    }

    open spec fn row_contiguous(&self) -> bool {
        self.col_stride == 1
    }

    open spec fn row_ok(&self, row: int) -> bool {
        true
    }

    open spec fn col_ok(&self, col: int) -> bool {
        0 <= col < self.cols && self.offset + col * self.col_stride <= usize::MAX
    }

    fn rows(&self) -> (n: usize) {
        1
    }

    fn cols(&self) -> (n: usize) {
        self.cols
    }

    fn get(&self, row: usize, col: usize) -> (v: &T) {
        let len: usize = self.data.len();
        proof {
            vstd::arithmetic::mul::lemma_mul_nonnegative(col as int, self.col_stride as int);
        }
        let index = self.offset + col * self.col_stride;
        &self.data[index]
    }

    fn is_row_contiguous(&self) -> (b: bool) {
        self.col_stride == 1
    }

    fn row(&self, row: usize) -> (v: RowView<'_, T>) {
        RowView { cols: self.cols, data: self.data, offset: self.offset, col_stride: self.col_stride }
    }

    fn col(&self, col: usize) -> (v: ColView<'_, T>) {
        proof {
            lemma_unit_range_scaled(self.col_stride as int);
        }
        ColView {
            rows: 1,
            data: self.data,
            offset: self.offset + col * self.col_stride,
            row_stride: self.col_stride,
        }
    }
}

impl<'a, T> MatrixRead<T> for ColView<'a, T> {
    open spec fn nrows(&self) -> nat {
        self.rows as nat
    }

    open spec fn ncols(&self) -> nat {
        1
    }

    open spec fn storage(&self) -> Seq<T> {
        self.data@
    }

    open spec fn index_of(&self, row: int, col: int) -> int {
        self.offset + row * self.row_stride
    }

    open spec fn row_contiguous(&self) -> bool {
        self.row_stride == 1
    }

    open spec fn row_ok(&self, row: int) -> bool {
        0 <= row < self.rows && self.offset + row * self.row_stride <= usize::MAX
    }

    open spec fn col_ok(&self, col: int) -> bool {
        col == 0
    }

    fn rows(&self) -> (n: usize) {
        self.rows
    }

    fn cols(&self) -> (n: usize) {
        1
    }

    fn get(&self, row: usize, col: usize) -> (v: &T) {
        let len: usize = self.data.len();
        proof {
            vstd::arithmetic::mul::lemma_mul_nonnegative(row as int, self.row_stride as int);
        }
        let index = self.offset + row * self.row_stride;
        &self.data[index]
    }

    fn is_row_contiguous(&self) -> (b: bool) {
        self.row_stride == 1
    }

    fn row(&self, row: usize) -> (v: RowView<'_, T>) {
        proof {
            lemma_unit_range_scaled(self.row_stride as int);
        }
        RowView {
            cols: 1,
            data: self.data,
            offset: self.offset + row * self.row_stride,
            col_stride: self.row_stride,
        }
    }

    fn col(&self, col: usize) -> (v: ColView<'_, T>) {
        ColView { rows: self.rows, data: self.data, offset: self.offset, row_stride: self.row_stride }
    }
}

impl<'a, T> MatrixRead<T> for MatrixViewMut<'a, T> {
    open spec fn nrows(&self) -> nat {
        self.rows as nat
    }

    open spec fn ncols(&self) -> nat {
        self.cols as nat
    }

    open spec fn storage(&self) -> Seq<T> {
        self.data@
    }

    open spec fn index_of(&self, row: int, col: int) -> int {
        self.offset + row * self.row_stride + col * self.col_stride
    }

    open spec fn row_contiguous(&self) -> bool {
        self.col_stride == 1
    }

    open spec fn row_ok(&self, row: int) -> bool {
        0 <= row < self.rows && self.offset + row * self.row_stride <= usize::MAX
    }

    open spec fn col_ok(&self, col: int) -> bool {
        0 <= col < self.cols && self.offset + col * self.col_stride <= usize::MAX
    }

    fn rows(&self) -> (n: usize) {
        self.rows
    }

    fn cols(&self) -> (n: usize) {
        self.cols
    }

    fn get(&self, row: usize, col: usize) -> (v: &T) {
        let len: usize = self.data.len();
        proof {
            vstd::arithmetic::mul::lemma_mul_nonnegative(row as int, self.row_stride as int);
            vstd::arithmetic::mul::lemma_mul_nonnegative(col as int, self.col_stride as int);
        }
        let index = self.offset + row * self.row_stride + col * self.col_stride;
        &self.data[index]
    }

    fn is_row_contiguous(&self) -> (b: bool) {
        self.col_stride == 1
    }

    fn row(&self, row: usize) -> (v: RowView<'_, T>) {
        RowView {
            cols: self.cols,
            data: &*self.data,
            offset: self.offset + row * self.row_stride,
            col_stride: self.col_stride,
        }
    }

    fn col(&self, col: usize) -> (v: ColView<'_, T>) {
        ColView {
            rows: self.rows,
            data: &*self.data,
            offset: self.offset + col * self.col_stride,
            row_stride: self.row_stride,
        }
    }
}

impl<'a, T> MatrixRead<T> for RowViewMut<'a, T> {
    open spec fn nrows(&self) -> nat {
        1
    }

    open spec fn ncols(&self) -> nat {
        self.cols as nat
    }

    open spec fn storage(&self) -> Seq<T> {
        self.data@
    }

    open spec fn index_of(&self, row: int, col: int) -> int {
        self.offset + col * self.col_stride
    }

    open spec fn row_contiguous(&self) -> bool {
        self.col_stride == 1
    }

    open spec fn row_ok(&self, row: int) -> bool {
        true
    }

    open spec fn col_ok(&self, col: int) -> bool {
        0 <= col < self.cols && self.offset + col * self.col_stride <= usize::MAX
    }

    fn rows(&self) -> (n: usize) {
        1
    }

    fn cols(&self) -> (n: usize) {
        self.cols
    }

    fn get(&self, row: usize, col: usize) -> (v: &T) {
        let len: usize = self.data.len();
        proof {
            vstd::arithmetic::mul::lemma_mul_nonnegative(col as int, self.col_stride as int);
        }
        let index = self.offset + col * self.col_stride;
        &self.data[index]
    }

    fn is_row_contiguous(&self) -> (b: bool) {
        self.col_stride == 1
    }

    fn row(&self, row: usize) -> (v: RowView<'_, T>) {
        RowView { cols: self.cols, data: &*self.data, offset: self.offset, col_stride: self.col_stride }
    }

    fn col(&self, col: usize) -> (v: ColView<'_, T>) {
        proof {
            lemma_unit_range_scaled(self.col_stride as int);
        }
        ColView {
            rows: 1,
            data: &*self.data,
            offset: self.offset + col * self.col_stride,
            row_stride: self.col_stride,
        }
    }
}

impl<'a, T> MatrixRead<T> for ColViewMut<'a, T> {
    open spec fn nrows(&self) -> nat {
        self.rows as nat
    }

    open spec fn ncols(&self) -> nat {
        1
    }

    open spec fn storage(&self) -> Seq<T> {
        self.data@
    }

    open spec fn index_of(&self, row: int, col: int) -> int {
        self.offset + row * self.row_stride
    }

    open spec fn row_contiguous(&self) -> bool {
        self.row_stride == 1
    }

    open spec fn row_ok(&self, row: int) -> bool {
        0 <= row < self.rows && self.offset + row * self.row_stride <= usize::MAX
    }

    open spec fn col_ok(&self, col: int) -> bool {
        col == 0
    }

    fn rows(&self) -> (n: usize) {
        self.rows
    }

    fn cols(&self) -> (n: usize) {
        1
    }

    fn get(&self, row: usize, col: usize) -> (v: &T) {
        let len: usize = self.data.len();
        proof {
            vstd::arithmetic::mul::lemma_mul_nonnegative(row as int, self.row_stride as int);
        }
        let index = self.offset + row * self.row_stride;
        &self.data[index]
    }

    fn is_row_contiguous(&self) -> (b: bool) {
        self.row_stride == 1
    }

    fn row(&self, row: usize) -> (v: RowView<'_, T>) {
        proof {
            lemma_unit_range_scaled(self.row_stride as int);
        }
        RowView {
            cols: 1,
            data: &*self.data,
            offset: self.offset + row * self.row_stride,
            col_stride: self.row_stride,
        }
    }

    fn col(&self, col: usize) -> (v: ColView<'_, T>) {
        ColView { rows: self.rows, data: &*self.data, offset: self.offset, row_stride: self.row_stride }
    }
}


impl<'a, T> MatrixWrite<T> for MatrixViewMut<'a, T> {
    fn get_mut(&mut self, row: usize, col: usize) -> (v: &mut T) {
        let len: usize = self.data.len();
        proof {
            vstd::arithmetic::mul::lemma_mul_nonnegative(row as int, self.row_stride as int);
            vstd::arithmetic::mul::lemma_mul_nonnegative(col as int, self.col_stride as int);
        }
        let index = self.offset + row * self.row_stride + col * self.col_stride;
        &mut self.data[index]
    }

    fn row_mut(&mut self, row: usize) -> (v: RowViewMut<'_, T>) {
        let cols = self.cols;
        let offset = self.offset + row * self.row_stride;
        let col_stride = self.col_stride;
        RowViewMut { cols, data: &mut *self.data, offset, col_stride }
    }

    fn col_mut(&mut self, col: usize) -> (v: ColViewMut<'_, T>) {
        let rows = self.rows;
        let offset = self.offset + col * self.col_stride;
        let row_stride = self.row_stride;
        ColViewMut { rows, data: &mut *self.data, offset, row_stride }
    }
}

impl<'a, T> MatrixWrite<T> for RowViewMut<'a, T> {
    fn get_mut(&mut self, row: usize, col: usize) -> (v: &mut T) {
        let len: usize = self.data.len();
        proof {
            vstd::arithmetic::mul::lemma_mul_nonnegative(col as int, self.col_stride as int);
        }
        let index = self.offset + col * self.col_stride;
        &mut self.data[index]
    }

    fn row_mut(&mut self, row: usize) -> (v: RowViewMut<'_, T>) {
        let cols = self.cols;
        let offset = self.offset;
        let col_stride = self.col_stride;
        RowViewMut { cols, data: &mut *self.data, offset, col_stride }
    }

    fn col_mut(&mut self, col: usize) -> (v: ColViewMut<'_, T>) {
        let offset = self.offset + col * self.col_stride;
        let row_stride = self.col_stride;
        proof {
            lemma_unit_range_scaled(row_stride as int);
        }
        ColViewMut { rows: 1, data: &mut *self.data, offset, row_stride }
    }
}

impl<'a, T> MatrixWrite<T> for ColViewMut<'a, T> {
    fn get_mut(&mut self, row: usize, col: usize) -> (v: &mut T) {
        let len: usize = self.data.len();
        proof {
            vstd::arithmetic::mul::lemma_mul_nonnegative(row as int, self.row_stride as int);
        }
        let index = self.offset + row * self.row_stride;
        &mut self.data[index]
    }

    fn row_mut(&mut self, row: usize) -> (v: RowViewMut<'_, T>) {
        let offset = self.offset + row * self.row_stride;
        let col_stride = self.row_stride;
        proof {
            lemma_unit_range_scaled(col_stride as int);
        }
        RowViewMut { cols: 1, data: &mut *self.data, offset, col_stride }
    }

    fn col_mut(&mut self, col: usize) -> (v: ColViewMut<'_, T>) {
        let rows = self.rows;
        let offset = self.offset;
        let row_stride = self.row_stride;
        ColViewMut { rows, data: &mut *self.data, offset, row_stride }
    }
}


impl<T> Matrix<T> {
    /// The window of rows `row_range` and columns `col_range`, sharing the storage.
    pub fn view(&self, row_range: core::ops::Range<usize>, col_range: core::ops::Range<usize>) -> (v:
        MatrixView<'_, T>)
        requires
            row_range.start <= row_range.end <= self.rows,
            col_range.start <= col_range.end <= self.cols,
            row_range.start * self.cols + col_range.start <= usize::MAX,
        ensures
            v.nrows() == row_range.end - row_range.start,
            v.ncols() == col_range.end - col_range.start,
            v.storage() == self.data@,
            v.row_contiguous(),
            forall|i: int, j: int|
                #[trigger] v.index_of(i, j) == self.index_of(i + row_range.start, j + col_range.start),
            forall|i: int|
                #[trigger] v.row_ok(i) <==> (0 <= i < row_range.end - row_range.start && (i
                    + row_range.start) * self.cols + col_range.start <= usize::MAX),
            forall|j: int|
                #[trigger] v.col_ok(j) <==> (0 <= j < col_range.end - col_range.start
                    && row_range.start * self.cols + col_range.start + j <= usize::MAX),
    {
        let v = MatrixView {
            rows: row_range.end - row_range.start,
            cols: col_range.end - col_range.start,
            data: self.data.as_slice(),
            offset: row_range.start * self.cols + col_range.start,
            row_stride: self.cols,
            col_stride: 1,
        };
        proof {
            lemma_shifted_layout(self.cols as int, row_range.start as int, col_range.start as int);
        }
        v
    }

    /// The writable window of rows `row_range` and columns `col_range`; what is
    /// written through it lands in `self`.
    pub fn view_mut(&mut self, row_range: core::ops::Range<usize>, col_range: core::ops::Range<usize>) -> (v:
        MatrixViewMut<'_, T>)
        requires
            row_range.start <= row_range.end <= old(self).rows,
            col_range.start <= col_range.end <= old(self).cols,
            row_range.start * old(self).cols + col_range.start <= usize::MAX,
        ensures
            v.nrows() == row_range.end - row_range.start,
            v.ncols() == col_range.end - col_range.start,
            v.storage() == old(self).data@,
            v.row_contiguous(),
            forall|i: int, j: int|
                #[trigger] v.index_of(i, j) == old(self).index_of(
                    i + row_range.start,
                    j + col_range.start,
                ),
            forall|i: int|
                #[trigger] v.row_ok(i) <==> (0 <= i < row_range.end - row_range.start && (i
                    + row_range.start) * old(self).cols + col_range.start <= usize::MAX),
            forall|j: int|
                #[trigger] v.col_ok(j) <==> (0 <= j < col_range.end - col_range.start
                    && row_range.start * old(self).cols + col_range.start + j <= usize::MAX),
            final(self).rows == old(self).rows,
            final(self).cols == old(self).cols,
            final(self).data@ == final(v.data)@,
    {
        let rows = row_range.end - row_range.start;
        let cols = col_range.end - col_range.start;
        let offset = row_range.start * self.cols + col_range.start;
        let row_stride = self.cols;
        proof {
            lemma_shifted_layout(self.cols as int, row_range.start as int, col_range.start as int);
        }
        MatrixViewMut { rows, cols, data: self.data.as_mut_slice(), offset, row_stride, col_stride: 1 }
    }

    /// Row `row` as a view sharing the storage.
    pub fn row_view(&self, row: usize) -> (v: RowView<'_, T>)
        requires
            row < self.rows,
            row * self.cols <= usize::MAX,
        ensures
            v.cols == self.cols,
            v.data@ == self.data@,
            v.offset == row * self.cols,
            v.col_stride == 1,
    {
        RowView { cols: self.cols, data: self.data.as_slice(), offset: row * self.cols, col_stride: 1 }
    }

    /// Row `row` as a writable view; what is written through it lands in `self`.
    pub fn row_view_mut(&mut self, row: usize) -> (v: RowViewMut<'_, T>)
        requires
            row < old(self).rows,
            row * old(self).cols <= usize::MAX,
        ensures
            v.cols == old(self).cols,
            v.data@ == old(self).data@,
            v.offset == row * old(self).cols,
            v.col_stride == 1,
            final(self).rows == old(self).rows,
            final(self).cols == old(self).cols,
            final(self).data@ == final(v.data)@,
    {
        let cols = self.cols;
        RowViewMut { cols, data: self.data.as_mut_slice(), offset: row * cols, col_stride: 1 }
    }

    /// Column `col` as a view sharing the storage.
    pub fn col_view(&self, col: usize) -> (v: ColView<'_, T>)
        requires
            col < self.cols,
        ensures
            v.rows == self.rows,
            v.data@ == self.data@,
            v.offset == col,
            v.row_stride == self.cols,
    {
        ColView { rows: self.rows, data: self.data.as_slice(), offset: col, row_stride: self.cols }
    }

    /// Column `col` as a writable view; what is written through it lands in `self`.
    pub fn col_view_mut(&mut self, col: usize) -> (v: ColViewMut<'_, T>)
        requires
            col < old(self).cols,
        ensures
            v.rows == old(self).rows,
            v.data@ == old(self).data@,
            v.offset == col,
            v.row_stride == old(self).cols,
            final(self).rows == old(self).rows,
            final(self).cols == old(self).cols,
            final(self).data@ == final(v.data)@,
    {
        let rows = self.rows;
        let cols = self.cols;
        ColViewMut { rows, data: self.data.as_mut_slice(), offset: col, row_stride: cols }
    }
}

/// Shifting a row-major window by (r0, c0) adds `r0 * cols + c0` to every position.
proof fn lemma_shifted_layout(cols: int, r0: int, c0: int)
    ensures
        forall|i: int, j: int|
            #[trigger] ((i + r0) * cols + (j + c0)) == r0 * cols + c0 + i * cols + j * 1,
        forall|i: int| #[trigger] ((i + r0) * cols) == r0 * cols + i * cols,
{
    assert forall|i: int, j: int|
        #[trigger] ((i + r0) * cols + (j + c0)) == r0 * cols + c0 + i * cols + j * 1 by {
        vstd::arithmetic::mul::lemma_mul_is_distributive_add_other_way(cols, i, r0);
    }
    assert forall|i: int| #[trigger] ((i + r0) * cols) == r0 * cols + i * cols by {
        vstd::arithmetic::mul::lemma_mul_is_distributive_add_other_way(cols, i, r0);
    }
}

impl<'a, T> MatrixView<'a, T> {
    /// Row `row` as a contiguous slice, or `None` if the columns aren't unit-stride.
    pub fn row_slice(&self, row: usize) -> (r: Option<&[T]>)
        requires
            row < self.nrows(),
            self.row_contiguous() ==> self.index_of(row as int, 0) + self.ncols()
                <= self.storage().len(),
        ensures
            r is Some <==> self.row_contiguous(),
            r matches Some(s) ==> s@ == self.storage().subrange(
                self.index_of(row as int, 0),
                self.index_of(row as int, 0) + self.ncols(),
            ),
    {
        if self.col_stride != 1 {
            return None;
        }
        let len: usize = self.data.len();
        proof {
            vstd::arithmetic::mul::lemma_mul_nonnegative(row as int, self.row_stride as int);
        }
        let start = self.offset + row * self.row_stride;
        Some(&self.data[start..start + self.cols])
    }
}

impl<'a, T> MatrixViewMut<'a, T> {
    /// Row `row` as a contiguous slice, or `None` if the columns aren't unit-stride.
    pub fn row_slice(&self, row: usize) -> (r: Option<&[T]>)
        requires
            row < self.nrows(),
            self.row_contiguous() ==> self.index_of(row as int, 0) + self.ncols()
                <= self.storage().len(),
        ensures
            r is Some <==> self.row_contiguous(),
            r matches Some(s) ==> s@ == self.storage().subrange(
                self.index_of(row as int, 0),
                self.index_of(row as int, 0) + self.ncols(),
            ),
    {
        if self.col_stride != 1 {
            return None;
        }
        let len: usize = self.data.len();
        proof {
            vstd::arithmetic::mul::lemma_mul_nonnegative(row as int, self.row_stride as int);
        }
        let start = self.offset + row * self.row_stride;
        Some(&self.data[start..start + self.cols])
    }

    /// Row `row` as a writable contiguous slice, or `None` if the columns aren't
    /// unit-stride; what is written through the slice lands in `self`.
    pub fn row_slice_mut(&mut self, row: usize) -> (r: Option<&mut [T]>)
        requires
            row < old(self).nrows(),
            old(self).row_contiguous() ==> old(self).index_of(row as int, 0) + old(self).ncols()
                <= old(self).storage().len(),
        ensures
            r is Some <==> old(self).row_contiguous(),
            same_layout(final(self), old(self)),
            r matches Some(s) ==> {
                let a = old(self).index_of(row as int, 0);
                let b = a + old(self).ncols();
                &&& s@ == old(self).storage().subrange(a, b)
                &&& final(self).storage() == old(self).storage().subrange(0, a) + final(s)@
                    + old(self).storage().subrange(b, old(self).storage().len() as int)
            },
            r is None ==> final(self).storage() == old(self).storage(),
    {
        if self.col_stride != 1 {
            return None;
        }
        let len: usize = self.data.len();
        proof {
            vstd::arithmetic::mul::lemma_mul_nonnegative(row as int, self.row_stride as int);
        }
        let start = self.offset + row * self.row_stride;
        let cols = self.cols;
        let (_, tail) = self.data.split_at_mut(start);
        let (mid, _) = tail.split_at_mut(cols);
        Some(mid)
    }
}

impl<'a, T> RowView<'a, T> {
    /// The row as a contiguous slice, or `None` if it isn't unit-stride.
    pub fn as_slice(&self) -> (r: Option<&[T]>)
        requires
            self.col_stride == 1 ==> self.offset + self.cols <= self.data@.len(),
        ensures
            r is Some <==> self.col_stride == 1,
            r matches Some(s) ==> s@ == self.data@.subrange(
                self.offset as int,
                self.offset + self.cols,
            ),
    {
        if self.col_stride != 1 {
            return None;
        }
        let len: usize = self.data.len();
        Some(&self.data[self.offset..self.offset + self.cols])
    }
}

impl<'a, T> RowViewMut<'a, T> {
    /// The row as a contiguous slice, or `None` if it isn't unit-stride.
    pub fn as_slice(&self) -> (r: Option<&[T]>)
        requires
            self.col_stride == 1 ==> self.offset + self.cols <= self.storage().len(),
        ensures
            r is Some <==> self.col_stride == 1,
            r matches Some(s) ==> s@ == self.storage().subrange(
                self.offset as int,
                self.offset + self.cols,
            ),
    {
        if self.col_stride != 1 {
            return None;
        }
        let len: usize = self.data.len();
        Some(&self.data[self.offset..self.offset + self.cols])
    }

    /// The row as a writable contiguous slice, or `None` if it isn't unit-stride;
    /// what is written through the slice lands in `self`.
    pub fn as_slice_mut(&mut self) -> (r: Option<&mut [T]>)
        requires
            old(self).col_stride == 1 ==> old(self).offset + old(self).cols <= old(self).data@.len(),
        ensures
            r is Some <==> old(self).col_stride == 1,
            final(self).cols == old(self).cols,
            final(self).offset == old(self).offset,
            final(self).col_stride == old(self).col_stride,
            r matches Some(s) ==> {
                let a = old(self).offset as int;
                let b = a + old(self).cols;
                &&& s@ == old(self).data@.subrange(a, b)
                &&& final(self).data@ == old(self).data@.subrange(0, a) + final(s)@
                    + old(self).data@.subrange(b, old(self).data@.len() as int)
            },
            r is None ==> final(self).data@ == old(self).data@,
    {
        if self.col_stride != 1 {
            return None;
        }
        let len: usize = self.data.len();
        let start = self.offset;
        let cols = self.cols;
        let (_, tail) = self.data.split_at_mut(start);
        let (mid, _) = tail.split_at_mut(cols);
        Some(mid)
    }
}

/// Reading through a window: element (0, 0) is `data[offset]`, and each step to the next
/// column moves `col_stride` slots, each step to the next row `row_stride`
/// slots, of `data`.
pub proof fn lemma_matrix_view_addressing<'a, T>(v: &MatrixView<'a, T>, r: int, c: int)
    ensures
        v.storage() == v.data@,
        v.index_of(0, 0) == v.offset,
        v.index_of(r, c + 1) == v.index_of(r, c) + v.col_stride,
        v.index_of(r + 1, c) == v.index_of(r, c) + v.row_stride,
{
    assert((c + 1) * v.col_stride == c * v.col_stride + v.col_stride) by (nonlinear_arith);
    assert((r + 1) * v.row_stride == r * v.row_stride + v.row_stride) by (nonlinear_arith);
}

/// Reading through a row view: whatever the row index, column 0 is `data[offset]` and each
/// step to the next column moves `col_stride` slots of `data`.
pub proof fn lemma_row_view_addressing<'a, T>(v: &RowView<'a, T>, r: int, c: int)
    ensures
        v.storage() == v.data@,
        v.index_of(r, 0) == v.offset,
        v.index_of(r, c + 1) == v.index_of(r, c) + v.col_stride,
        v.index_of(r, c) == v.index_of(0, c),
{
    assert((c + 1) * v.col_stride == c * v.col_stride + v.col_stride) by (nonlinear_arith);
}

/// Reading through a column view: whatever the column index, row 0 is `data[offset]` and each
/// step to the next row moves `row_stride` slots of `data`.
pub proof fn lemma_col_view_addressing<'a, T>(v: &ColView<'a, T>, r: int, c: int)
    ensures
        v.storage() == v.data@,
        v.index_of(0, c) == v.offset,
        v.index_of(r + 1, c) == v.index_of(r, c) + v.row_stride,
        v.index_of(r, c) == v.index_of(r, 0),
{
    assert((r + 1) * v.row_stride == r * v.row_stride + v.row_stride) by (nonlinear_arith);
}

/// Reading through a writable window: element (0, 0) is `data[offset]`, and each step to the next
/// column moves `col_stride` slots, each step to the next row `row_stride`
/// slots, of `data`.
pub proof fn lemma_matrix_view_mut_addressing<'a, T>(v: &MatrixViewMut<'a, T>, r: int, c: int)
    ensures
        v.storage() == old(v.data)@,
        v.index_of(0, 0) == v.offset,
        v.index_of(r, c + 1) == v.index_of(r, c) + v.col_stride,
        v.index_of(r + 1, c) == v.index_of(r, c) + v.row_stride,
{
    assert((c + 1) * v.col_stride == c * v.col_stride + v.col_stride) by (nonlinear_arith);
    assert((r + 1) * v.row_stride == r * v.row_stride + v.row_stride) by (nonlinear_arith);
}

/// Reading through a writable row view: whatever the row index, column 0 is `data[offset]` and each
/// step to the next column moves `col_stride` slots of `data`.
pub proof fn lemma_row_view_mut_addressing<'a, T>(v: &RowViewMut<'a, T>, r: int, c: int)
    ensures
        v.storage() == old(v.data)@,
        v.index_of(r, 0) == v.offset,
        v.index_of(r, c + 1) == v.index_of(r, c) + v.col_stride,
        v.index_of(r, c) == v.index_of(0, c),
{
    assert((c + 1) * v.col_stride == c * v.col_stride + v.col_stride) by (nonlinear_arith);
}

/// Reading through a writable column view: whatever the column index, row 0 is `data[offset]` and each
/// step to the next row moves `row_stride` slots of `data`.
pub proof fn lemma_col_view_mut_addressing<'a, T>(v: &ColViewMut<'a, T>, r: int, c: int)
    ensures
        v.storage() == old(v.data)@,
        v.index_of(0, c) == v.offset,
        v.index_of(r + 1, c) == v.index_of(r, c) + v.row_stride,
        v.index_of(r, c) == v.index_of(r, 0),
{
    assert((r + 1) * v.row_stride == r * v.row_stride + v.row_stride) by (nonlinear_arith);
}

} // verus!
