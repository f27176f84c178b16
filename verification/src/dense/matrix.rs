//! Row-major matrices and the read/write interface shared with the views.

use vstd::prelude::*;
use vstd::std_specs::convert::FromSpec;
use vstd::std_specs::ops::{AddSpec, MulSpec, SubSpec};

use vstd::std_specs::cmp::PartialEqSpec;

use super::product::{
    dot_int, exact_ops, gemm_allowed, gemm_allowed_on, gemm_on, gemm_result, injective_on,
    lemma_gemm_i64, product_sweep, row_major, scale_sweep, slots_in, touched, zero_block,
};
use super::views::{ColView, ColViewMut, RowView, RowViewMut};

verus! {

/// A row-major matrix: element (i, j) is `data[i * cols + j]`.
#[derive(Debug, Clone)]
pub struct Matrix<T> {
    pub rows: usize,
    pub cols: usize,
    pub data: Vec<T>,
}

impl<T> Matrix<T> {
    /// `data` holds exactly `rows * cols` elements.
    pub open spec fn wf(&self) -> bool {
        self.data@.len() == self.rows * self.cols
    }

    /// Element (i, j) in the row-major layout.
    pub open spec fn at(&self, i: int, j: int) -> T {
        self.data@[i * self.cols + j]
    }
}

/// Read access to anything laid out as a matrix over a flat storage: the
/// element (row, col) lives at `storage()[index_of(row, col)]`.
pub trait MatrixRead<T>: Sized {
    /// Number of rows that `rows()` reports.
    spec fn nrows(&self) -> nat;

    /// Number of columns that `cols()` reports.
    spec fn ncols(&self) -> nat;

    /// The elements addressed by the matrix.
    spec fn storage(&self) -> Seq<T>;

    /// Position of element (row, col) in `storage()`.
    spec fn index_of(&self, row: int, col: int) -> int;

    /// Whether consecutive columns of a row are adjacent in the storage.
    spec fn row_contiguous(&self) -> bool;

    /// `row(row)` may be called: its bounds check passes and its offset fits.
    spec fn row_ok(&self, row: int) -> bool;

    /// `col(col)` may be called: its bounds check passes and its offset fits.
    spec fn col_ok(&self, col: int) -> bool;

    fn rows(&self) -> (n: usize)
        ensures
            n == self.nrows(),
    ;

    fn cols(&self) -> (n: usize)
        ensures
            n == self.ncols(),
    ;

    /// The element (row, col); defined wherever its position lies in the storage.
    fn get(&self, row: usize, col: usize) -> (v: &T)
        requires
            0 <= self.index_of(row as int, col as int) < self.storage().len(),
        ensures
            *v == self.storage()[self.index_of(row as int, col as int)],
    ;

    fn is_row_contiguous(&self) -> (b: bool)
        ensures
            b == self.row_contiguous(),
    ;

    /// A view of row `row`, sharing the storage.
    fn row(&self, row: usize) -> (v: RowView<'_, T>)
        requires
            self.row_ok(row as int),
        ensures
            v.data@ == self.storage(),
            v.cols == self.ncols(),
            (v.col_stride == 1) == self.row_contiguous(),
            forall|c: int| 0 <= c < self.ncols() ==> v.offset + c * v.col_stride == #[trigger] self.index_of(row as int, c),
    ;

    /// A view of column `col`, sharing the storage.
    fn col(&self, col: usize) -> (v: ColView<'_, T>)
        requires
            self.col_ok(col as int),
        ensures
            v.data@ == self.storage(),
            v.rows == self.nrows(),
            forall|r: int| 0 <= r < self.nrows() ==> v.offset + r * v.row_stride == #[trigger] self.index_of(r, col as int),
    ;
}

/// The element (row, col) of `m`.
pub open spec fn entry<T, M: MatrixRead<T>>(m: &M, row: int, col: int) -> T {
    m.storage()[m.index_of(row, col)]
}

/// (row, col) addresses an element of the storage of `m`.
pub open spec fn in_storage<T, M: MatrixRead<T>>(m: &M, row: int, col: int) -> bool {
    0 <= m.index_of(row, col) < m.storage().len()
}

/// `a` and `b` lay out the same shape over their storages; only the stored
/// values may differ.
pub open spec fn same_layout<T, M: MatrixRead<T>>(a: &M, b: &M) -> bool {
    &&& a.nrows() == b.nrows()
    &&& a.ncols() == b.ncols()
    &&& a.row_contiguous() == b.row_contiguous()
    &&& forall|r: int, c: int| #[trigger] a.index_of(r, c) == b.index_of(r, c)
    &&& forall|r: int| #[trigger] a.row_ok(r) == b.row_ok(r)
    &&& forall|c: int| #[trigger] a.col_ok(c) == b.col_ok(c)
}

/// Write access to a matrix layout.
pub trait MatrixWrite<T>: MatrixRead<T> {
    /// The element (row, col), to be written in place.
    fn get_mut(&mut self, row: usize, col: usize) -> (v: &mut T)
        requires
            in_storage(old(self), row as int, col as int),
        ensures
            *v == entry(old(self), row as int, col as int),
            final(self).storage() == old(self).storage().update(
                old(self).index_of(row as int, col as int),
                *final(v),
            ),
            same_layout(final(self), old(self)),
    ;

    /// Adds `value` to the element (row, col).
    fn accumulate(&mut self, row: usize, col: usize, value: T) where T: Copy + core::ops::Add<Output = T>
        requires
            in_storage(old(self), row as int, col as int),
            entry(old(self), row as int, col as int).add_req(value),
        ensures
            final(self).storage() == old(self).storage().update(
                old(self).index_of(row as int, col as int),
                entry(final(self), row as int, col as int),
            ),
            T::obeys_add_spec() ==> entry(final(self), row as int, col as int) == entry(
                old(self),
                row as int,
                col as int,
            ).add_spec(value),
            same_layout(final(self), old(self)),
    {
        let elem = self.get_mut(row, col);
        *elem = *elem + value;
    }

    /// A writable view of row `row`; what is written through it lands in `self`.
    fn row_mut(&mut self, row: usize) -> (v: RowViewMut<'_, T>)
        requires
            old(self).row_ok(row as int),
        ensures
            v.data@ == old(self).storage(),
            v.cols == old(self).ncols(),
            (v.col_stride == 1) == old(self).row_contiguous(),
            forall|c: int|
                0 <= c < old(self).ncols() ==> v.offset + c * v.col_stride == #[trigger] old(self).index_of(
                    row as int,
                    c,
                ),
            final(self).storage() == final(v.data)@,
            same_layout(final(self), old(self)),
    ;

    /// A writable view of column `col`; what is written through it lands in `self`.
    fn col_mut(&mut self, col: usize) -> (v: ColViewMut<'_, T>)
        requires
            old(self).col_ok(col as int),
        ensures
            v.data@ == old(self).storage(),
            v.rows == old(self).nrows(),
            forall|r: int|
                0 <= r < old(self).nrows() ==> v.offset + r * v.row_stride == #[trigger] old(self).index_of(
                    r,
                    col as int,
                ),
            final(self).storage() == final(v.data)@,
            same_layout(final(self), old(self)),
    ;
}

impl<T> MatrixRead<T> for Matrix<T> {
    open spec fn nrows(&self) -> nat {
        self.rows as nat
    }

    open spec fn ncols(&self) -> nat {
        self.cols as nat
    }

    open spec fn storage(&self) -> Seq<T> {
        self.data@
    }

    open spec fn index_of(&self, row: int, col: int) -> int {
        row * self.cols + col
    }

    open spec fn row_contiguous(&self) -> bool {
        true
    }

    open spec fn row_ok(&self, row: int) -> bool {
        0 <= row < self.rows && row * self.cols <= usize::MAX
    }

    open spec fn col_ok(&self, col: int) -> bool {
        0 <= col < self.cols
    }

    fn rows(&self) -> (n: usize) {
        self.rows
    }

    fn cols(&self) -> (n: usize) {
        self.cols
    }

    fn get(&self, row: usize, col: usize) -> (v: &T) {
        let len: usize = self.data.len();
        proof {
            vstd::arithmetic::mul::lemma_mul_nonnegative(row as int, self.cols as int);
        }
        &self.data[row * self.cols + col]
    }

    fn is_row_contiguous(&self) -> (b: bool) {
        true
    }

    fn row(&self, row: usize) -> (v: RowView<'_, T>) {
        RowView { cols: self.cols, data: self.data.as_slice(), offset: row * self.cols, col_stride: 1 }
    }

    fn col(&self, col: usize) -> (v: ColView<'_, T>) {
        ColView { rows: self.rows, data: self.data.as_slice(), offset: col, row_stride: self.cols }
    }
}

impl<T> MatrixWrite<T> for Matrix<T> {
    fn get_mut(&mut self, row: usize, col: usize) -> (v: &mut T) {
        let len: usize = self.data.len();
        proof {
            vstd::arithmetic::mul::lemma_mul_nonnegative(row as int, self.cols as int);
        }
        let i = row * self.cols + col;
        &mut self.data[i]
    }

    fn row_mut(&mut self, row: usize) -> (v: RowViewMut<'_, T>) {
        let cols = self.cols;
        RowViewMut { cols, data: self.data.as_mut_slice(), offset: row * cols, col_stride: 1 }
    }

    fn col_mut(&mut self, col: usize) -> (v: ColViewMut<'_, T>) {
        let rows = self.rows;
        let cols = self.cols;
        ColViewMut { rows, data: self.data.as_mut_slice(), offset: col, row_stride: cols }
    }
}


/// In a row-major `rows x cols` layout, (i, j) lands inside the storage and
/// consecutive rows are `cols` apart.
pub proof fn lemma_row_major_bound(i: int, j: int, rows: int, cols: int)
    requires
        0 <= i < rows,
        0 <= j < cols,
    ensures
        0 <= i * cols,
        i * cols + j < rows * cols,
        (i + 1) * cols == i * cols + cols,
        i * cols + cols <= rows * cols,
{
    assert(0 <= i * cols) by (nonlinear_arith)
        requires
            0 <= i,
            0 <= cols,
    ;
    assert((i + 1) * cols == i * cols + cols) by (nonlinear_arith);
    assert(i * cols + cols <= rows * cols) by (nonlinear_arith)
        requires
            i < rows,
            0 <= cols,
    ;
}

/// Splitting a flat position of a layout with `rows` rows per column recovers
/// the pair it was built from.
pub(crate) proof fn lemma_column_major_split(t: int, rows: int, a: int, b: int)
    requires
        0 <= a < rows,
        0 <= b,
        t == b * rows + a,
    ensures
        t % (rows as int) == a,
        t / (rows as int) == b,
{
    vstd::arithmetic::div_mod::lemma_fundamental_div_mod_converse(t, rows, b, a);
}

/// A flat position below `rows * cols` lies in one of the first `cols` columns
/// of `rows` elements each.
pub(crate) proof fn lemma_flat_column_bound(t: int, rows: int, cols: int)
    requires
        0 <= t < rows * cols,
        0 < rows,
    ensures
        t / rows < cols,
{
    vstd::arithmetic::div_mod::lemma_fundamental_div_mod(t, rows);
    let q = t / rows;
    let r = t % rows;
    assert(q < cols) by (nonlinear_arith)
        requires
            t == rows * q + r,
            0 <= r,
            t < rows * cols,
            0 < rows,
    ;
}

/// A vector of `n` copies of `value`.
fn filled<T: Copy>(n: usize, value: T) -> (v: Vec<T>)
    ensures
        v@.len() == n,
        forall|k: int| 0 <= k < n ==> v@[k] == value,
{
    let mut v: Vec<T> = Vec::new();
    let mut k: usize = 0;
    while k < n
        invariant
            k <= n,
            v@.len() == k,
            forall|t: int| 0 <= t < k ==> v@[t] == value,
        decreases n - k,
    {
        v.push(value);
        k = k + 1;
    }
    v
}

/// The element (a, b) is settled once the loops of `blocked_transpose` have
/// reached block row `i..imax`, block column `j..jmax`, row `ii` and column `jj`.
spec fn transpose_done(a: int, b: int, i: int, imax: int, j: int, jmax: int, ii: int, jj: int) -> bool {
    ||| a < i
    ||| (i <= a < imax && b < j)
    ||| (i <= a < ii && j <= b < jmax)
    ||| (a == ii && j <= b < jj)
}

// ---------- Constructors ----------

impl<T> Matrix<T> {
    /// A `rows x cols` matrix of zeros.
    pub fn new(rows: usize, cols: usize) -> (m: Self) where T: From<i8> + Copy
        requires
            rows * cols <= usize::MAX,
        ensures
            m.rows == rows,
            m.cols == cols,
            m.wf(),
            forall|k: int| 0 <= k < m.data@.len() ==> #[trigger] m.data@[k] == m.data@[0],
            <T as FromSpec<i8>>::obeys_from_spec() ==> forall|k: int|
                0 <= k < m.data@.len() ==> #[trigger] m.data@[k] == T::from_spec(0i8),
    {
        Self::zeros(rows, cols)
    }

    /// The `rows x cols` matrix holding `data` in row-major order.
    pub fn from_data(rows: usize, cols: usize, data: Vec<T>) -> (m: Self)
        requires
            rows * cols == data@.len(),
        ensures
            m.rows == rows,
            m.cols == cols,
            m.data@ == data@,
            m.wf(),
    {
        Matrix { rows, cols, data }
    }

    /// A `rows x cols` matrix of zeros.
    pub fn zeros(rows: usize, cols: usize) -> (m: Self) where T: From<i8> + Copy
        requires
            rows * cols <= usize::MAX,
        ensures
            m.rows == rows,
            m.cols == cols,
            m.wf(),
            forall|k: int| 0 <= k < m.data@.len() ==> #[trigger] m.data@[k] == m.data@[0],
            <T as FromSpec<i8>>::obeys_from_spec() ==> forall|k: int|
                0 <= k < m.data@.len() ==> #[trigger] m.data@[k] == T::from_spec(0i8),
    {
        let zero = T::from(0i8);
        Matrix { rows, cols, data: filled(rows * cols, zero) }
    }
}

/// `m` is the `n x n` matrix with `one` on the diagonal and `zero` elsewhere.
pub open spec fn is_identity_with<T>(m: Matrix<T>, n: nat, zero: T, one: T) -> bool {
    &&& m.rows == n
    &&& m.cols == n
    &&& m.wf()
    &&& forall|i: int, j: int|
        0 <= i < n && 0 <= j < n ==> #[trigger] m.at(i, j) == if i == j {
            one
        } else {
            zero
        }
}

impl<T> Matrix<T> {
    /// The `size x size` identity matrix.
    pub fn identity(size: usize) -> (m: Self) where T: From<i8> + Copy
        requires
            size * size <= usize::MAX,
        ensures
            exists|zero: T, one: T|
                {
                    &&& is_identity_with(m, size as nat, zero, one)
                    &&& <T as FromSpec<i8>>::obeys_from_spec() ==> zero == T::from_spec(0i8)
                        && one == T::from_spec(1i8)
                },
    {
        let mut data = Self::zeros(size, size).data;
        let one = T::from(1i8);
        let ghost orig = data@;
        proof {
            assert forall|a: int, b: int| 0 <= a < size && 0 <= b < size implies #[trigger] data@[a
                * size + b] == orig[0] by {
                lemma_row_major_bound(a, b, size as int, size as int);
            }
        }
        let mut i: usize = 0;
        while i < size
            invariant
                i <= size,
                size * size <= usize::MAX,
                data@.len() == size * size,
                forall|k: int| 0 <= k < data@.len() ==> #[trigger] orig[k] == orig[0],
                orig.len() == data@.len(),
                forall|a: int, b: int|
                    0 <= a < size && 0 <= b < size ==> #[trigger] data@[a * size + b] == if a == b
                        && a < i {
                        one
                    } else {
                        orig[0]
                    },
            decreases size - i,
        {
            proof {
                lemma_row_major_bound(i as int, i as int, size as int, size as int);
            }
            let k = i * size + i;
            data.set(k, one);
            proof {
                assert forall|a: int, b: int| 0 <= a < size && 0 <= b < size implies #[trigger] data@[a
                    * size + b] == if a == b && a < i + 1 {
                    one
                } else {
                    orig[0]
                } by {
                    lemma_row_major_bound(a, b, size as int, size as int);
                    if a * size + b == k {
                        lemma_column_major_split(a * size + b, size as int, b, a);
                        lemma_column_major_split(k as int, size as int, i as int, i as int);
                    }
                }
            }
            i = i + 1;
        }
        let m = Matrix { rows: size, cols: size, data };
        proof {
            let zero = if <T as FromSpec<i8>>::obeys_from_spec() {
                T::from_spec(0i8)
            } else {
                orig[0]
            };
            if size > 0 {
                lemma_row_major_bound(0, 0, size as int, size as int);
            }
            assert(is_identity_with(m, size as nat, zero, one));
        }
        m
    }

    /// The transpose, computed block by block (`blocksize`, default 32).
    pub fn transpose(&self, blocksize: Option<usize>) -> (t: Self) where T: Copy
        requires
            self.rows > 0 && self.cols > 0 ==> blocksize != Some(0usize),
            self.rows > 0 && self.cols > 0 ==> self.rows * self.cols <= self.data@.len(),
        ensures
            is_transpose_of(t, *self),
    {
        let data = blocked_transpose(&self.data, self.rows, self.cols, blocksize);
        proof {
            vstd::arithmetic::mul::lemma_mul_is_commutative(self.rows as int, self.cols as int);
        }
        Matrix { rows: self.cols, cols: self.rows, data }
    }
}

/// The elements of the row-major `rows x cols` matrix `data` in transposed
/// (column-major) order, copied block by block (`blocksize`, default 32):
/// element (i, j) goes to position `j * rows + i`.
pub fn blocked_transpose<T: Copy>(data: &Vec<T>, rows: usize, cols: usize, blocksize: Option<usize>) -> (td: Vec<T>)
    requires
        rows > 0 && cols > 0 ==> blocksize != Some(0usize),
        rows > 0 && cols > 0 ==> rows * cols <= data@.len(),
    ensures
        td@.len() == rows * cols,
        forall|i: int, j: int|
            0 <= i < rows && 0 <= j < cols ==> #[trigger] td@[j * rows + i] == data@[i * cols + j],
{
    if rows == 0 || cols == 0 {
        assert(rows * cols == 0) by (nonlinear_arith)
            requires
                rows == 0 || cols == 0,
        ;
        return Vec::new();
    }
    let bs = match blocksize {
        Some(b) => b,
        None => 32,
    };
    let len: usize = data.len();
    let n = rows * cols;
    proof {
        lemma_row_major_bound(0, 0, rows as int, cols as int);
    }
    let mut td = filled(n, data[0]);
    let mut i: usize = 0;
    while i < rows
        invariant
            0 < rows,
            0 < cols,
            0 < bs,
            n == rows * cols,
            n <= data@.len(),
            i <= rows,
            td@.len() == n,
            forall|t: int|
                0 <= t < n && transpose_done(t % (rows as int), t / (rows as int), i as int, 0, 0, 0, 0, 0)
                    ==> #[trigger] td@[t] == data@[(t % (rows as int)) * cols + t / (rows as int)],
        decreases rows - i,
    {
        let i_max = if bs < rows - i {
            i + bs
        } else {
            rows
        };
        let mut j: usize = 0;
        while j < cols
            invariant
                0 < rows,
                0 < cols,
                0 < bs,
                n == rows * cols,
                n <= data@.len(),
                i < i_max <= rows,
                j <= cols,
                td@.len() == n,
                forall|t: int|
                    0 <= t < n && transpose_done(
                        t % (rows as int),
                        t / (rows as int),
                        i as int,
                        i_max as int,
                        j as int,
                        0,
                        0,
                        0,
                    ) ==> #[trigger] td@[t] == data@[(t % (rows as int)) * cols + t / (rows as int)],
            decreases cols - j,
        {
            let j_max = if bs < cols - j {
                j + bs
            } else {
                cols
            };
            let mut ii = i;
            while ii < i_max
                invariant
                    0 < rows,
                    0 < cols,
                    n == rows * cols,
                    n <= data@.len(),
                    i <= ii <= i_max <= rows,
                    j < j_max <= cols,
                    td@.len() == n,
                    forall|t: int|
                        0 <= t < n && transpose_done(
                            t % (rows as int),
                            t / (rows as int),
                            i as int,
                            i_max as int,
                            j as int,
                            j_max as int,
                            ii as int,
                            j as int,
                        ) ==> #[trigger] td@[t] == data@[(t % (rows as int)) * cols + t / (rows as int)],
                decreases i_max - ii,
            {
                let mut jj = j;
                while jj < j_max
                    invariant
                        0 < rows,
                        0 < cols,
                        n == rows * cols,
                        n <= data@.len(),
                        i <= ii < i_max <= rows,
                        j <= jj <= j_max <= cols,
                        td@.len() == n,
                        forall|t: int|
                            0 <= t < n && transpose_done(
                                t % (rows as int),
                                t / (rows as int),
                                i as int,
                                i_max as int,
                                j as int,
                                j_max as int,
                                ii as int,
                                jj as int,
                            ) ==> #[trigger] td@[t] == data@[(t % (rows as int)) * cols + t / (rows as int)],
                    decreases j_max - jj,
                {
                    proof {
                        lemma_row_major_bound(ii as int, jj as int, rows as int, cols as int);
                        lemma_row_major_bound(jj as int, ii as int, cols as int, rows as int);
                        vstd::arithmetic::mul::lemma_mul_is_commutative(rows as int, cols as int);
                    }
                    let src = ii * cols + jj;
                    let dst = jj * rows + ii;
                    let x = data[src];
                    td.set(dst, x);
                    proof {
                        lemma_column_major_split(dst as int, rows as int, ii as int, jj as int);
                        assert forall|t: int|
                            0 <= t < n && transpose_done(
                                t % (rows as int),
                                t / (rows as int),
                                i as int,
                                i_max as int,
                                j as int,
                                j_max as int,
                                ii as int,
                                jj + 1,
                            ) implies #[trigger] td@[t] == data@[(t % (rows as int)) * cols + t / (rows as int)] by {
                            vstd::arithmetic::div_mod::lemma_fundamental_div_mod(t, rows as int);
                            if t % (rows as int) == ii && t / (rows as int) == jj {
                                vstd::arithmetic::mul::lemma_mul_is_commutative(rows as int, jj as int);
                                assert(t == dst);
                            }
                        }
                    }
                    jj = jj + 1;
                }
                ii = ii + 1;
            }
            j = j_max;
        }
        proof {
            assert forall|t: int| 0 <= t < n implies #[trigger] (t / (rows as int)) < cols by {
                lemma_flat_column_bound(t, rows as int, cols as int);
            }
        }
        i = i_max;
    }
    proof {
        assert forall|a: int, b: int| 0 <= a < rows && 0 <= b < cols implies #[trigger] td@[b * rows + a]
            == data@[a * cols + b] by {
            lemma_row_major_bound(b, a, cols as int, rows as int);
            vstd::arithmetic::mul::lemma_mul_is_commutative(rows as int, cols as int);
            lemma_column_major_split(b * rows + a, rows as int, a, b);
        }
    }
    td
}

// ---------- Arithmetic Operations ----------

/// Writes the element-wise sum `lhs + rhs` into `out`.
pub fn add_core<T>(lhs: &Matrix<T>, rhs: &Matrix<T>, out: &mut Matrix<T>) where
    T: Copy + core::ops::Add<Output = T>,

    requires
        lhs.rows == rhs.rows,
        lhs.cols == rhs.cols,
        lhs.rows == old(out).rows,
        lhs.cols == old(out).cols,
        lhs.rows * lhs.cols <= lhs.data@.len(),
        lhs.rows * lhs.cols <= rhs.data@.len(),
        lhs.rows * lhs.cols <= old(out).data@.len(),
        forall|k: int| 0 <= k < lhs.rows * lhs.cols ==> #[trigger] lhs.data@[k].add_req(rhs.data@[k]),
    ensures
        final(out).rows == old(out).rows,
        final(out).cols == old(out).cols,
        final(out).data@.len() == old(out).data@.len(),
        forall|k: int|
            lhs.rows * lhs.cols <= k < old(out).data@.len() ==> #[trigger] final(out).data@[k] == old(
                out,
            ).data@[k],
        T::obeys_add_spec() ==> forall|k: int|
            0 <= k < lhs.rows * lhs.cols ==> #[trigger] final(out).data@[k] == lhs.data@[k].add_spec(
                rhs.data@[k],
            ),
{
    let rows = lhs.rows;
    let cols = lhs.cols;
    let l1: usize = lhs.data.len();
    let l2: usize = rhs.data.len();
    let l3: usize = out.data.len();
    let mut i: usize = 0;
    while i < rows
        invariant
            rows == lhs.rows,
            cols == lhs.cols,
            rows * cols <= lhs.data@.len(),
            rows * cols <= rhs.data@.len(),
            i <= rows,
            rows * cols <= usize::MAX,
            out.rows == old(out).rows,
            out.cols == old(out).cols,
            out.data@.len() == old(out).data@.len(),
            rows * cols <= old(out).data@.len(),
            forall|k: int| 0 <= k < rows * cols ==> #[trigger] lhs.data@[k].add_req(rhs.data@[k]),
            forall|k: int| i * cols <= k < old(out).data@.len() ==> #[trigger] out.data@[k] == old(out).data@[k],
            T::obeys_add_spec() ==> forall|k: int|
                0 <= k < i * cols ==> #[trigger] out.data@[k] == lhs.data@[k].add_spec(rhs.data@[k]),
        decreases rows - i,
    {
        let mut j: usize = 0;
        while j < cols
            invariant
                rows == lhs.rows,
                cols == lhs.cols,
                rows * cols <= lhs.data@.len(),
                rows * cols <= rhs.data@.len(),
                i < rows,
                rows * cols <= usize::MAX,
                j <= cols,
                out.rows == old(out).rows,
                out.cols == old(out).cols,
                out.data@.len() == old(out).data@.len(),
                rows * cols <= old(out).data@.len(),
                forall|k: int| 0 <= k < rows * cols ==> #[trigger] lhs.data@[k].add_req(rhs.data@[k]),
                forall|k: int|
                    i * cols + j <= k < old(out).data@.len() ==> #[trigger] out.data@[k] == old(out).data@[k],
                T::obeys_add_spec() ==> forall|k: int|
                    0 <= k < i * cols + j ==> #[trigger] out.data@[k] == lhs.data@[k].add_spec(rhs.data@[k]),
            decreases cols - j,
        {
            proof {
                lemma_row_major_bound(i as int, j as int, rows as int, cols as int);
            }
            let k = i * cols + j;
            let x = lhs.data[k] + rhs.data[k];
            out.data.set(k, x);
            j = j + 1;
        }
        proof {
            if cols > 0 {
                lemma_row_major_bound(i as int, 0, rows as int, cols as int);
            } else {
                assert((i + 1) * cols == i * cols) by (nonlinear_arith)
                    requires
                        cols == 0,
                ;
            }
        }
        i = i + 1;
    }
}

/// Writes the element-wise difference `lhs - rhs` into `out`.
pub fn sub_core<T>(lhs: &Matrix<T>, rhs: &Matrix<T>, out: &mut Matrix<T>) where
    T: Copy + core::ops::Sub<Output = T>,

    requires
        lhs.rows == rhs.rows,
        lhs.cols == rhs.cols,
        lhs.rows == old(out).rows,
        lhs.cols == old(out).cols,
        lhs.rows * lhs.cols <= lhs.data@.len(),
        lhs.rows * lhs.cols <= rhs.data@.len(),
        lhs.rows * lhs.cols <= old(out).data@.len(),
        forall|k: int| 0 <= k < lhs.rows * lhs.cols ==> #[trigger] lhs.data@[k].sub_req(rhs.data@[k]),
    ensures
        final(out).rows == old(out).rows,
        final(out).cols == old(out).cols,
        final(out).data@.len() == old(out).data@.len(),
        forall|k: int|
            lhs.rows * lhs.cols <= k < old(out).data@.len() ==> #[trigger] final(out).data@[k] == old(
                out,
            ).data@[k],
        T::obeys_sub_spec() ==> forall|k: int|
            0 <= k < lhs.rows * lhs.cols ==> #[trigger] final(out).data@[k] == lhs.data@[k].sub_spec(
                rhs.data@[k],
            ),
{
    let rows = lhs.rows;
    let cols = lhs.cols;
    let l1: usize = lhs.data.len();
    let l2: usize = rhs.data.len();
    let l3: usize = out.data.len();
    let mut i: usize = 0;
    while i < rows
        invariant
            rows == lhs.rows,
            cols == lhs.cols,
            rows * cols <= lhs.data@.len(),
            rows * cols <= rhs.data@.len(),
            i <= rows,
            rows * cols <= usize::MAX,
            out.rows == old(out).rows,
            out.cols == old(out).cols,
            out.data@.len() == old(out).data@.len(),
            rows * cols <= old(out).data@.len(),
            forall|k: int| 0 <= k < rows * cols ==> #[trigger] lhs.data@[k].sub_req(rhs.data@[k]),
            forall|k: int| i * cols <= k < old(out).data@.len() ==> #[trigger] out.data@[k] == old(out).data@[k],
            T::obeys_sub_spec() ==> forall|k: int|
                0 <= k < i * cols ==> #[trigger] out.data@[k] == lhs.data@[k].sub_spec(rhs.data@[k]),
        decreases rows - i,
    {
        let mut j: usize = 0;
        while j < cols
            invariant
                rows == lhs.rows,
                cols == lhs.cols,
                rows * cols <= lhs.data@.len(),
                rows * cols <= rhs.data@.len(),
                i < rows,
                rows * cols <= usize::MAX,
                j <= cols,
                out.rows == old(out).rows,
                out.cols == old(out).cols,
                out.data@.len() == old(out).data@.len(),
                rows * cols <= old(out).data@.len(),
                forall|k: int| 0 <= k < rows * cols ==> #[trigger] lhs.data@[k].sub_req(rhs.data@[k]),
                forall|k: int|
                    i * cols + j <= k < old(out).data@.len() ==> #[trigger] out.data@[k] == old(out).data@[k],
                T::obeys_sub_spec() ==> forall|k: int|
                    0 <= k < i * cols + j ==> #[trigger] out.data@[k] == lhs.data@[k].sub_spec(rhs.data@[k]),
            decreases cols - j,
        {
            proof {
                lemma_row_major_bound(i as int, j as int, rows as int, cols as int);
            }
            let k = i * cols + j;
            let x = lhs.data[k] - rhs.data[k];
            out.data.set(k, x);
            j = j + 1;
        }
        proof {
            if cols > 0 {
                lemma_row_major_bound(i as int, 0, rows as int, cols as int);
            } else {
                assert((i + 1) * cols == i * cols) by (nonlinear_arith)
                    requires
                        cols == 0,
                ;
            }
        }
        i = i + 1;
    }
}

/// Writes `matrix * scalar`, element by element, into `out`.
pub fn scalar_mul_core<T>(matrix: &Matrix<T>, scalar: T, out: &mut Matrix<T>) where
    T: Copy + core::ops::Mul<Output = T>,

    requires
        matrix.rows == old(out).rows,
        matrix.cols == old(out).cols,
        matrix.rows * matrix.cols <= matrix.data@.len(),
        matrix.rows * matrix.cols <= old(out).data@.len(),
        forall|k: int| 0 <= k < matrix.rows * matrix.cols ==> #[trigger] matrix.data@[k].mul_req(scalar),
    ensures
        final(out).rows == old(out).rows,
        final(out).cols == old(out).cols,
        final(out).data@.len() == old(out).data@.len(),
        forall|k: int|
            matrix.rows * matrix.cols <= k < old(out).data@.len() ==> #[trigger] final(out).data@[k] == old(
                out,
            ).data@[k],
        T::obeys_mul_spec() ==> forall|k: int|
            0 <= k < matrix.rows * matrix.cols ==> #[trigger] final(out).data@[k] == matrix.data@[k].mul_spec(scalar),
{
    let rows = matrix.rows;
    let cols = matrix.cols;
    let l1: usize = matrix.data.len();
    let l3: usize = out.data.len();
    let mut i: usize = 0;
    while i < rows
        invariant
            rows == matrix.rows,
            cols == matrix.cols,
            rows * cols <= matrix.data@.len(),
            i <= rows,
            rows * cols <= usize::MAX,
            out.rows == old(out).rows,
            out.cols == old(out).cols,
            out.data@.len() == old(out).data@.len(),
            rows * cols <= old(out).data@.len(),
            forall|k: int| 0 <= k < rows * cols ==> #[trigger] matrix.data@[k].mul_req(scalar),
            forall|k: int| i * cols <= k < old(out).data@.len() ==> #[trigger] out.data@[k] == old(out).data@[k],
            T::obeys_mul_spec() ==> forall|k: int|
                0 <= k < i * cols ==> #[trigger] out.data@[k] == matrix.data@[k].mul_spec(scalar),
        decreases rows - i,
    {
        let mut j: usize = 0;
        while j < cols
            invariant
                rows == matrix.rows,
                cols == matrix.cols,
                rows * cols <= matrix.data@.len(),
                    i < rows,
                rows * cols <= usize::MAX,
                j <= cols,
                out.rows == old(out).rows,
                out.cols == old(out).cols,
                out.data@.len() == old(out).data@.len(),
                rows * cols <= old(out).data@.len(),
                forall|k: int| 0 <= k < rows * cols ==> #[trigger] matrix.data@[k].mul_req(scalar),
                forall|k: int|
                    i * cols + j <= k < old(out).data@.len() ==> #[trigger] out.data@[k] == old(out).data@[k],
                T::obeys_mul_spec() ==> forall|k: int|
                    0 <= k < i * cols + j ==> #[trigger] out.data@[k] == matrix.data@[k].mul_spec(scalar),
            decreases cols - j,
        {
            proof {
                lemma_row_major_bound(i as int, j as int, rows as int, cols as int);
            }
            let k = i * cols + j;
            let x = matrix.data[k] * scalar;
            out.data.set(k, x);
            j = j + 1;
        }
        proof {
            if cols > 0 {
                lemma_row_major_bound(i as int, 0, rows as int, cols as int);
            } else {
                assert((i + 1) * cols == i * cols) by (nonlinear_arith)
                    requires
                        cols == 0,
                ;
            }
        }
        i = i + 1;
    }
}


impl<'a, 'b, T> core::ops::Add<&'b Matrix<T>> for &'a Matrix<T> where
    T: Copy + core::ops::Add<Output = T> + From<i8>,
 {
    type Output = Matrix<T>;

    fn add(self, rhs: &'b Matrix<T>) -> (out: Matrix<T>)
        ensures
            out.rows == self.rows,
            out.cols == self.cols,
            out.wf(),
            T::obeys_add_spec() ==> forall|k: int|
                0 <= k < self.rows * self.cols ==> #[trigger] out.data@[k] == self.data@[k].add_spec(
                    rhs.data@[k],
                ),
    {
        let len: usize = self.data.len();
        let mut out = Matrix::new(self.rows, self.cols);
        add_core(self, rhs, &mut out);
        out
    }
}

impl<'a, 'b, T> vstd::std_specs::ops::AddSpecImpl<&'b Matrix<T>> for &'a Matrix<T> where
    T: Copy + core::ops::Add<Output = T> + From<i8>,
 {
    open spec fn obeys_add_spec() -> bool {
        false
    }

    open spec fn add_req(self, rhs: &'b Matrix<T>) -> bool {
        &&& self.rows == rhs.rows
        &&& self.cols == rhs.cols
        &&& self.rows * self.cols <= self.data@.len()
        &&& self.rows * self.cols <= rhs.data@.len()
        &&& forall|k: int|
            0 <= k < self.rows * self.cols ==> #[trigger] self.data@[k].add_req(rhs.data@[k])
    }

    open spec fn add_spec(self, rhs: &'b Matrix<T>) -> Matrix<T> {
        choose|m: Matrix<T>|
            m.rows == self.rows && m.cols == self.cols && m.wf() && forall|k: int|
                0 <= k < self.rows * self.cols ==> #[trigger] m.data@[k] == self.data@[k].add_spec(
                    rhs.data@[k],
                )
    }
}

impl<'a, 'b, T> core::ops::Sub<&'b Matrix<T>> for &'a Matrix<T> where
    T: Copy + core::ops::Sub<Output = T> + From<i8>,
 {
    type Output = Matrix<T>;

    fn sub(self, rhs: &'b Matrix<T>) -> (out: Matrix<T>)
        ensures
            out.rows == self.rows,
            out.cols == self.cols,
            out.wf(),
            T::obeys_sub_spec() ==> forall|k: int|
                0 <= k < self.rows * self.cols ==> #[trigger] out.data@[k] == self.data@[k].sub_spec(
                    rhs.data@[k],
                ),
    {
        let len: usize = self.data.len();
        let mut out = Matrix::new(self.rows, self.cols);
        sub_core(self, rhs, &mut out);
        out
    }
}

impl<'a, 'b, T> vstd::std_specs::ops::SubSpecImpl<&'b Matrix<T>> for &'a Matrix<T> where
    T: Copy + core::ops::Sub<Output = T> + From<i8>,
 {
    open spec fn obeys_sub_spec() -> bool {
        false
    }

    open spec fn sub_req(self, rhs: &'b Matrix<T>) -> bool {
        &&& self.rows == rhs.rows
        &&& self.cols == rhs.cols
        &&& self.rows * self.cols <= self.data@.len()
        &&& self.rows * self.cols <= rhs.data@.len()
        &&& forall|k: int|
            0 <= k < self.rows * self.cols ==> #[trigger] self.data@[k].sub_req(rhs.data@[k])
    }

    open spec fn sub_spec(self, rhs: &'b Matrix<T>) -> Matrix<T> {
        choose|m: Matrix<T>|
            m.rows == self.rows && m.cols == self.cols && m.wf() && forall|k: int|
                0 <= k < self.rows * self.cols ==> #[trigger] m.data@[k] == self.data@[k].sub_spec(
                    rhs.data@[k],
                )
    }
}

impl<'a, T> core::ops::Mul<T> for &'a Matrix<T> where
    T: Copy + core::ops::Mul<Output = T> + From<i8>,
 {
    type Output = Matrix<T>;

    fn mul(self, rhs: T) -> (out: Matrix<T>)
        ensures
            out.rows == self.rows,
            out.cols == self.cols,
            out.wf(),
            T::obeys_mul_spec() ==> forall|k: int|
                0 <= k < self.rows * self.cols ==> #[trigger] out.data@[k] == self.data@[k].mul_spec(
                    rhs,
                ),
    {
        let len: usize = self.data.len();
        let mut out = Matrix::new(self.rows, self.cols);
        scalar_mul_core(self, rhs, &mut out);
        out
    }
}

impl<'a, T> vstd::std_specs::ops::MulSpecImpl<T> for &'a Matrix<T> where
    T: Copy + core::ops::Mul<Output = T> + From<i8>,
 {
    open spec fn obeys_mul_spec() -> bool {
        false
    }

    open spec fn mul_req(self, rhs: T) -> bool {
        &&& self.rows * self.cols <= self.data@.len()
        &&& forall|k: int| 0 <= k < self.rows * self.cols ==> #[trigger] self.data@[k].mul_req(rhs)
    }

    open spec fn mul_spec(self, rhs: T) -> Matrix<T> {
        choose|m: Matrix<T>|
            m.rows == self.rows && m.cols == self.cols && m.wf() && forall|k: int|
                0 <= k < self.rows * self.cols ==> #[trigger] m.data@[k] == self.data@[k].mul_spec(rhs)
    }
}


/// `out = beta * out + alpha * a * b` over the `a.rows() x b.cols()` block of
/// `out`; `alpha` defaults to one and `beta` to zero. The scaling sweep is
/// skipped when `beta` is one, the product sweep when `alpha` is zero.
#[verifier::loop_isolation(false)]
pub fn gemm_kernel<A, B, C, T>(a: &A, b: &B, out: &mut C, alpha: Option<T>, beta: Option<T>) where
    A: MatrixRead<T>,
    B: MatrixRead<T>,
    C: MatrixWrite<T>,
    T: Copy + core::ops::Add<Output = T> + core::ops::Mul<Output = T> + Default + PartialEq + From<i8>
        + core::ops::Sub<Output = T>,

    requires
        a.ncols() == b.nrows(),
        gemm_allowed(a, b, old(out), alpha, beta),
    ensures
        same_layout(final(out), old(out)),
        final(out).storage().len() == old(out).storage().len(),
        forall|t: int|
            0 <= t < old(out).storage().len() && !touched(old(out), a.nrows() as int, b.ncols() as int, t)
                ==> #[trigger] final(out).storage()[t] == old(out).storage()[t],
        exact_ops::<T>() ==> final(out).storage() == gemm_result(a, b, old(out), alpha, beta),
{
    let m = a.rows();
    let k_dim = a.cols();
    let n = b.cols();
    let zero = T::from(0i8);
    let one = T::from(1i8);
    let beta = match beta {
        Some(x) => x,
        None => zero,
    };
    let alpha = match alpha {
        Some(x) => x,
        None => one,
    };
    let ghost s0 = out.storage();
    let ghost idx = |r: int, c: int| old(out).index_of(r, c);
    let ghost factor_spec = beta.sub_spec(one);
    // beta scaling block: skipped when beta is one
    if beta != one {
        let mut i: usize = 0;
        while i < m
            invariant
                i <= m,
                same_layout(out, old(out)),
                out.storage().len() == s0.len(),
                forall|t: int|
                    0 <= t < s0.len() && !touched(old(out), m as int, n as int, t) ==> #[trigger] out.storage()[t]
                        == s0[t],
                exact_ops::<T>() ==> out.storage() == scale_sweep(s0, idx, n as int, factor_spec, i as int, 0),
            decreases m - i,
        {
            let mut j: usize = 0;
            while j < n
                invariant
                    i < m,
                    j <= n,
                    same_layout(out, old(out)),
                    out.storage().len() == s0.len(),
                    forall|t: int|
                        0 <= t < s0.len() && !touched(old(out), m as int, n as int, t) ==> #[trigger] out.storage()[t]
                            == s0[t],
                    exact_ops::<T>() ==> out.storage() == scale_sweep(
                        s0,
                        idx,
                        n as int,
                        factor_spec,
                        i as int,
                        j as int,
                    ),
                decreases n - j,
            {
                assert(0 <= idx(i as int, j as int) < s0.len());
                assert(in_storage(old(out), i as int, j as int));
                let cur = *out.get(i, j);
                let factor = beta - one;
                let v = factor * cur;
                out.accumulate(i, j, v);
                j = j + 1;
            }
            i = i + 1;
        }
    }
    let ghost s1 = out.storage();
    // Matrix multiplication block: skipped when alpha is zero
    if alpha != zero {
        let mut i: usize = 0;
        while i < m
            invariant
                i <= m,
                same_layout(out, old(out)),
                out.storage().len() == s0.len(),
                forall|t: int|
                    0 <= t < s0.len() && !touched(old(out), m as int, n as int, t) ==> #[trigger] out.storage()[t]
                        == s0[t],
                exact_ops::<T>() ==> out.storage() == product_sweep(
                    s1,
                    idx,
                    |r: int, c: int| entry(a, r, c),
                    |r: int, c: int| entry(b, r, c),
                    k_dim as int,
                    n as int,
                    alpha,
                    i as int,
                    0,
                    0,
                ),
            decreases m - i,
        {
            let mut k: usize = 0;
            while k < k_dim
                invariant
                    i < m,
                    k <= k_dim,
                    same_layout(out, old(out)),
                    out.storage().len() == s0.len(),
                    forall|t: int|
                        0 <= t < s0.len() && !touched(old(out), m as int, n as int, t) ==> #[trigger] out.storage()[t]
                            == s0[t],
                    exact_ops::<T>() ==> out.storage() == product_sweep(
                        s1,
                        idx,
                        |r: int, c: int| entry(a, r, c),
                        |r: int, c: int| entry(b, r, c),
                        k_dim as int,
                        n as int,
                        alpha,
                        i as int,
                        k as int,
                        0,
                    ),
                decreases k_dim - k,
            {
                assert(in_storage(a, i as int, k as int));
                let a_ik = a.get(i, k);
                let mut j: usize = 0;
                while j < n
                    invariant
                        i < m,
                        k < k_dim,
                        j <= n,
                        same_layout(out, old(out)),
                        out.storage().len() == s0.len(),
                        forall|t: int|
                            0 <= t < s0.len() && !touched(old(out), m as int, n as int, t) ==> #[trigger] out.storage()[t]
                                == s0[t],
                        exact_ops::<T>() ==> out.storage() == product_sweep(
                            s1,
                            idx,
                            |r: int, c: int| entry(a, r, c),
                            |r: int, c: int| entry(b, r, c),
                            k_dim as int,
                            n as int,
                            alpha,
                            i as int,
                            k as int,
                            j as int,
                        ),
                    decreases n - j,
                {
                    assert(in_storage(b, k as int, j as int));
                    let b_kj = b.get(k, j);
                    assert(0 <= idx(i as int, j as int) < s0.len());
                assert(in_storage(old(out), i as int, j as int));
                    let v = (*a_ik) * (*b_kj) * alpha;
                    out.accumulate(i, j, v);
                    j = j + 1;
                }
                k = k + 1;
            }
            i = i + 1;
        }
    }
}


impl<'a, 'b, T> core::ops::Mul<&'b Matrix<T>> for &'a Matrix<T> where
    T: Copy + core::ops::Add<Output = T> + core::ops::Mul<Output = T> + Default + PartialEq + From<i8>
        + core::ops::Sub<Output = T>,
 {
    type Output = Matrix<T>;

    /// The matrix product, computed by `gemm_kernel` into a zero matrix.
    fn mul(self, rhs: &'b Matrix<T>) -> (out: Matrix<T>)
        ensures
            out.rows == self.rows,
            out.cols == rhs.cols,
            out.wf(),
            exact_ops::<T>() ==> out.data@ == gemm_on(
                self,
                rhs,
                zero_block::<T>(self.rows * rhs.cols),
                row_major(rhs.cols as int),
                None,
                None,
            ),
    {
        let mut out = Matrix::zeros(self.rows, rhs.cols);
        proof {
            let zb = zero_block::<T>(self.rows * rhs.cols);
            assert((|r: int, c: int| out.index_of(r, c)) =~= row_major(rhs.cols as int));
            if exact_ops::<T>() {
                assert(out.data@ =~= zb);
            }
        }
        gemm_kernel(self, rhs, &mut out, None, None);
        out
    }
}

impl<'a, 'b, T> vstd::std_specs::ops::MulSpecImpl<&'b Matrix<T>> for &'a Matrix<T> where
    T: Copy + core::ops::Add<Output = T> + core::ops::Mul<Output = T> + Default + PartialEq + From<i8>
        + core::ops::Sub<Output = T>,
 {
    open spec fn obeys_mul_spec() -> bool {
        false
    }

    open spec fn mul_req(self, rhs: &'b Matrix<T>) -> bool {
        &&& self.cols == rhs.rows
        &&& self.rows * rhs.cols <= usize::MAX
        &&& gemm_allowed_on(
            self,
            rhs,
            zero_block::<T>(self.rows * rhs.cols),
            row_major(rhs.cols as int),
            None,
            None,
        )
    }

    open spec fn mul_spec(self, rhs: &'b Matrix<T>) -> Matrix<T> {
        choose|m: Matrix<T>|
            m.rows == self.rows && m.cols == rhs.cols && m.wf() && m.data@ == gemm_on(
                self,
                rhs,
                zero_block::<T>(self.rows * rhs.cols),
                row_major(rhs.cols as int),
                None,
                None,
            )
    }
}


/// The row-major layout with `cols` columns keeps the elements of an
/// `rows x cols` block apart and inside `rows * cols` slots.
pub proof fn lemma_row_major_layout(rows: int, cols: int)
    requires
        0 <= rows,
        0 <= cols,
    ensures
        injective_on(row_major(cols), rows, cols),
        slots_in(rows * cols, row_major(cols), rows, cols),
{
    assert forall|i1: int, j1: int, i2: int, j2: int|
        0 <= i1 < rows && 0 <= j1 < cols && 0 <= i2 < rows && 0 <= j2 < cols && #[trigger] row_major(
            cols,
        )(i1, j1) == #[trigger] row_major(cols)(i2, j2) implies i1 == i2 && j1 == j2 by {
        lemma_column_major_split(i1 * cols + j1, cols, j1, i1);
        lemma_column_major_split(i2 * cols + j2, cols, j2, i2);
    }
    assert forall|i: int, j: int| 0 <= i < rows && 0 <= j < cols implies 0 <= #[trigger] row_major(
        cols,
    )(i, j) < rows * cols by {
        lemma_row_major_bound(i, j, rows, cols);
    }
}

/// For `i64` matrices, the product that `*` computes holds at (i, j) the sum
/// over k of `a(i, k) * b(k, j)`, whenever `*` is permitted (no overflow).
pub proof fn lemma_matmul_i64(a: &Matrix<i64>, b: &Matrix<i64>, i: int, j: int)
    requires
        a.cols == b.rows,
        a.rows * b.cols <= usize::MAX,
        gemm_allowed_on(
            a,
            b,
            zero_block::<i64>(a.rows * b.cols),
            row_major(b.cols as int),
            None,
            None,
        ),
        0 <= i < a.rows,
        0 <= j < b.cols,
    ensures
        gemm_on(a, b, zero_block::<i64>(a.rows * b.cols), row_major(b.cols as int), None, None)[i
            * b.cols + j] as int == dot_int(
            |r: int, q: int| a.at(r, q) as int,
            |r: int, q: int| b.at(r, q) as int,
            i,
            j,
            a.cols as int,
        ),
{
    let s = zero_block::<i64>(a.rows * b.cols);
    lemma_row_major_layout(a.rows as int, b.cols as int);
    lemma_row_major_bound(i, j, a.rows as int, b.cols as int);
    lemma_gemm_i64(a, b, s, row_major(b.cols as int), None, None, i, j);
    assert((|r: int, q: int| entry(a, r, q) as int) =~= (|r: int, q: int| a.at(r, q) as int));
    assert((|r: int, q: int| entry(b, r, q) as int) =~= (|r: int, q: int| b.at(r, q) as int));
}


/// `t` is the transpose of `m`: `cols x rows`, well formed, with element
/// (j, i) of `t` equal to element (i, j) of `m`.
pub open spec fn is_transpose_of<T>(t: Matrix<T>, m: Matrix<T>) -> bool {
    &&& t.rows == m.cols
    &&& t.cols == m.rows
    &&& t.wf()
    &&& forall|i: int, j: int| 0 <= i < m.rows && 0 <= j < m.cols ==> #[trigger] t.at(j, i) == m.at(i, j)
}

/// The transpose has the shape turned over, and its element (j, i) is the
/// matrix's element (i, j).
pub proof fn lemma_transpose_entries<T>(m: Matrix<T>, t: Matrix<T>, i: int, j: int)
    requires
        is_transpose_of(t, m),
        0 <= i < m.rows,
        0 <= j < m.cols,
    ensures
        t.nrows() == m.ncols(),
        t.ncols() == m.nrows(),
        t.storage()[t.index_of(j, i)] == m.storage()[m.index_of(i, j)],
{
    assert(t.at(j, i) == m.at(i, j));
}

/// Transposing twice gives back the matrix: its shape and its elements.
pub proof fn lemma_transpose_involutive<T>(m: Matrix<T>, t: Matrix<T>, u: Matrix<T>)
    requires
        m.wf(),
        is_transpose_of(t, m),
        is_transpose_of(u, t),
    ensures
        u.rows == m.rows,
        u.cols == m.cols,
        u.data@ == m.data@,
{
    assert forall|k: int| 0 <= k < m.data@.len() implies #[trigger] u.data@[k] == m.data@[k] by {
        let cols = m.cols as int;
        assert(m.cols > 0) by (nonlinear_arith)
            requires
                0 <= k < m.rows * m.cols,
        ;
        let i = k / cols;
        let j = k % cols;
        vstd::arithmetic::div_mod::lemma_fundamental_div_mod(k, cols);
        vstd::arithmetic::div_mod::lemma_mod_pos_bound(k, cols);
        assert(k / cols < m.rows) by {
            vstd::arithmetic::mul::lemma_mul_is_commutative(m.rows as int, cols);
            lemma_flat_column_bound(k, cols, m.rows as int);
        }
        vstd::arithmetic::mul::lemma_mul_is_commutative(cols, i);
        assert(u.at(i, j) == t.at(j, i));
    }
    assert(u.data@ =~= m.data@);
}


/// A sum of products whose left factors are zero except a one at `i`
/// picks the right factor at `i`, once `k` has passed it.
proof fn lemma_dot_unit_left(e: spec_fn(int, int) -> int, b: spec_fn(int, int) -> int, i: int, j: int, k: int)
    requires
        forall|r: int, q: int| #[trigger] e(r, q) == if r == q { 1int } else { 0int },
    ensures
        dot_int(e, b, i, j, k) == if 0 <= i < k { b(i, j) } else { 0 },
    decreases k,
{
    if k > 0 {
        lemma_dot_unit_left(e, b, i, j, k - 1);
        assert(e(i, k - 1) == if i == k - 1 { 1int } else { 0int });
    }
}

/// A sum of products whose right factors are zero except a one at `j`
/// picks the left factor at `j`, once `k` has passed it.
proof fn lemma_dot_unit_right(a: spec_fn(int, int) -> int, e: spec_fn(int, int) -> int, i: int, j: int, k: int)
    requires
        forall|q: int, c: int| #[trigger] e(q, c) == if q == c { 1int } else { 0int },
    ensures
        dot_int(a, e, i, j, k) == if 0 <= j < k { a(i, j) } else { 0 },
    decreases k,
{
    if k > 0 {
        lemma_dot_unit_right(a, e, i, j, k - 1);
        assert(e(k - 1, j) == if k - 1 == j { 1int } else { 0int });
    }
}

/// For `i64` matrices, the identity is neutral on the left of `*`: the
/// product of the identity and `a` holds the elements of `a`, wherever `*`
/// is permitted (no overflow).
pub proof fn lemma_identity_mul_left_i64(id: &Matrix<i64>, a: &Matrix<i64>, i: int, j: int)
    requires
        is_identity_with(*id, a.rows as nat, 0, 1),
        a.wf(),
        a.rows * a.cols <= usize::MAX,
        gemm_allowed_on(id, a, zero_block::<i64>(id.rows * a.cols), row_major(a.cols as int), None, None),
        0 <= i < a.rows,
        0 <= j < a.cols,
    ensures
        gemm_on(id, a, zero_block::<i64>(id.rows * a.cols), row_major(a.cols as int), None, None)[i * a.cols
            + j] == a.at(i, j),
{
    let af = |r: int, q: int| a.at(r, q) as int;
    let ef = |r: int, q: int| id.at(r, q) as int;
    let ei = |r: int, q: int| if r == q { 1int } else { 0int };
    let n = a.rows as int;
    lemma_matmul_i64(id, a, i, j);
    lemma_dot_unit_left(ei, af, i, j, n);
    lemma_dot_prefix_agree(ef, ei, af, af, i, j, n, n);
}

/// For `i64` matrices, the identity is neutral on the right of `*`: the
/// product of `a` and the identity holds the elements of `a`, wherever `*`
/// is permitted (no overflow).
pub proof fn lemma_identity_mul_right_i64(a: &Matrix<i64>, id: &Matrix<i64>, i: int, j: int)
    requires
        is_identity_with(*id, a.cols as nat, 0, 1),
        a.wf(),
        a.rows * a.cols <= usize::MAX,
        gemm_allowed_on(a, id, zero_block::<i64>(a.rows * id.cols), row_major(id.cols as int), None, None),
        0 <= i < a.rows,
        0 <= j < a.cols,
    ensures
        gemm_on(a, id, zero_block::<i64>(a.rows * id.cols), row_major(id.cols as int), None, None)[i * id.cols
            + j] == a.at(i, j),
{
    let af = |r: int, q: int| a.at(r, q) as int;
    let ef = |r: int, q: int| id.at(r, q) as int;
    let ei = |r: int, q: int| if r == q { 1int } else { 0int };
    let n = a.cols as int;
    lemma_matmul_i64(a, id, i, j);
    lemma_dot_unit_right(af, ei, i, j, n);
    lemma_dot_prefix_agree(af, af, ef, ei, i, j, n, n);
}

/// Two sums of products agree where their factors agree on the terms they
/// add: the rows `i` of the left factors and the columns `j` of the right
/// factors, inner indices below `k` (and below `bound`).
proof fn lemma_dot_prefix_agree(
    a1: spec_fn(int, int) -> int,
    a2: spec_fn(int, int) -> int,
    b1: spec_fn(int, int) -> int,
    b2: spec_fn(int, int) -> int,
    i: int,
    j: int,
    k: int,
    bound: int,
)
    requires
        k <= bound,
        forall|q: int| 0 <= q < bound ==> #[trigger] a1(i, q) == a2(i, q),
        forall|q: int| 0 <= q < bound ==> #[trigger] b1(q, j) == b2(q, j),
    ensures
        dot_int(a1, b1, i, j, k) == dot_int(a2, b2, i, j, k),
    decreases k,
{
    if k > 0 {
        lemma_dot_prefix_agree(a1, a2, b1, b2, i, j, k - 1, bound);
        assert(a1(i, k - 1) == a2(i, k - 1));
        assert(b1(k - 1, j) == b2(k - 1, j));
    }
}

/// Reading a matrix addresses its `data` row by row: element (0, 0) is
/// `data[0]`, the next column is the next slot and the next row is `cols`
/// slots on.
pub proof fn lemma_matrix_addressing<T>(m: &Matrix<T>, r: int, c: int)
    ensures
        m.storage() == m.data@,
        m.index_of(0, 0) == 0,
        m.index_of(r, c + 1) == m.index_of(r, c) + 1,
        m.index_of(r + 1, c) == m.index_of(r, c) + m.cols,
{
    assert((r + 1) * m.cols == r * m.cols + m.cols) by (nonlinear_arith);
}

} // verus!
