//! A row-major matrix with read access, transposition and element-wise
//! arithmetic.

use vstd::prelude::*;
use vstd::std_specs::convert::FromSpec;
use vstd::std_specs::ops::{AddSpec, MulSpec, SubSpec};

use crate::dense::matrix::{
    blocked_transpose, is_identity_with as dense_is_identity_with, lemma_flat_column_bound, Matrix as DenseMatrix,
};

verus! {

/// A row-major matrix: element (i, j) is `data[i * cols + j]`.
#[derive(Debug, Clone)]
pub struct Matrix<T> {
    pub rows: usize,
    pub cols: usize,
    pub data: Vec<T>,
}

impl<T> Matrix<T> {
    /// `data` holds exactly `rows * cols` elements.
    pub open spec fn wf(&self) -> bool {
        self.data@.len() == self.rows * self.cols
    }

    /// Element (i, j) in the row-major layout.
    pub open spec fn at(&self, i: int, j: int) -> T {
        self.data@[i * self.cols + j]
    }
}

/// Read access to anything laid out as a matrix over a flat storage: the
/// element (row, col) lives at `storage()[index_of(row, col)]`.
pub trait MatrixRead<T>: Sized {
    /// Number of rows that `rows()` reports.
    spec fn nrows(&self) -> nat;

    /// Number of columns that `cols()` reports.
    spec fn ncols(&self) -> nat;

    /// The elements addressed by the matrix.
    spec fn storage(&self) -> Seq<T>;

    /// Position of element (row, col) in `storage()`.
    spec fn index_of(&self, row: int, col: int) -> int;

    fn rows(&self) -> (n: usize)
        ensures
            n == self.nrows(),
    ;

    fn cols(&self) -> (n: usize)
        ensures
            n == self.ncols(),
    ;

    /// The element (row, col); defined wherever its position lies in the storage.
    fn get(&self, row: usize, col: usize) -> (v: &T)
        requires
            0 <= self.index_of(row as int, col as int) < self.storage().len(),
        ensures
            *v == self.storage()[self.index_of(row as int, col as int)],
    ;
}

impl<T> MatrixRead<T> for Matrix<T> {
    open spec fn nrows(&self) -> nat {
        self.rows as nat
    }

    open spec fn ncols(&self) -> nat {
        self.cols as nat
    }

    open spec fn storage(&self) -> Seq<T> {
        self.data@
    }

    open spec fn index_of(&self, row: int, col: int) -> int {
        row * self.cols + col
    }

    fn rows(&self) -> (n: usize) {
        self.rows
    }

    fn cols(&self) -> (n: usize) {
        self.cols
    }

    fn get(&self, row: usize, col: usize) -> (v: &T) {
        let len: usize = self.data.len();
        proof {
            vstd::arithmetic::mul::lemma_mul_nonnegative(row as int, self.cols as int);
        }
        &self.data[row * self.cols + col]
    }
}

/// `m` is the `n x n` matrix with `one` on the diagonal and `zero` elsewhere.
pub open spec fn is_identity_with<T>(m: Matrix<T>, n: nat, zero: T, one: T) -> bool {
    &&& m.rows == n
    &&& m.cols == n
    &&& m.wf()
    &&& forall|i: int, j: int|
        0 <= i < n && 0 <= j < n ==> #[trigger] m.at(i, j) == if i == j {
            one
        } else {
            zero
        }
}

impl<T> Matrix<T> {
    /// The `rows x cols` matrix holding `data` row by row; `data` must hold
    /// exactly `rows * cols` elements.
    pub fn new(rows: usize, cols: usize, data: Vec<T>) -> (m: Self)
        requires
            rows * cols == data@.len(),
        ensures
            m.rows == rows,
            m.cols == cols,
            m.data == data,
            m.wf(),
    {
        Matrix { rows, cols, data }
    }

    /// The `rows x cols` matrix of zeros.
    pub fn zeros(rows: usize, cols: usize) -> (m: Self) where T: From<i8> + Copy
        requires
            rows * cols <= usize::MAX,
        ensures
            m.rows == rows,
            m.cols == cols,
            m.wf(),
            forall|k: int| 0 <= k < m.data@.len() ==> #[trigger] m.data@[k] == m.data@[0],
            <T as FromSpec<i8>>::obeys_from_spec() ==> forall|k: int|
                0 <= k < m.data@.len() ==> #[trigger] m.data@[k] == T::from_spec(0i8),
    {
        let z = DenseMatrix::<T>::zeros(rows, cols);
        Matrix { rows, cols, data: z.data }
    }

    /// The `size x size` identity matrix.
    pub fn identity(size: usize) -> (m: Self) where T: From<i8> + Copy
        requires
            size * size <= usize::MAX,
        ensures
            exists|zero: T, one: T|
                {
                    &&& is_identity_with(m, size as nat, zero, one)
                    &&& <T as FromSpec<i8>>::obeys_from_spec() ==> zero == T::from_spec(0i8)
                        && one == T::from_spec(1i8)
                },
    {
        let d = DenseMatrix::<T>::identity(size);
        let m = Matrix { rows: size, cols: size, data: d.data };
        proof {
            let (zero, one) = choose|zero: T, one: T|
                {
                    &&& dense_is_identity_with(d, size as nat, zero, one)
                    &&& <T as FromSpec<i8>>::obeys_from_spec() ==> zero == T::from_spec(0i8)
                        && one == T::from_spec(1i8)
                };
            assert forall|i: int, j: int| 0 <= i < size && 0 <= j < size implies #[trigger] m.at(i, j) == if i
                == j {
                one
            } else {
                zero
            } by {
                assert(d.at(i, j) == m.at(i, j));
            }
            assert(is_identity_with(m, size as nat, zero, one));
        }
        m
    }

    /// The transpose, computed block by block (`blocksize`, default 32).
    pub fn transpose(&self, blocksize: Option<usize>) -> (t: Self) where T: Copy
        requires
            self.rows > 0 && self.cols > 0 ==> blocksize != Some(0usize),
            self.rows > 0 && self.cols > 0 ==> self.rows * self.cols <= self.data@.len(),
        ensures
            is_transpose_of(t, *self),
    {
        let data = blocked_transpose(&self.data, self.rows, self.cols, blocksize);
        proof {
            vstd::arithmetic::mul::lemma_mul_is_commutative(self.rows as int, self.cols as int);
        }
        Matrix { rows: self.cols, cols: self.rows, data }
    }
}

// ---------- Arithmetic Operations ----------


/// The smaller of two lengths.
pub open spec fn shorter(a: nat, b: nat) -> nat {
    if a <= b {
        a
    } else {
        b
    }
}

/// `x[k] + y[k]` for every `k` below the shorter of the two lengths.
fn zip_add<T: Copy + core::ops::Add<Output = T>>(x: &Vec<T>, y: &Vec<T>) -> (r: Vec<T>)
    requires
        forall|k: int| 0 <= k < shorter(x@.len(), y@.len()) ==> #[trigger] x@[k].add_req(y@[k]),
    ensures
        r@.len() == shorter(x@.len(), y@.len()),
        T::obeys_add_spec() ==> forall|k: int| 0 <= k < r@.len() ==> #[trigger] r@[k] == x@[k].add_spec(y@[k]),
{
    let n = if x.len() <= y.len() { x.len() } else { y.len() };
    let mut r: Vec<T> = Vec::new();
    let mut k: usize = 0;
    while k < n
        invariant
            k <= n,
            n == shorter(x@.len(), y@.len()),
            r@.len() == k,
            forall|t: int| 0 <= t < n ==> #[trigger] x@[t].add_req(y@[t]),
            T::obeys_add_spec() ==> forall|t: int| 0 <= t < k ==> #[trigger] r@[t] == x@[t].add_spec(y@[t]),
        decreases n - k,
    {
        r.push(x[k] + y[k]);
        k = k + 1;
    }
    r
}

/// `x[k] - y[k]` for every `k` below the shorter of the two lengths.
fn zip_sub<T: Copy + core::ops::Sub<Output = T>>(x: &Vec<T>, y: &Vec<T>) -> (r: Vec<T>)
    requires
        forall|k: int| 0 <= k < shorter(x@.len(), y@.len()) ==> #[trigger] x@[k].sub_req(y@[k]),
    ensures
        r@.len() == shorter(x@.len(), y@.len()),
        T::obeys_sub_spec() ==> forall|k: int| 0 <= k < r@.len() ==> #[trigger] r@[k] == x@[k].sub_spec(y@[k]),
{
    let n = if x.len() <= y.len() { x.len() } else { y.len() };
    let mut r: Vec<T> = Vec::new();
    let mut k: usize = 0;
    while k < n
        invariant
            k <= n,
            n == shorter(x@.len(), y@.len()),
            r@.len() == k,
            forall|t: int| 0 <= t < n ==> #[trigger] x@[t].sub_req(y@[t]),
            T::obeys_sub_spec() ==> forall|t: int| 0 <= t < k ==> #[trigger] r@[t] == x@[t].sub_spec(y@[t]),
        decreases n - k,
    {
        r.push(x[k] - y[k]);
        k = k + 1;
    }
    r
}

/// `x[k] * factor` for every `k`.
fn map_mul<T: Copy + core::ops::Mul<Output = T>>(x: &Vec<T>, factor: T) -> (r: Vec<T>)
    requires
        forall|k: int| 0 <= k < x@.len() ==> #[trigger] x@[k].mul_req(factor),
    ensures
        r@.len() == x@.len(),
        T::obeys_mul_spec() ==> forall|k: int| 0 <= k < r@.len() ==> #[trigger] r@[k] == x@[k].mul_spec(factor),
{
    let n = x.len();
    let mut r: Vec<T> = Vec::new();
    let mut k: usize = 0;
    while k < n
        invariant
            k <= n,
            n == x@.len(),
            r@.len() == k,
            forall|t: int| 0 <= t < n ==> #[trigger] x@[t].mul_req(factor),
            T::obeys_mul_spec() ==> forall|t: int| 0 <= t < k ==> #[trigger] r@[t] == x@[t].mul_spec(factor),
        decreases n - k,
    {
        r.push(x[k] * factor);
        k = k + 1;
    }
    r
}

impl<'a, 'b, T> core::ops::Add<&'b Matrix<T>> for &'a Matrix<T> where T: Copy + core::ops::Add<Output = T>, {
    type Output = Matrix<T>;

    /// The element-wise sum, over the elements both storages hold.
    fn add(self, rhs: &'b Matrix<T>) -> (out: Matrix<T>)
        ensures
            out.rows == self.rows,
            out.cols == self.cols,
            out.data@.len() == shorter(self.data@.len(), rhs.data@.len()),
            T::obeys_add_spec() ==> forall|k: int|
                0 <= k < out.data@.len() ==> #[trigger] out.data@[k] == self.data@[k].add_spec(rhs.data@[k]),
    {
        Matrix { rows: self.rows, cols: self.cols, data: zip_add(&self.data, &rhs.data) }
    }
}

impl<'a, 'b, T> vstd::std_specs::ops::AddSpecImpl<&'b Matrix<T>> for &'a Matrix<T> where
    T: Copy + core::ops::Add<Output = T>,
 {
    open spec fn obeys_add_spec() -> bool {
        false
    }

    open spec fn add_req(self, rhs: &'b Matrix<T>) -> bool {
        &&& self.rows == rhs.rows
        &&& self.cols == rhs.cols
        &&& forall|k: int|
            0 <= k < shorter(self.data@.len(), rhs.data@.len()) ==> #[trigger] self.data@[k].add_req(rhs.data@[k])
    }

    open spec fn add_spec(self, rhs: &'b Matrix<T>) -> Matrix<T> {
        choose|m: Matrix<T>|
            m.rows == self.rows && m.cols == self.cols && m.data@.len() == shorter(self.data@.len(), rhs.data@.len())
                && forall|k: int|
                0 <= k < m.data@.len() ==> #[trigger] m.data@[k] == self.data@[k].add_spec(rhs.data@[k])
    }
}

impl<'a, 'b, T> core::ops::Sub<&'b Matrix<T>> for &'a Matrix<T> where T: Copy + core::ops::Sub<Output = T>, {
    type Output = Matrix<T>;

    /// The element-wise difference, over the elements both storages hold.
    fn sub(self, rhs: &'b Matrix<T>) -> (out: Matrix<T>)
        ensures
            out.rows == self.rows,
            out.cols == self.cols,
            out.data@.len() == shorter(self.data@.len(), rhs.data@.len()),
            T::obeys_sub_spec() ==> forall|k: int|
                0 <= k < out.data@.len() ==> #[trigger] out.data@[k] == self.data@[k].sub_spec(rhs.data@[k]),
    {
        Matrix { rows: self.rows, cols: self.cols, data: zip_sub(&self.data, &rhs.data) }
    }
}

impl<'a, 'b, T> vstd::std_specs::ops::SubSpecImpl<&'b Matrix<T>> for &'a Matrix<T> where
    T: Copy + core::ops::Sub<Output = T>,
 {
    open spec fn obeys_sub_spec() -> bool {
        false
    }

    open spec fn sub_req(self, rhs: &'b Matrix<T>) -> bool {
        &&& self.rows == rhs.rows
        &&& self.cols == rhs.cols
        &&& forall|k: int|
            0 <= k < shorter(self.data@.len(), rhs.data@.len()) ==> #[trigger] self.data@[k].sub_req(rhs.data@[k])
    }

    open spec fn sub_spec(self, rhs: &'b Matrix<T>) -> Matrix<T> {
        choose|m: Matrix<T>|
            m.rows == self.rows && m.cols == self.cols && m.data@.len() == shorter(self.data@.len(), rhs.data@.len())
                && forall|k: int|
                0 <= k < m.data@.len() ==> #[trigger] m.data@[k] == self.data@[k].sub_spec(rhs.data@[k])
    }
}

impl<'a, T> core::ops::Mul<T> for &'a Matrix<T> where T: Copy + core::ops::Mul<Output = T>, {
    type Output = Matrix<T>;

    /// Every element multiplied by `rhs`.
    fn mul(self, rhs: T) -> (out: Matrix<T>)
        ensures
            out.rows == self.rows,
            out.cols == self.cols,
            out.data@.len() == self.data@.len(),
            T::obeys_mul_spec() ==> forall|k: int|
                0 <= k < out.data@.len() ==> #[trigger] out.data@[k] == self.data@[k].mul_spec(rhs),
    {
        Matrix { rows: self.rows, cols: self.cols, data: map_mul(&self.data, rhs) }
    }
}

impl<'a, T> vstd::std_specs::ops::MulSpecImpl<T> for &'a Matrix<T> where T: Copy + core::ops::Mul<Output = T>, {
    open spec fn obeys_mul_spec() -> bool {
        false
    }

    open spec fn mul_req(self, rhs: T) -> bool {
        forall|k: int| 0 <= k < self.data@.len() ==> #[trigger] self.data@[k].mul_req(rhs)
    }

    open spec fn mul_spec(self, rhs: T) -> Matrix<T> {
        choose|m: Matrix<T>|
            m.rows == self.rows && m.cols == self.cols && m.data@.len() == self.data@.len() && forall|k: int|
                0 <= k < m.data@.len() ==> #[trigger] m.data@[k] == self.data@[k].mul_spec(rhs)
    }
}


/// `t` is the transpose of `m`: `cols x rows`, well formed, with element
/// (j, i) of `t` equal to element (i, j) of `m`.
pub open spec fn is_transpose_of<T>(t: Matrix<T>, m: Matrix<T>) -> bool {
    &&& t.rows == m.cols
    &&& t.cols == m.rows
    &&& t.wf()
    &&& forall|i: int, j: int| 0 <= i < m.rows && 0 <= j < m.cols ==> #[trigger] t.at(j, i) == m.at(i, j)
}

/// The transpose has the shape turned over, and its element (j, i) is the
/// matrix's element (i, j).
pub proof fn lemma_transpose_entries<T>(m: Matrix<T>, t: Matrix<T>, i: int, j: int)
    requires
        is_transpose_of(t, m),
        0 <= i < m.rows,
        0 <= j < m.cols,
    ensures
        t.nrows() == m.ncols(),
        t.ncols() == m.nrows(),
        t.storage()[t.index_of(j, i)] == m.storage()[m.index_of(i, j)],
{
    assert(t.at(j, i) == m.at(i, j));
}

/// Transposing twice gives back the matrix: its shape and its elements.
pub proof fn lemma_transpose_involutive<T>(m: Matrix<T>, t: Matrix<T>, u: Matrix<T>)
    requires
        m.wf(),
        is_transpose_of(t, m),
        is_transpose_of(u, t),
    ensures
        u.rows == m.rows,
        u.cols == m.cols,
        u.data@ == m.data@,
{
    assert forall|k: int| 0 <= k < m.data@.len() implies #[trigger] u.data@[k] == m.data@[k] by {
        let cols = m.cols as int;
        assert(m.cols > 0) by (nonlinear_arith)
            requires
                0 <= k < m.rows * m.cols,
        ;
        let i = k / cols;
        let j = k % cols;
        vstd::arithmetic::div_mod::lemma_fundamental_div_mod(k, cols);
        vstd::arithmetic::div_mod::lemma_mod_pos_bound(k, cols);
        assert(k / cols < m.rows) by {
            vstd::arithmetic::mul::lemma_mul_is_commutative(m.rows as int, cols);
            lemma_flat_column_bound(k, cols, m.rows as int);
        }
        vstd::arithmetic::mul::lemma_mul_is_commutative(cols, i);
        assert(u.at(i, j) == t.at(j, i));
    }
    assert(u.data@ =~= m.data@);
}

/// Reading a matrix addresses its `data` row by row: element (0, 0) is
/// `data[0]`, the next column is the next slot and the next row is `cols`
/// slots on.
pub proof fn lemma_matrix_addressing<T>(m: &Matrix<T>, r: int, c: int)
    ensures
        m.storage() == m.data@,
        m.index_of(0, 0) == 0,
        m.index_of(r, c + 1) == m.index_of(r, c) + 1,
        m.index_of(r + 1, c) == m.index_of(r, c) + m.cols,
{
    assert((r + 1) * m.cols == r * m.cols + m.cols) by (nonlinear_arith);
}

} // verus!
