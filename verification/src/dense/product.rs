//! What the matrix-product kernels compute, step by step.
//!
//! A kernel first scales the output block by `beta` (adding `(beta - 1) * c`
//! to each element `c`), then adds `a(i, k) * b(k, j) * alpha` to element
//! (i, j) for every i, then k, then j, each time reading the element's current
//! value. The sweeps below replay those updates on the output's storage in
//! the same order, so they hold even where two output positions share a
//! storage slot.

use vstd::prelude::*;
use vstd::std_specs::cmp::PartialEqSpec;
use vstd::std_specs::convert::FromSpec;
use vstd::std_specs::ops::{AddSpec, MulSpec, SubSpec};

use super::matrix::{entry, in_storage, MatrixRead};
use crate::arith::{add_total, mul_total, sub_total};

verus! {

/// The operations of `T` are the exact ones vstd specifies, as for the signed
/// integer types: `+`, `-` and `*` follow their spec functions, `==` follows
/// `eq_spec` and `From<i8>` converts without loss.
pub open spec fn exact_ops<
    T: core::ops::Add<Output = T> + core::ops::Sub<Output = T> + core::ops::Mul<Output = T> + PartialEq
        + From<i8>,
>() -> bool {
    &&& T::obeys_add_spec()
    &&& T::obeys_sub_spec()
    &&& T::obeys_mul_spec()
    &&& T::obeys_eq_spec()
    &&& <T as FromSpec<i8>>::obeys_from_spec()
}

/// The storage after the scaling sweep has updated every (i', j') before
/// (i, j) in row-major order, with `n` columns per row.
pub open spec fn scale_sweep<T: core::ops::Add<Output = T> + core::ops::Mul<Output = T>>(
    s: Seq<T>,
    idx: spec_fn(int, int) -> int,
    n: int,
    factor: T,
    i: int,
    j: int,
) -> Seq<T>
    decreases i, j,
{
    if j > 0 {
        let prev = scale_sweep(s, idx, n, factor, i, j - 1);
        let p = idx(i, j - 1);
        prev.update(p, prev[p].add_spec(factor.mul_spec(prev[p])))
    } else if i > 0 {
        scale_sweep(s, idx, n, factor, i - 1, n)
    } else {
        s
    }
}

/// Every operation of the scaling sweep over an `m x n` block is permitted.
pub open spec fn scale_sweep_ok<T: core::ops::Add<Output = T> + core::ops::Mul<Output = T>>(
    s: Seq<T>,
    idx: spec_fn(int, int) -> int,
    m: int,
    n: int,
    factor: T,
) -> bool {
    forall|i: int, j: int|
        0 <= i < m && 0 <= j < n ==> {
            let prev = #[trigger] scale_sweep(s, idx, n, factor, i, j);
            let x = prev[idx(i, j)];
            factor.mul_req(x) && x.add_req(factor.mul_spec(x))
        }
}

/// The storage after the product sweep has added `a(i', k') * b(k', j') * alpha`
/// for every (i', k', j') before (i, k, j) in the order rows, then inner
/// index, then columns.
pub open spec fn product_sweep<T: core::ops::Add<Output = T> + core::ops::Mul<Output = T>>(
    s: Seq<T>,
    idx: spec_fn(int, int) -> int,
    a: spec_fn(int, int) -> T,
    b: spec_fn(int, int) -> T,
    kd: int,
    n: int,
    alpha: T,
    i: int,
    k: int,
    j: int,
) -> Seq<T>
    decreases i, k, j,
{
    if j > 0 {
        let prev = product_sweep(s, idx, a, b, kd, n, alpha, i, k, j - 1);
        let p = idx(i, j - 1);
        prev.update(p, prev[p].add_spec(a(i, k).mul_spec(b(k, j - 1)).mul_spec(alpha)))
    } else if k > 0 {
        product_sweep(s, idx, a, b, kd, n, alpha, i, k - 1, n)
    } else if i > 0 {
        product_sweep(s, idx, a, b, kd, n, alpha, i - 1, kd, 0)
    } else {
        s
    }
}

/// Every operation of the product sweep over `m` rows is permitted.
pub open spec fn product_sweep_ok<T: core::ops::Add<Output = T> + core::ops::Mul<Output = T>>(
    s: Seq<T>,
    idx: spec_fn(int, int) -> int,
    a: spec_fn(int, int) -> T,
    b: spec_fn(int, int) -> T,
    m: int,
    kd: int,
    n: int,
    alpha: T,
) -> bool {
    forall|i: int, k: int, j: int|
        0 <= i < m && 0 <= k < kd && 0 <= j < n ==> {
            let prev = #[trigger] product_sweep(s, idx, a, b, kd, n, alpha, i, k, j);
            let x = prev[idx(i, j)];
            let t = a(i, k).mul_spec(b(k, j));
            &&& a(i, k).mul_req(b(k, j))
            &&& t.mul_req(alpha)
            &&& x.add_req(t.mul_spec(alpha))
        }
}

/// Every (i, j) with `i < rows` and `j < cols` addresses an element of `m`.
pub open spec fn block_in_storage<T, M: MatrixRead<T>>(m: &M, rows: int, cols: int) -> bool {
    forall|i: int, j: int| 0 <= i < rows && 0 <= j < cols ==> #[trigger] in_storage(m, i, j)
}

/// Storage slot `t` of `out` holds one of the elements (i, j), `i < m`, `j < n`.
pub open spec fn touched<T, M: MatrixRead<T>>(out: &M, m: int, n: int, t: int) -> bool {
    exists|i: int, j: int| 0 <= i < m && 0 <= j < n && #[trigger] out.index_of(i, j) == t
}

/// The `beta` a kernel uses: the given one, else zero.
pub open spec fn beta_value<
    T: core::ops::Add<Output = T> + core::ops::Sub<Output = T> + core::ops::Mul<Output = T> + PartialEq
        + From<i8>,
>(beta: Option<T>) -> T {
    match beta {
        Some(x) => x,
        None => <T as FromSpec<i8>>::from_spec(0i8),
    }
}

/// The `alpha` a kernel uses: the given one, else one.
pub open spec fn alpha_value<
    T: core::ops::Add<Output = T> + core::ops::Sub<Output = T> + core::ops::Mul<Output = T> + PartialEq
        + From<i8>,
>(alpha: Option<T>) -> T {
    match alpha {
        Some(x) => x,
        None => <T as FromSpec<i8>>::from_spec(1i8),
    }
}

/// The kernel scales the output block: `beta` differs from one.
pub open spec fn scales<
    T: core::ops::Add<Output = T> + core::ops::Sub<Output = T> + core::ops::Mul<Output = T> + PartialEq
        + From<i8>,
>(beta: Option<T>) -> bool {
    !beta_value(beta).eq_spec(&<T as FromSpec<i8>>::from_spec(1i8))
}

/// The kernel adds the product: `alpha` differs from zero.
pub open spec fn multiplies<
    T: core::ops::Add<Output = T> + core::ops::Sub<Output = T> + core::ops::Mul<Output = T> + PartialEq
        + From<i8>,
>(alpha: Option<T>) -> bool {
    !alpha_value(alpha).eq_spec(&<T as FromSpec<i8>>::from_spec(0i8))
}

/// Every (i, j) with `i < rows` and `j < cols` is sent by `idx` into a storage
/// of length `len`.
pub open spec fn slots_in(len: int, idx: spec_fn(int, int) -> int, rows: int, cols: int) -> bool {
    forall|i: int, j: int| 0 <= i < rows && 0 <= j < cols ==> 0 <= #[trigger] idx(i, j) < len
}

/// `len` zeros.
pub open spec fn zero_block<T: From<i8>>(len: int) -> Seq<T> {
    Seq::new(len as nat, |k: int| <T as FromSpec<i8>>::from_spec(0i8))
}

/// The row-major layout with `cols` columns.
pub open spec fn row_major(cols: int) -> spec_fn(int, int) -> int {
    |r: int, c: int| r * cols + c
}

/// The storage `s` after the scaling sweep over an `m x n` block (or `s` as it
/// was, if `beta` is one).
pub open spec fn after_scaling<
    T: core::ops::Add<Output = T> + core::ops::Sub<Output = T> + core::ops::Mul<Output = T> + PartialEq
        + From<i8>,
>(s: Seq<T>, idx: spec_fn(int, int) -> int, m: int, n: int, beta: Option<T>) -> Seq<T> {
    if scales(beta) {
        scale_sweep(s, idx, n, beta_value(beta).sub_spec(<T as FromSpec<i8>>::from_spec(1i8)), m, 0)
    } else {
        s
    }
}

/// The output storage `s`, laid out by `idx`, after
/// `out = beta * out + alpha * a * b` computed as the kernels do.
pub open spec fn gemm_on<
    T: core::ops::Add<Output = T> + core::ops::Sub<Output = T> + core::ops::Mul<Output = T> + PartialEq
        + From<i8>,
    A: MatrixRead<T>,
    B: MatrixRead<T>,
>(a: &A, b: &B, s: Seq<T>, idx: spec_fn(int, int) -> int, alpha: Option<T>, beta: Option<T>) -> Seq<
    T,
> {
    let m = a.nrows() as int;
    let n = b.ncols() as int;
    let s1 = after_scaling(s, idx, m, n, beta);
    if multiplies(alpha) {
        product_sweep(
            s1,
            idx,
            |r: int, c: int| entry(a, r, c),
            |r: int, c: int| entry(b, r, c),
            a.ncols() as int,
            n,
            alpha_value(alpha),
            m,
            0,
            0,
        )
    } else {
        s1
    }
}

/// Every read, write and operation of `out = beta * out + alpha * a * b` on
/// the output storage `s`, laid out by `idx`, is permitted. For element types
/// with exact operations this follows the computation; for other types every
/// operation must be permitted and every element of the three blocks must lie
/// in storage.
pub open spec fn gemm_allowed_on<
    T: core::ops::Add<Output = T> + core::ops::Sub<Output = T> + core::ops::Mul<Output = T> + PartialEq
        + From<i8>,
    A: MatrixRead<T>,
    B: MatrixRead<T>,
>(a: &A, b: &B, s: Seq<T>, idx: spec_fn(int, int) -> int, alpha: Option<T>, beta: Option<T>) -> bool {
    let m = a.nrows() as int;
    let kd = a.ncols() as int;
    let n = b.ncols() as int;
    let one = <T as FromSpec<i8>>::from_spec(1i8);
    if exact_ops::<T>() {
        &&& scales(beta) ==> {
            &&& slots_in(s.len() as int, idx, m, n)
            &&& beta_value(beta).sub_req(one)
            &&& scale_sweep_ok(s, idx, m, n, beta_value(beta).sub_spec(one))
        }
        &&& multiplies(alpha) ==> {
            &&& slots_in(s.len() as int, idx, m, n)
            &&& block_in_storage(a, m, kd)
            &&& block_in_storage(b, kd, n)
            &&& product_sweep_ok(
                after_scaling(s, idx, m, n, beta),
                idx,
                |r: int, c: int| entry(a, r, c),
                |r: int, c: int| entry(b, r, c),
                m,
                kd,
                n,
                alpha_value(alpha),
            )
        }
    } else {
        &&& add_total::<T>()
        &&& sub_total::<T>()
        &&& mul_total::<T>()
        &&& slots_in(s.len() as int, idx, m, n)
        &&& block_in_storage(a, m, kd)
        &&& block_in_storage(b, kd, n)
    }
}

/// The storage of `out` after `out = beta * out + alpha * a * b`.
pub open spec fn gemm_result<
    T: core::ops::Add<Output = T> + core::ops::Sub<Output = T> + core::ops::Mul<Output = T> + PartialEq
        + From<i8>,
    A: MatrixRead<T>,
    B: MatrixRead<T>,
    C: MatrixRead<T>,
>(a: &A, b: &B, out: &C, alpha: Option<T>, beta: Option<T>) -> Seq<T> {
    gemm_on(a, b, out.storage(), |r: int, c: int| out.index_of(r, c), alpha, beta)
}

/// `out = beta * out + alpha * a * b` is permitted on `out`.
pub open spec fn gemm_allowed<
    T: core::ops::Add<Output = T> + core::ops::Sub<Output = T> + core::ops::Mul<Output = T> + PartialEq
        + From<i8>,
    A: MatrixRead<T>,
    B: MatrixRead<T>,
    C: MatrixRead<T>,
>(a: &A, b: &B, out: &C, alpha: Option<T>, beta: Option<T>) -> bool {
    gemm_allowed_on(a, b, out.storage(), |r: int, c: int| out.index_of(r, c), alpha, beta)
}


// ---------- What each element ends with ----------

/// `idx` sends distinct positions of the `m x n` block to distinct slots.
pub open spec fn injective_on(idx: spec_fn(int, int) -> int, m: int, n: int) -> bool {
    forall|i1: int, j1: int, i2: int, j2: int|
        0 <= i1 < m && 0 <= j1 < n && 0 <= i2 < m && 0 <= j2 < n && #[trigger] idx(i1, j1) == #[trigger] idx(
            i2,
            j2,
        ) ==> i1 == i2 && j1 == j2
}

/// An element `c` after its scaling step: `c + factor * c`.
pub open spec fn scaled_elem<T: core::ops::Add<Output = T> + core::ops::Mul<Output = T>>(
    c: T,
    factor: T,
) -> T {
    c.add_spec(factor.mul_spec(c))
}

/// The element (i, j), starting from `c`, after the product steps for the
/// inner indices below `k`: `c + a(i, 0) * b(0, j) * alpha + ...`, summed from
/// the front.
pub open spec fn product_acc<T: core::ops::Add<Output = T> + core::ops::Mul<Output = T>>(
    c: T,
    a: spec_fn(int, int) -> T,
    b: spec_fn(int, int) -> T,
    alpha: T,
    i: int,
    j: int,
    k: int,
) -> T
    decreases k,
{
    if k <= 0 {
        c
    } else {
        product_acc(c, a, b, alpha, i, j, k - 1).add_spec(
            a(i, k - 1).mul_spec(b(k - 1, j)).mul_spec(alpha),
        )
    }
}

/// The value that the element (i, j) of the output, starting from `c`, ends
/// with after `out = beta * out + alpha * a * b`.
pub open spec fn gemm_elem<
    T: core::ops::Add<Output = T> + core::ops::Sub<Output = T> + core::ops::Mul<Output = T> + PartialEq
        + From<i8>,
    A: MatrixRead<T>,
    B: MatrixRead<T>,
>(a: &A, b: &B, c: T, i: int, j: int, alpha: Option<T>, beta: Option<T>) -> T {
    let c1 = if scales(beta) {
        scaled_elem(c, beta_value(beta).sub_spec(<T as FromSpec<i8>>::from_spec(1i8)))
    } else {
        c
    };
    if multiplies(alpha) {
        product_acc(
            c1,
            |r: int, q: int| entry(a, r, q),
            |r: int, q: int| entry(b, r, q),
            alpha_value(alpha),
            i,
            j,
            a.ncols() as int,
        )
    } else {
        c1
    }
}

/// In the scaling sweep, an element of the block has been scaled once it has
/// been passed, and is untouched before.
proof fn lemma_scale_sweep_slot<T: core::ops::Add<Output = T> + core::ops::Mul<Output = T>>(
    s: Seq<T>,
    idx: spec_fn(int, int) -> int,
    m: int,
    n: int,
    factor: T,
    i: int,
    j: int,
    pi: int,
    pj: int,
)
    requires
        injective_on(idx, m, n),
        slots_in(s.len() as int, idx, m, n),
        0 <= i <= m,
        0 <= j <= n,
        i == m ==> j == 0,
        0 <= pi < m,
        0 <= pj < n,
    ensures
        scale_sweep(s, idx, n, factor, i, j).len() == s.len(),
        scale_sweep(s, idx, n, factor, i, j)[idx(pi, pj)] == if pi < i || (pi == i && pj < j) {
            scaled_elem(s[idx(pi, pj)], factor)
        } else {
            s[idx(pi, pj)]
        },
    decreases i, j,
{
    if j > 0 {
        lemma_scale_sweep_slot(s, idx, m, n, factor, i, j - 1, pi, pj);
        if !(pi == i && pj == j - 1) {
            assert(idx(pi, pj) != idx(i, j - 1));
        }
    } else if i > 0 {
        lemma_scale_sweep_slot(s, idx, m, n, factor, i - 1, n, pi, pj);
    }
}

/// Slots outside the block are left alone by the scaling sweep.
proof fn lemma_scale_sweep_len<T: core::ops::Add<Output = T> + core::ops::Mul<Output = T>>(
    s: Seq<T>,
    idx: spec_fn(int, int) -> int,
    m: int,
    n: int,
    factor: T,
    i: int,
    j: int,
)
    requires
        slots_in(s.len() as int, idx, m, n),
        0 <= i <= m,
        0 <= j <= n,
        i == m ==> j == 0,
    ensures
        scale_sweep(s, idx, n, factor, i, j).len() == s.len(),
    decreases i, j,
{
    if j > 0 {
        lemma_scale_sweep_len(s, idx, m, n, factor, i, j - 1);
    } else if i > 0 {
        lemma_scale_sweep_len(s, idx, m, n, factor, i - 1, n);
    }
}

/// In the product sweep, an element of the block has received the product
/// steps for exactly the inner indices passed so far.
proof fn lemma_product_sweep_slot<T: core::ops::Add<Output = T> + core::ops::Mul<Output = T>>(
    s: Seq<T>,
    idx: spec_fn(int, int) -> int,
    a: spec_fn(int, int) -> T,
    b: spec_fn(int, int) -> T,
    m: int,
    kd: int,
    n: int,
    alpha: T,
    i: int,
    k: int,
    j: int,
    pi: int,
    pj: int,
)
    requires
        injective_on(idx, m, n),
        slots_in(s.len() as int, idx, m, n),
        0 <= kd,
        0 <= i <= m,
        0 <= k <= kd,
        0 <= j <= n,
        i == m ==> k == 0 && j == 0,
        0 <= pi < m,
        0 <= pj < n,
    ensures
        product_sweep(s, idx, a, b, kd, n, alpha, i, k, j).len() == s.len(),
        product_sweep(s, idx, a, b, kd, n, alpha, i, k, j)[idx(pi, pj)] == product_acc(
            s[idx(pi, pj)],
            a,
            b,
            alpha,
            pi,
            pj,
            if pi < i {
                kd
            } else if pi == i {
                k + if pj < j {
                    1int
                } else {
                    0int
                }
            } else {
                0
            },
        ),
    decreases i, k, j,
{
    if j > 0 {
        lemma_product_sweep_slot(s, idx, a, b, m, kd, n, alpha, i, k, j - 1, pi, pj);
        if !(pi == i && pj == j - 1) {
            assert(idx(pi, pj) != idx(i, j - 1));
        }
    } else if k > 0 {
        lemma_product_sweep_slot(s, idx, a, b, m, kd, n, alpha, i, k - 1, n, pi, pj);
    } else if i > 0 {
        lemma_product_sweep_slot(s, idx, a, b, m, kd, n, alpha, i - 1, kd, 0, pi, pj);
    }
}

/// Where the output layout keeps the elements of the block apart, each
/// element (i, j) ends with `gemm_elem` of its starting value.
pub proof fn lemma_gemm_elementwise<
    T: core::ops::Add<Output = T> + core::ops::Sub<Output = T> + core::ops::Mul<Output = T> + PartialEq
        + From<i8>,
    A: MatrixRead<T>,
    B: MatrixRead<T>,
>(a: &A, b: &B, s: Seq<T>, idx: spec_fn(int, int) -> int, alpha: Option<T>, beta: Option<T>, i: int, j: int)
    requires
        injective_on(idx, a.nrows() as int, b.ncols() as int),
        slots_in(s.len() as int, idx, a.nrows() as int, b.ncols() as int),
        0 <= i < a.nrows(),
        0 <= j < b.ncols(),
    ensures
        gemm_on(a, b, s, idx, alpha, beta).len() == s.len(),
        gemm_on(a, b, s, idx, alpha, beta)[idx(i, j)] == gemm_elem(a, b, s[idx(i, j)], i, j, alpha, beta),
{
    let m = a.nrows() as int;
    let n = b.ncols() as int;
    let kd = a.ncols() as int;
    let one = <T as FromSpec<i8>>::from_spec(1i8);
    let f = beta_value(beta).sub_spec(one);
    lemma_scale_sweep_len(s, idx, m, n, f, m, 0);
    lemma_scale_sweep_slot(s, idx, m, n, f, m, 0, i, j);
    let s1 = after_scaling(s, idx, m, n, beta);
    if multiplies(alpha) {
        lemma_product_sweep_slot(
            s1,
            idx,
            |r: int, c: int| entry(a, r, c),
            |r: int, c: int| entry(b, r, c),
            m,
            kd,
            n,
            alpha_value(alpha),
            m,
            0,
            0,
            i,
            j,
        );
    }
}


// ---------- Exact integer elements ----------

/// `a(i, 0) * b(0, j) + ... + a(i, k - 1) * b(k - 1, j)` over the integers.
pub open spec fn dot_int(a: spec_fn(int, int) -> int, b: spec_fn(int, int) -> int, i: int, j: int, k: int) -> int
    decreases k,
{
    if k <= 0 {
        0
    } else {
        dot_int(a, b, i, j, k - 1) + a(i, k - 1) * b(k - 1, j)
    }
}

/// The product step for inner index `q` of element (i, j) is permitted.
pub open spec fn acc_step_ok<T: core::ops::Add<Output = T> + core::ops::Mul<Output = T>>(
    c: T,
    a: spec_fn(int, int) -> T,
    b: spec_fn(int, int) -> T,
    alpha: T,
    i: int,
    j: int,
    q: int,
) -> bool {
    let t = a(i, q).mul_spec(b(q, j));
    &&& a(i, q).mul_req(b(q, j))
    &&& t.mul_req(alpha)
    &&& product_acc(c, a, b, alpha, i, j, q).add_req(t.mul_spec(alpha))
}

/// With `i64` elements and no overflow on the way, the product steps add
/// `alpha` times the integer dot product.
proof fn lemma_product_acc_i64(
    c: i64,
    a: spec_fn(int, int) -> i64,
    b: spec_fn(int, int) -> i64,
    alpha: i64,
    i: int,
    j: int,
    k: int,
)
    requires
        0 <= k,
        forall|q: int| 0 <= q < k ==> #[trigger] acc_step_ok(c, a, b, alpha, i, j, q),
    ensures
        product_acc(c, a, b, alpha, i, j, k) as int == c + alpha * dot_int(
            |r: int, q: int| a(r, q) as int,
            |r: int, q: int| b(r, q) as int,
            i,
            j,
            k,
        ),
    decreases k,
{
    let ai = |r: int, q: int| a(r, q) as int;
    let bi = |r: int, q: int| b(r, q) as int;
    if k > 0 {
        lemma_product_acc_i64(c, a, b, alpha, i, j, k - 1);
        assert(acc_step_ok(c, a, b, alpha, i, j, k - 1));
        let d = dot_int(ai, bi, i, j, k - 1);
        let x = a(i, k - 1) as int;
        let y = b(k - 1, j) as int;
        assert(alpha * (d + x * y) == alpha * d + x * y * alpha) by (nonlinear_arith);
    }
}

/// The central law of the product kernels, for `i64` elements: where the output
/// layout keeps the elements of the block apart and no operation overflows,
/// each element `c` at (i, j) ends as `beta * c + alpha * sum_k a(i, k) * b(k, j)`,
/// with `alpha` one and `beta` zero when not given.
pub proof fn lemma_gemm_i64<A: MatrixRead<i64>, B: MatrixRead<i64>>(
    a: &A,
    b: &B,
    s: Seq<i64>,
    idx: spec_fn(int, int) -> int,
    alpha: Option<i64>,
    beta: Option<i64>,
    i: int,
    j: int,
)
    requires
        injective_on(idx, a.nrows() as int, b.ncols() as int),
        slots_in(s.len() as int, idx, a.nrows() as int, b.ncols() as int),
        gemm_allowed_on(a, b, s, idx, alpha, beta),
        0 <= i < a.nrows(),
        0 <= j < b.ncols(),
    ensures
        gemm_on(a, b, s, idx, alpha, beta)[idx(i, j)] as int == (match beta {
            Some(x) => x as int,
            None => 0int,
        }) * s[idx(i, j)] + (match alpha {
            Some(x) => x as int,
            None => 1int,
        }) * dot_int(
            |r: int, q: int| entry(a, r, q) as int,
            |r: int, q: int| entry(b, r, q) as int,
            i,
            j,
            a.ncols() as int,
        ),
{
    let m = a.nrows() as int;
    let n = b.ncols() as int;
    let kd = a.ncols() as int;
    let ae = |r: int, q: int| entry(a, r, q);
    let be = |r: int, q: int| entry(b, r, q);
    let one = <i64 as FromSpec<i8>>::from_spec(1i8);
    let bv = beta_value(beta);
    let av = alpha_value(alpha);
    let c = s[idx(i, j)];
    let f = bv.sub_spec(one);
    lemma_gemm_elementwise(a, b, s, idx, alpha, beta, i, j);
    let c1 = if scales(beta) {
        scaled_elem(c, f)
    } else {
        c
    };
    // the scaling step turns c into beta * c
    if scales(beta) {
        lemma_scale_sweep_slot(s, idx, m, n, f, i, j, i, j);
        assert(scale_sweep_ok(s, idx, m, n, f));
        assert(f.mul_req(c) && c.add_req(f.mul_spec(c)));
        assert(c1 as int == c + (bv - 1) * c);
        assert(c + (bv - 1) * c == bv * c) by (nonlinear_arith);
    } else {
        assert(bv == 1);
    }
    assert(c1 as int == bv * c);
    // the product steps add alpha times the dot product
    if multiplies(alpha) {
        let s1 = after_scaling(s, idx, m, n, beta);
        lemma_scale_sweep_slot(s, idx, m, n, f, m, 0, i, j);
        assert(s1[idx(i, j)] == c1);
        assert forall|q: int| 0 <= q < kd implies #[trigger] acc_step_ok(c1, ae, be, av, i, j, q) by {
            lemma_product_sweep_slot(s1, idx, ae, be, m, kd, n, av, i, q, j, i, j);
            lemma_scale_sweep_len(s, idx, m, n, f, m, 0);
            let prev = product_sweep(s1, idx, ae, be, kd, n, av, i, q, j);
            assert(prev[idx(i, j)] == product_acc(c1, ae, be, av, i, j, q));
        }
        lemma_product_acc_i64(c1, ae, be, av, i, j, kd);
        assert((|r: int, q: int| ae(r, q) as int) =~= (|r: int, q: int| entry(a, r, q) as int));
        assert((|r: int, q: int| be(r, q) as int) =~= (|r: int, q: int| entry(b, r, q) as int));
    } else {
        assert(av == 0);
        let d = dot_int(
            |r: int, q: int| entry(a, r, q) as int,
            |r: int, q: int| entry(b, r, q) as int,
            i,
            j,
            kd,
        );
        assert(0 * d == 0) by (nonlinear_arith);
    }
}

} // verus!
