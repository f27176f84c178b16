//! Matrix-vector product.

use vstd::prelude::*;
use vstd::std_specs::cmp::PartialEqSpec;
use vstd::std_specs::convert::FromSpec;
use vstd::std_specs::ops::{AddSpec, MulSpec, SubSpec};

use crate::arith::{add_total, is_default, mul_total, sub_total};
use crate::dense::matrix::{entry, in_storage, MatrixRead};
use crate::dense::product::{alpha_value, beta_value, dot_int, exact_ops, multiplies, scaled_elem, scales};
use crate::dense::vector::{VectorRead, VectorWrite};

verus! {

/// Blocking sizes of the tiled matrix-vector product: `m_block` rows and
/// `k_block` columns of the matrix per block.
#[derive(Debug, Clone, Copy)]
pub struct GemvBlocking {
    pub m_block: usize,
    pub k_block: usize,
}

impl Default for GemvBlocking {
    fn default() -> (b: Self)
        ensures
            b.m_block == 64,
            b.k_block == 64,
    {
        GemvBlocking { m_block: 64, k_block: 64 }
    }
}

/// The sum from `z` of `a(i, j) * x[j]` for `j < k`, from the front.
pub open spec fn row_dot<
    T: core::ops::Add<Output = T> + core::ops::Mul<Output = T> + From<i8>,
    A: MatrixRead<T>,
    X: VectorRead<T>,
>(a: &A, x: &X, i: int, k: int, z: T) -> T
    decreases k,
{
    if k <= 0 {
        z
    } else {
        row_dot(a, x, i, k - 1, z).add_spec(entry(a, i, k - 1).mul_spec(x.elems()[k - 1]))
    }
}

/// The value that element `c` of row `i` of the output ends with after
/// `out = beta * out + alpha * a * x`, where the row sum starts from `z`:
/// scaled to `c + (beta - 1) * c` unless `beta` is one, then increased by
/// `alpha` times the row sum unless `alpha` is zero.
pub open spec fn gemv_elem<
    T: core::ops::Add<Output = T> + core::ops::Sub<Output = T> + core::ops::Mul<Output = T> + PartialEq
        + From<i8>,
    A: MatrixRead<T>,
    X: VectorRead<T>,
>(a: &A, x: &X, c: T, i: int, alpha: Option<T>, beta: Option<T>, z: T) -> T {
    let c1 = if scales(beta) {
        scaled_elem(c, beta_value(beta).sub_spec(<T as FromSpec<i8>>::from_spec(1i8)))
    } else {
        c
    };
    if multiplies(alpha) {
        c1.add_spec(alpha_value(alpha).mul_spec(row_dot(a, x, i, a.ncols() as int, z)))
    } else {
        c1
    }
}

/// `v` is what element `c` of row `i` ends with, `gemv_elem`, for a start
/// `z` of the row sum that `T::default()` may return (any `z` where `alpha`
/// is zero and no row sum is taken).
pub open spec fn gemv_result<
    T: core::ops::Add<Output = T> + core::ops::Sub<Output = T> + core::ops::Mul<Output = T> + PartialEq
        + From<i8> + Default,
    A: MatrixRead<T>,
    X: VectorRead<T>,
>(a: &A, x: &X, c: T, i: int, alpha: Option<T>, beta: Option<T>, v: T) -> bool {
    exists|z: T| (multiplies(alpha) ==> is_default(z)) && v == #[trigger] gemv_elem(a, x, c, i, alpha, beta, z)
}

/// Every read of `a` and every scaling of the output elements `c` in
/// `out = beta * out + alpha * a * x` is permitted. For element types with
/// exact operations this follows the computation; for other types every
/// operation must be permitted and every element of `a` read must lie in
/// storage.
pub open spec fn gemv_allowed<
    T: core::ops::Add<Output = T> + core::ops::Sub<Output = T> + core::ops::Mul<Output = T> + PartialEq
        + From<i8>,
    A: MatrixRead<T>,
    X: VectorRead<T>,
>(a: &A, x: &X, c: Seq<T>, alpha: Option<T>, beta: Option<T>) -> bool {
    let m = a.nrows() as int;
    let kd = a.ncols() as int;
    let one = <T as FromSpec<i8>>::from_spec(1i8);
    let f = beta_value(beta).sub_spec(one);
    let rows_in_storage = forall|i: int, j: int| 0 <= i < m && 0 <= j < kd ==> #[trigger] in_storage(a, i, j);
    if exact_ops::<T>() {
        &&& scales(beta) ==> {
            &&& beta_value(beta).sub_req(one)
            &&& forall|i: int| 0 <= i < m ==> f.mul_req(#[trigger] c[i]) && c[i].add_req(f.mul_spec(c[i]))
        }
        &&& multiplies(alpha) ==> rows_in_storage
    } else {
        &&& add_total::<T>()
        &&& sub_total::<T>()
        &&& mul_total::<T>()
        &&& rows_in_storage
    }
}

/// For element types with exact operations, where `alpha` is not zero, every
/// step of the row sums from `z` and every addition of `alpha` times a row sum
/// to its (scaled) output element `c` is permitted.
pub open spec fn gemv_sums_allowed<
    T: core::ops::Add<Output = T> + core::ops::Sub<Output = T> + core::ops::Mul<Output = T> + PartialEq
        + From<i8>,
    A: MatrixRead<T>,
    X: VectorRead<T>,
>(a: &A, x: &X, c: Seq<T>, alpha: Option<T>, beta: Option<T>, z: T) -> bool {
    let m = a.nrows() as int;
    let kd = a.ncols() as int;
    let f = beta_value(beta).sub_spec(<T as FromSpec<i8>>::from_spec(1i8));
    exact_ops::<T>() && multiplies(alpha) ==> {
        &&& forall|i: int, j: int|
            0 <= i < m && 0 <= j < kd ==> {
                &&& #[trigger] entry(a, i, j).mul_req(x.elems()[j])
                &&& row_dot(a, x, i, j, z).add_req(entry(a, i, j).mul_spec(x.elems()[j]))
            }
        &&& forall|i: int|
            0 <= i < m ==> {
                let c1 = if scales(beta) {
                    scaled_elem(c[i], f)
                } else {
                    c[i]
                };
                let s = #[trigger] row_dot(a, x, i, kd, z);
                alpha_value(alpha).mul_req(s) && c1.add_req(alpha_value(alpha).mul_spec(s))
            }
    }
}

/// `out = beta * out + alpha * a * x` over the first `a.rows()` elements of
/// `out`; `alpha` defaults to one and `beta` to zero. The scaling sweep is
/// skipped when `beta` is one, the product sweep when `alpha` is zero; each
/// row sum starts from `T::default()` and runs from the front.
pub fn basic_gemv_kernel<A, B, C, T>(a: &A, b: &B, out: &mut C, alpha: Option<T>, beta: Option<T>) where
    A: MatrixRead<T>,
    B: VectorRead<T>,
    C: VectorWrite<T>,
    T: Copy + core::ops::Add<Output = T> + core::ops::Mul<Output = T> + Default + PartialEq + From<i8>
        + core::ops::Sub<Output = T>,

    requires
        a.ncols() == b.len_spec(),
        a.ncols() <= b.elems().len(),
        a.nrows() <= old(out).len_spec(),
        a.nrows() <= old(out).elems().len(),
        gemv_allowed(a, b, old(out).elems(), alpha, beta),
        forall|z: T| is_default(z) ==> #[trigger] gemv_sums_allowed(a, b, old(out).elems(), alpha, beta, z),
    ensures
        final(out).len_spec() == old(out).len_spec(),
        final(out).elems().len() == old(out).elems().len(),
        forall|i: int|
            a.nrows() <= i < old(out).elems().len() ==> #[trigger] final(out).elems()[i] == old(out).elems()[i],
        exact_ops::<T>() ==> forall|i: int|
            0 <= i < a.nrows() ==> gemv_result(
                a,
                b,
                old(out).elems()[i],
                i,
                alpha,
                beta,
                #[trigger] final(out).elems()[i],
            ),
{
    let m = a.rows();
    let k_dim = b.size();
    let zero = T::from(0i8);
    let one = T::from(1i8);
    let make_default = T::default;
    let beta_v = match beta {
        Some(x) => x,
        None => zero,
    };
    let alpha_v = match alpha {
        Some(x) => x,
        None => one,
    };
    let ghost c0 = out.elems();
    let ghost f = beta_v.sub_spec(one);
    assert(exact_ops::<T>() ==> f == beta_value(beta).sub_spec(<T as FromSpec<i8>>::from_spec(1i8)));
    // beta scaling block: skipped when beta is one
    if beta_v != one {
        let mut i: usize = 0;
        while i < m
            invariant
                i <= m,
                m == a.nrows(),
                m <= out.len_spec(),
                out.len_spec() == old(out).len_spec(),
                out.elems().len() == c0.len(),
                c0 == old(out).elems(),
                m <= c0.len(),
                gemv_allowed(a, b, c0, alpha, beta),
                exact_ops::<T>() ==> beta_v == beta_value(beta) && one == <T as FromSpec<i8>>::from_spec(1i8),
                exact_ops::<T>() ==> scales(beta),
                f == beta_v.sub_spec(one),
                forall|t: int| i <= t < c0.len() ==> #[trigger] out.elems()[t] == c0[t],
                exact_ops::<T>() ==> forall|t: int|
                    0 <= t < i ==> #[trigger] out.elems()[t] == scaled_elem(c0[t], f),
            decreases m - i,
        {
            let cur = *out.get(i);
            proof {
                if exact_ops::<T>() {
                    assert(f.mul_req(c0[i as int]));
                } else {
                    assert(beta_v.sub_req(one));
                    assert(beta_v.sub_spec(one).mul_req(cur));
                    assert(cur.add_req(beta_v.sub_spec(one).mul_spec(cur)));
                }
            }
            let factor = beta_v - one;
            let v = factor * cur;
            out.accumulate(i, v);
            i = i + 1;
        }
    }
    let ghost c1 = out.elems();
    let ghost mut starts: Seq<T> = Seq::empty();
    // matrix-vector block: skipped when alpha is zero
    if alpha_v != zero {
        let mut i: usize = 0;
        while i < m
            invariant
                i <= m,
                m == a.nrows(),
                k_dim == a.ncols(),
                k_dim == b.len_spec(),
                k_dim <= b.elems().len(),
                m <= out.len_spec(),
                out.len_spec() == old(out).len_spec(),
                out.elems().len() == c0.len(),
                c1.len() == c0.len(),
                m <= c0.len(),
                c0 == old(out).elems(),
                make_default == T::default,
                gemv_allowed(a, b, c0, alpha, beta),
                forall|z: T| is_default(z) ==> #[trigger] gemv_sums_allowed(a, b, c0, alpha, beta, z),
                exact_ops::<T>() ==> alpha_v == alpha_value(alpha),
                exact_ops::<T>() ==> multiplies(alpha),
                exact_ops::<T>() ==> f == beta_value(beta).sub_spec(<T as FromSpec<i8>>::from_spec(1i8)),
                forall|t: int| m <= t < c0.len() ==> c1[t] == c0[t],
                forall|t: int| i <= t < c0.len() ==> #[trigger] out.elems()[t] == c1[t],
                exact_ops::<T>() ==> forall|t: int|
                    0 <= t < m ==> #[trigger] c1[t] == if scales(beta) {
                        scaled_elem(c0[t], f)
                    } else {
                        c0[t]
                    },
                starts.len() == i,
                forall|t: int| 0 <= t < i ==> #[trigger] is_default(starts[t]),
                exact_ops::<T>() ==> forall|t: int|
                    0 <= t < i ==> #[trigger] out.elems()[t] == c1[t].add_spec(
                        alpha_v.mul_spec(row_dot(a, b, t, k_dim as int, starts[t])),
                    ),
            decreases m - i,
        {
            let mut sum = make_default();
            let ghost z = sum;
            proof {
                assert(is_default(z));
                assert(gemv_sums_allowed(a, b, c0, alpha, beta, z));
            }
            let mut j: usize = 0;
            while j < k_dim
                invariant
                    i < m,
                    j <= k_dim,
                    m == a.nrows(),
                    k_dim == a.ncols(),
                    k_dim == b.len_spec(),
                    k_dim <= b.elems().len(),
                    gemv_allowed(a, b, c0, alpha, beta),
                    gemv_sums_allowed(a, b, c0, alpha, beta, z),
                    exact_ops::<T>() ==> multiplies(alpha),
                    exact_ops::<T>() ==> sum == row_dot(a, b, i as int, j as int, z),
                decreases k_dim - j,
            {
                proof {
                    assert(in_storage(a, i as int, j as int));
                    if exact_ops::<T>() {
                        assert(entry(a, i as int, j as int).mul_req(b.elems()[j as int]));
                    }
                }
                let x = *a.get(i, j);
                let y = *b.get(j);
                proof {
                    if !exact_ops::<T>() {
                        assert(x.mul_req(y));
                        assert(sum.add_req(x.mul_spec(y)));
                    }
                }
                sum = sum + x * y;
                j = j + 1;
            }
            let cur = *out.get(i);
            proof {
                if exact_ops::<T>() {
                    assert(row_dot(a, b, i as int, k_dim as int, z) == sum);
                    assert(c1[i as int] == cur);
                } else {
                    assert(alpha_v.mul_req(sum));
                    assert(cur.add_req(alpha_v.mul_spec(sum)));
                }
            }
            let v = alpha_v * sum;
            out.accumulate(i, v);
            proof {
                starts = starts.push(z);
            }
            i = i + 1;
        }
    }
    proof {
        if exact_ops::<T>() {
            assert forall|i: int| 0 <= i < a.nrows() implies gemv_result(
                a,
                b,
                old(out).elems()[i],
                i,
                alpha,
                beta,
                #[trigger] out.elems()[i],
            ) by {
                if multiplies(alpha) {
                    assert(is_default(starts[i]));
                    assert(out.elems()[i] == gemv_elem(a, b, old(out).elems()[i], i, alpha, beta, starts[i]));
                } else {
                    assert(out.elems()[i] == gemv_elem(a, b, old(out).elems()[i], i, alpha, beta, zero));
                }
            }
        }
    }
}

/// With `i64` elements and no overflow on the way, the row sum from zero is
/// the integer sum of the products.
proof fn lemma_row_dot_i64<A: MatrixRead<i64>, X: VectorRead<i64>>(a: &A, x: &X, i: int, k: int)
    requires
        0 <= k,
        forall|j: int|
            0 <= j < k ==> {
                &&& #[trigger] entry(a, i, j).mul_req(x.elems()[j])
                &&& row_dot(a, x, i, j, 0i64).add_req(entry(a, i, j).mul_spec(x.elems()[j]))
            },
    ensures
        row_dot(a, x, i, k, 0i64) as int == dot_int(
            |r: int, q: int| entry(a, r, q) as int,
            |q: int, c: int| x.elems()[q] as int,
            i,
            0,
            k,
        ),
    decreases k,
{
    if k > 0 {
        assert forall|j: int| 0 <= j < k - 1 implies {
            &&& #[trigger] entry(a, i, j).mul_req(x.elems()[j])
            &&& row_dot(a, x, i, j, 0i64).add_req(entry(a, i, j).mul_spec(x.elems()[j]))
        } by {
            assert(entry(a, i, j).mul_req(x.elems()[j]));
        }
        lemma_row_dot_i64(a, x, i, k - 1);
        assert(entry(a, i, k - 1).mul_req(x.elems()[k - 1]));
    }
}

/// The law of the matrix-vector kernel, for `i64` elements: where no
/// operation overflows, each of the first `a.rows()` output elements `c`
/// ends as `beta * c + alpha * sum_j a(i, j) * x[j]`, with `alpha` one and
/// `beta` zero when not given. (A row sum starts from `i64::default()`,
/// which is zero.)
pub proof fn lemma_gemv_i64<A: MatrixRead<i64>, X: VectorRead<i64>>(
    a: &A,
    x: &X,
    c: Seq<i64>,
    alpha: Option<i64>,
    beta: Option<i64>,
    i: int,
    v: i64,
)
    requires
        gemv_allowed(a, x, c, alpha, beta),
        forall|z: i64| is_default(z) ==> #[trigger] gemv_sums_allowed(a, x, c, alpha, beta, z),
        0 <= i < a.nrows(),
        gemv_result(a, x, c[i], i, alpha, beta, v),
    ensures
        v as int == (match beta {
            Some(b) => b as int,
            None => 0int,
        }) * c[i] + (match alpha {
            Some(s) => s as int,
            None => 1int,
        }) * dot_int(
            |r: int, q: int| entry(a, r, q) as int,
            |q: int, col: int| x.elems()[q] as int,
            i,
            0,
            a.ncols() as int,
        ),
{
    let z = choose|z: i64| (multiplies(alpha) ==> is_default(z)) && v == #[trigger] gemv_elem(a, x, c[i], i, alpha, beta, z);
    let kd = a.ncols() as int;
    let one = <i64 as FromSpec<i8>>::from_spec(1i8);
    let bv = beta_value(beta);
    let av = alpha_value(alpha);
    let f = bv.sub_spec(one);
    let ci = c[i];
    let c1 = if scales(beta) {
        scaled_elem(ci, f)
    } else {
        ci
    };
    if scales(beta) {
        assert(f.mul_req(c[i]) && c[i].add_req(f.mul_spec(c[i])));
        assert(ci + (bv - 1) * ci == bv * ci) by (nonlinear_arith);
    } else {
        assert(bv == 1);
    }
    assert(c1 as int == bv * ci);
    let d = dot_int(|r: int, q: int| entry(a, r, q) as int, |q: int, col: int| x.elems()[q] as int, i, 0, kd);
    if multiplies(alpha) {
        assert(z == 0i64);
        assert(gemv_sums_allowed(a, x, c, alpha, beta, z));
        lemma_row_dot_i64(a, x, i, kd);
        assert(row_dot(a, x, i, kd, z) == row_dot(a, x, i, kd, 0i64));
    } else {
        assert(av == 0);
        assert(0 * d == 0) by (nonlinear_arith);
    }
}

} // verus!
