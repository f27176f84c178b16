//! The data movement of the tiled product: packing panels of A and B into
//! contiguous buffers, and copying tiles of C in and out of a buffer.

use vstd::prelude::*;

use crate::dense::product::injective_on;

use crate::dense::matrix::{
    entry, in_storage, lemma_column_major_split, lemma_flat_column_bound, lemma_row_major_bound, same_layout, MatrixRead,
    MatrixWrite,
};

verus! {

/// Every (r, c) with `r0 <= r < r0 + rows` and `c0 <= c < c0 + cols`
/// addresses an element of `m`.
pub open spec fn window_in_storage<T, M: MatrixRead<T>>(m: &M, r0: int, c0: int, rows: int, cols: int) -> bool {
    forall|r: int, c: int| r0 <= r < r0 + rows && c0 <= c < c0 + cols ==> #[trigger] in_storage(m, r, c)
}

/// Packs rows `i0 .. i0 + mr` of A over the inner indices `pc .. pc + k_panel`
/// step by step: slot `p * mr + ii` gets `a(i0 + ii, pc + p)`, so slot `t`
/// holds row `i0 + t % mr` at inner index `pc + t / mr`.
pub fn pack_a_panel<A, T>(a: &A, i0: usize, pc: usize, k_panel: usize, mr: usize, a_pack: &mut Vec<T>) where
    A: MatrixRead<T>,
    T: Copy,

    requires
        old(a_pack)@.len() == mr * k_panel,
        i0 + mr <= usize::MAX,
        pc + k_panel <= usize::MAX,
        window_in_storage(a, i0 as int, pc as int, mr as int, k_panel as int),
    ensures
        final(a_pack)@.len() == old(a_pack)@.len(),
        forall|t: int|
            0 <= t < mr * k_panel ==> #[trigger] final(a_pack)@[t] == entry(a, i0 + t % (mr as int), pc + t / (mr as int)),
{
    let ghost len = a_pack@.len();
    proof {
        vstd::arithmetic::mul::lemma_mul_is_commutative(mr as int, k_panel as int);
    }
    let mut p: usize = 0;
    while p < k_panel
        invariant
            p <= k_panel,
            a_pack@.len() == len,
            len == mr * k_panel,
            len == k_panel * mr,
            i0 + mr <= usize::MAX,
            pc + k_panel <= usize::MAX,
            window_in_storage(a, i0 as int, pc as int, mr as int, k_panel as int),
            forall|t: int|
                0 <= t < p * mr ==> #[trigger] a_pack@[t] == entry(a, i0 + t % (mr as int), pc + t / (mr as int)),
        decreases k_panel - p,
    {
        let mut ii: usize = 0;
        while ii < mr
            invariant
                p < k_panel,
                ii <= mr,
                a_pack@.len() == len,
                len == mr * k_panel,
                len == k_panel * mr,
                i0 + mr <= usize::MAX,
                pc + k_panel <= usize::MAX,
                window_in_storage(a, i0 as int, pc as int, mr as int, k_panel as int),
                forall|t: int|
                    0 <= t < p * mr + ii ==> #[trigger] a_pack@[t] == entry(
                        a,
                        i0 + t % (mr as int),
                        pc + t / (mr as int),
                    ),
            decreases mr - ii,
        {
            let pack_len: usize = a_pack.len();
            proof {
                lemma_row_major_bound(p as int, ii as int, k_panel as int, mr as int);
                lemma_column_major_split(p * mr + ii, mr as int, ii as int, p as int);
                assert(in_storage(a, i0 + ii, pc + p));
            }
            let x = *a.get(i0 + ii, pc + p);
            a_pack.set(p * mr + ii, x);
            ii = ii + 1;
        }
        assert((p + 1) * mr == p * mr + mr) by (nonlinear_arith);
        p = p + 1;
    }
}


/// The column of B that slot `t` of the packed B panels holds: tile
/// `t / stride` covers columns `jc + tile * nr ..`, and within a tile slot
/// `p * nr + jj` holds column `jj`.
pub open spec fn b_pack_col(t: int, jc: int, nr: int, stride: int) -> int {
    jc + (t / stride) * nr + (t % stride) % nr
}

/// The inner index of B that slot `t` of the packed B panels holds.
pub open spec fn b_pack_row(t: int, pc: int, nr: int, stride: int) -> int {
    pc + (t % stride) / nr
}

/// Packs the `tiles` full column tiles of B (`nr` columns each, from column
/// `jc`) over the inner indices `pc .. pc + k_panel`: tile `tile` occupies
/// the `nr * k_panel` slots from `tile * nr * k_panel`, where slot
/// `p * nr + jj` gets `b(pc + p, jc + tile * nr + jj)`.
pub fn pack_b_panels<B, T>(
    b: &B,
    pc: usize,
    k_panel: usize,
    jc: usize,
    tiles: usize,
    nr: usize,
    b_packs: &mut Vec<T>,
) where
    B: MatrixRead<T>,
    T: Copy,

    requires
        old(b_packs)@.len() == tiles * (nr * k_panel),
        jc + tiles * nr <= usize::MAX,
        pc + k_panel <= usize::MAX,
        window_in_storage(b, pc as int, jc as int, k_panel as int, tiles * nr),
    ensures
        final(b_packs)@.len() == old(b_packs)@.len(),
        forall|t: int|
            0 <= t < tiles * (nr * k_panel) ==> #[trigger] final(b_packs)@[t] == entry(
                b,
                b_pack_row(t, pc as int, nr as int, nr * k_panel),
                b_pack_col(t, jc as int, nr as int, nr * k_panel),
            ),
{
    let ghost len = b_packs@.len();
    let ghost stride = nr * k_panel;
    let pack_len: usize = b_packs.len();
    proof {
        assert(0 <= nr * k_panel) by (nonlinear_arith);
    }
    let mut tile: usize = 0;
    while tile < tiles
        invariant
            tile <= tiles,
            b_packs@.len() == len,
            len == pack_len,
            stride == nr * k_panel,
            0 <= stride,
            len == tiles * stride,
            jc + tiles * nr <= usize::MAX,
            pc + k_panel <= usize::MAX,
            window_in_storage(b, pc as int, jc as int, k_panel as int, tiles * nr),
            forall|t: int|
                0 <= t < tile * stride ==> #[trigger] b_packs@[t] == entry(
                    b,
                    b_pack_row(t, pc as int, nr as int, stride),
                    b_pack_col(t, jc as int, nr as int, stride),
                ),
        decreases tiles - tile,
    {
        proof {
            assert(tile * nr <= tiles * nr) by (nonlinear_arith)
                requires
                    tile < tiles,
                    0 <= nr,
            ;
            assert(tile * stride + stride <= tiles * stride) by (nonlinear_arith)
                requires
                    tile < tiles,
                    0 <= stride,
            ;
        }
        let j0 = jc + tile * nr;
        let b_base = tile * (nr * k_panel);
        let mut p: usize = 0;
        while p < k_panel
            invariant
                tile < tiles,
                p <= k_panel,
                b_packs@.len() == len,
                len == pack_len,
                stride == nr * k_panel,
                b_base == tile * stride,
                j0 == jc + tile * nr,
                tile * stride + stride <= tiles * stride,
                tile * nr <= tiles * nr,
                len == tiles * stride,
                jc + tiles * nr <= usize::MAX,
                pc + k_panel <= usize::MAX,
                window_in_storage(b, pc as int, jc as int, k_panel as int, tiles * nr),
                forall|t: int|
                    0 <= t < tile * stride + p * nr ==> #[trigger] b_packs@[t] == entry(
                        b,
                        b_pack_row(t, pc as int, nr as int, stride),
                        b_pack_col(t, jc as int, nr as int, stride),
                    ),
            decreases k_panel - p,
        {
            let mut jj: usize = 0;
            while jj < nr
                invariant
                    tile < tiles,
                    p < k_panel,
                    jj <= nr,
                    b_packs@.len() == len,
                    len == pack_len,
                    stride == nr * k_panel,
                    b_base == tile * stride,
                    j0 == jc + tile * nr,
                    tile * stride + stride <= tiles * stride,
                    tile * nr <= tiles * nr,
                    len == tiles * stride,
                    jc + tiles * nr <= usize::MAX,
                    pc + k_panel <= usize::MAX,
                    window_in_storage(b, pc as int, jc as int, k_panel as int, tiles * nr),
                    forall|t: int|
                        0 <= t < tile * stride + p * nr + jj ==> #[trigger] b_packs@[t] == entry(
                            b,
                            b_pack_row(t, pc as int, nr as int, stride),
                            b_pack_col(t, jc as int, nr as int, stride),
                        ),
                decreases nr - jj,
            {
                let ghost t = tile * stride + p * nr + jj;
                proof {
                    lemma_row_major_bound(p as int, jj as int, k_panel as int, nr as int);
                    vstd::arithmetic::mul::lemma_mul_is_commutative(nr as int, k_panel as int);
                    lemma_column_major_split(t, stride, p * nr + jj, tile as int);
                    lemma_column_major_split(p * nr + jj, nr as int, jj as int, p as int);
                    assert(tile * nr + jj < tiles * nr) by (nonlinear_arith)
                        requires
                            tile < tiles,
                            jj < nr,
                    ;
                    assert(in_storage(b, pc + p, j0 + jj));
                }
                let x = *b.get(pc + p, j0 + jj);
                b_packs.set(b_base + p * nr + jj, x);
                jj = jj + 1;
            }
            assert((p + 1) * nr == p * nr + nr) by (nonlinear_arith);
            p = p + 1;
        }
        proof {
            assert(k_panel * nr == stride) by (nonlinear_arith)
                requires
                    stride == nr * k_panel,
            ;
            assert((tile + 1) * stride == tile * stride + stride) by (nonlinear_arith);
        }
        tile = tile + 1;
    }
}


/// Copies the `mr x nr` tile of C at (i0, j0) into `c_tile`, column by
/// column: slot `jj * mr + ii` gets `out(i0 + ii, j0 + jj)`, so slot `t`
/// holds row `i0 + t % mr` of column `j0 + t / mr`. Slots from `mr * nr` on
/// are left as they were.
pub fn load_c_tile<C, T>(out: &C, i0: usize, j0: usize, mr: usize, nr: usize, c_tile: &mut [T]) where
    C: MatrixRead<T>,
    T: Copy,

    requires
        mr * nr <= old(c_tile)@.len(),
        i0 + mr <= usize::MAX,
        j0 + nr <= usize::MAX,
        window_in_storage(out, i0 as int, j0 as int, mr as int, nr as int),
    ensures
        final(c_tile)@.len() == old(c_tile)@.len(),
        forall|t: int|
            0 <= t < mr * nr ==> #[trigger] final(c_tile)@[t] == entry(out, i0 + t % (mr as int), j0 + t / (mr as int)),
        forall|t: int| mr * nr <= t < old(c_tile)@.len() ==> #[trigger] final(c_tile)@[t] == old(c_tile)@[t],
{
    let ghost c0 = c_tile@;
    let tile_len: usize = c_tile.len();
    proof {
        assert forall|t: int| 0 <= t < mr * nr implies 0 <= #[trigger] (t % (mr as int)) < mr by {
            assert(mr > 0) by (nonlinear_arith)
                requires
                    0 <= t < mr * nr,
            ;
            vstd::arithmetic::div_mod::lemma_mod_pos_bound(t, mr as int);
        }
    }
    let mut ii: usize = 0;
    while ii < mr
        invariant
            ii <= mr,
            c_tile@.len() == c0.len(),
            tile_len == c0.len(),
            mr * nr <= c0.len(),
            i0 + mr <= usize::MAX,
            j0 + nr <= usize::MAX,
            window_in_storage(out, i0 as int, j0 as int, mr as int, nr as int),
            forall|t: int| 0 <= t < mr * nr ==> 0 <= #[trigger] (t % (mr as int)) < mr,
            forall|t: int|
                0 <= t < c0.len() ==> #[trigger] c_tile@[t] == if t < mr * nr && t % (mr as int) < ii {
                    entry(out, i0 + t % (mr as int), j0 + t / (mr as int))
                } else {
                    c0[t]
                },
        decreases mr - ii,
    {
        let mut jj: usize = 0;
        while jj < nr
            invariant
                ii < mr,
                jj <= nr,
                c_tile@.len() == c0.len(),
                tile_len == c0.len(),
                mr * nr <= c0.len(),
                i0 + mr <= usize::MAX,
                j0 + nr <= usize::MAX,
                window_in_storage(out, i0 as int, j0 as int, mr as int, nr as int),
                forall|t: int|
                    0 <= t < c0.len() ==> #[trigger] c_tile@[t] == if t < mr * nr && (t % (mr as int) < ii || (
                    t % (mr as int) == ii && t / (mr as int) < jj)) {
                        entry(out, i0 + t % (mr as int), j0 + t / (mr as int))
                    } else {
                        c0[t]
                    },
            decreases nr - jj,
        {
            proof {
                lemma_row_major_bound(jj as int, ii as int, nr as int, mr as int);
                vstd::arithmetic::mul::lemma_mul_is_commutative(nr as int, mr as int);
                lemma_column_major_split(jj * mr + ii, mr as int, ii as int, jj as int);
                assert(in_storage(out, i0 + ii, j0 + jj));
            }
            let x = *out.get(i0 + ii, j0 + jj);
            c_tile[jj * mr + ii] = x;
            proof {
                assert forall|t: int| 0 <= t < c0.len() && t != jj * mr + ii implies #[trigger] c_tile@[t] == (if t
                    < mr * nr && (t % (mr as int) < ii || (t % (mr as int) == ii && t / (mr as int) < jj + 1)) {
                    entry(out, i0 + t % (mr as int), j0 + t / (mr as int))
                } else {
                    c0[t]
                }) by {
                    if t < mr * nr && t % (mr as int) == ii && t / (mr as int) == jj {
                        vstd::arithmetic::div_mod::lemma_fundamental_div_mod(t, mr as int);
                        vstd::arithmetic::mul::lemma_mul_is_commutative(mr as int, jj as int);
                    }
                }
            }
            jj = jj + 1;
        }
        proof {
            assert forall|t: int| 0 <= t < c0.len() implies #[trigger] c_tile@[t] == (if t < mr * nr && t % (
            mr as int) < ii + 1 {
                entry(out, i0 + t % (mr as int), j0 + t / (mr as int))
            } else {
                c0[t]
            }) by {
                if t < mr * nr && t % (mr as int) == ii {
                    lemma_flat_column_bound(t, mr as int, nr as int);
                }
            }
        }
        ii = ii + 1;
    }
}


/// The output storage `s` after the tile copy-back has written every
/// (ii', jj') before (ii, jj), rows first: element (ii, jj) of the tile, at
/// `tile[jj * mr + ii]`, goes to slot `idx(ii, jj)`.
pub open spec fn store_sweep<T>(
    s: Seq<T>,
    idx: spec_fn(int, int) -> int,
    tile: Seq<T>,
    mr: int,
    nr: int,
    ii: int,
    jj: int,
) -> Seq<T>
    decreases ii, jj,
{
    if jj > 0 {
        store_sweep(s, idx, tile, mr, nr, ii, jj - 1).update(idx(ii, jj - 1), tile[(jj - 1) * mr + ii])
    } else if ii > 0 {
        store_sweep(s, idx, tile, mr, nr, ii - 1, nr)
    } else {
        s
    }
}

/// Writes the `mr x nr` tile held in `c_tile` (element (ii, jj) at
/// `c_tile[jj * mr + ii]`) back to the elements (i0 + ii, j0 + jj) of `out`,
/// rows first.
pub fn store_c_tile<C, T>(out: &mut C, i0: usize, j0: usize, mr: usize, nr: usize, c_tile: &[T]) where
    C: MatrixWrite<T>,
    T: Copy,

    requires
        mr * nr <= c_tile@.len(),
        i0 + mr <= usize::MAX,
        j0 + nr <= usize::MAX,
        window_in_storage(old(out), i0 as int, j0 as int, mr as int, nr as int),
    ensures
        same_layout(final(out), old(out)),
        final(out).storage().len() == old(out).storage().len(),
        final(out).storage() == store_sweep(
            old(out).storage(),
            |r: int, c: int| old(out).index_of(i0 + r, j0 + c),
            c_tile@,
            mr as int,
            nr as int,
            mr as int,
            0,
        ),
{
    let ghost idx = |r: int, c: int| old(out).index_of(i0 + r, j0 + c);
    let ghost s0 = out.storage();
    let mut ii: usize = 0;
    while ii < mr
        invariant
            ii <= mr,
            mr * nr <= c_tile@.len(),
            i0 + mr <= usize::MAX,
            j0 + nr <= usize::MAX,
            window_in_storage(old(out), i0 as int, j0 as int, mr as int, nr as int),
            same_layout(out, old(out)),
            s0 == old(out).storage(),
            idx == (|r: int, c: int| old(out).index_of(i0 + r, j0 + c)),
            out.storage().len() == s0.len(),
            out.storage() == store_sweep(s0, idx, c_tile@, mr as int, nr as int, ii as int, 0),
        decreases mr - ii,
    {
        let mut jj: usize = 0;
        while jj < nr
            invariant
                ii < mr,
                jj <= nr,
                mr * nr <= c_tile@.len(),
                i0 + mr <= usize::MAX,
                j0 + nr <= usize::MAX,
                window_in_storage(old(out), i0 as int, j0 as int, mr as int, nr as int),
                same_layout(out, old(out)),
                s0 == old(out).storage(),
                idx == (|r: int, c: int| old(out).index_of(i0 + r, j0 + c)),
                out.storage().len() == s0.len(),
                out.storage() == store_sweep(s0, idx, c_tile@, mr as int, nr as int, ii as int, jj as int),
            decreases nr - jj,
        {
            let tile_len: usize = c_tile.len();
            proof {
                lemma_row_major_bound(jj as int, ii as int, nr as int, mr as int);
                vstd::arithmetic::mul::lemma_mul_is_commutative(nr as int, mr as int);
                assert(in_storage(old(out), i0 + ii, j0 + jj));
                assert(out.index_of(i0 + ii, j0 + jj) == old(out).index_of(i0 + ii, j0 + jj));
                assert(in_storage(out, i0 + ii, j0 + jj));
            }
            let x = c_tile[jj * mr + ii];
            let slot = out.get_mut(i0 + ii, j0 + jj);
            *slot = x;
            jj = jj + 1;
        }
        ii = ii + 1;
    }
}

/// Writing back, in the order of the copy-back, values that each slot
/// already holds leaves the storage as it was.
proof fn lemma_store_sweep_same<T>(s: Seq<T>, idx: spec_fn(int, int) -> int, tile: Seq<T>, mr: int, nr: int, ii: int, jj: int)
    requires
        0 <= ii <= mr,
        0 <= jj <= nr,
        ii == mr ==> jj == 0,
        forall|a: int, b: int|
            0 <= a < mr && 0 <= b < nr ==> 0 <= #[trigger] idx(a, b) < s.len() && tile[b * mr + a] == s[idx(a, b)],
    ensures
        store_sweep(s, idx, tile, mr, nr, ii, jj) == s,
    decreases ii, jj,
{
    if jj > 0 {
        lemma_store_sweep_same(s, idx, tile, mr, nr, ii, jj - 1);
        assert(0 <= idx(ii, jj - 1) < s.len());
        assert(s.update(idx(ii, jj - 1), tile[(jj - 1) * mr + ii]) =~= s);
    } else if ii > 0 {
        lemma_store_sweep_same(s, idx, tile, mr, nr, ii - 1, nr);
    }
}

/// Copying a tile of C out with `load_c_tile` and straight back with
/// `store_c_tile` leaves the output's storage as it was.
pub proof fn lemma_load_store_round_trip<C: MatrixRead<T>, T>(
    out: &C,
    i0: int,
    j0: int,
    mr: int,
    nr: int,
    tile: Seq<T>,
)
    requires
        0 <= mr,
        0 <= nr,
        window_in_storage(out, i0, j0, mr, nr),
        forall|t: int| 0 <= t < mr * nr ==> #[trigger] tile[t] == entry(out, i0 + t % mr, j0 + t / mr),
    ensures
        store_sweep(out.storage(), |r: int, c: int| out.index_of(i0 + r, j0 + c), tile, mr, nr, mr, 0)
            == out.storage(),
{
    let idx = |r: int, c: int| out.index_of(i0 + r, j0 + c);
    assert forall|a: int, b: int| 0 <= a < mr && 0 <= b < nr implies 0 <= #[trigger] idx(a, b) < out.storage().len()
        && tile[b * mr + a] == out.storage()[idx(a, b)] by {
        assert(in_storage(out, i0 + a, j0 + b));
        lemma_row_major_bound(b, a, nr, mr);
        vstd::arithmetic::mul::lemma_mul_is_commutative(nr, mr);
        lemma_column_major_split(b * mr + a, mr, a, b);
    }
    lemma_store_sweep_same(out.storage(), idx, tile, mr, nr, mr, 0);
}

/// The tile copy-back leaves alone every slot that no element of the tile
/// is sent to.
pub(crate) proof fn lemma_store_sweep_outside<T>(
    s: Seq<T>,
    idx: spec_fn(int, int) -> int,
    tile: Seq<T>,
    mr: int,
    nr: int,
    ii: int,
    jj: int,
    t: int,
)
    requires
        0 <= ii <= mr,
        0 <= jj <= nr,
        ii == mr ==> jj == 0,
        0 <= t < s.len(),
        forall|a: int, b: int| 0 <= a < mr && 0 <= b < nr ==> 0 <= #[trigger] idx(a, b) < s.len() && idx(a, b) != t,
    ensures
        store_sweep(s, idx, tile, mr, nr, ii, jj).len() == s.len(),
        store_sweep(s, idx, tile, mr, nr, ii, jj)[t] == s[t],
    decreases ii, jj,
{
    if jj > 0 {
        lemma_store_sweep_outside(s, idx, tile, mr, nr, ii, jj - 1, t);
        assert(0 <= idx(ii, jj - 1) < s.len() && idx(ii, jj - 1) != t);
    } else if ii > 0 {
        lemma_store_sweep_outside(s, idx, tile, mr, nr, ii - 1, nr, t);
    }
}

/// Where the tile's elements go to distinct slots, each element of the tile
/// holds its value from the tile once the copy-back has passed it, and its
/// old value before.
pub(crate) proof fn lemma_store_sweep_slot<T>(
    s: Seq<T>,
    idx: spec_fn(int, int) -> int,
    tile: Seq<T>,
    mr: int,
    nr: int,
    ii: int,
    jj: int,
    a: int,
    b: int,
)
    requires
        0 <= ii <= mr,
        0 <= jj <= nr,
        ii == mr ==> jj == 0,
        0 <= a < mr,
        0 <= b < nr,
        injective_on(idx, mr, nr),
        forall|x: int, y: int| 0 <= x < mr && 0 <= y < nr ==> 0 <= #[trigger] idx(x, y) < s.len(),
    ensures
        store_sweep(s, idx, tile, mr, nr, ii, jj).len() == s.len(),
        store_sweep(s, idx, tile, mr, nr, ii, jj)[idx(a, b)] == if a < ii || (a == ii && b < jj) {
            tile[b * mr + a]
        } else {
            s[idx(a, b)]
        },
    decreases ii, jj,
{
    if jj > 0 {
        lemma_store_sweep_slot(s, idx, tile, mr, nr, ii, jj - 1, a, b);
        assert(0 <= idx(ii, jj - 1) < s.len());
        assert(0 <= idx(a, b) < s.len());
        if !(a == ii && b == jj - 1) {
            assert(idx(a, b) != idx(ii, jj - 1));
        }
    } else if ii > 0 {
        lemma_store_sweep_slot(s, idx, tile, mr, nr, ii - 1, nr, a, b);
    }
}

} // verus!
