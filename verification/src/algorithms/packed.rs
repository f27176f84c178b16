//! The packed, tiled matrix-matrix product: the schedule of its sweep over
//! column blocks, inner panels, row blocks and register tiles, and what it
//! leaves in each output element.

use vstd::prelude::*;
use vstd::std_specs::cmp::PartialEqSpec;
use vstd::std_specs::convert::FromSpec;
use vstd::std_specs::ops::{AddSpec, MulSpec};

use crate::arith::{add_total, mul_total};
use crate::dense::matrix::{
    entry, in_storage, lemma_column_major_split, lemma_row_major_bound, same_layout, MatrixRead, MatrixWrite,
};
use crate::dense::product::{block_in_storage, dot_int, exact_ops, injective_on, touched};
use crate::algorithms::gemm::{
    blocked_tile_sizes, gemm_edge_update, kc_of, lemma_range_dot_i64, lemma_range_sum_split, mc_of, nc_of,
    packed_dot, panel_update, panel_update_ok, range_dot, range_sum_int, tile_update, GemmBlocking,
    GemmMicrokernel,
};
use crate::algorithms::packing::{
    b_pack_col, b_pack_row, lemma_store_sweep_outside, lemma_store_sweep_slot, load_c_tile, pack_a_panel,
    pack_b_panels, store_c_tile, store_sweep, window_in_storage,
};

verus! {

/// Position `x` of a dimension of length `len`, swept in blocks of `block`
/// positions, lies in the leading whole register tiles of `tile` positions
/// of its block (the rest of a block is left to one-by-one updates).
pub open spec fn in_whole_tiles(x: int, len: int, block: int, tile: int) -> bool {
    let start = x - x % block;
    let end = if start + block <= len {
        start + block
    } else {
        len
    };
    x < start + ((end - start) / tile) * tile
}

/// The end of panel `t` of the inner dimension `0 .. k`, in panels of `kc`.
pub open spec fn panel_end(t: int, kc: int, k: int) -> int {
    if (t + 1) * kc <= k {
        (t + 1) * kc
    } else {
        k
    }
}

/// How many panels of `kc` the inner dimension `0 .. k` has.
pub open spec fn panel_count(k: int, kc: int) -> int {
    (k + kc - 1) / kc
}

/// Element (i, j) of the output, starting from `c`, after the first `t`
/// panels of the packed product: each panel adds `alpha` times the panel sum,
/// `beta` applying on the first panel only, in the form of the tile kernel
/// where the element lies in a whole tile (`whole`) and of the one-by-one
/// update elsewhere.
pub open spec fn packed_value<
    T: core::ops::Add<Output = T> + core::ops::Mul<Output = T> + PartialEq + From<i8>,
    A: MatrixRead<T>,
    B: MatrixRead<T>,
>(a: &A, b: &B, c: T, i: int, j: int, t: nat, kc: int, k: int, alpha: T, beta: T, whole: bool) -> T
    decreases t,
{
    if t == 0 {
        c
    } else {
        let s = t - 1;
        let prev = packed_value(a, b, c, i, j, (t - 1) as nat, kc, k, alpha, beta, whole);
        let acc = range_dot(a, b, i, j, s * kc, panel_end(s, kc, k));
        if whole {
            tile_update(
                prev,
                acc,
                alpha,
                if s == 0 {
                    beta
                } else {
                    <T as FromSpec<i8>>::from_spec(1i8)
                },
            )
        } else {
            panel_update(prev, acc, alpha, beta, s == 0)
        }
    }
}

/// The C tile that the scalar tile update makes of `c_tile`: slot `t` below
/// `mr * nr` (row `t % mr`, column `t / mr` of the tile) becomes
/// `tile_update` of its value with the panel sum of that row of the packed A
/// panel and that column of the packed B panel from `b_offset`; the other
/// slots stay.
pub open spec fn tile_kernel_result<T: core::ops::Add<Output = T> + core::ops::Mul<Output = T> + PartialEq + From<i8>>(
    mr: int,
    nr: int,
    k_panel: int,
    alpha: T,
    a_pack: Seq<T>,
    b_packs: Seq<T>,
    b_offset: int,
    beta_panel: T,
    c_tile: Seq<T>,
) -> Seq<T> {
    Seq::new(
        c_tile.len(),
        |t: int|
            if t < mr * nr {
                tile_update(
                    c_tile[t],
                    packed_dot(a_pack, b_packs.skip(b_offset), mr, nr, t % mr, t / mr, k_panel),
                    alpha,
                    beta_panel,
                )
            } else {
                c_tile[t]
            },
    )
}

/// The tile kernel `run_tile` computes the scalar tile update exactly.
pub open spec fn tile_kernel_exact<
    T: core::ops::Add<Output = T> + core::ops::Mul<Output = T> + PartialEq + From<i8>,
    F: Fn(usize, T, &[T], &[T], usize, T, Vec<T>) -> Vec<T>,
>(run_tile: F, mr: int, nr: int) -> bool {
    forall|args: (usize, T, &[T], &[T], usize, T, Vec<T>), ret: Vec<T>|
        #[trigger] run_tile.ensures(args, ret) ==> ret@ == tile_kernel_result(
            mr,
            nr,
            args.0 as int,
            args.1,
            args.2@,
            args.3@,
            args.4 as int,
            args.5,
            args.6@,
        )
}

/// Every update of the packed product on element (i, j), starting from `c`,
/// is permitted.
pub open spec fn packed_steps_ok<
    T: core::ops::Add<Output = T> + core::ops::Sub<Output = T> + core::ops::Mul<Output = T> + PartialEq
        + From<i8>,
    A: MatrixRead<T>,
    B: MatrixRead<T>,
>(a: &A, b: &B, c: T, i: int, j: int, kc: int, k: int, alpha: T, beta: T, whole: bool) -> bool {
    forall|t: nat|
        t < panel_count(k, kc) ==> panel_update_ok(
            a,
            b,
            #[trigger] packed_value(a, b, c, i, j, t, kc, k, alpha, beta, whole),
            i,
            j,
            t * kc,
            panel_end(t as int, kc, k),
            alpha,
            beta,
        )
}

/// With `i64` elements, and where no update overflows, element (i, j) after
/// the first `t` panels of the packed product is `c` if `t` is zero, else
/// `beta * c + alpha * sum_p a(i, p) * b(p, j)` over the panels passed, in
/// either form of the update.
proof fn lemma_packed_value_i64<A: MatrixRead<i64>, B: MatrixRead<i64>>(
    a: &A,
    b: &B,
    c: i64,
    i: int,
    j: int,
    t: nat,
    kc: int,
    k: int,
    alpha: i64,
    beta: i64,
    whole: bool,
)
    requires
        1 <= kc,
        0 <= k,
        t <= panel_count(k, kc),
        packed_steps_ok(a, b, c, i, j, kc, k, alpha, beta, whole),
    ensures
        packed_value(a, b, c, i, j, t, kc, k, alpha, beta, whole) as int == if t == 0 {
            c as int
        } else {
            beta * c + alpha * range_sum_int(a, b, i, j, 0, panel_end(t - 1, kc, k))
        },
    decreases t,
{
    if t > 0 {
        let s = t - 1;
        assert(exact_ops::<i64>());
        lemma_packed_value_i64(a, b, c, i, j, (t - 1) as nat, kc, k, alpha, beta, whole);
        let prev = packed_value(a, b, c, i, j, (t - 1) as nat, kc, k, alpha, beta, whole);
        let pe = panel_end(s, kc, k);
        assert(panel_update_ok(a, b, prev, i, j, s * kc, pe, alpha, beta));
        let q = (k + kc - 1) / kc;
        vstd::arithmetic::div_mod::lemma_fundamental_div_mod(k + kc - 1, kc);
        vstd::arithmetic::div_mod::lemma_mod_pos_bound(k + kc - 1, kc);
        assert(s * kc < k) by (nonlinear_arith)
            requires
                s + 1 <= q,
                k + kc - 1 == kc * q + (k + kc - 1) % kc,
                0 <= (k + kc - 1) % kc < kc,
                1 <= kc,
        ;
        assert(0 <= s * kc) by (nonlinear_arith)
            requires
                0 <= s,
                1 <= kc,
        ;
        assert((s + 1) * kc == s * kc + kc) by (nonlinear_arith);
        assert(s * kc <= pe);
        lemma_range_dot_i64(a, b, i, j, s * kc, pe);
        let acc = range_sum_int(a, b, i, j, s * kc, pe);
        let dot = range_dot(a, b, i, j, s * kc, pe);
        assert(dot as int == acc);
        if s > 0 {
            lemma_range_sum_split(a, b, i, j, 0, s * kc, pe);
            assert(panel_end(s - 1, kc, k) == s * kc) by (nonlinear_arith)
                requires
                    s * kc < k,
                    panel_end(s - 1, kc, k) == if (s - 1 + 1) * kc <= k { (s - 1 + 1) * kc } else { k },
            ;
            assert(prev as int == beta * c + alpha * range_sum_int(a, b, i, j, 0, s * kc));
            assert(s * kc > 0) by (nonlinear_arith)
                requires
                    s >= 1,
                    kc >= 1,
            ;
            assert(prev.add_req(alpha.mul_spec(dot)));
            assert(1 * prev == prev);
            assert(alpha * range_sum_int(a, b, i, j, 0, s * kc) + alpha * acc == alpha * (range_sum_int(
                a,
                b,
                i,
                j,
                0,
                s * kc,
            ) + acc)) by (nonlinear_arith);
        } else {
            assert(prev == c);
            assert(beta.mul_req(c));
            assert(range_sum_int(a, b, i, j, 0, pe) == acc);
            if beta == 0 {
                assert(beta * c == 0) by (nonlinear_arith)
                    requires
                        beta == 0,
                ;
            }
        }
    }
}

/// Within a sweep in blocks of `block` from zero, position `x` of the block
/// starting at `start` has that block's start.
proof fn lemma_block_start(x: int, start: int, block: int)
    requires
        0 < block,
        0 <= start,
        start % block == 0,
        start <= x < start + block,
    ensures
        x - x % block == start,
{
    vstd::arithmetic::div_mod::lemma_fundamental_div_mod(start, block);
    vstd::arithmetic::mul::lemma_mul_is_commutative(block, start / block);
    vstd::arithmetic::div_mod::lemma_fundamental_div_mod_converse(x, block, start / block, x - start);
}

/// The panel sum of row `ii` of a packed A panel and column `jj` of a packed
/// B tile is the sum over the panel's inner indices of the elements they were
/// packed from.
proof fn lemma_packed_dot_panel<
    T: core::ops::Add<Output = T> + core::ops::Mul<Output = T> + From<i8>,
    A: MatrixRead<T>,
    B: MatrixRead<T>,
>(
    a: &A,
    b: &B,
    a_pack: Seq<T>,
    b_packs: Seq<T>,
    mr: int,
    nr: int,
    ii: int,
    jj: int,
    i0: int,
    jc: int,
    tile: int,
    tiles: int,
    pc: int,
    k_panel: int,
    kp: int,
)
    requires
        0 <= ii < mr,
        0 <= jj < nr,
        0 <= tile < tiles,
        0 <= kp <= k_panel,
        a_pack.len() == mr * k_panel,
        forall|t: int| 0 <= t < mr * k_panel ==> #[trigger] a_pack[t] == entry(a, i0 + t % mr, pc + t / mr),
        b_packs.len() == tiles * (nr * k_panel),
        forall|t: int|
            0 <= t < tiles * (nr * k_panel) ==> #[trigger] b_packs[t] == entry(
                b,
                b_pack_row(t, pc, nr, nr * k_panel),
                b_pack_col(t, jc, nr, nr * k_panel),
            ),
    ensures
        packed_dot(a_pack, b_packs.skip(tile * (nr * k_panel)), mr, nr, ii, jj, kp) == range_dot(
            a,
            b,
            i0 + ii,
            jc + tile * nr + jj,
            pc,
            pc + kp,
        ),
    decreases kp,
{
    if kp > 0 {
        lemma_packed_dot_panel(a, b, a_pack, b_packs, mr, nr, ii, jj, i0, jc, tile, tiles, pc, k_panel, kp - 1);
        let p = kp - 1;
        let stride = nr * k_panel;
        // the A slot of row ii at step p
        lemma_row_major_bound(p, ii, k_panel, mr);
        vstd::arithmetic::mul::lemma_mul_is_commutative(mr, k_panel);
        lemma_column_major_split(p * mr + ii, mr, ii, p);
        assert(a_pack[p * mr + ii] == entry(a, i0 + ii, pc + p));
        // the B slot of column jj at step p in tile `tile`
        lemma_row_major_bound(p, jj, k_panel, nr);
        vstd::arithmetic::mul::lemma_mul_is_commutative(nr, k_panel);
        let t = tile * stride + (p * nr + jj);
        assert(t < tiles * stride) by (nonlinear_arith)
            requires
                t == tile * stride + (p * nr + jj),
                p * nr + jj < stride,
                tile < tiles,
                0 <= p * nr + jj,
        ;
        assert(0 <= tile * stride) by (nonlinear_arith)
            requires
                0 <= tile,
                0 <= stride,
        ;
        lemma_column_major_split(t, stride, p * nr + jj, tile);
        lemma_column_major_split(p * nr + jj, nr, jj, p);
        assert(b_packs.skip(tile * stride)[p * nr + jj] == b_packs[t]);
        assert(b_packs[t] == entry(b, pc + p, jc + tile * nr + jj));
    }
}

/// The buffers the packed product hands its tile kernel fit the kernel's
/// reads and writes: the packed A panel holds `mr` rows at each of the
/// `k_panel` steps, the packed B panels hold `nr` columns at each step from
/// `b_offset` on, and the C tile holds the `mr x nr` tile.
pub open spec fn tile_call_ok<T>(
    mr: int,
    nr: int,
    k_panel: int,
    a_pack: Seq<T>,
    b_packs: Seq<T>,
    b_offset: int,
    c_tile: Seq<T>,
) -> bool {
    &&& a_pack.len() == mr * k_panel
    &&& 0 <= b_offset
    &&& b_offset + nr * k_panel <= b_packs.len()
    &&& mr * nr <= c_tile.len()
}

/// The output keeps its layout and storage length, and every storage slot
/// outside the `m x n` block holds what it held in `before`.
pub open spec fn block_only_changed<T, M: MatrixRead<T>>(now: &M, before: &M, m: int, n: int) -> bool {
    &&& same_layout(now, before)
    &&& now.storage().len() == before.storage().len()
    &&& forall|t: int|
        0 <= t < before.storage().len() && !touched(before, m, n, t) ==> #[trigger] now.storage()[t]
            == before.storage()[t]
}

/// A window inside the `m x n` block of the output is still in storage after
/// changes that kept the layout and the storage length.
proof fn lemma_window_in_block<T, M: MatrixRead<T>>(
    now: &M,
    before: &M,
    m: int,
    n: int,
    i0: int,
    j0: int,
    rows: int,
    cols: int,
)
    requires
        block_only_changed(now, before, m, n),
        block_in_storage(before, m, n),
        0 <= i0,
        0 <= j0,
        i0 + rows <= m,
        j0 + cols <= n,
    ensures
        window_in_storage(now, i0, j0, rows, cols),
{
    assert forall|r: int, c: int| i0 <= r < i0 + rows && j0 <= c < j0 + cols implies #[trigger] in_storage(
        now,
        r,
        c,
    ) by {
        assert(in_storage(before, r, c));
        assert(now.index_of(r, c) == before.index_of(r, c));
    }
}

/// The sweep state carries over between two points of the sweep at which
/// every element of the block has been reached by as many panels.
proof fn lemma_sweep_state_same_done<
    T: core::ops::Add<Output = T> + core::ops::Mul<Output = T> + PartialEq + From<i8>,
    A: MatrixRead<T>,
    B: MatrixRead<T>,
    C: MatrixRead<T>,
>(
    a: &A,
    b: &B,
    out: &C,
    before: &C,
    shape: (int, int, int, int, int, int, int, int),
    alpha: T,
    beta: T,
    jc1: int,
    j_end1: int,
    t1: int,
    cur1: spec_fn(int, int) -> bool,
    jc2: int,
    j_end2: int,
    t2: int,
    cur2: spec_fn(int, int) -> bool,
)
    requires
        sweep_state(a, b, out, before, shape, alpha, beta, jc1, j_end1, t1, cur1),
        forall|i: int, j: int|
            0 <= i < shape.0 && 0 <= j < shape.1 ==> #[trigger] panels_done(
                i,
                j,
                jc1,
                j_end1,
                t1,
                panel_count(shape.2, shape.6),
                cur1,
            ) == panels_done(i, j, jc2, j_end2, t2, panel_count(shape.2, shape.6), cur2),
    ensures
        sweep_state(a, b, out, before, shape, alpha, beta, jc2, j_end2, t2, cur2),
{
    let (m, n, k, mr, nr, mc, kc, nc) = shape;
    assert forall|i: int, j: int| 0 <= i < m && 0 <= j < n implies #[trigger] entry(out, i, j) == packed_value(
        a,
        b,
        entry(before, i, j),
        i,
        j,
        panels_done(i, j, jc2, j_end2, t2, panel_count(k, kc), cur2) as nat,
        kc,
        k,
        alpha,
        beta,
        whole_tile(i, j, m, n, mc, nc, mr, nr),
    ) by {
        assert(panels_done(i, j, jc1, j_end1, t1, panel_count(k, kc), cur1) == panels_done(
            i,
            j,
            jc2,
            j_end2,
            t2,
            panel_count(k, kc),
            cur2,
        ));
    }
}

/// Position `x` of a block starting at a multiple `start` of `block` and
/// ending at `end` lies in the block's whole tiles exactly when it lies
/// before `full`, the end of the last whole tile.
proof fn lemma_in_whole_tiles(x: int, len: int, block: int, tile: int, start: int, end: int, full: int)
    requires
        0 < block,
        0 < tile,
        0 <= start,
        start % block == 0,
        start <= x < end,
        end == if start + block <= len { start + block } else { len },
        full == start + ((end - start) / tile) * tile,
    ensures
        in_whole_tiles(x, len, block, tile) == (x < full),
{
    lemma_block_start(x, start, block);
}

/// The panel index `t` is zero exactly when the panel starts at zero.
proof fn lemma_first_panel(t: int, kc: int)
    requires
        0 <= t,
        1 <= kc,
    ensures
        (t * kc == 0) == (t == 0),
        0 <= t * kc,
{
    if t > 0 {
        assert(t * kc >= 1) by (nonlinear_arith)
            requires
                t >= 1,
                kc >= 1,
        ;
    }
    assert(0 <= t * kc) by (nonlinear_arith)
        requires
            0 <= t,
            1 <= kc,
    ;
}

/// A one-by-one update of element (i, j), not yet reached by the current
/// panel and outside the whole tiles, advances the sweep state by that
/// element.
proof fn lemma_edge_step<
    T: core::ops::Add<Output = T> + core::ops::Sub<Output = T> + core::ops::Mul<Output = T> + PartialEq
        + From<i8>,
    A: MatrixRead<T>,
    B: MatrixRead<T>,
    C: MatrixRead<T>,
>(
    a: &A,
    b: &B,
    out: &C,
    prev: &C,
    before: &C,
    shape: (int, int, int, int, int, int, int, int),
    alpha: T,
    beta: T,
    jc: int,
    j_end: int,
    t: int,
    i: int,
    j: int,
    cur1: spec_fn(int, int) -> bool,
    cur2: spec_fn(int, int) -> bool,
)
    requires
        sweep_state(a, b, prev, before, shape, alpha, beta, jc, j_end, t, cur1),
        injective_on(|r: int, c: int| before.index_of(r, c), shape.0, shape.1),
        block_in_storage(before, shape.0, shape.1),
        same_layout(prev, before),
        prev.storage().len() == before.storage().len(),
        same_layout(out, prev),
        out.storage() == prev.storage().update(
            prev.index_of(i, j),
            panel_update(
                entry(prev, i, j),
                range_dot(a, b, i, j, t * shape.6, panel_end(t, shape.6, shape.2)),
                alpha,
                beta,
                t * shape.6 == 0,
            ),
        ),
        0 <= i < shape.0,
        0 <= jc <= j < j_end <= shape.1,
        0 <= t,
        1 <= shape.6,
        !cur1(i, j),
        forall|r: int, c: int| 0 <= r < shape.0 && 0 <= c < shape.1 ==> #[trigger] cur2(r, c) == (cur1(r, c) || (r == i && c == j)),
        !whole_tile(i, j, shape.0, shape.1, shape.5, shape.7, shape.3, shape.4),
    ensures
        sweep_state(a, b, out, before, shape, alpha, beta, jc, j_end, t, cur2),
{
    let (m, n, k, mr, nr, mc, kc, nc) = shape;
    lemma_first_panel(t, kc);
    assert(in_storage(before, i, j));
    assert(prev.index_of(i, j) == before.index_of(i, j));
    assert forall|r: int, c: int| 0 <= r < m && 0 <= c < n implies #[trigger] entry(out, r, c) == packed_value(
        a,
        b,
        entry(before, r, c),
        r,
        c,
        panels_done(r, c, jc, j_end, t, panel_count(k, kc), cur2) as nat,
        kc,
        k,
        alpha,
        beta,
        whole_tile(r, c, m, n, mc, nc, mr, nr),
    ) by {
        assert(in_storage(before, r, c));
        assert(out.index_of(r, c) == prev.index_of(r, c));
        assert(prev.index_of(r, c) == before.index_of(r, c));
        assert(entry(prev, r, c) == packed_value(
            a,
            b,
            entry(before, r, c),
            r,
            c,
            panels_done(r, c, jc, j_end, t, panel_count(k, kc), cur1) as nat,
            kc,
            k,
            alpha,
            beta,
            whole_tile(r, c, m, n, mc, nc, mr, nr),
        ));
        if r == i && c == j {
        } else {
            assert((|x: int, y: int| before.index_of(x, y))(r, c) != (|x: int, y: int| before.index_of(x, y))(i, j));
        }
    }
}

/// A whole tile handed to an exact tile kernel and written back advances the
/// sweep state by the tile's elements: those `cur1` had not marked and that
/// `cur2` marks besides.
proof fn lemma_tile_step<
    T: core::ops::Add<Output = T> + core::ops::Mul<Output = T> + PartialEq + From<i8>,
    A: MatrixRead<T>,
    B: MatrixRead<T>,
    C: MatrixRead<T>,
>(
    a: &A,
    b: &B,
    out: &C,
    prev: &C,
    before: &C,
    shape: (int, int, int, int, int, int, int, int),
    alpha: T,
    beta: T,
    beta_panel: T,
    jc: int,
    j_end: int,
    t: int,
    i0: int,
    tile: int,
    tiles: int,
    a_pack: Seq<T>,
    b_packs: Seq<T>,
    loaded: Seq<T>,
    result: Seq<T>,
    cur1: spec_fn(int, int) -> bool,
    cur2: spec_fn(int, int) -> bool,
)
    requires
        sweep_state(a, b, prev, before, shape, alpha, beta, jc, j_end, t, cur1),
        injective_on(|r: int, c: int| before.index_of(r, c), shape.0, shape.1),
        block_in_storage(before, shape.0, shape.1),
        same_layout(prev, before),
        prev.storage().len() == before.storage().len(),
        same_layout(out, before),
        out.storage() == store_sweep(
            prev.storage(),
            |r: int, c: int| before.index_of(i0 + r, jc + tile * shape.4 + c),
            result,
            shape.3,
            shape.4,
            shape.3,
            0,
        ),
        0 <= t,
        1 <= shape.6,
        t * shape.6 < shape.2,
        0 < shape.3,
        0 < shape.4,
        0 <= i0,
        i0 + shape.3 <= shape.0,
        0 <= jc,
        0 <= tile < tiles,
        jc + tiles * shape.4 <= j_end <= shape.1,
        beta_panel == if t == 0 { beta } else { <T as FromSpec<i8>>::from_spec(1i8) },
        loaded.len() == shape.3 * shape.4,
        forall|q: int| 0 <= q < shape.3 * shape.4 ==> #[trigger] loaded[q] == entry(prev, i0 + q % shape.3, jc + tile * shape.4 + q / shape.3),
        result == tile_kernel_result(
            shape.3,
            shape.4,
            panel_end(t, shape.6, shape.2) - t * shape.6,
            alpha,
            a_pack,
            b_packs,
            tile * (shape.4 * (panel_end(t, shape.6, shape.2) - t * shape.6)),
            beta_panel,
            loaded,
        ),
        a_pack.len() == shape.3 * (panel_end(t, shape.6, shape.2) - t * shape.6),
        forall|q: int| 0 <= q < shape.3 * (panel_end(t, shape.6, shape.2) - t * shape.6) ==> #[trigger] a_pack[q] == entry(a, i0 + q % shape.3, t * shape.6 + q / shape.3),
        b_packs.len() == tiles * (shape.4 * (panel_end(t, shape.6, shape.2) - t * shape.6)),
        forall|q: int|
            0 <= q < tiles * (shape.4 * (panel_end(t, shape.6, shape.2) - t * shape.6)) ==> #[trigger] b_packs[q] == entry(
                b,
                b_pack_row(q, t * shape.6, shape.4, shape.4 * (panel_end(t, shape.6, shape.2) - t * shape.6)),
                b_pack_col(q, jc, shape.4, shape.4 * (panel_end(t, shape.6, shape.2) - t * shape.6)),
            ),
        forall|r: int, c: int|
            i0 <= r < i0 + shape.3 && jc + tile * shape.4 <= c < jc + tile * shape.4 + shape.4 ==> #[trigger] whole_tile(
                r,
                c,
                shape.0,
                shape.1,
                shape.5,
                shape.7,
                shape.3,
                shape.4,
            ) && !cur1(r, c),
        forall|r: int, c: int|
            0 <= r < shape.0 && 0 <= c < shape.1 ==> #[trigger] cur2(r, c) == (cur1(r, c) || (i0 <= r < i0 + shape.3
                && jc + tile * shape.4 <= c < jc + tile * shape.4 + shape.4)),
    ensures
        sweep_state(a, b, out, before, shape, alpha, beta, jc, j_end, t, cur2),
{
    let (m, n, k, mr, nr, mc, kc, nc) = shape;
    let pc = t * kc;
    let pe = panel_end(t, kc, k);
    let kp = pe - pc;
    let j0 = jc + tile * nr;
    let ridx = |r: int, c: int| before.index_of(i0 + r, j0 + c);
    lemma_first_panel(t, kc);
    assert(pc < pe) by (nonlinear_arith)
        requires
            pc == t * kc,
            pc < k,
            1 <= kc,
            pe == if (t + 1) * kc <= k { (t + 1) * kc } else { k },
    ;
    assert(0 <= tile * nr) by (nonlinear_arith)
        requires
            0 <= tile,
            0 < nr,
    ;
    assert(tile * nr + nr <= tiles * nr) by (nonlinear_arith)
        requires
            tile < tiles,
            0 < nr,
    ;
    assert forall|x1: int, y1: int, x2: int, y2: int|
        0 <= x1 < mr && 0 <= y1 < nr && 0 <= x2 < mr && 0 <= y2 < nr && #[trigger] ridx(x1, y1) == #[trigger] ridx(
            x2,
            y2,
        ) implies x1 == x2 && y1 == y2 by {
        assert((|r: int, c: int| before.index_of(r, c))(i0 + x1, j0 + y1) == (|r: int, c: int| before.index_of(r, c))(
            i0 + x2,
            j0 + y2,
        ));
    }
    assert forall|x: int, y: int| 0 <= x < mr && 0 <= y < nr implies 0 <= #[trigger] ridx(x, y) < prev.storage().len() by {
        assert(in_storage(before, i0 + x, j0 + y));
    }
    assert forall|r: int, c: int| 0 <= r < m && 0 <= c < n implies #[trigger] entry(out, r, c) == packed_value(
        a,
        b,
        entry(before, r, c),
        r,
        c,
        panels_done(r, c, jc, j_end, t, panel_count(k, kc), cur2) as nat,
        kc,
        k,
        alpha,
        beta,
        whole_tile(r, c, m, n, mc, nc, mr, nr),
    ) by {
        assert(in_storage(before, r, c));
        assert(out.index_of(r, c) == before.index_of(r, c));
        assert(prev.index_of(r, c) == before.index_of(r, c));
        assert(cur2(r, c) == (cur1(r, c) || (i0 <= r < i0 + mr && j0 <= c < j0 + nr)));
        assert(entry(prev, r, c) == packed_value(
            a,
            b,
            entry(before, r, c),
            r,
            c,
            panels_done(r, c, jc, j_end, t, panel_count(k, kc), cur1) as nat,
            kc,
            k,
            alpha,
            beta,
            whole_tile(r, c, m, n, mc, nc, mr, nr),
        ));
        if i0 <= r < i0 + mr && j0 <= c < j0 + nr {
            let x = r - i0;
            let y = c - j0;
            let q = y * mr + x;
            assert(whole_tile(r, c, m, n, mc, nc, mr, nr) && !cur1(r, c));
            lemma_row_major_bound(y, x, nr, mr);
            vstd::arithmetic::mul::lemma_mul_is_commutative(nr, mr);
            lemma_column_major_split(q, mr, x, y);
            lemma_store_sweep_slot(prev.storage(), ridx, result, mr, nr, mr, 0, x, y);
            assert(ridx(x, y) == before.index_of(r, c));
            assert(entry(out, r, c) == result[q]);
            assert(loaded[q] == entry(prev, r, c));
            lemma_packed_dot_panel(a, b, a_pack, b_packs, mr, nr, x, y, i0, jc, tile, tiles, pc, kp, kp);
        } else {
            assert forall|x: int, y: int| 0 <= x < mr && 0 <= y < nr implies 0 <= #[trigger] ridx(x, y) < prev.storage().len()
                && ridx(x, y) != before.index_of(r, c) by {
                assert(in_storage(before, i0 + x, j0 + y));
                if ridx(x, y) == before.index_of(r, c) {
                    assert((|r: int, c: int| before.index_of(r, c))(i0 + x, j0 + y) == (|r: int, c: int| before.index_of(r, c))(r, c));
                }
            }
            lemma_store_sweep_outside(prev.storage(), ridx, result, mr, nr, mr, 0, before.index_of(r, c));
        }
    }
}

/// A panel that starts before the end of the inner dimension is one of its
/// `panel_count` panels, and the one after it is the last exactly when it
/// reaches the end.
proof fn lemma_panel_index(t: int, kc: int, k: int)
    requires
        0 <= t,
        1 <= kc,
        t * kc < k,
    ensures
        t < panel_count(k, kc),
        (t + 1) * kc >= k ==> t + 1 == panel_count(k, kc),
        (t + 1) * kc == t * kc + kc,
{
    assert((t + 1) * kc == t * kc + kc) by (nonlinear_arith);
    let q = (k + kc - 1) / kc;
    vstd::arithmetic::div_mod::lemma_fundamental_div_mod(k + kc - 1, kc);
    vstd::arithmetic::div_mod::lemma_mod_pos_bound(k + kc - 1, kc);
    let r = (k + kc - 1) % kc;
    assert(t < q) by (nonlinear_arith)
        requires
            t * kc < k,
            k + kc - 1 == kc * q + r,
            0 <= r < kc,
            1 <= kc,
    ;
    if (t + 1) * kc >= k {
        assert(q <= t + 1) by (nonlinear_arith)
            requires
                (t + 1) * kc >= k,
                k + kc - 1 == kc * q + r,
                0 <= r < kc,
                1 <= kc,
        ;
    }
}

/// Element (i, j) of an `m x n` output lies in a whole register tile of the
/// packed product, in its row and in its column.
pub open spec fn whole_tile(i: int, j: int, m: int, n: int, mc: int, nc: int, mr: int, nr: int) -> bool {
    in_whole_tiles(i, m, mc, mr) && in_whole_tiles(j, n, nc, nr)
}

/// How many panels of the packed product have reached element (i, j) at a
/// point of the sweep: all `np` in the column blocks before `jc`, none in
/// those from `j_end` on, and in the current column block `t`, or `t + 1`
/// for the elements `cur` marks as done in the current panel.
pub open spec fn panels_done(i: int, j: int, jc: int, j_end: int, t: int, np: int, cur: spec_fn(int, int) -> bool) -> int {
    if j < jc {
        np
    } else if j >= j_end {
        0
    } else if cur(i, j) {
        t + 1
    } else {
        t
    }
}

/// Every element (i, j) of the `m x n` block of `out` holds what the packed
/// product makes of its value in `before` after the panels that have reached
/// it (`panels_done`).
pub open spec fn sweep_state<
    T: core::ops::Add<Output = T> + core::ops::Mul<Output = T> + PartialEq + From<i8>,
    A: MatrixRead<T>,
    B: MatrixRead<T>,
    C: MatrixRead<T>,
>(
    a: &A,
    b: &B,
    out: &C,
    before: &C,
    shape: (int, int, int, int, int, int, int, int),
    alpha: T,
    beta: T,
    jc: int,
    j_end: int,
    t: int,
    cur: spec_fn(int, int) -> bool,
) -> bool {
    let (m, n, k, mr, nr, mc, kc, nc) = shape;
    forall|i: int, j: int|
        0 <= i < m && 0 <= j < n ==> #[trigger] entry(out, i, j) == packed_value(
            a,
            b,
            entry(before, i, j),
            i,
            j,
            panels_done(i, j, jc, j_end, t, panel_count(k, kc), cur) as nat,
            kc,
            k,
            alpha,
            beta,
            whole_tile(i, j, m, n, mc, nc, mr, nr),
        )
}

/// The facts that hold throughout the packed sweep of `a * b` into an output
/// that started as `before`, with the dimensions and tile sizes `shape`
/// (`m, n, k, mr, nr, mc, kc, nc`): every element in storage, and either
/// exact operations with distinct output slots and every update of every
/// element permitted, or total operations.
pub open spec fn packed_setup<
    T: core::ops::Add<Output = T> + core::ops::Sub<Output = T> + core::ops::Mul<Output = T> + PartialEq
        + From<i8>,
    A: MatrixRead<T>,
    B: MatrixRead<T>,
    C: MatrixRead<T>,
>(a: &A, b: &B, before: &C, shape: (int, int, int, int, int, int, int, int), alpha: T, beta: T) -> bool {
    let (m, n, k, mr, nr, mc, kc, nc) = shape;
    &&& a.nrows() == m
    &&& a.ncols() == k
    &&& b.nrows() == k
    &&& b.ncols() == n
    &&& block_in_storage(a, m, k)
    &&& block_in_storage(b, k, n)
    &&& block_in_storage(before, m, n)
    &&& m <= usize::MAX
    &&& n <= usize::MAX
    &&& k <= usize::MAX
    &&& 0 < mr
    &&& 0 < nr
    &&& 0 < mc
    &&& 1 <= kc
    &&& 0 < nc
    &&& !exact_ops::<T>() ==> add_total::<T>() && mul_total::<T>()
    &&& exact_ops::<T>() ==> injective_on(|r: int, c: int| before.index_of(r, c), m, n)
    &&& exact_ops::<T>() ==> forall|i: int, j: int|
        0 <= i < m && 0 <= j < n ==> #[trigger] packed_steps_ok(
            a,
            b,
            entry(before, i, j),
            i,
            j,
            kc,
            k,
            alpha,
            beta,
            whole_tile(i, j, m, n, mc, nc, mr, nr),
        )
}

/// Updates the elements (i, j) with `i_lo <= i < i_hi` and `j_lo <= j < j_hi`
/// one by one over the inner indices `pc .. p_end` of panel `t`, row by row.
/// These elements lie outside the whole tiles and `cur0` has not marked
/// them; the sweep state gains them.
#[verifier::loop_isolation(false)]
fn edge_rect<A, B, C, T>(
    a: &A,
    b: &B,
    out: &mut C,
    i_lo: usize,
    i_hi: usize,
    j_lo: usize,
    j_hi: usize,
    pc: usize,
    p_end: usize,
    alpha: T,
    beta: T,
    Ghost(before): Ghost<C>,
    Ghost(shape): Ghost<(int, int, int, int, int, int, int, int)>,
    Ghost(jc): Ghost<int>,
    Ghost(j_end): Ghost<int>,
    Ghost(t): Ghost<int>,
    Ghost(cur0): Ghost<spec_fn(int, int) -> bool>,
) where
    A: MatrixRead<T>,
    B: MatrixRead<T>,
    C: MatrixWrite<T>,
    T: Copy + core::ops::Add<Output = T> + core::ops::Sub<Output = T> + core::ops::Mul<Output = T> + PartialEq
        + From<i8>,

    requires
        packed_setup(a, b, &before, shape, alpha, beta),
        block_only_changed(old(out), &before, shape.0, shape.1),
        i_lo <= i_hi <= shape.0,
        0 <= jc <= j_lo <= j_hi <= j_end <= shape.1,
        0 <= t,
        pc == t * shape.6,
        pc < shape.2,
        p_end == panel_end(t, shape.6, shape.2),
        forall|r: int, c: int|
            i_lo <= r < i_hi && j_lo <= c < j_hi ==> !#[trigger] whole_tile(
                r,
                c,
                shape.0,
                shape.1,
                shape.5,
                shape.7,
                shape.3,
                shape.4,
            ) && !cur0(r, c),
        exact_ops::<T>() ==> sweep_state(a, b, old(out), &before, shape, alpha, beta, jc, j_end, t, cur0),
    ensures
        block_only_changed(final(out), &before, shape.0, shape.1),
        exact_ops::<T>() ==> sweep_state(
            a,
            b,
            final(out),
            &before,
            shape,
            alpha,
            beta,
            jc,
            j_end,
            t,
            |r: int, c: int| cur0(r, c) || (i_lo <= r < i_hi && j_lo <= c < j_hi),
        ),
{
    let ghost (m, n, k, mr, nr, mc, kc, nc) = shape;
    proof {
        lemma_panel_index(t, kc, k);
        lemma_first_panel(t, kc);
        if exact_ops::<T>() {
            lemma_sweep_state_same_done(
                a,
                b,
                old(out),
                &before,
                shape,
                alpha,
                beta,
                jc,
                j_end,
                t,
                cur0,
                jc,
                j_end,
                t,
                |r: int, c: int| cur0(r, c) || (i_lo <= r < i_lo && j_lo <= c < j_hi),
            );
        }
    }
    let mut i = i_lo;
    while i < i_hi
        invariant
            i_lo <= i <= i_hi,
            block_only_changed(out, &before, m, n),
            exact_ops::<T>() ==> sweep_state(
                a,
                b,
                out,
                &before,
                shape,
                alpha,
                beta,
                jc,
                j_end,
                t,
                |r: int, c: int| cur0(r, c) || (i_lo <= r < i && j_lo <= c < j_hi),
            ),
        decreases i_hi - i,
    {
        proof {
            if exact_ops::<T>() {
                lemma_sweep_state_same_done(
                    a,
                    b,
                    out,
                    &before,
                    shape,
                    alpha,
                    beta,
                    jc,
                    j_end,
                    t,
                    |r: int, c: int| cur0(r, c) || (i_lo <= r < i && j_lo <= c < j_hi),
                    jc,
                    j_end,
                    t,
                    |r: int, c: int| cur0(r, c) || (i_lo <= r < i && j_lo <= c < j_hi) || (r == i && j_lo <= c < j_lo),
                );
            }
        }
        let mut j = j_lo;
        while j < j_hi
            invariant
                i_lo <= i < i_hi,
                j_lo <= j <= j_hi,
                block_only_changed(out, &before, m, n),
                exact_ops::<T>() ==> sweep_state(
                    a,
                    b,
                    out,
                    &before,
                    shape,
                    alpha,
                    beta,
                    jc,
                    j_end,
                    t,
                    |r: int, c: int| cur0(r, c) || (i_lo <= r < i && j_lo <= c < j_hi) || (r == i && j_lo <= c < j),
                ),
            decreases j_hi - j,
        {
            let ghost prev = *out;
            proof {
                assert(in_storage(&before, i as int, j as int));
                assert(out.index_of(i as int, j as int) == before.index_of(i as int, j as int));
                assert(touched(&before, m, n, before.index_of(i as int, j as int)));
                assert(!whole_tile(i as int, j as int, shape.0, shape.1, shape.5, shape.7, shape.3, shape.4) && !cur0(
                    i as int,
                    j as int,
                ));
                if exact_ops::<T>() {
                    assert(entry(out, i as int, j as int) == packed_value(
                        a,
                        b,
                        entry(&before, i as int, j as int),
                        i as int,
                        j as int,
                        t as nat,
                        kc,
                        k,
                        alpha,
                        beta,
                        whole_tile(i as int, j as int, m, n, mc, nc, mr, nr),
                    ));
                    assert(packed_steps_ok(
                        a,
                        b,
                        entry(&before, i as int, j as int),
                        i as int,
                        j as int,
                        kc,
                        k,
                        alpha,
                        beta,
                        whole_tile(i as int, j as int, m, n, mc, nc, mr, nr),
                    ));
                }
            }
            gemm_edge_update(a, b, out, i, j, pc, p_end, alpha, beta);
            proof {
                assert forall|tt: int|
                    0 <= tt < before.storage().len() && !touched(&before, m, n, tt) implies #[trigger] out.storage()[tt]
                    == before.storage()[tt] by {
                    assert(prev.storage()[tt] == before.storage()[tt]);
                }
                if exact_ops::<T>() {
                    lemma_edge_step(
                        a,
                        b,
                        out,
                        &prev,
                        &before,
                        shape,
                        alpha,
                        beta,
                        jc,
                        j_end,
                        t,
                        i as int,
                        j as int,
                        |r: int, c: int| cur0(r, c) || (i_lo <= r < i && j_lo <= c < j_hi) || (r == i && j_lo <= c < j),
                        |r: int, c: int| cur0(r, c) || (i_lo <= r < i && j_lo <= c < j_hi) || (r == i && j_lo <= c < j + 1),
                    );
                }
            }
            j = j + 1;
        }
        proof {
            if exact_ops::<T>() {
                lemma_sweep_state_same_done(
                    a,
                    b,
                    out,
                    &before,
                    shape,
                    alpha,
                    beta,
                    jc,
                    j_end,
                    t,
                    |r: int, c: int| cur0(r, c) || (i_lo <= r < i && j_lo <= c < j_hi) || (r == i && j_lo <= c < j_hi),
                    jc,
                    j_end,
                    t,
                    |r: int, c: int| cur0(r, c) || (i_lo <= r < i + 1 && j_lo <= c < j_hi),
                );
            }
        }
        i = i + 1;
    }
    proof {
        if exact_ops::<T>() {
            lemma_sweep_state_same_done(
                a,
                b,
                out,
                &before,
                shape,
                alpha,
                beta,
                jc,
                j_end,
                t,
                |r: int, c: int| cur0(r, c) || (i_lo <= r < i && j_lo <= c < j_hi),
                jc,
                j_end,
                t,
                |r: int, c: int| cur0(r, c) || (i_lo <= r < i_hi && j_lo <= c < j_hi),
            );
        }
    }
}

/// Hands the whole tiles of the row strip `i0 .. i0 + mr`, `tiles` tiles
/// from column `jc`, to `run_tile` one after the other, with the packed A
/// panel of the strip, the packed B panels and the panel's `beta`, and
/// writes each updated tile back. These elements lie in whole tiles and
/// `cur0` has not marked them; the sweep state gains them.
#[verifier::loop_isolation(false)]
fn tile_row<A, B, C, T, F>(
    a: &A,
    b: &B,
    out: &mut C,
    run_tile: &F,
    c_tile: Vec<T>,
    a_pack: &Vec<T>,
    b_packs: &Vec<T>,
    i0: usize,
    jc: usize,
    tiles: usize,
    k_panel: usize,
    mr: usize,
    nr: usize,
    alpha: T,
    beta_panel: T,
    Ghost(before): Ghost<C>,
    Ghost(shape): Ghost<(int, int, int, int, int, int, int, int)>,
    Ghost(beta): Ghost<T>,
    Ghost(j_end): Ghost<int>,
    Ghost(t): Ghost<int>,
    Ghost(cur0): Ghost<spec_fn(int, int) -> bool>,
) -> (c_tile_after: Vec<T>) where
    A: MatrixRead<T>,
    B: MatrixRead<T>,
    C: MatrixWrite<T>,
    T: Copy + core::ops::Add<Output = T> + core::ops::Sub<Output = T> + core::ops::Mul<Output = T> + PartialEq
        + From<i8>,
    F: Fn(usize, T, &[T], &[T], usize, T, Vec<T>) -> Vec<T>,

    requires
        packed_setup(a, b, &before, shape, alpha, beta),
        block_only_changed(old(out), &before, shape.0, shape.1),
        mr == shape.3,
        nr == shape.4,
        0 <= t,
        t * shape.6 < shape.2,
        k_panel == panel_end(t, shape.6, shape.2) - t * shape.6,
        exact_ops::<T>() ==> beta_panel == if t == 0 {
            beta
        } else {
            <T as FromSpec<i8>>::from_spec(1i8)
        },
        i0 + mr <= shape.0,
        jc + tiles * nr <= j_end <= shape.1,
        c_tile@.len() == mr * nr,
        nr * k_panel <= usize::MAX,
        tiles * (nr * k_panel) <= usize::MAX,
        a_pack@.len() == mr * k_panel,
        forall|q: int| 0 <= q < mr * k_panel ==> #[trigger] a_pack@[q] == entry(a, i0 + q % (mr as int), t * shape.6 + q / (mr as int)),
        b_packs@.len() == tiles * (nr * k_panel),
        forall|q: int|
            0 <= q < tiles * (nr * k_panel) ==> #[trigger] b_packs@[q] == entry(
                b,
                b_pack_row(q, t * shape.6, nr as int, nr * k_panel),
                b_pack_col(q, jc as int, nr as int, nr * k_panel),
            ),
        forall|kp: usize, al: T, ap: &[T], bp: &[T], off: usize, be: T, ct: Vec<T>|
            tile_call_ok(mr as int, nr as int, kp as int, ap@, bp@, off as int, ct@)
                ==> #[trigger] run_tile.requires((kp, al, ap, bp, off, be, ct)),
        forall|args: (usize, T, &[T], &[T], usize, T, Vec<T>), ret: Vec<T>|
            #[trigger] run_tile.ensures(args, ret) ==> ret@.len() == args.6@.len(),
        exact_ops::<T>() ==> tile_kernel_exact(*run_tile, mr as int, nr as int),
        forall|r: int, c: int|
            i0 <= r < i0 + mr && jc <= c < jc + tiles * nr ==> #[trigger] whole_tile(
                r,
                c,
                shape.0,
                shape.1,
                shape.5,
                shape.7,
                shape.3,
                shape.4,
            ) && !cur0(r, c),
        exact_ops::<T>() ==> sweep_state(a, b, old(out), &before, shape, alpha, beta, jc as int, j_end, t, cur0),
    ensures
        block_only_changed(final(out), &before, shape.0, shape.1),
        c_tile_after@.len() == mr * nr,
        exact_ops::<T>() ==> sweep_state(
            a,
            b,
            final(out),
            &before,
            shape,
            alpha,
            beta,
            jc as int,
            j_end,
            t,
            |r: int, c: int| cur0(r, c) || (i0 <= r < i0 + mr && jc <= c < jc + tiles * nr),
        ),
{
    let ghost (m, n, k, smr, snr, mc, kc, nc) = shape;
    let b_pack_stride = nr * k_panel;
    let mut c_tile = c_tile;
    proof {
        if exact_ops::<T>() {
            lemma_sweep_state_same_done(
                a,
                b,
                old(out),
                &before,
                shape,
                alpha,
                beta,
                jc as int,
                j_end,
                t,
                cur0,
                jc as int,
                j_end,
                t,
                |r: int, c: int| cur0(r, c) || (i0 <= r < i0 + mr && jc <= c < jc + 0 * nr),
            );
        }
    }
    let mut tile_idx: usize = 0;
    while tile_idx < tiles
        invariant
            tile_idx <= tiles,
            c_tile@.len() == mr * nr,
            block_only_changed(out, &before, m, n),
            exact_ops::<T>() ==> sweep_state(
                a,
                b,
                out,
                &before,
                shape,
                alpha,
                beta,
                jc as int,
                j_end,
                t,
                |r: int, c: int| cur0(r, c) || (i0 <= r < i0 + mr && jc <= c < jc + tile_idx * nr),
            ),
        decreases tiles - tile_idx,
    {
        proof {
            assert(tile_idx * nr + nr <= tiles * nr) by (nonlinear_arith)
                requires
                    tile_idx < tiles,
            ;
            assert(tile_idx * b_pack_stride + b_pack_stride <= tiles * b_pack_stride) by (nonlinear_arith)
                requires
                    tile_idx < tiles,
            ;
            assert(0 <= tile_idx * nr) by (nonlinear_arith);
            assert((tile_idx + 1) * nr == tile_idx * nr + nr) by (nonlinear_arith);
        }
        let j0 = jc + tile_idx * nr;
        let b_offset = tile_idx * b_pack_stride;
        proof {
            lemma_window_in_block(out, &before, m, n, i0 as int, j0 as int, mr as int, nr as int);
        }
        load_c_tile(&*out, i0, j0, mr, nr, c_tile.as_mut_slice());
        let ghost loaded = c_tile@;
        let tile = c_tile;
        c_tile = run_tile(k_panel, alpha, a_pack.as_slice(), b_packs.as_slice(), b_offset, beta_panel, tile);
        let ghost prev = *out;
        proof {
            lemma_window_in_block(out, &before, m, n, i0 as int, j0 as int, mr as int, nr as int);
        }
        store_c_tile(out, i0, j0, mr, nr, c_tile.as_slice());
        proof {
            let ridx = |r: int, c: int| before.index_of(i0 + r, j0 + c);
            assert((|r: int, c: int| prev.index_of(i0 + r, j0 + c)) =~= ridx) by {
                assert forall|r: int, c: int| #[trigger] prev.index_of(i0 + r, j0 + c) == ridx(r, c) by {
                    assert(prev.index_of(i0 + r, j0 + c) == before.index_of(i0 + r, j0 + c));
                }
            }
            assert forall|tt: int|
                0 <= tt < before.storage().len() && !touched(&before, m, n, tt) implies #[trigger] out.storage()[tt]
                == before.storage()[tt] by {
                assert forall|r: int, c: int| 0 <= r < mr && 0 <= c < nr implies 0 <= #[trigger] ridx(r, c)
                    < prev.storage().len() && ridx(r, c) != tt by {
                    assert(in_storage(&before, i0 + r, j0 + c));
                    if ridx(r, c) == tt {
                        assert(before.index_of(i0 + r, j0 + c) == tt);
                        assert(touched(&before, m, n, tt));
                    }
                }
                lemma_store_sweep_outside(prev.storage(), ridx, c_tile@, mr as int, nr as int, mr as int, 0, tt);
            }
            if exact_ops::<T>() {
                lemma_tile_step(
                    a,
                    b,
                    out,
                    &prev,
                    &before,
                    shape,
                    alpha,
                    beta,
                    beta_panel,
                    jc as int,
                    j_end,
                    t,
                    i0 as int,
                    tile_idx as int,
                    tiles as int,
                    a_pack@,
                    b_packs@,
                    loaded,
                    c_tile@,
                    |r: int, c: int| cur0(r, c) || (i0 <= r < i0 + mr && jc <= c < jc + tile_idx * nr),
                    |r: int, c: int| cur0(r, c) || (i0 <= r < i0 + mr && jc <= c < jc + (tile_idx + 1) * nr),
                );
            }
        }
        tile_idx = tile_idx + 1;
    }
    proof {
        if exact_ops::<T>() {
            lemma_sweep_state_same_done(
                a,
                b,
                out,
                &before,
                shape,
                alpha,
                beta,
                jc as int,
                j_end,
                t,
                |r: int, c: int| cur0(r, c) || (i0 <= r < i0 + mr && jc <= c < jc + tile_idx * nr),
                jc as int,
                j_end,
                t,
                |r: int, c: int| cur0(r, c) || (i0 <= r < i0 + mr && jc <= c < jc + tiles * nr),
            );
        }
    }
    c_tile
}

/// Sweeps panel `t` of the inner dimension, `pc .. pc + k_panel`, over the
/// column block `jc .. j_end`: row block by row block of `mc` rows, each
/// whole strip of `mr` rows tile by tile (`tile_row`) and then one by one
/// past the whole tiles (`edge_rect`), and the rows past a block's whole
/// strips one by one. Hands back the A panel buffer and the C tile buffer.
#[verifier::loop_isolation(false)]
fn sweep_panel<A, B, C, T, F>(
    a: &A,
    b: &B,
    out: &mut C,
    run_tile: &F,
    a_pack: Vec<T>,
    c_tile: Vec<T>,
    b_packs: &Vec<T>,
    jc: usize,
    j_end: usize,
    pc: usize,
    k_panel: usize,
    tiles: usize,
    mr: usize,
    nr: usize,
    mc: usize,
    alpha: T,
    beta: T,
    Ghost(before): Ghost<C>,
    Ghost(shape): Ghost<(int, int, int, int, int, int, int, int)>,
    Ghost(t): Ghost<int>,
) -> (buffers: (Vec<T>, Vec<T>)) where
    A: MatrixRead<T>,
    B: MatrixRead<T>,
    C: MatrixWrite<T>,
    T: Copy + core::ops::Add<Output = T> + core::ops::Sub<Output = T> + core::ops::Mul<Output = T> + PartialEq
        + From<i8>,
    F: Fn(usize, T, &[T], &[T], usize, T, Vec<T>) -> Vec<T>,

    requires
        packed_setup(a, b, &before, shape, alpha, beta),
        block_only_changed(old(out), &before, shape.0, shape.1),
        mr == shape.3,
        nr == shape.4,
        mc == shape.5,
        0 <= t,
        pc == t * shape.6,
        pc < shape.2,
        pc + k_panel == panel_end(t, shape.6, shape.2),
        jc < j_end <= shape.1,
        (jc as int) % shape.7 == 0,
        j_end == if jc + shape.7 <= shape.1 { jc + shape.7 } else { shape.1 },
        tiles == (j_end - jc) / (nr as int),
        mr * k_panel <= usize::MAX,
        nr * k_panel <= usize::MAX,
        tiles * (nr * k_panel) <= usize::MAX,
        c_tile@.len() == mr * nr,
        b_packs@.len() == tiles * (nr * k_panel),
        forall|q: int|
            0 <= q < tiles * (nr * k_panel) ==> #[trigger] b_packs@[q] == entry(
                b,
                b_pack_row(q, pc as int, nr as int, nr * k_panel),
                b_pack_col(q, jc as int, nr as int, nr * k_panel),
            ),
        forall|kp: usize, al: T, ap: &[T], bp: &[T], off: usize, be: T, ct: Vec<T>|
            tile_call_ok(mr as int, nr as int, kp as int, ap@, bp@, off as int, ct@)
                ==> #[trigger] run_tile.requires((kp, al, ap, bp, off, be, ct)),
        forall|args: (usize, T, &[T], &[T], usize, T, Vec<T>), ret: Vec<T>|
            #[trigger] run_tile.ensures(args, ret) ==> ret@.len() == args.6@.len(),
        exact_ops::<T>() ==> tile_kernel_exact(*run_tile, mr as int, nr as int),
        exact_ops::<T>() ==> sweep_state(
            a,
            b,
            old(out),
            &before,
            shape,
            alpha,
            beta,
            jc as int,
            j_end as int,
            t,
            |r: int, c: int| false,
        ),
    ensures
        block_only_changed(final(out), &before, shape.0, shape.1),
        buffers.1@.len() == mr * nr,
        exact_ops::<T>() ==> sweep_state(
            a,
            b,
            final(out),
            &before,
            shape,
            alpha,
            beta,
            jc as int,
            j_end as int,
            t,
            |r: int, c: int| r < shape.0,
        ),
{
    let ghost (sm, sn, k, smr, snr, smc, kc, nc) = shape;
    let m = a.rows();
    let zero = T::from(0i8);
    let one = T::from(1i8);
    let p_end = pc + k_panel;
    let beta_panel = if pc == 0 { beta } else { one };
    let mut a_pack = a_pack;
    let mut c_tile = c_tile;
    a_pack.resize(mr * k_panel, zero);
    proof {
        lemma_first_panel(t, kc);
        vstd::arithmetic::div_mod::lemma_fundamental_div_mod((j_end - jc) as int, nr as int);
        vstd::arithmetic::div_mod::lemma_mod_pos_bound((j_end - jc) as int, nr as int);
        vstd::arithmetic::mul::lemma_mul_is_commutative(nr as int, tiles as int);
        if exact_ops::<T>() {
            lemma_sweep_state_same_done(
                a,
                b,
                old(out),
                &before,
                shape,
                alpha,
                beta,
                jc as int,
                j_end as int,
                t,
                |r: int, c: int| false,
                jc as int,
                j_end as int,
                t,
                |r: int, c: int| r < 0,
            );
        }
    }
    let full_j_end = jc + tiles * nr;
    let mut ic: usize = 0;
    while ic < m
        invariant
            ic <= m,
            ic == m || (ic as int) % (mc as int) == 0,
            a_pack@.len() == mr * k_panel,
            c_tile@.len() == mr * nr,
            block_only_changed(out, &before, sm, sn),
            exact_ops::<T>() ==> sweep_state(
                a,
                b,
                out,
                &before,
                shape,
                alpha,
                beta,
                jc as int,
                j_end as int,
                t,
                |r: int, c: int| r < ic,
            ),
        decreases m - ic,
    {
        let i_end = if mc <= m - ic { ic + mc } else { m };
        let row_tiles = (i_end - ic) / mr;
        proof {
            vstd::arithmetic::div_mod::lemma_fundamental_div_mod((i_end - ic) as int, mr as int);
            vstd::arithmetic::div_mod::lemma_mod_pos_bound((i_end - ic) as int, mr as int);
            vstd::arithmetic::mul::lemma_mul_is_commutative(mr as int, row_tiles as int);
        }
        let i_full = ic + row_tiles * mr;
        let mut it: usize = 0;
        while it < row_tiles
            invariant
                ic < m,
                it <= row_tiles,
                i_full == ic + row_tiles * mr,
                i_full <= i_end <= m,
                a_pack@.len() == mr * k_panel,
                c_tile@.len() == mr * nr,
                block_only_changed(out, &before, sm, sn),
                exact_ops::<T>() ==> sweep_state(
                    a,
                    b,
                    out,
                    &before,
                    shape,
                    alpha,
                    beta,
                    jc as int,
                    j_end as int,
                    t,
                    |r: int, c: int| r < ic + it * mr,
                ),
            decreases row_tiles - it,
        {
            proof {
                assert(it * mr + mr <= row_tiles * mr) by (nonlinear_arith)
                    requires
                        it < row_tiles,
                ;
                assert((it + 1) * mr == it * mr + mr) by (nonlinear_arith);
            }
            let i0 = ic + it * mr;
            pack_a_panel(a, i0, pc, k_panel, mr, &mut a_pack);
            proof {
                assert forall|r: int, c: int| i0 <= r < i0 + mr && jc <= c < full_j_end implies #[trigger] whole_tile(
                    r,
                    c,
                    sm,
                    sn,
                    smc,
                    nc,
                    smr,
                    snr,
                ) && !(r < i0) by {
                    lemma_in_whole_tiles(r, sm, smc, smr, ic as int, i_end as int, i_full as int);
                    lemma_in_whole_tiles(c, sn, nc, snr, jc as int, j_end as int, full_j_end as int);
                }
            }
            c_tile = tile_row(
                a,
                b,
                out,
                run_tile,
                c_tile,
                &a_pack,
                b_packs,
                i0,
                jc,
                tiles,
                k_panel,
                mr,
                nr,
                alpha,
                beta_panel,
                Ghost(before),
                Ghost(shape),
                Ghost(beta),
                Ghost(j_end as int),
                Ghost(t),
                Ghost(|r: int, c: int| r < i0),
            );
            proof {
                assert forall|r: int, c: int| i0 <= r < i0 + mr && full_j_end <= c < j_end implies !#[trigger] whole_tile(
                    r,
                    c,
                    sm,
                    sn,
                    smc,
                    nc,
                    smr,
                    snr,
                ) && !(r < i0 || (i0 <= r < i0 + mr && jc <= c < full_j_end)) by {
                    lemma_in_whole_tiles(c, sn, nc, snr, jc as int, j_end as int, full_j_end as int);
                }
                if exact_ops::<T>() {
                    lemma_sweep_state_same_done(
                        a,
                        b,
                        out,
                        &before,
                        shape,
                        alpha,
                        beta,
                        jc as int,
                        j_end as int,
                        t,
                        |r: int, c: int| (|r: int, c: int| r < i0)(r, c) || (i0 <= r < i0 + mr && jc <= c < jc + tiles * nr),
                        jc as int,
                        j_end as int,
                        t,
                        |r: int, c: int| r < i0 || (i0 <= r < i0 + mr && jc <= c < full_j_end),
                    );
                }
            }
            edge_rect(
                a,
                b,
                out,
                i0,
                i0 + mr,
                full_j_end,
                j_end,
                pc,
                p_end,
                alpha,
                beta,
                Ghost(before),
                Ghost(shape),
                Ghost(jc as int),
                Ghost(j_end as int),
                Ghost(t),
                Ghost(|r: int, c: int| r < i0 || (i0 <= r < i0 + mr && jc <= c < full_j_end)),
            );
            proof {
                if exact_ops::<T>() {
                    lemma_sweep_state_same_done(
                        a,
                        b,
                        out,
                        &before,
                        shape,
                        alpha,
                        beta,
                        jc as int,
                        j_end as int,
                        t,
                        |r: int, c: int|
                            (|r: int, c: int| r < i0 || (i0 <= r < i0 + mr && jc <= c < full_j_end))(r, c) || (i0 <= r
                                < i0 + mr && full_j_end <= c < j_end),
                        jc as int,
                        j_end as int,
                        t,
                        |r: int, c: int| r < ic + (it + 1) * mr,
                    );
                }
            }
            it = it + 1;
        }
        proof {
            assert forall|r: int, c: int| i_full <= r < i_end && jc <= c < j_end implies !#[trigger] whole_tile(
                r,
                c,
                sm,
                sn,
                smc,
                nc,
                smr,
                snr,
            ) && !(r < i_full) by {
                lemma_in_whole_tiles(r, sm, smc, smr, ic as int, i_end as int, i_full as int);
            }
        }
        edge_rect(
            a,
            b,
            out,
            i_full,
            i_end,
            jc,
            j_end,
            pc,
            p_end,
            alpha,
            beta,
            Ghost(before),
            Ghost(shape),
            Ghost(jc as int),
            Ghost(j_end as int),
            Ghost(t),
            Ghost(|r: int, c: int| r < i_full),
        );
        proof {
            if i_end < m {
                vstd::arithmetic::div_mod::lemma_mod_add_multiples_vanish(ic as int, mc as int);
            }
            if exact_ops::<T>() {
                lemma_sweep_state_same_done(
                    a,
                    b,
                    out,
                    &before,
                    shape,
                    alpha,
                    beta,
                    jc as int,
                    j_end as int,
                    t,
                    |r: int, c: int| (|r: int, c: int| r < i_full)(r, c) || (i_full <= r < i_end && jc <= c < j_end),
                    jc as int,
                    j_end as int,
                    t,
                    |r: int, c: int| r < i_end,
                );
            }
        }
        ic = i_end;
    }
    (a_pack, c_tile)
}

/// The packed, tiled product `out = beta * out + alpha * a * b`. The output
/// is swept in blocks of `nc` columns; for each block, the inner dimension in
/// panels of `kc` (`beta` applies on the first panel only); for each panel,
/// the rows in blocks of `mc`. Whole `mr x nr` tiles go to `run_tile`, which
/// receives the panel depth, `alpha`, the packed A panel, the packed B panels
/// with the offset of the tile's panel, the panel's `beta` and the C tile,
/// and hands the updated C tile back; the elements outside whole tiles are
/// updated one by one. Every call of `run_tile` gets buffers that fit its
/// reads and writes (`tile_call_ok`). For element types with exact
/// operations, where the kernel computes the scalar tile update, each output
/// element ends as `packed_value` after all panels.
#[verifier::loop_isolation(false)]
pub fn matmul_packed<A, B, C, T, F>(
    a: &A,
    b: &B,
    out: &mut C,
    alpha: T,
    beta: T,
    blocking: GemmBlocking,
    kernel: GemmMicrokernel,
    run_tile: F,
) where
    A: MatrixRead<T>,
    B: MatrixRead<T>,
    C: MatrixWrite<T>,
    T: Copy + core::ops::Add<Output = T> + core::ops::Sub<Output = T> + core::ops::Mul<Output = T> + PartialEq
        + From<i8>,
    F: Fn(usize, T, &[T], &[T], usize, T, Vec<T>) -> Vec<T>,

    requires
        a.ncols() == b.nrows(),
        old(out).nrows() == a.nrows(),
        old(out).ncols() == b.ncols(),
        block_in_storage(a, a.nrows() as int, a.ncols() as int),
        block_in_storage(b, b.nrows() as int, b.ncols() as int),
        block_in_storage(old(out), a.nrows() as int, b.ncols() as int),
        0 < kernel.mr,
        0 < kernel.nr,
        kernel.mr * kernel.nr <= usize::MAX,
        kernel.mr * a.ncols() <= usize::MAX,
        kernel.nr * a.ncols() <= usize::MAX,
        b.ncols() * a.ncols() <= usize::MAX,
        forall|k_panel: usize, al: T, ap: &[T], bp: &[T], off: usize, be: T, ct: Vec<T>|
            tile_call_ok(kernel.mr as int, kernel.nr as int, k_panel as int, ap@, bp@, off as int, ct@)
                ==> #[trigger] run_tile.requires((k_panel, al, ap, bp, off, be, ct)),
        forall|args: (usize, T, &[T], &[T], usize, T, Vec<T>), ret: Vec<T>|
            #[trigger] run_tile.ensures(args, ret) ==> ret@.len() == args.6@.len(),
        !exact_ops::<T>() ==> add_total::<T>() && mul_total::<T>(),
        exact_ops::<T>() ==> tile_kernel_exact(run_tile, kernel.mr as int, kernel.nr as int),
        exact_ops::<T>() ==> injective_on(|r: int, c: int| old(out).index_of(r, c), a.nrows() as int, b.ncols() as int),
        exact_ops::<T>() ==> forall|i: int, j: int|
            0 <= i < a.nrows() && 0 <= j < b.ncols() ==> #[trigger] packed_steps_ok(
                a,
                b,
                entry(old(out), i, j),
                i,
                j,
                kc_of(blocking, kernel),
                a.ncols() as int,
                alpha,
                beta,
                whole_tile(
                    i,
                    j,
                    a.nrows() as int,
                    b.ncols() as int,
                    mc_of(blocking, kernel),
                    nc_of(blocking, kernel),
                    kernel.mr as int,
                    kernel.nr as int,
                ),
            ),
    ensures
        block_only_changed(final(out), old(out), a.nrows() as int, b.ncols() as int),
        exact_ops::<T>() ==> forall|i: int, j: int|
            0 <= i < a.nrows() && 0 <= j < b.ncols() ==> #[trigger] entry(final(out), i, j) == packed_value(
                a,
                b,
                entry(old(out), i, j),
                i,
                j,
                panel_count(a.ncols() as int, kc_of(blocking, kernel)) as nat,
                kc_of(blocking, kernel),
                a.ncols() as int,
                alpha,
                beta,
                whole_tile(
                    i,
                    j,
                    a.nrows() as int,
                    b.ncols() as int,
                    mc_of(blocking, kernel),
                    nc_of(blocking, kernel),
                    kernel.mr as int,
                    kernel.nr as int,
                ),
            ),
{
    let m = a.rows();
    let k = a.cols();
    let n = b.cols();
    let zero = T::from(0i8);
    let mr = kernel.mr;
    let nr = kernel.nr;
    let (mc, kc, nc) = blocked_tile_sizes(blocking, kernel);
    let ghost shape = (m as int, n as int, k as int, mr as int, nr as int, mc as int, kc as int, nc as int);
    let ghost np = panel_count(k as int, kc as int);
    let ghost before = *out;
    let mut a_pack: Vec<T> = Vec::new();
    let mut b_packs: Vec<T> = Vec::new();
    let mut c_tile: Vec<T> = Vec::new();
    c_tile.resize(mr * nr, zero);
    proof {
        assert(packed_setup(a, b, &before, shape, alpha, beta));
        vstd::arithmetic::div_mod::lemma_small_mod(0, nc as nat);
        vstd::arithmetic::div_mod::lemma_fundamental_div_mod_converse(kc as int - 1, kc as int, 0, kc as int - 1);
        if exact_ops::<T>() {
            assert forall|i: int, j: int| 0 <= i < m && 0 <= j < n implies #[trigger] entry(out, i, j) == packed_value(
                a,
                b,
                entry(&before, i, j),
                i,
                j,
                panels_done(i, j, 0, 0, 0, np, |r: int, c: int| false) as nat,
                kc as int,
                k as int,
                alpha,
                beta,
                whole_tile(i, j, m as int, n as int, mc as int, nc as int, mr as int, nr as int),
            ) by {}
        }
    }
    let mut jc: usize = 0;
    while jc < n
        invariant
            jc <= n,
            jc == n || (jc as int) % (nc as int) == 0,
            c_tile@.len() == mr * nr,
            packed_setup(a, b, &before, shape, alpha, beta),
            block_only_changed(out, &before, m as int, n as int),
            exact_ops::<T>() ==> sweep_state(
                a,
                b,
                out,
                &before,
                shape,
                alpha,
                beta,
                jc as int,
                jc as int,
                0,
                |r: int, c: int| false,
            ),
        decreases n - jc,
    {
        let j_end = if nc <= n - jc { jc + nc } else { n };
        let tiles = (j_end - jc) / nr;
        proof {
            vstd::arithmetic::div_mod::lemma_fundamental_div_mod((j_end - jc) as int, nr as int);
            vstd::arithmetic::div_mod::lemma_mod_pos_bound((j_end - jc) as int, nr as int);
            vstd::arithmetic::mul::lemma_mul_is_commutative(nr as int, tiles as int);
            if exact_ops::<T>() {
                lemma_sweep_state_same_done(
                    a,
                    b,
                    out,
                    &before,
                    shape,
                    alpha,
                    beta,
                    jc as int,
                    jc as int,
                    0,
                    |r: int, c: int| false,
                    jc as int,
                    j_end as int,
                    0,
                    |r: int, c: int| false,
                );
            }
        }
        let mut pc: usize = 0;
        let ghost mut t: int = 0;
        while pc < k
            invariant
                jc < j_end <= n,
                jc == n || (jc as int) % (nc as int) == 0,
                j_end == if jc + nc <= n { jc + nc } else { n as int },
                tiles == (j_end - jc) / (nr as int),
                tiles * nr <= j_end - jc,
                pc <= k,
                0 <= t,
                pc < k ==> pc == t * kc,
                pc == k ==> t == np,
                c_tile@.len() == mr * nr,
                packed_setup(a, b, &before, shape, alpha, beta),
                block_only_changed(out, &before, m as int, n as int),
                exact_ops::<T>() ==> sweep_state(
                    a,
                    b,
                    out,
                    &before,
                    shape,
                    alpha,
                    beta,
                    jc as int,
                    j_end as int,
                    t,
                    |r: int, c: int| false,
                ),
            decreases k - pc,
        {
            let p_end = if kc <= k - pc { pc + kc } else { k };
            let k_panel = p_end - pc;
            proof {
                lemma_panel_index(t, kc as int, k as int);
                assert(mr * k_panel <= mr * k) by (nonlinear_arith)
                    requires
                        k_panel <= k,
                ;
                assert(nr * k_panel <= nr * k) by (nonlinear_arith)
                    requires
                        k_panel <= k,
                ;
                assert(tiles * (nr * k_panel) <= n * k) by (nonlinear_arith)
                    requires
                        tiles * nr <= n,
                        k_panel <= k,
                ;
                vstd::arithmetic::mul::lemma_mul_is_commutative(n as int, k as int);
                vstd::arithmetic::mul::lemma_mul_is_commutative(mr as int, k as int);
                vstd::arithmetic::mul::lemma_mul_is_commutative(nr as int, k as int);
            }
            b_packs.resize(tiles * (nr * k_panel), zero);
            proof {
                assert(tiles * nr <= n);
            }
            pack_b_panels(b, pc, k_panel, jc, tiles, nr, &mut b_packs);
            let (ap, ct) = sweep_panel(
                a,
                b,
                out,
                &run_tile,
                a_pack,
                c_tile,
                &b_packs,
                jc,
                j_end,
                pc,
                k_panel,
                tiles,
                mr,
                nr,
                mc,
                alpha,
                beta,
                Ghost(before),
                Ghost(shape),
                Ghost(t),
            );
            a_pack = ap;
            c_tile = ct;
            proof {
                if exact_ops::<T>() {
                    lemma_sweep_state_same_done(
                        a,
                        b,
                        out,
                        &before,
                        shape,
                        alpha,
                        beta,
                        jc as int,
                        j_end as int,
                        t,
                        |r: int, c: int| r < m,
                        jc as int,
                        j_end as int,
                        t + 1,
                        |r: int, c: int| false,
                    );
                }
                t = t + 1;
            }
            pc = p_end;
        }
        proof {
            if j_end < n {
                vstd::arithmetic::div_mod::lemma_mod_add_multiples_vanish(jc as int, nc as int);
            }
            if exact_ops::<T>() {
                lemma_sweep_state_same_done(
                    a,
                    b,
                    out,
                    &before,
                    shape,
                    alpha,
                    beta,
                    jc as int,
                    j_end as int,
                    t,
                    |r: int, c: int| false,
                    j_end as int,
                    j_end as int,
                    0,
                    |r: int, c: int| false,
                );
            }
        }
        jc = j_end;
    }
}

/// The sum of a panel from zero is the integer product sum of the plain
/// product.
proof fn lemma_range_sum_is_dot<A: MatrixRead<i64>, B: MatrixRead<i64>>(a: &A, b: &B, i: int, j: int, k: int)
    requires
        0 <= k,
    ensures
        range_sum_int(a, b, i, j, 0, k) == dot_int(
            |r: int, q: int| entry(a, r, q) as int,
            |r: int, q: int| entry(b, r, q) as int,
            i,
            j,
            k,
        ),
    decreases k,
{
    if k > 0 {
        lemma_range_sum_is_dot(a, b, i, j, k - 1);
    }
}

/// With `i64` elements, and where no update overflows, the packed product
/// leaves element (i, j) of a nonempty inner dimension `0 .. k` at
/// `beta * c + alpha * sum_p a(i, p) * b(p, j)`, whether the element lies in
/// a whole tile or not: the value the plain product gives it.
pub proof fn lemma_packed_product_i64<A: MatrixRead<i64>, B: MatrixRead<i64>>(
    a: &A,
    b: &B,
    c: i64,
    i: int,
    j: int,
    kc: int,
    k: int,
    alpha: i64,
    beta: i64,
    whole: bool,
)
    requires
        1 <= kc,
        0 < k,
        packed_steps_ok(a, b, c, i, j, kc, k, alpha, beta, whole),
    ensures
        packed_value(a, b, c, i, j, panel_count(k, kc) as nat, kc, k, alpha, beta, whole) as int == beta * c + alpha
            * dot_int(|r: int, q: int| entry(a, r, q) as int, |r: int, q: int| entry(b, r, q) as int, i, j, k),
{
    let np = panel_count(k, kc);
    vstd::arithmetic::div_mod::lemma_fundamental_div_mod(k + kc - 1, kc);
    vstd::arithmetic::div_mod::lemma_mod_pos_bound(k + kc - 1, kc);
    let r = (k + kc - 1) % kc;
    assert(1 <= np && np * kc >= k) by (nonlinear_arith)
        requires
            k + kc - 1 == kc * np + r,
            0 <= r < kc,
            1 <= kc,
            0 < k,
    ;
    assert((np - 1 + 1) * kc == np * kc);
    lemma_packed_value_i64(a, b, c, i, j, np as nat, kc, k, alpha, beta, whole);
    lemma_range_sum_is_dot(a, b, i, j, k);
}

} // verus!
