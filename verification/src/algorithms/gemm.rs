//! Matrix-matrix product: blocking parameters, the generic kernel and the
//! choice of the packed micro-kernel.

use vstd::prelude::*;
use vstd::std_specs::cmp::PartialEqSpec;
use vstd::std_specs::convert::FromSpec;
use vstd::std_specs::ops::{AddSpec, MulSpec};

use crate::arith::{add_total, mul_total};
use crate::dense::matrix::{
    entry, gemm_kernel, in_storage, lemma_column_major_split, same_layout, MatrixRead, MatrixWrite,
};
use crate::dense::product::{
    alpha_value, beta_value, block_in_storage, exact_ops, gemm_allowed, gemm_result, injective_on, touched,
};
use crate::algorithms::packed::{
    block_only_changed, matmul_packed, packed_steps_ok, packed_value, panel_count, tile_call_ok, tile_kernel_exact,
    whole_tile,
};
use crate::text::{ascii_lower, str_eq, to_ascii_lowercase, trim, trimmed};

verus! {

/// Cache-blocking sizes of the tiled product: `mc` rows of A, `kc` inner
/// indices and `nc` columns of B per block.
#[derive(Debug, Clone, Copy)]
pub struct GemmBlocking {
    pub mc: usize,
    pub kc: usize,
    pub nc: usize,
}

impl Default for GemmBlocking {
    fn default() -> (b: Self)
        ensures
            b.mc == 128,
            b.kc == 256,
            b.nc == 128,
    {
        GemmBlocking { mc: 128, kc: 256, nc: 128 }
    }
}

/// `out = beta * out + alpha * a * b` over the `a.rows() x b.cols()` block of
/// `out`; `alpha` defaults to one and `beta` to zero. The scaling sweep is
/// skipped when `beta` is one, the product sweep when `alpha` is zero.
pub fn basic_gemm_kernel<A, B, C, T>(a: &A, b: &B, out: &mut C, alpha: Option<T>, beta: Option<T>) where
    A: MatrixRead<T>,
    B: MatrixRead<T>,
    C: MatrixWrite<T>,
    T: Copy + core::ops::Add<Output = T> + core::ops::Mul<Output = T> + Default + PartialEq + From<i8>
        + core::ops::Sub<Output = T>,

    requires
        a.ncols() == b.nrows(),
        gemm_allowed(a, b, old(out), alpha, beta),
    ensures
        same_layout(final(out), old(out)),
        final(out).storage().len() == old(out).storage().len(),
        forall|t: int|
            0 <= t < old(out).storage().len() && !touched(old(out), a.nrows() as int, b.ncols() as int, t)
                ==> #[trigger] final(out).storage()[t] == old(out).storage()[t],
        exact_ops::<T>() ==> final(out).storage() == gemm_result(a, b, old(out), alpha, beta),
{
    gemm_kernel(a, b, out, alpha, beta);
}


/// The packed micro-kernels: the portable scalar one and the SIMD ones of
/// each target.
#[derive(Debug, Clone, Copy, PartialEq, Eq, Structural)]
pub enum MicrokernelKind {
    Scalar4x4,
    Avx2Fma4x4,
    Avx2Fma8x4,
    Avx512Fma8x8,
    Neon4x4,
    Neon6x8,
}

/// The instruction-set family the library was built for.
#[allow(non_camel_case_types)]
#[derive(Debug, Clone, Copy, PartialEq, Eq, Structural)]
pub enum TargetArch {
    X86_64,
    Aarch64,
    Other,
}

/// The CPU features detected at run time that the kernels can use.
#[derive(Debug, Clone, Copy, PartialEq, Eq, Structural)]
pub struct CpuFeatures {
    pub avx2: bool,
    pub fma: bool,
    pub avx512f: bool,
}

/// A micro-kernel with its register tile (`mr x nr`) and its preferred depth
/// `kc` of a packed panel.
#[derive(Debug, Clone, Copy, PartialEq, Eq, Structural)]
pub struct GemmMicrokernel {
    pub mr: usize,
    pub nr: usize,
    pub kc: usize,
    pub kind: MicrokernelKind,
}

/// The tile and depth each micro-kernel works with.
pub open spec fn kernel_spec(kind: MicrokernelKind) -> GemmMicrokernel {
    match kind {
        MicrokernelKind::Scalar4x4 => GemmMicrokernel { mr: 4, nr: 4, kc: 256, kind },
        MicrokernelKind::Avx2Fma4x4 => GemmMicrokernel { mr: 4, nr: 4, kc: 256, kind },
        MicrokernelKind::Avx2Fma8x4 => GemmMicrokernel { mr: 8, nr: 4, kc: 192, kind },
        MicrokernelKind::Avx512Fma8x8 => GemmMicrokernel { mr: 8, nr: 8, kc: 128, kind },
        MicrokernelKind::Neon4x4 => GemmMicrokernel { mr: 4, nr: 4, kc: 256, kind },
        MicrokernelKind::Neon6x8 => GemmMicrokernel { mr: 6, nr: 8, kc: 192, kind },
    }
}

/// The micro-kernel chosen when no override applies: on x86-64 the AVX-512
/// kernel where AVX-512F and FMA are present, else the AVX2 8x4 kernel where
/// AVX2 and FMA are, else the scalar one; on AArch64 the NEON 6x8 kernel;
/// elsewhere the scalar one.
pub open spec fn default_choice(arch: TargetArch, f: CpuFeatures) -> MicrokernelKind {
    match arch {
        TargetArch::X86_64 => if f.avx512f && f.fma {
            MicrokernelKind::Avx512Fma8x8
        } else if f.avx2 && f.fma {
            MicrokernelKind::Avx2Fma8x4
        } else {
            MicrokernelKind::Scalar4x4
        },
        TargetArch::Aarch64 => MicrokernelKind::Neon6x8,
        TargetArch::Other => MicrokernelKind::Scalar4x4,
    }
}

/// The micro-kernel an override name selects, if the name is known on the
/// target and the CPU has what the kernel needs. On x86-64 `avx512-16x14`
/// selects the AVX-512 8x8 kernel, as `avx512-8x8` does.
pub open spec fn override_choice(name: Seq<char>, arch: TargetArch, f: CpuFeatures) -> Option<
    MicrokernelKind,
> {
    match arch {
        TargetArch::X86_64 => if name == "scalar-4x4"@ {
            Some(MicrokernelKind::Scalar4x4)
        } else if f.avx2 && f.fma && name == "avx2-4x4"@ {
            Some(MicrokernelKind::Avx2Fma4x4)
        } else if f.avx2 && f.fma && name == "avx2-8x4"@ {
            Some(MicrokernelKind::Avx2Fma8x4)
        } else if f.avx512f && f.fma && (name == "avx512-8x8"@ || name == "avx512-16x14"@) {
            Some(MicrokernelKind::Avx512Fma8x8)
        } else {
            None
        },
        TargetArch::Aarch64 => if name == "scalar-4x4"@ {
            Some(MicrokernelKind::Scalar4x4)
        } else if name == "neon-4x4"@ {
            Some(MicrokernelKind::Neon4x4)
        } else if name == "neon-6x8"@ {
            Some(MicrokernelKind::Neon6x8)
        } else {
            None
        },
        TargetArch::Other => None,
    }
}

impl GemmMicrokernel {
    /// The micro-kernel `kind` with its tile and depth.
    pub fn of(kind: MicrokernelKind) -> (k: GemmMicrokernel)
        ensures
            k == kernel_spec(kind),
    {
        match kind {
            MicrokernelKind::Scalar4x4 => GemmMicrokernel { mr: 4, nr: 4, kc: 256, kind },
            MicrokernelKind::Avx2Fma4x4 => GemmMicrokernel { mr: 4, nr: 4, kc: 256, kind },
            MicrokernelKind::Avx2Fma8x4 => GemmMicrokernel { mr: 8, nr: 4, kc: 192, kind },
            MicrokernelKind::Avx512Fma8x8 => GemmMicrokernel { mr: 8, nr: 8, kc: 128, kind },
            MicrokernelKind::Neon4x4 => GemmMicrokernel { mr: 4, nr: 4, kc: 256, kind },
            MicrokernelKind::Neon6x8 => GemmMicrokernel { mr: 6, nr: 8, kc: 192, kind },
        }
    }
}

/// The portable 4x4 scalar micro-kernel.
pub fn scalar_4x4_kernel() -> (k: GemmMicrokernel)
    ensures
        k == kernel_spec(MicrokernelKind::Scalar4x4),
{
    GemmMicrokernel::of(MicrokernelKind::Scalar4x4)
}

/// The micro-kernel chosen for the target and the detected CPU features when
/// no override applies.
pub fn gemm_microkernel_default(arch: TargetArch, features: CpuFeatures) -> (k: GemmMicrokernel)
    ensures
        k == kernel_spec(default_choice(arch, features)),
{
    match arch {
        TargetArch::X86_64 => {
            if features.avx512f && features.fma {
                return GemmMicrokernel::of(MicrokernelKind::Avx512Fma8x8);
            }
            if features.avx2 && features.fma {
                return GemmMicrokernel::of(MicrokernelKind::Avx2Fma8x4);
            }
            scalar_4x4_kernel()
        },
        TargetArch::Aarch64 => GemmMicrokernel::of(MicrokernelKind::Neon6x8),
        TargetArch::Other => scalar_4x4_kernel(),
    }
}

/// The micro-kernel an override name selects, or `None` where the name is
/// unknown on the target or the CPU lacks what the kernel needs.
pub fn gemm_microkernel_from_override(override_name: &str, arch: TargetArch, features: CpuFeatures) -> (k:
    Option<GemmMicrokernel>)
    ensures
        k == (match override_choice(override_name@, arch, features) {
            Some(kind) => Some(kernel_spec(kind)),
            None => None,
        }),
{
    match arch {
        TargetArch::X86_64 => {
            if str_eq(override_name, "scalar-4x4") {
                return Some(scalar_4x4_kernel());
            }
            if features.avx2 && features.fma {
                if str_eq(override_name, "avx2-4x4") {
                    return Some(GemmMicrokernel::of(MicrokernelKind::Avx2Fma4x4));
                }
                if str_eq(override_name, "avx2-8x4") {
                    return Some(GemmMicrokernel::of(MicrokernelKind::Avx2Fma8x4));
                }
            }
            if features.avx512f && features.fma && str_eq(override_name, "avx512-8x8") {
                return Some(GemmMicrokernel::of(MicrokernelKind::Avx512Fma8x8));
            }
            if features.avx512f && features.fma && str_eq(override_name, "avx512-16x14") {
                return Some(GemmMicrokernel::of(MicrokernelKind::Avx512Fma8x8));
            }
            None
        },
        TargetArch::Aarch64 => {
            if str_eq(override_name, "scalar-4x4") {
                return Some(scalar_4x4_kernel());
            }
            if str_eq(override_name, "neon-4x4") {
                return Some(GemmMicrokernel::of(MicrokernelKind::Neon4x4));
            }
            if str_eq(override_name, "neon-6x8") {
                return Some(GemmMicrokernel::of(MicrokernelKind::Neon6x8));
            }
            None
        },
        TargetArch::Other => None,
    }
}


/// An override setting after normalisation: trimmed, then lower-cased.
pub open spec fn normalized_override(raw: Seq<char>) -> Seq<char> {
    trimmed(raw).map_values(|c: char| ascii_lower(c))
}

/// A normalised override setting names a kernel: it is neither empty nor
/// `auto`.
pub open spec fn override_requested(name: Seq<char>) -> bool {
    name.len() > 0 && name != "auto"@
}

/// The kernel name requested by the raw override setting `raw` (the value of
/// the environment variable, if set): the setting trimmed and lower-cased,
/// unless that leaves it empty or `auto`.
pub fn gemm_microkernel_override(raw: Option<&str>) -> (r: Option<String>)
    ensures
        raw is None ==> r is None,
        raw matches Some(s) ==> (r is Some <==> override_requested(normalized_override(s@))),
        raw matches Some(s) ==> (r matches Some(v) ==> v@ == normalized_override(s@)),
{
    match raw {
        None => None,
        Some(s) => {
            let value = to_ascii_lowercase(trim(s));
            if value.as_str().is_empty() || str_eq(value.as_str(), "auto") {
                None
            } else {
                Some(value)
            }
        },
    }
}

/// The kernel the raw override setting `raw` requests and the target
/// supports, else the default kernel for the target and CPU.
pub open spec fn dispatch_choice(raw: Option<Seq<char>>, arch: TargetArch, f: CpuFeatures) -> MicrokernelKind {
    match raw {
        Some(s) => {
            let name = normalized_override(s);
            if override_requested(name) && override_choice(name, arch, f) is Some {
                override_choice(name, arch, f)->0
            } else {
                default_choice(arch, f)
            }
        },
        None => default_choice(arch, f),
    }
}

/// The micro-kernel the product uses: the one the override setting `raw`
/// names, where the target and CPU support it, else the default one.
pub fn gemm_microkernel_dispatcher(raw: Option<&str>, arch: TargetArch, features: CpuFeatures) -> (k:
    GemmMicrokernel)
    ensures
        k == kernel_spec(
            dispatch_choice(
                match raw {
                    Some(s) => Some(s@),
                    None => None,
                },
                arch,
                features,
            ),
        ),
{
    if let Some(override_name) = gemm_microkernel_override(raw) {
        if let Some(kernel) = gemm_microkernel_from_override(override_name.as_str(), arch, features) {
            return kernel;
        }
    }
    gemm_microkernel_default(arch, features)
}


/// Below this many multiply-adds (`m * n * k`) the packing overhead of the
/// blocked product outweighs its gain.
pub const BLOCKED_F64_VOLUME_THRESHOLD: usize = 96 * 96 * 96;

/// `x * y`, or `usize::MAX` where the product does not fit.
fn saturating_mul(x: usize, y: usize) -> (r: usize)
    ensures
        r == if x * y <= usize::MAX {
            x * y
        } else {
            usize::MAX as int
        },
{
    match x.checked_mul(y) {
        Some(p) => p,
        None => usize::MAX,
    }
}

/// Whether an `m x k` by `k x n` product is large enough for the blocked,
/// packed path: `m * n * k` reaches the volume threshold.
pub fn uses_blocked_path(m: usize, n: usize, k: usize) -> (r: bool)
    ensures
        r == (m * n * k >= BLOCKED_F64_VOLUME_THRESHOLD),
{
    let mn = saturating_mul(m, n);
    let mnk = saturating_mul(mn, k);
    proof {
        if m * n > usize::MAX {
            vstd::arithmetic::mul::lemma_mul_inequality(usize::MAX as int, m * n, k as int);
            if k > 0 {
                vstd::arithmetic::mul::lemma_mul_increases(k as int, usize::MAX as int);
                vstd::arithmetic::mul::lemma_mul_is_commutative(k as int, usize::MAX as int);
            } else {
                vstd::arithmetic::mul::lemma_mul_basics(m * n);
            }
        }
    }
    mnk >= BLOCKED_F64_VOLUME_THRESHOLD
}


/// The row block size of the packed product: `mc` rounded down to whole
/// register tiles of `mr` rows, at least one tile.
pub open spec fn mc_of(blocking: GemmBlocking, kernel: GemmMicrokernel) -> int {
    (if blocking.mc / kernel.mr >= 1 {
        blocking.mc / kernel.mr
    } else {
        1
    }) * kernel.mr
}

/// The panel depth of the packed product: `kc` capped by the kernel's
/// preferred depth, at least one.
pub open spec fn kc_of(blocking: GemmBlocking, kernel: GemmMicrokernel) -> int {
    let kc = if blocking.kc <= kernel.kc {
        blocking.kc
    } else {
        kernel.kc
    };
    if kc >= 1 {
        kc as int
    } else {
        1
    }
}

/// The column block size of the packed product: `nc` rounded down to whole
/// register tiles of `nr` columns, at least one tile.
pub open spec fn nc_of(blocking: GemmBlocking, kernel: GemmMicrokernel) -> int {
    (if blocking.nc / kernel.nr >= 1 {
        blocking.nc / kernel.nr
    } else {
        1
    }) * kernel.nr
}

/// The block sizes the packed product uses with `kernel`: `mc` and `nc`
/// rounded down to whole register tiles (at least one tile), `kc` capped by
/// the kernel's preferred depth (at least one).
pub fn blocked_tile_sizes(blocking: GemmBlocking, kernel: GemmMicrokernel) -> (r: (usize, usize, usize))
    requires
        kernel.mr > 0,
        kernel.nr > 0,
    ensures
        r.0 == mc_of(blocking, kernel),
        r.1 == kc_of(blocking, kernel),
        r.2 == nc_of(blocking, kernel),
        r.0 >= kernel.mr,
        (r.0 as int) % (kernel.mr as int) == 0,
        r.1 >= 1,
        r.2 >= kernel.nr,
        (r.2 as int) % (kernel.nr as int) == 0,
{
    let mc_tiles = blocking.mc / kernel.mr;
    let mc_tiles = if mc_tiles >= 1 { mc_tiles } else { 1 };
    proof {
        vstd::arithmetic::div_mod::lemma_fundamental_div_mod(blocking.mc as int, kernel.mr as int);
        vstd::arithmetic::mul::lemma_mul_is_commutative(mc_tiles as int, kernel.mr as int);
        vstd::arithmetic::mul::lemma_mul_increases(mc_tiles as int, kernel.mr as int);
        vstd::arithmetic::div_mod::lemma_mod_pos_bound(blocking.mc as int, kernel.mr as int);
    }
    let mc = mc_tiles * kernel.mr;
    let kc = if blocking.kc <= kernel.kc { blocking.kc } else { kernel.kc };
    let kc = if kc >= 1 { kc } else { 1 };
    let nc_tiles = blocking.nc / kernel.nr;
    let nc_tiles = if nc_tiles >= 1 { nc_tiles } else { 1 };
    proof {
        vstd::arithmetic::div_mod::lemma_fundamental_div_mod(blocking.nc as int, kernel.nr as int);
        vstd::arithmetic::mul::lemma_mul_is_commutative(nc_tiles as int, kernel.nr as int);
        vstd::arithmetic::mul::lemma_mul_increases(nc_tiles as int, kernel.nr as int);
        vstd::arithmetic::div_mod::lemma_mod_pos_bound(blocking.nc as int, kernel.nr as int);
    }
    let nc = nc_tiles * kernel.nr;
    proof {
        vstd::arithmetic::div_mod::lemma_mod_multiples_basic(mc_tiles as int, kernel.mr as int);
        vstd::arithmetic::div_mod::lemma_mod_multiples_basic(nc_tiles as int, kernel.nr as int);
    }
    (mc, kc, nc)
}


/// The product takes the packed, tiled path: the elements are `f64` and the
/// product has at least `BLOCKED_F64_VOLUME_THRESHOLD` multiply-adds.
pub open spec fn packed_path(element_is_f64: bool, m: int, n: int, k: int) -> bool {
    element_is_f64 && m * n * k >= BLOCKED_F64_VOLUME_THRESHOLD
}

/// `out = beta * out + alpha * a * b`, with `alpha` one and `beta` zero when
/// not given, for the output block of `out`, which must have the shape of the
/// product. `element_is_f64` says whether the element type is `f64`, which
/// the caller tests. An `f64` product of at least
/// `BLOCKED_F64_VOLUME_THRESHOLD` multiply-adds (`packed_path`) goes through
/// the packed, tiled sweep with `blocking` and the tile sizes of `kernel`,
/// which hands whole tiles to `run_tile`; every other product takes the basic
/// kernel.
pub fn matmul_blocked<A, B, C, T, F>(
    a: &A,
    b: &B,
    out: &mut C,
    alpha: Option<T>,
    beta: Option<T>,
    blocking: GemmBlocking,
    element_is_f64: bool,
    kernel: GemmMicrokernel,
    run_tile: F,
) where
    A: MatrixRead<T>,
    B: MatrixRead<T>,
    C: MatrixWrite<T>,
    T: Copy + core::ops::Add<Output = T> + core::ops::Mul<Output = T> + Default + PartialEq + From<i8>
        + core::ops::Sub<Output = T>,
    F: Fn(usize, T, &[T], &[T], usize, T, Vec<T>) -> Vec<T>,

    requires
        a.ncols() == b.nrows(),
        old(out).nrows() == a.nrows(),
        old(out).ncols() == b.ncols(),
        !packed_path(element_is_f64, a.nrows() as int, b.ncols() as int, a.ncols() as int) ==> gemm_allowed(
            a,
            b,
            old(out),
            alpha,
            beta,
        ),
        packed_path(element_is_f64, a.nrows() as int, b.ncols() as int, a.ncols() as int) ==> {
            &&& block_in_storage(a, a.nrows() as int, a.ncols() as int)
            &&& block_in_storage(b, b.nrows() as int, b.ncols() as int)
            &&& block_in_storage(old(out), a.nrows() as int, b.ncols() as int)
            &&& 0 < kernel.mr
            &&& 0 < kernel.nr
            &&& kernel.mr * kernel.nr <= usize::MAX
            &&& kernel.mr * a.ncols() <= usize::MAX
            &&& kernel.nr * a.ncols() <= usize::MAX
            &&& b.ncols() * a.ncols() <= usize::MAX
            &&& forall|k_panel: usize, al: T, ap: &[T], bp: &[T], off: usize, be: T, ct: Vec<T>|
                tile_call_ok(kernel.mr as int, kernel.nr as int, k_panel as int, ap@, bp@, off as int, ct@)
                    ==> #[trigger] run_tile.requires((k_panel, al, ap, bp, off, be, ct))
            &&& forall|args: (usize, T, &[T], &[T], usize, T, Vec<T>), ret: Vec<T>|
                #[trigger] run_tile.ensures(args, ret) ==> ret@.len() == args.6@.len()
            &&& !exact_ops::<T>() ==> add_total::<T>() && mul_total::<T>()
            &&& exact_ops::<T>() ==> tile_kernel_exact(run_tile, kernel.mr as int, kernel.nr as int)
            &&& exact_ops::<T>() ==> injective_on(
                |r: int, c: int| old(out).index_of(r, c),
                a.nrows() as int,
                b.ncols() as int,
            )
            &&& exact_ops::<T>() ==> forall|i: int, j: int|
                0 <= i < a.nrows() && 0 <= j < b.ncols() ==> #[trigger] packed_steps_ok(
                    a,
                    b,
                    entry(old(out), i, j),
                    i,
                    j,
                    kc_of(blocking, kernel),
                    a.ncols() as int,
                    alpha_value(alpha),
                    beta_value(beta),
                    whole_tile(
                        i,
                        j,
                        a.nrows() as int,
                        b.ncols() as int,
                        mc_of(blocking, kernel),
                        nc_of(blocking, kernel),
                        kernel.mr as int,
                        kernel.nr as int,
                    ),
                )
        },
    ensures
        block_only_changed(final(out), old(out), a.nrows() as int, b.ncols() as int),
        exact_ops::<T>() && !packed_path(element_is_f64, a.nrows() as int, b.ncols() as int, a.ncols() as int)
            ==> final(out).storage() == gemm_result(a, b, old(out), alpha, beta),
        exact_ops::<T>() && packed_path(element_is_f64, a.nrows() as int, b.ncols() as int, a.ncols() as int)
            ==> forall|i: int, j: int|
            0 <= i < a.nrows() && 0 <= j < b.ncols() ==> #[trigger] entry(final(out), i, j) == packed_value(
                a,
                b,
                entry(old(out), i, j),
                i,
                j,
                panel_count(a.ncols() as int, kc_of(blocking, kernel)) as nat,
                kc_of(blocking, kernel),
                a.ncols() as int,
                alpha_value(alpha),
                beta_value(beta),
                whole_tile(
                    i,
                    j,
                    a.nrows() as int,
                    b.ncols() as int,
                    mc_of(blocking, kernel),
                    nc_of(blocking, kernel),
                    kernel.mr as int,
                    kernel.nr as int,
                ),
            ),
{
    let m = a.rows();
    let k = a.cols();
    let n = b.cols();
    let alpha_v = match alpha {
        Some(x) => x,
        None => T::from(1i8),
    };
    let beta_v = match beta {
        Some(x) => x,
        None => T::from(0i8),
    };
    if !element_is_f64 || !uses_blocked_path(m, n, k) {
        basic_gemm_kernel(a, b, out, Some(alpha_v), Some(beta_v));
        proof {
            if exact_ops::<T>() {
                assert(gemm_result(a, b, old(out), Some(alpha_v), Some(beta_v)) == gemm_result(a, b, old(out), alpha, beta));
            }
        }
        return;
    }
    proof {
        if exact_ops::<T>() {
            assert(alpha_v == alpha_value(alpha));
            assert(beta_v == beta_value(beta));
        }
    }
    matmul_packed(a, b, out, alpha_v, beta_v, blocking, kernel, run_tile);
}

/// The sum from zero of `a[p * mr + i] * b[p * nr + j]` for `p < k`: entry
/// (i, j) of the product of the packed panels of A (`mr` rows per step) and
/// B (`nr` columns per step).
pub open spec fn packed_dot<T: core::ops::Add<Output = T> + core::ops::Mul<Output = T> + From<i8>>(
    a: Seq<T>,
    b: Seq<T>,
    mr: int,
    nr: int,
    i: int,
    j: int,
    k: int,
) -> T
    decreases k,
{
    if k <= 0 {
        <T as FromSpec<i8>>::from_spec(0i8)
    } else {
        packed_dot(a, b, mr, nr, i, j, k - 1).add_spec(a[(k - 1) * mr + i].mul_spec(b[(k - 1) * nr + j]))
    }
}

/// Step `p` of `packed_dot` is permitted: the product, and its addition to
/// the sum so far.
pub open spec fn packed_step_ok<T: core::ops::Add<Output = T> + core::ops::Mul<Output = T> + From<i8>>(
    a: Seq<T>,
    b: Seq<T>,
    mr: int,
    nr: int,
    i: int,
    j: int,
    p: int,
) -> bool {
    &&& a[p * mr + i].mul_req(b[p * nr + j])
    &&& packed_dot(a, b, mr, nr, i, j, p).add_req(a[p * mr + i].mul_spec(b[p * nr + j]))
}

/// Every step of `packed_dot` up to `k` is permitted.
pub open spec fn packed_dot_ok<T: core::ops::Add<Output = T> + core::ops::Mul<Output = T> + From<i8>>(
    a: Seq<T>,
    b: Seq<T>,
    mr: int,
    nr: int,
    i: int,
    j: int,
    k: int,
) -> bool {
    forall|p: int| 0 <= p < k ==> #[trigger] packed_step_ok(a, b, mr, nr, i, j, p)
}

/// The new value of an element `c` of C whose panel sum is `acc`:
/// `alpha * acc` where `beta` is zero (the old value is not read), else
/// `beta * c + alpha * acc`.
pub open spec fn tile_update<T: core::ops::Add<Output = T> + core::ops::Mul<Output = T> + PartialEq + From<i8>>(
    c: T,
    acc: T,
    alpha: T,
    beta: T,
) -> T {
    if beta.eq_spec(&<T as FromSpec<i8>>::from_spec(0i8)) {
        alpha.mul_spec(acc)
    } else {
        beta.mul_spec(c).add_spec(alpha.mul_spec(acc))
    }
}

/// The update of `c` by `tile_update` is permitted.
pub open spec fn tile_update_ok<T: core::ops::Add<Output = T> + core::ops::Mul<Output = T> + PartialEq + From<i8>>(
    c: T,
    acc: T,
    alpha: T,
    beta: T,
) -> bool {
    &&& alpha.mul_req(acc)
    &&& !beta.eq_spec(&<T as FromSpec<i8>>::from_spec(0i8)) ==> {
        &&& beta.mul_req(c)
        &&& beta.mul_spec(c).add_req(alpha.mul_spec(acc))
    }
}

/// The C tile `c` (column `j` at offset `j * rs_c`) after the 4x4 scalar
/// micro-kernel has updated every (i', j') before (i, j), rows first.
pub open spec fn micro_sweep<
    T: core::ops::Add<Output = T> + core::ops::Mul<Output = T> + PartialEq + From<i8>,
>(c: Seq<T>, a: Seq<T>, b: Seq<T>, k: int, alpha: T, beta: T, rs_c: int, i: int, j: int) -> Seq<T>
    decreases i, j,
{
    if j > 0 {
        let prev = micro_sweep(c, a, b, k, alpha, beta, rs_c, i, j - 1);
        let t = (j - 1) * rs_c + i;
        prev.update(t, tile_update(prev[t], packed_dot(a, b, 4, 4, i, j - 1, k), alpha, beta))
    } else if i > 0 {
        micro_sweep(c, a, b, k, alpha, beta, rs_c, i - 1, 4)
    } else {
        c
    }
}

/// Every operation of the 4x4 scalar micro-kernel is permitted: for element
/// types with exact operations this follows the computation, for others every
/// operation must be.
pub open spec fn micro_ok<
    T: core::ops::Add<Output = T> + core::ops::Sub<Output = T> + core::ops::Mul<Output = T> + PartialEq
        + From<i8>,
>(c: Seq<T>, a: Seq<T>, b: Seq<T>, k: int, alpha: T, beta: T, rs_c: int) -> bool {
    if exact_ops::<T>() {
        forall|i: int, j: int|
            0 <= i < 4 && 0 <= j < 4 ==> {
                let prev = #[trigger] micro_sweep(c, a, b, k, alpha, beta, rs_c, i, j);
                &&& packed_dot_ok(a, b, 4, 4, i, j, k)
                &&& tile_update_ok(prev[j * rs_c + i], packed_dot(a, b, 4, 4, i, j, k), alpha, beta)
            }
    } else {
        add_total::<T>() && mul_total::<T>()
    }
}


/// The portable 4x4 micro-kernel over packed panels: `a` holds four rows of A
/// per step and `b` four columns of B per step; element (i, j) of the C tile
/// lives at `c[j * rs_c + i]`. Each element becomes `alpha` times its panel
/// sum, plus `beta` times its old value unless `beta` is zero, element by
/// element, rows first.
pub fn gemm_microkernel_4x4_scalar<T>(k: usize, alpha: T, a: &[T], b: &[T], beta: T, c: &mut [T], rs_c: usize) where
    T: Copy + core::ops::Add<Output = T> + core::ops::Sub<Output = T> + core::ops::Mul<Output = T> + PartialEq
        + From<i8>,

    requires
        4 * k <= a@.len(),
        4 * k <= b@.len(),
        3 * rs_c + 3 < old(c)@.len(),
        micro_ok(old(c)@, a@, b@, k as int, alpha, beta, rs_c as int),
    ensures
        final(c)@.len() == old(c)@.len(),
        exact_ops::<T>() ==> final(c)@ == micro_sweep(old(c)@, a@, b@, k as int, alpha, beta, rs_c as int, 4, 0),
{
    let zero = T::from(0i8);
    let ghost c0 = c@;
    let mut i: usize = 0;
    while i < 4
        invariant
            i <= 4,
            4 * k <= a@.len(),
            4 * k <= b@.len(),
            3 * rs_c + 3 < c0.len(),
            c@.len() == c0.len(),
            micro_ok(c0, a@, b@, k as int, alpha, beta, rs_c as int),
            exact_ops::<T>() ==> zero == <T as FromSpec<i8>>::from_spec(0i8),
            exact_ops::<T>() ==> c@ == micro_sweep(c0, a@, b@, k as int, alpha, beta, rs_c as int, i as int, 0),
        decreases 4 - i,
    {
        let mut j: usize = 0;
        while j < 4
            invariant
                i < 4,
                j <= 4,
                4 * k <= a@.len(),
                4 * k <= b@.len(),
                3 * rs_c + 3 < c0.len(),
                c@.len() == c0.len(),
                micro_ok(c0, a@, b@, k as int, alpha, beta, rs_c as int),
                exact_ops::<T>() ==> zero == <T as FromSpec<i8>>::from_spec(0i8),
                exact_ops::<T>() ==> c@ == micro_sweep(
                    c0,
                    a@,
                    b@,
                    k as int,
                    alpha,
                    beta,
                    rs_c as int,
                    i as int,
                    j as int,
                ),
            decreases 4 - j,
        {
            let ghost prev = c@;
            proof {
                if exact_ops::<T>() {
                    assert(micro_sweep(c0, a@, b@, k as int, alpha, beta, rs_c as int, i as int, j as int) == prev);
                }
            }
            let mut acc = zero;
            let mut p: usize = 0;
            while p < k
                invariant
                    i < 4,
                    j < 4,
                    p <= k,
                    4 * k <= a@.len(),
                    4 * k <= b@.len(),
                    micro_ok(c0, a@, b@, k as int, alpha, beta, rs_c as int),
                    exact_ops::<T>() ==> prev == micro_sweep(
                        c0,
                        a@,
                        b@,
                        k as int,
                        alpha,
                        beta,
                        rs_c as int,
                        i as int,
                        j as int,
                    ),
                    exact_ops::<T>() ==> acc == packed_dot(a@, b@, 4, 4, i as int, j as int, p as int),
                decreases k - p,
            {
                let a_ip = a[p * 4 + i];
                let b_pj = b[p * 4 + j];
                proof {
                    if exact_ops::<T>() {
                        assert(packed_dot_ok(a@, b@, 4, 4, i as int, j as int, k as int));
                        assert(packed_step_ok(a@, b@, 4, 4, i as int, j as int, p as int));
                    } else {
                        assert(a_ip.mul_req(b_pj));
                        assert(acc.add_req(a_ip.mul_spec(b_pj)));
                    }
                }
                let prod = a_ip * b_pj;
                acc = acc + prod;
                p = p + 1;
            }
            let c_len: usize = c.len();
            proof {
                vstd::arithmetic::mul::lemma_mul_inequality(j as int, 3, rs_c as int);
                vstd::arithmetic::mul::lemma_mul_is_commutative(3, rs_c as int);
            }
            let t = j * rs_c + i;
            let updated = if beta == zero {
                alpha * acc
            } else {
                let old_c = c[t];
                beta * old_c + alpha * acc
            };
            c[t] = updated;
            j = j + 1;
        }
        i = i + 1;
    }
}


/// The sum from zero of `a(i, p) * b(p, j)` for `pc <= p < p_end`.
pub open spec fn range_dot<
    T: core::ops::Add<Output = T> + core::ops::Mul<Output = T> + From<i8>,
    A: MatrixRead<T>,
    B: MatrixRead<T>,
>(a: &A, b: &B, i: int, j: int, pc: int, p_end: int) -> T
    decreases p_end - pc,
{
    if p_end <= pc {
        <T as FromSpec<i8>>::from_spec(0i8)
    } else {
        range_dot(a, b, i, j, pc, p_end - 1).add_spec(entry(a, i, p_end - 1).mul_spec(entry(b, p_end - 1, j)))
    }
}

/// The new value of an output element `c` whose partial sum over a panel is
/// `acc`: on the first panel `beta * c + alpha * acc`, on later panels
/// `c + alpha * acc`.
pub open spec fn panel_update<T: core::ops::Add<Output = T> + core::ops::Mul<Output = T>>(
    c: T,
    acc: T,
    alpha: T,
    beta: T,
    first: bool,
) -> T {
    if first {
        beta.mul_spec(c).add_spec(alpha.mul_spec(acc))
    } else {
        c.add_spec(alpha.mul_spec(acc))
    }
}

/// Every operation of the panel update of element (i, j) over the inner
/// indices `pc .. p_end` is permitted: for element types with exact
/// operations this follows the computation, for others every operation must
/// be.
pub open spec fn panel_update_ok<
    T: core::ops::Add<Output = T> + core::ops::Sub<Output = T> + core::ops::Mul<Output = T> + PartialEq
        + From<i8>,
    A: MatrixRead<T>,
    B: MatrixRead<T>,
>(a: &A, b: &B, c: T, i: int, j: int, pc: int, p_end: int, alpha: T, beta: T) -> bool {
    if exact_ops::<T>() {
        let acc = range_dot(a, b, i, j, pc, p_end);
        &&& forall|p: int|
            pc <= p < p_end ==> {
                &&& #[trigger] entry(a, i, p).mul_req(entry(b, p, j))
                &&& range_dot(a, b, i, j, pc, p).add_req(entry(a, i, p).mul_spec(entry(b, p, j)))
            }
        &&& alpha.mul_req(acc)
        &&& pc == 0 ==> beta.mul_req(c) && beta.mul_spec(c).add_req(alpha.mul_spec(acc))
        &&& pc != 0 ==> c.add_req(alpha.mul_spec(acc))
    } else {
        add_total::<T>() && mul_total::<T>()
    }
}

/// Updates the single output element (i, j) over the inner indices
/// `pc .. p_end`, as the tiled product does outside whole register tiles:
/// the partial sum of `a(i, p) * b(p, j)` from zero, scaled by `alpha`, is
/// added to `beta` times the element on the first panel (`pc` zero) and to
/// the element itself on later panels.
pub fn gemm_edge_update<A, B, C, T>(
    a: &A,
    b: &B,
    out: &mut C,
    i: usize,
    j: usize,
    pc: usize,
    p_end: usize,
    alpha: T,
    beta: T,
) where
    A: MatrixRead<T>,
    B: MatrixRead<T>,
    C: MatrixWrite<T>,
    T: Copy + core::ops::Add<Output = T> + core::ops::Sub<Output = T> + core::ops::Mul<Output = T> + PartialEq
        + From<i8>,

    requires
        pc <= p_end,
        forall|p: int| pc <= p < p_end ==> #[trigger] in_storage(a, i as int, p) && in_storage(b, p, j as int),
        in_storage(old(out), i as int, j as int),
        panel_update_ok(a, b, entry(old(out), i as int, j as int), i as int, j as int, pc as int, p_end as int, alpha, beta),
    ensures
        same_layout(final(out), old(out)),
        final(out).storage().len() == old(out).storage().len(),
        final(out).storage() == old(out).storage().update(
            old(out).index_of(i as int, j as int),
            final(out).storage()[old(out).index_of(i as int, j as int)],
        ),
        exact_ops::<T>() ==> final(out).storage() == old(out).storage().update(
            old(out).index_of(i as int, j as int),
            panel_update(
                entry(old(out), i as int, j as int),
                range_dot(a, b, i as int, j as int, pc as int, p_end as int),
                alpha,
                beta,
                pc == 0,
            ),
        ),
{
    let mut acc = T::from(0i8);
    let mut p: usize = pc;
    while p < p_end
        invariant
            pc <= p <= p_end,
            forall|q: int| pc <= q < p_end ==> #[trigger] in_storage(a, i as int, q) && in_storage(b, q, j as int),
            panel_update_ok(a, b, entry(old(out), i as int, j as int), i as int, j as int, pc as int, p_end as int, alpha, beta),
            exact_ops::<T>() ==> acc == range_dot(a, b, i as int, j as int, pc as int, p as int),
        decreases p_end - p,
    {
        proof {
            assert(in_storage(a, i as int, p as int) && in_storage(b, p as int, j as int));
            if exact_ops::<T>() {
                assert(entry(a, i as int, p as int).mul_req(entry(b, p as int, j as int)));
            }
        }
        let x = *a.get(i, p);
        let y = *b.get(p, j);
        proof {
            if !exact_ops::<T>() {
                assert(x.mul_req(y));
                assert(acc.add_req(x.mul_spec(y)));
            }
        }
        acc = acc + x * y;
        p = p + 1;
    }
    let c_old = *out.get(i, j);
    proof {
        if !exact_ops::<T>() {
            assert(alpha.mul_req(acc));
            assert(beta.mul_req(c_old));
            assert(beta.mul_spec(c_old).add_req(alpha.mul_spec(acc)));
            assert(c_old.add_req(alpha.mul_spec(acc)));
        }
    }
    let c_new = if pc == 0 {
        beta * c_old + alpha * acc
    } else {
        c_old + alpha * acc
    };
    let slot = out.get_mut(i, j);
    *slot = c_new;
}


/// The micro-kernel `kind` only uses instructions that the target `arch`
/// and the CPU features `f` provide.
pub open spec fn kernel_runs_on(kind: MicrokernelKind, arch: TargetArch, f: CpuFeatures) -> bool {
    match kind {
        MicrokernelKind::Scalar4x4 => true,
        MicrokernelKind::Avx2Fma4x4 => arch == TargetArch::X86_64 && f.avx2 && f.fma,
        MicrokernelKind::Avx2Fma8x4 => arch == TargetArch::X86_64 && f.avx2 && f.fma,
        MicrokernelKind::Avx512Fma8x8 => arch == TargetArch::X86_64 && f.avx512f && f.fma,
        MicrokernelKind::Neon4x4 => arch == TargetArch::Aarch64,
        MicrokernelKind::Neon6x8 => arch == TargetArch::Aarch64,
    }
}

/// The names a micro-kernel answers to in the override setting.
pub open spec fn kernel_names(kind: MicrokernelKind) -> Set<Seq<char>> {
    match kind {
        MicrokernelKind::Scalar4x4 => set!["scalar-4x4"@],
        MicrokernelKind::Avx2Fma4x4 => set!["avx2-4x4"@],
        MicrokernelKind::Avx2Fma8x4 => set!["avx2-8x4"@],
        MicrokernelKind::Avx512Fma8x8 => set!["avx512-8x8"@, "avx512-16x14"@],
        MicrokernelKind::Neon4x4 => set!["neon-4x4"@],
        MicrokernelKind::Neon6x8 => set!["neon-6x8"@],
    }
}

/// The value of the decimal digit `c`.
pub open spec fn digit_value(c: char) -> int {
    (c as int) - ('0' as int)
}

/// A kernel's name ends in its register tile, `<rows>x<columns>`, each one
/// digit; the one exception is the alias `avx512-16x14` of the 8x8 AVX-512
/// kernel.
pub proof fn lemma_kernel_name_gives_tile(kind: MicrokernelKind, name: Seq<char>)
    requires
        kernel_names(kind).contains(name),
        name != "avx512-16x14"@,
    ensures
        name.len() >= 3,
        name[name.len() - 2] == 'x',
        kernel_spec(kind).mr == digit_value(name[name.len() - 3]),
        kernel_spec(kind).nr == digit_value(name[name.len() - 1]),
{
    reveal_strlit("scalar-4x4");
    reveal_strlit("avx2-4x4");
    reveal_strlit("avx2-8x4");
    reveal_strlit("avx512-8x8");
    reveal_strlit("neon-4x4");
    reveal_strlit("neon-6x8");
}

/// The override names are told apart by their characters.
proof fn lemma_kernel_names_distinct()
    ensures
        "scalar-4x4"@ != "avx2-4x4"@,
        "scalar-4x4"@ != "avx2-8x4"@,
        "scalar-4x4"@ != "avx512-8x8"@,
        "scalar-4x4"@ != "avx512-16x14"@,
        "scalar-4x4"@ != "neon-4x4"@,
        "scalar-4x4"@ != "neon-6x8"@,
        "avx2-4x4"@ != "avx2-8x4"@,
        "avx2-4x4"@ != "avx512-8x8"@,
        "avx2-4x4"@ != "avx512-16x14"@,
        "avx2-8x4"@ != "avx512-8x8"@,
        "avx2-8x4"@ != "avx512-16x14"@,
        "neon-4x4"@ != "neon-6x8"@,
{
    reveal_strlit("scalar-4x4");
    reveal_strlit("avx2-4x4");
    reveal_strlit("avx2-8x4");
    reveal_strlit("avx512-8x8");
    reveal_strlit("avx512-16x14");
    reveal_strlit("neon-4x4");
    reveal_strlit("neon-6x8");
    assert("scalar-4x4"@[0] != "avx512-8x8"@[0]);
    assert("avx2-4x4"@[5] != "avx2-8x4"@[5]);
    assert("neon-4x4"@[5] != "neon-6x8"@[5]);
}

/// An override names the kernel it selects, and that kernel runs on the
/// target and CPU: a setting never selects a kernel by another name.
pub proof fn lemma_override_selects_named_kernel(name: Seq<char>, arch: TargetArch, f: CpuFeatures)
    ensures
        override_choice(name, arch, f) matches Some(k) ==> kernel_names(k).contains(name) && kernel_runs_on(
            k,
            arch,
            f,
        ),
{
}

/// On x86-64 and AArch64, an override that names a kernel the target and CPU
/// run selects that kernel, whatever else the CPU offers.
pub proof fn lemma_override_named_kernel_selected(name: Seq<char>, kind: MicrokernelKind, arch: TargetArch, f: CpuFeatures)
    requires
        kernel_names(kind).contains(name),
        kernel_runs_on(kind, arch, f),
        arch != TargetArch::Other,
    ensures
        override_choice(name, arch, f) == Some(kind),
{
    lemma_kernel_names_distinct();
}

/// Once an override selects a kernel, a CPU with at least the same features
/// selects the same one: further features never change the choice.
pub proof fn lemma_override_stable_under_more_features(
    name: Seq<char>,
    arch: TargetArch,
    f1: CpuFeatures,
    f2: CpuFeatures,
)
    requires
        override_choice(name, arch, f1) is Some,
        f1.avx2 ==> f2.avx2,
        f1.fma ==> f2.fma,
        f1.avx512f ==> f2.avx512f,
    ensures
        override_choice(name, arch, f2) == override_choice(name, arch, f1),
{
    lemma_kernel_names_distinct();
}

/// Without an override, the target and CPU get a kernel they run, and no
/// kernel they run has a larger register tile.
pub proof fn lemma_default_kernel_largest_tile(arch: TargetArch, f: CpuFeatures, kind: MicrokernelKind)
    requires
        kernel_runs_on(kind, arch, f),
    ensures
        kernel_runs_on(default_choice(arch, f), arch, f),
        kernel_spec(kind).mr * kernel_spec(kind).nr <= kernel_spec(default_choice(arch, f)).mr * kernel_spec(
            default_choice(arch, f),
        ).nr,
{
    match kind {
        MicrokernelKind::Scalar4x4 => {},
        MicrokernelKind::Avx2Fma4x4 => {},
        MicrokernelKind::Avx2Fma8x4 => {},
        MicrokernelKind::Avx512Fma8x8 => {},
        MicrokernelKind::Neon4x4 => {},
        MicrokernelKind::Neon6x8 => {},
    }
    match default_choice(arch, f) {
        MicrokernelKind::Scalar4x4 => {},
        MicrokernelKind::Avx2Fma4x4 => {},
        MicrokernelKind::Avx2Fma8x4 => {},
        MicrokernelKind::Avx512Fma8x8 => {},
        MicrokernelKind::Neon4x4 => {},
        MicrokernelKind::Neon6x8 => {},
    }
}

/// Whatever the override setting says, the kernel the dispatcher chooses runs
/// on the target and CPU it was chosen for.
pub proof fn lemma_dispatch_runs_on(raw: Option<Seq<char>>, arch: TargetArch, f: CpuFeatures)
    ensures
        kernel_runs_on(dispatch_choice(raw, arch, f), arch, f),
{
}

/// Every micro-kernel has a non-empty register tile of at most 16 rows and 14
/// columns, which the tile buffer of the packed product holds, and a positive
/// panel depth.
pub proof fn lemma_kernel_tile_bounds(kind: MicrokernelKind)
    ensures
        0 < kernel_spec(kind).mr <= 16,
        0 < kernel_spec(kind).nr <= 14,
        0 < kernel_spec(kind).kc,
        kernel_spec(kind).kind == kind,
{
}


/// `a(i, p) * b(p, j)` summed over `pc <= p < p_end`, over the integers.
pub open spec fn range_sum_int<A: MatrixRead<i64>, B: MatrixRead<i64>>(
    a: &A,
    b: &B,
    i: int,
    j: int,
    pc: int,
    p_end: int,
) -> int
    decreases p_end - pc,
{
    if p_end <= pc {
        0
    } else {
        range_sum_int(a, b, i, j, pc, p_end - 1) + entry(a, i, p_end - 1) * entry(b, p_end - 1, j)
    }
}

/// With `i64` elements and no overflow on the way, the partial sum of a panel
/// is the integer sum of its products.
pub(crate) proof fn lemma_range_dot_i64<A: MatrixRead<i64>, B: MatrixRead<i64>>(
    a: &A,
    b: &B,
    i: int,
    j: int,
    pc: int,
    p_end: int,
)
    requires
        pc <= p_end,
        forall|p: int|
            pc <= p < p_end ==> {
                &&& #[trigger] entry(a, i, p).mul_req(entry(b, p, j))
                &&& range_dot(a, b, i, j, pc, p).add_req(entry(a, i, p).mul_spec(entry(b, p, j)))
            },
    ensures
        range_dot(a, b, i, j, pc, p_end) as int == range_sum_int(a, b, i, j, pc, p_end),
    decreases p_end - pc,
{
    if p_end > pc {
        assert forall|p: int| pc <= p < p_end - 1 implies {
            &&& #[trigger] entry(a, i, p).mul_req(entry(b, p, j))
            &&& range_dot(a, b, i, j, pc, p).add_req(entry(a, i, p).mul_spec(entry(b, p, j)))
        } by {
            assert(entry(a, i, p).mul_req(entry(b, p, j)));
        }
        lemma_range_dot_i64(a, b, i, j, pc, p_end - 1);
        assert(entry(a, i, p_end - 1).mul_req(entry(b, p_end - 1, j)));
    }
}

/// A sum over `pc .. p_end` splits at any `mid` in between.
pub(crate) proof fn lemma_range_sum_split<A: MatrixRead<i64>, B: MatrixRead<i64>>(
    a: &A,
    b: &B,
    i: int,
    j: int,
    pc: int,
    mid: int,
    p_end: int,
)
    requires
        pc <= mid <= p_end,
    ensures
        range_sum_int(a, b, i, j, pc, p_end) == range_sum_int(a, b, i, j, pc, mid) + range_sum_int(
            a,
            b,
            i,
            j,
            mid,
            p_end,
        ),
    decreases p_end - mid,
{
    if p_end > mid {
        lemma_range_sum_split(a, b, i, j, pc, mid, p_end - 1);
    }
}

/// The packed product's panel scheme, for `i64` elements: updating an output
/// element `c` over the inner indices `0 .. mid` as the first panel (with
/// `beta`) and then over `mid .. k` as a later panel (without it) leaves
/// `beta * c + alpha * sum_p a(i, p) * b(p, j)` over all of `0 .. k`, where no
/// operation overflows.
pub proof fn lemma_panels_i64<A: MatrixRead<i64>, B: MatrixRead<i64>>(
    a: &A,
    b: &B,
    i: int,
    j: int,
    c: i64,
    mid: int,
    k: int,
    alpha: i64,
    beta: i64,
)
    requires
        0 < mid <= k,
        panel_update_ok(a, b, c, i, j, 0, mid, alpha, beta),
        panel_update_ok(
            a,
            b,
            panel_update(c, range_dot(a, b, i, j, 0, mid), alpha, beta, true),
            i,
            j,
            mid,
            k,
            alpha,
            beta,
        ),
    ensures
        panel_update(
            panel_update(c, range_dot(a, b, i, j, 0, mid), alpha, beta, true),
            range_dot(a, b, i, j, mid, k),
            alpha,
            beta,
            false,
        ) as int == beta * c + alpha * range_sum_int(a, b, i, j, 0, k),
{
    assert(exact_ops::<i64>());
    lemma_range_dot_i64(a, b, i, j, 0, mid);
    lemma_range_dot_i64(a, b, i, j, mid, k);
    lemma_range_sum_split(a, b, i, j, 0, mid, k);
    let s1 = range_sum_int(a, b, i, j, 0, mid);
    let s2 = range_sum_int(a, b, i, j, mid, k);
    assert(beta * c + alpha * s1 + alpha * s2 == beta * c + alpha * (s1 + s2)) by (nonlinear_arith);
}

/// The sum over `p < k` of `a[p * 4 + i] * b[p * 4 + j]`, over the integers.
pub open spec fn packed_sum_int(a: Seq<i64>, b: Seq<i64>, i: int, j: int, k: int) -> int
    decreases k,
{
    if k <= 0 {
        0
    } else {
        packed_sum_int(a, b, i, j, k - 1) + a[(k - 1) * 4 + i] * b[(k - 1) * 4 + j]
    }
}

/// In the 4x4 micro-kernel's sweep with columns at least four apart, an
/// element of the tile has been updated once it has been passed, and is
/// untouched before.
proof fn lemma_micro_sweep_slot<T: core::ops::Add<Output = T> + core::ops::Mul<Output = T> + PartialEq + From<i8>>(
    c: Seq<T>,
    a: Seq<T>,
    b: Seq<T>,
    k: int,
    alpha: T,
    beta: T,
    rs_c: int,
    i: int,
    j: int,
    pi: int,
    pj: int,
)
    requires
        4 <= rs_c,
        3 * rs_c + 3 < c.len(),
        0 <= i <= 4,
        0 <= j <= 4,
        i == 4 ==> j == 0,
        0 <= pi < 4,
        0 <= pj < 4,
    ensures
        micro_sweep(c, a, b, k, alpha, beta, rs_c, i, j).len() == c.len(),
        micro_sweep(c, a, b, k, alpha, beta, rs_c, i, j)[pj * rs_c + pi] == if pi < i || (pi == i && pj < j) {
            tile_update(c[pj * rs_c + pi], packed_dot(a, b, 4, 4, pi, pj, k), alpha, beta)
        } else {
            c[pj * rs_c + pi]
        },
    decreases i, j,
{
    assert(0 <= pj * rs_c <= 3 * rs_c) by (nonlinear_arith)
        requires
            0 <= pj < 4,
            0 <= rs_c,
    ;
    if j > 0 {
        lemma_micro_sweep_slot(c, a, b, k, alpha, beta, rs_c, i, j - 1, pi, pj);
        assert(0 <= (j - 1) * rs_c) by (nonlinear_arith)
            requires
                0 < j,
                0 <= rs_c,
        ;
        assert((j - 1) * rs_c <= 3 * rs_c) by (nonlinear_arith)
            requires
                j <= 4,
                0 <= rs_c,
        ;
        let prev = micro_sweep(c, a, b, k, alpha, beta, rs_c, i, j - 1);
        let t = (j - 1) * rs_c + i;
        assert(micro_sweep(c, a, b, k, alpha, beta, rs_c, i, j) == prev.update(
            t,
            tile_update(prev[t], packed_dot(a, b, 4, 4, i, j - 1, k), alpha, beta),
        ));
        if !(pi == i && pj == j - 1) {
            lemma_column_major_split(t, rs_c, i, j - 1);
            lemma_column_major_split(pj * rs_c + pi, rs_c, pi, pj);
            assert(t != pj * rs_c + pi);
        }
    } else if i > 0 {
        lemma_micro_sweep_slot(c, a, b, k, alpha, beta, rs_c, i - 1, 4, pi, pj);
    }
}

/// With `i64` elements and no overflow on the way, a panel sum is the
/// integer sum of its products.
proof fn lemma_packed_dot_i64(a: Seq<i64>, b: Seq<i64>, i: int, j: int, k: int)
    requires
        0 <= k,
        packed_dot_ok(a, b, 4, 4, i, j, k),
    ensures
        packed_dot(a, b, 4, 4, i, j, k) as int == packed_sum_int(a, b, i, j, k),
    decreases k,
{
    if k > 0 {
        lemma_packed_dot_i64(a, b, i, j, k - 1);
        assert(packed_step_ok(a, b, 4, 4, i, j, k - 1));
    }
}

/// What the 4x4 scalar micro-kernel computes, for `i64` elements with the
/// tile's columns at least four apart: element (i, j) becomes
/// `alpha * sum_p a[p * 4 + i] * b[p * 4 + j]`, plus `beta` times its old
/// value unless `beta` is zero, where no operation overflows.
pub proof fn lemma_microkernel_i64(
    c: Seq<i64>,
    a: Seq<i64>,
    b: Seq<i64>,
    k: int,
    alpha: i64,
    beta: i64,
    rs_c: int,
    i: int,
    j: int,
)
    requires
        0 <= k,
        4 <= rs_c,
        3 * rs_c + 3 < c.len(),
        micro_ok(c, a, b, k, alpha, beta, rs_c),
        0 <= i < 4,
        0 <= j < 4,
    ensures
        micro_sweep(c, a, b, k, alpha, beta, rs_c, 4, 0)[j * rs_c + i] as int == (if beta == 0 {
            0
        } else {
            beta * c[j * rs_c + i]
        }) + alpha * packed_sum_int(a, b, i, j, k),
{
    lemma_micro_sweep_slot(c, a, b, k, alpha, beta, rs_c, 4, 0, i, j);
    lemma_micro_sweep_slot(c, a, b, k, alpha, beta, rs_c, i, j, i, j);
    let prev = micro_sweep(c, a, b, k, alpha, beta, rs_c, i, j);
    assert(packed_dot_ok(a, b, 4, 4, i, j, k));
    lemma_packed_dot_i64(a, b, i, j, k);
    assert(tile_update_ok(prev[j * rs_c + i], packed_dot(a, b, 4, 4, i, j, k), alpha, beta));
}

} // verus!
