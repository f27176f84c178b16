use ferrum::algorithms::gemm::{
    basic_gemm_kernel, blocked_tile_sizes, gemm_edge_update, gemm_microkernel_4x4_scalar,
    gemm_microkernel_default, gemm_microkernel_dispatcher, gemm_microkernel_from_override,
    gemm_microkernel_override, matmul_blocked, scalar_4x4_kernel, uses_blocked_path, CpuFeatures,
    GemmBlocking, GemmMicrokernel, MicrokernelKind, TargetArch,
};
use ferrum::algorithms::packed::matmul_packed;
use ferrum::algorithms::packing::{load_c_tile, pack_a_panel, pack_b_panels, store_c_tile};
use ferrum::dense::matrix::Matrix;

const NONE: CpuFeatures = CpuFeatures { avx2: false, fma: false, avx512f: false };
const AVX2: CpuFeatures = CpuFeatures { avx2: true, fma: true, avx512f: false };
const AVX512: CpuFeatures = CpuFeatures { avx2: true, fma: true, avx512f: true };

fn kernel(mr: usize, nr: usize, kc: usize, kind: MicrokernelKind) -> GemmMicrokernel {
    GemmMicrokernel { mr, nr, kc, kind }
}

#[test]
fn gemm_blocking_default_sizes() {
    let b = GemmBlocking::default();
    assert_eq!((b.mc, b.kc, b.nc), (128, 256, 128));
}

#[test]
fn basic_gemm_kernel_matches_formula() {
    let a = Matrix::from_data(2, 3, vec![1.0, 2.0, 3.0, 4.0, 5.0, 6.0]);
    let b = Matrix::from_data(3, 2, vec![7.0, 8.0, 9.0, 10.0, 11.0, 12.0]);
    let mut out = Matrix::from_data(2, 2, vec![1.0, 1.0, 1.0, 1.0]);
    basic_gemm_kernel(&a, &b, &mut out, Some(2.0), Some(3.0));
    assert_eq!(out.data, vec![119.0, 131.0, 281.0, 311.0]);
}

fn no_tile(_: usize, _: i64, _: &[i64], _: &[i64], _: usize, _: i64, c_tile: Vec<i64>) -> Vec<i64> {
    panic!("the basic path hands no tile to the kernel");
}

#[test]
fn matmul_blocked_generic_path() {
    let a = Matrix::from_data(2, 2, vec![1i64, 2, 3, 4]);
    let b = Matrix::from_data(2, 2, vec![2i64, 0, 1, 2]);
    let mut out = Matrix::from_data(2, 2, vec![1i64, 1, 1, 1]);
    matmul_blocked(&a, &b, &mut out, Some(3), Some(2), GemmBlocking::default(), false, scalar_4x4_kernel(), no_tile);
    assert_eq!(out.data, vec![14, 14, 32, 26]);
    let mut plain = Matrix::from_data(2, 2, vec![7i64, 7, 7, 7]);
    matmul_blocked(&a, &b, &mut plain, None, None, GemmBlocking::default(), false, scalar_4x4_kernel(), no_tile);
    assert_eq!(plain.data, vec![4, 4, 10, 8]);
    // a small product takes the basic kernel even for f64 elements
    let mut small = Matrix::from_data(2, 2, vec![7i64, 7, 7, 7]);
    matmul_blocked(&a, &b, &mut small, None, None, GemmBlocking::default(), true, scalar_4x4_kernel(), no_tile);
    assert_eq!(small.data, vec![4, 4, 10, 8]);
}

#[test]
fn matmul_blocked_large_f64_product_takes_the_packed_path() {
    let n = 96;
    let a = Matrix::from_data(n, n, (0..(n * n) as i64).map(|x| x % 5 - 2).collect());
    let b = Matrix::from_data(n, n, (0..(n * n) as i64).map(|x| x % 3 - 1).collect());
    let mut packed = Matrix::from_data(n, n, vec![1i64; n * n]);
    let calls = std::cell::Cell::new(0usize);
    let run_tile = |k_panel: usize,
                    alpha: i64,
                    a_pack: &[i64],
                    b_packs: &[i64],
                    b_offset: usize,
                    beta_panel: i64,
                    mut c_tile: Vec<i64>|
     -> Vec<i64> {
        calls.set(calls.get() + 1);
        gemm_microkernel_4x4_scalar(k_panel, alpha, a_pack, &b_packs[b_offset..], beta_panel, &mut c_tile, 4);
        c_tile
    };
    matmul_blocked(&a, &b, &mut packed, Some(2), Some(3), GemmBlocking::default(), true, scalar_4x4_kernel(), run_tile);
    assert!(calls.get() > 0);
    let mut plain = Matrix::from_data(n, n, vec![1i64; n * n]);
    basic_gemm_kernel(&a, &b, &mut plain, Some(2), Some(3));
    assert_eq!(packed.data, plain.data);
}

#[test]
fn default_kernel_per_target() {
    assert_eq!(gemm_microkernel_default(TargetArch::X86_64, AVX512), kernel(8, 8, 128, MicrokernelKind::Avx512Fma8x8));
    assert_eq!(gemm_microkernel_default(TargetArch::X86_64, AVX2), kernel(8, 4, 192, MicrokernelKind::Avx2Fma8x4));
    assert_eq!(gemm_microkernel_default(TargetArch::X86_64, NONE), kernel(4, 4, 256, MicrokernelKind::Scalar4x4));
    assert_eq!(gemm_microkernel_default(TargetArch::Aarch64, NONE), kernel(6, 8, 192, MicrokernelKind::Neon6x8));
    assert_eq!(gemm_microkernel_default(TargetArch::Other, AVX512), scalar_4x4_kernel());
}

#[test]
fn override_names_on_x86_64() {
    let x = TargetArch::X86_64;
    assert_eq!(gemm_microkernel_from_override("scalar-4x4", x, NONE), Some(scalar_4x4_kernel()));
    assert_eq!(gemm_microkernel_from_override("avx2-4x4", x, AVX2), Some(kernel(4, 4, 256, MicrokernelKind::Avx2Fma4x4)));
    assert_eq!(gemm_microkernel_from_override("avx2-8x4", x, AVX2), Some(kernel(8, 4, 192, MicrokernelKind::Avx2Fma8x4)));
    assert_eq!(gemm_microkernel_from_override("avx2-8x4", x, NONE), None);
    assert_eq!(gemm_microkernel_from_override("avx512-8x8", x, AVX2), None);
    assert_eq!(gemm_microkernel_from_override("avx512-8x8", x, AVX512), Some(kernel(8, 8, 128, MicrokernelKind::Avx512Fma8x8)));
    assert_eq!(gemm_microkernel_from_override("avx512-16x14", x, AVX512), Some(kernel(8, 8, 128, MicrokernelKind::Avx512Fma8x8)));
    assert_eq!(gemm_microkernel_from_override("neon-6x8", x, AVX512), None);
}

#[test]
fn override_names_on_aarch64_and_elsewhere() {
    let a = TargetArch::Aarch64;
    assert_eq!(gemm_microkernel_from_override("scalar-4x4", a, NONE), Some(scalar_4x4_kernel()));
    assert_eq!(gemm_microkernel_from_override("neon-4x4", a, NONE), Some(kernel(4, 4, 256, MicrokernelKind::Neon4x4)));
    assert_eq!(gemm_microkernel_from_override("neon-6x8", a, NONE), Some(kernel(6, 8, 192, MicrokernelKind::Neon6x8)));
    assert_eq!(gemm_microkernel_from_override("avx2-8x4", a, AVX2), None);
    assert_eq!(gemm_microkernel_from_override("scalar-4x4", TargetArch::Other, NONE), None);
}

#[test]
fn override_setting_is_trimmed_and_lower_cased() {
    assert_eq!(gemm_microkernel_override(None), None);
    assert_eq!(gemm_microkernel_override(Some("  AVX2-8x4\n")), Some("avx2-8x4".to_string()));
    assert_eq!(gemm_microkernel_override(Some("Neon-6X8")), Some("neon-6x8".to_string()));
    assert_eq!(gemm_microkernel_override(Some("   ")), None);
    assert_eq!(gemm_microkernel_override(Some("")), None);
    assert_eq!(gemm_microkernel_override(Some(" Auto ")), None);
    assert_eq!(gemm_microkernel_override(Some("autox")), Some("autox".to_string()));
}

#[test]
fn dispatcher_prefers_a_supported_override() {
    let x = TargetArch::X86_64;
    assert_eq!(gemm_microkernel_dispatcher(Some(" SCALAR-4x4 "), x, AVX512), scalar_4x4_kernel());
    assert_eq!(gemm_microkernel_dispatcher(Some("avx2-4x4"), x, AVX512), kernel(4, 4, 256, MicrokernelKind::Avx2Fma4x4));
    // unsupported or unknown names fall back to the default kernel
    assert_eq!(gemm_microkernel_dispatcher(Some("avx512-8x8"), x, AVX2), kernel(8, 4, 192, MicrokernelKind::Avx2Fma8x4));
    assert_eq!(gemm_microkernel_dispatcher(Some("bogus"), x, NONE), scalar_4x4_kernel());
    assert_eq!(gemm_microkernel_dispatcher(Some("auto"), x, AVX512), kernel(8, 8, 128, MicrokernelKind::Avx512Fma8x8));
    assert_eq!(gemm_microkernel_dispatcher(None, TargetArch::Aarch64, NONE), kernel(6, 8, 192, MicrokernelKind::Neon6x8));
}

#[test]
fn every_dispatched_kernel_fits_the_tile_buffer() {
    let names = [None, Some("scalar-4x4"), Some("avx2-4x4"), Some("avx2-8x4"), Some("avx512-8x8"),
        Some("avx512-16x14"), Some("neon-4x4"), Some("neon-6x8"), Some("x")];
    for arch in [TargetArch::X86_64, TargetArch::Aarch64, TargetArch::Other] {
        for f in [NONE, AVX2, AVX512] {
            for n in names {
                let k = gemm_microkernel_dispatcher(n, arch, f);
                assert!(k.mr > 0 && k.mr <= 16 && k.nr > 0 && k.nr <= 14 && k.kc > 0);
            }
        }
    }
}

#[test]
fn blocked_path_threshold() {
    assert!(!uses_blocked_path(95, 96, 96));
    assert!(uses_blocked_path(96, 96, 96));
    assert!(uses_blocked_path(usize::MAX, 2, 1));
    assert!(!uses_blocked_path(usize::MAX, 2, 0));
}

#[test]
fn blocked_tile_sizes_round_to_tiles() {
    let k84 = kernel(8, 4, 192, MicrokernelKind::Avx2Fma8x4);
    assert_eq!(blocked_tile_sizes(GemmBlocking::default(), k84), (128, 192, 128));
    let small = GemmBlocking { mc: 3, kc: 0, nc: 10 };
    assert_eq!(blocked_tile_sizes(small, k84), (8, 1, 8));
    let k68 = kernel(6, 8, 192, MicrokernelKind::Neon6x8);
    assert_eq!(blocked_tile_sizes(GemmBlocking { mc: 20, kc: 100, nc: 30 }, k68), (18, 100, 24));
}

#[test]
fn scalar_microkernel_beta_zero_and_nonzero() {
    // k = 2: a holds 4 rows per step, b holds 4 columns per step
    let a: Vec<i64> = vec![1, 2, 3, 4, 5, 6, 7, 8];
    let b: Vec<i64> = vec![1, 0, 0, 1, 1, 1, 1, 1];
    let mut c = vec![100i64; 16];
    gemm_microkernel_4x4_scalar(2, 2, &a, &b, 0, &mut c, 4);
    // element (i, j) = 2 * (a[i] * b[j] + a[4 + i] * b[4 + j])
    for i in 0..4 {
        for j in 0..4 {
            let acc = a[i] * b[j] + a[4 + i] * b[4 + j];
            assert_eq!(c[j * 4 + i], 2 * acc);
        }
    }
    let mut d = vec![1i64; 16];
    gemm_microkernel_4x4_scalar(2, 1, &a, &b, 3, &mut d, 4);
    for i in 0..4 {
        for j in 0..4 {
            let acc = a[i] * b[j] + a[4 + i] * b[4 + j];
            assert_eq!(d[j * 4 + i], 3 + acc);
        }
    }
}

#[test]
fn scalar_microkernel_with_wider_column_stride() {
    let a: Vec<i64> = vec![1, 1, 1, 1];
    let b: Vec<i64> = vec![1, 2, 3, 4];
    let mut c = vec![-1i64; 20];
    gemm_microkernel_4x4_scalar(1, 1, &a, &b, 0, &mut c, 5);
    for j in 0..4 {
        for i in 0..4 {
            assert_eq!(c[j * 5 + i], (j + 1) as i64);
        }
        assert_eq!(c[j * 5 + 4], -1);
    }
}

#[test]
fn packing_a_and_b_panels() {
    let a = Matrix::from_data(3, 3, vec![1, 2, 3, 4, 5, 6, 7, 8, 9]);
    let mut a_pack = vec![0; 4];
    pack_a_panel(&a, 1, 1, 2, 2, &mut a_pack);
    // rows 1..3, inner indices 1..3: slot p * 2 + ii holds a(1 + ii, 1 + p)
    assert_eq!(a_pack, vec![5, 8, 6, 9]);

    let b = Matrix::from_data(2, 5, vec![1, 2, 3, 4, 5, 6, 7, 8, 9, 10]);
    let mut b_packs = vec![0; 8];
    pack_b_panels(&b, 0, 2, 1, 2, 2, &mut b_packs);
    // tiles of columns 1..3 and 3..5 over both rows
    assert_eq!(b_packs, vec![2, 3, 7, 8, 4, 5, 9, 10]);
}

#[test]
fn c_tile_round_trip() {
    let mut out = Matrix::from_data(3, 3, vec![1, 2, 3, 4, 5, 6, 7, 8, 9]);
    let mut tile = [0i32; 6];
    load_c_tile(&out, 1, 0, 2, 2, &mut tile);
    // column by column: (1,0), (2,0), (1,1), (2,1)
    assert_eq!(tile, [4, 7, 5, 8, 0, 0]);
    tile[0] = 40;
    tile[3] = 80;
    store_c_tile(&mut out, 1, 0, 2, 2, &tile);
    assert_eq!(out.data, vec![1, 2, 3, 40, 5, 6, 7, 80, 9]);
}

#[test]
fn edge_update_over_two_panels_gives_the_product() {
    let a = Matrix::from_data(1, 4, vec![1i64, 2, 3, 4]);
    let b = Matrix::from_data(4, 1, vec![5i64, 6, 7, 8]);
    let mut out = Matrix::from_data(1, 1, vec![10i64]);
    gemm_edge_update(&a, &b, &mut out, 0, 0, 0, 2, 3, 2);
    assert_eq!(out.data, vec![2 * 10 + 3 * (5 + 12)]);
    gemm_edge_update(&a, &b, &mut out, 0, 0, 2, 4, 3, 2);
    // beta is applied on the first panel only
    assert_eq!(out.data, vec![2 * 10 + 3 * (5 + 12 + 21 + 32)]);
}

fn packed_with_scalar_kernel(
    m: usize,
    k: usize,
    n: usize,
    blocking: GemmBlocking,
    alpha: i64,
    beta: i64,
) -> (Vec<i64>, Vec<i64>) {
    let a = Matrix::from_data(m, k, (0..(m * k) as i64).map(|x| x % 7 - 3).collect());
    let b = Matrix::from_data(k, n, (0..(k * n) as i64).map(|x| x % 5 - 2).collect());
    let start: Vec<i64> = (0..(m * n) as i64).map(|x| x % 3).collect();
    let mut packed = Matrix::from_data(m, n, start.clone());
    let run_tile = |k_panel: usize,
                    alpha: i64,
                    a_pack: &[i64],
                    b_packs: &[i64],
                    b_offset: usize,
                    beta_panel: i64,
                    mut c_tile: Vec<i64>|
     -> Vec<i64> {
        gemm_microkernel_4x4_scalar(k_panel, alpha, a_pack, &b_packs[b_offset..], beta_panel, &mut c_tile, 4);
        c_tile
    };
    matmul_packed(&a, &b, &mut packed, alpha, beta, blocking, scalar_4x4_kernel(), run_tile);
    let mut plain = Matrix::from_data(m, n, start);
    basic_gemm_kernel(&a, &b, &mut plain, Some(alpha), Some(beta));
    (packed.data, plain.data)
}

#[test]
fn packed_product_matches_basic_kernel() {
    // blocks, panels and edges in every direction
    let small = GemmBlocking { mc: 5, kc: 3, nc: 6 };
    let (packed, plain) = packed_with_scalar_kernel(7, 8, 10, small, 3, -2);
    assert_eq!(packed, plain);
    let (packed, plain) = packed_with_scalar_kernel(4, 4, 4, GemmBlocking::default(), 1, 0);
    assert_eq!(packed, plain);
    let (packed, plain) = packed_with_scalar_kernel(3, 5, 2, small, 2, 1);
    assert_eq!(packed, plain);
}

#[test]
fn packed_product_hands_whole_tiles_to_the_kernel() {
    let a = Matrix::from_data(8, 2, vec![1i64; 16]);
    let b = Matrix::from_data(2, 8, vec![1i64; 16]);
    let mut out = Matrix::from_data(8, 8, vec![0i64; 64]);
    let calls = std::cell::Cell::new(0);
    let run_tile = |k_panel: usize,
                    alpha: i64,
                    a_pack: &[i64],
                    b_packs: &[i64],
                    b_offset: usize,
                    beta_panel: i64,
                    mut c_tile: Vec<i64>|
     -> Vec<i64> {
        calls.set(calls.get() + 1);
        assert_eq!(a_pack.len(), 4 * k_panel);
        assert!(b_offset + 4 * k_panel <= b_packs.len());
        assert!(c_tile.len() >= 16);
        gemm_microkernel_4x4_scalar(k_panel, alpha, a_pack, &b_packs[b_offset..], beta_panel, &mut c_tile, 4);
        c_tile
    };
    matmul_packed(&a, &b, &mut out, 1, 0, GemmBlocking::default(), scalar_4x4_kernel(), run_tile);
    assert_eq!(calls.get(), 4);
    assert_eq!(out.data, vec![2i64; 64]);
}

#[test]
fn packed_product_without_inner_dimension_leaves_the_output() {
    // no panel reaches the output, so not even `beta` applies
    let a = Matrix::from_data(2, 0, Vec::<i64>::new());
    let b = Matrix::from_data(0, 2, Vec::<i64>::new());
    let mut out = Matrix::from_data(2, 2, vec![1i64, 2, 3, 4]);
    let run_tile = |_: usize, _: i64, _: &[i64], _: &[i64], _: usize, _: i64, c_tile: Vec<i64>| -> Vec<i64> { c_tile };
    matmul_packed(&a, &b, &mut out, 5, 0, GemmBlocking::default(), scalar_4x4_kernel(), run_tile);
    assert_eq!(out.data, vec![1i64, 2, 3, 4]);
}
