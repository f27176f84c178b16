//! Matrix-matrix and matrix-vector products.

pub mod gemm;
pub mod gemv;
pub mod packed;
pub mod packing;
