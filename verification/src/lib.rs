//! Dense linear algebra: row-major matrices, vectors and strided views over
//! them, the element-wise kernels, the matrix-matrix and matrix-vector
//! products with the packed, tiled product and the choice of its
//! micro-kernel, the matrix type of the Python-facing layer, and the layout
//! of the truncated listings of matrices and vectors.

pub mod algorithms;
pub mod arith;
pub mod dense;
pub mod frontend;
pub mod text;
