//! The matrix types of the Python-facing layer: a row-major matrix with a
//! checked constructor and element-wise arithmetic, and strided views that
//! read through the same interface.

pub mod matrix;
pub mod views;
