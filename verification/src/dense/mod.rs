//! Core numeric data structures: row-major matrices, vectors and views.

pub mod matrix;
pub mod views;
pub mod vector;
pub mod product;
