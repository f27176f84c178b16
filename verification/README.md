# ferrum

Dense linear algebra with verified kernels. The library under `src/` is
written in Verus: every function carries a contract and is proved against it.

- `dense`: row-major matrices, vectors and strided views; element-wise
  arithmetic; the basic matrix product and what it computes (`product`).
- `algorithms`: the matrix-matrix product (blocking sizes, the choice of the
  packed micro-kernel, the portable 4x4 micro-kernel) and the matrix-vector
  product; `packed` is the tiled driver, with what its sweep leaves in each
  output element; `packing` moves panels and tiles in and out of the packed
  buffers.
- `frontend`: the matrix type of the Python-facing layer and its views.
- `text`: which rows, columns and elements a truncated listing shows, and how
  it is laid out.

`app/` holds what stays outside the proofs: the Python module and class, the
floating-point scalar types (complex and dual numbers, elementary functions),
the SIMD micro-kernels with the run-time detection of CPU features and the
environment override, and the printable copies of the matrix types.
