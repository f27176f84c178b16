use ferrum::dense::matrix::{gemm_kernel, Matrix, MatrixRead, MatrixWrite};
use ferrum::frontend::matrix::{Matrix as FrontMatrix, MatrixRead as FrontMatrixRead};

#[test]
fn matrix_test_matrix_creation() {
    let m = Matrix::from_data(2, 3, vec![1.0, 2.0, 3.0, 4.0, 5.0, 6.0]);
    assert_eq!(m.rows(), 2);
    assert_eq!(m.cols(), 3);
    assert_eq!(*m.get(1, 2), 6.0);

    let f = FrontMatrix::new(2, 3, vec![1.0, 2.0, 3.0, 4.0, 5.0, 6.0]);
    assert_eq!(f.rows(), 2);
    assert_eq!(f.cols(), 3);
    assert_eq!(*f.get(1, 2), 6.0);
}

#[test]
fn matrix_test_matrix_addition() {
    let m1 = Matrix::from_data(2, 2, vec![1.0, 2.0, 3.0, 4.0]);
    let m2 = Matrix::from_data(2, 2, vec![5.0, 6.0, 7.0, 8.0]);
    let m3 = &m1 + &m2;
    assert_eq!(m3.data, vec![6.0, 8.0, 10.0, 12.0]);

    let f1 = FrontMatrix::new(2, 2, vec![1.0, 2.0, 3.0, 4.0]);
    let f2 = FrontMatrix::new(2, 2, vec![5.0, 6.0, 7.0, 8.0]);
    let f3 = &f1 + &f2;
    assert_eq!(f3.data, vec![6.0, 8.0, 10.0, 12.0]);
}

#[test]
fn matrix_test_matrix_subtraction() {
    let m1 = Matrix::from_data(2, 2, vec![5.0, 6.0, 7.0, 8.0]);
    let m2 = Matrix::from_data(2, 2, vec![1.0, 2.0, 3.0, 4.0]);
    let m3 = &m1 - &m2;
    assert_eq!(m3.data, vec![4.0, 4.0, 4.0, 4.0]);

    let f1 = FrontMatrix::new(2, 2, vec![5.0, 6.0, 7.0, 8.0]);
    let f2 = FrontMatrix::new(2, 2, vec![1.0, 2.0, 3.0, 4.0]);
    let f3 = &f1 - &f2;
    assert_eq!(f3.data, vec![4.0, 4.0, 4.0, 4.0]);
}

#[test]
fn matrix_test_matrix_scalar_multiplication() {
    let m = Matrix::from_data(2, 2, vec![1.0, 2.0, 3.0, 4.0]);
    let m_scaled = &m * 2.0;
    assert_eq!(m_scaled.data, vec![2.0, 4.0, 6.0, 8.0]);

    let f = FrontMatrix::new(2, 2, vec![1.0, 2.0, 3.0, 4.0]);
    let f_scaled = &f * 2.0;
    assert_eq!(f_scaled.data, vec![2.0, 4.0, 6.0, 8.0]);
}

#[test]
fn test_matrix_new_initializes_with_zeros() {
    let m: Matrix<f64> = Matrix::new(2, 3);
    assert_eq!(m.rows(), 2);
    assert_eq!(m.cols(), 3);
    assert_eq!(m.data, vec![0.0; 6]);
}

#[test]
fn test_matrix_view() {
    let m = Matrix::from_data(
        4,
        4,
        vec![
            1.0, 2.0, 3.0, 4.0, 5.0, 6.0, 7.0, 8.0, 9.0, 10.0, 11.0, 12.0, 13.0, 14.0, 15.0, 16.0,
        ],
    );
    let view = m.view(1..3, 1..3);
    assert_eq!(view.rows(), 2);
    assert_eq!(view.cols(), 2);
    assert_eq!(*view.get(0, 0), 6.0);
    assert_eq!(*view.get(1, 1), 11.0);
}

#[test]
fn test_matrix_row_view() {
    let m = Matrix::from_data(3, 3, vec![1, 2, 3, 4, 5, 6, 7, 8, 9]);
    let row_view = m.row_view(1);
    assert_eq!(row_view.cols, 3);
    assert_eq!(*row_view.get(0, 0), 4);
    assert_eq!(*row_view.get(0, 2), 6);
}

#[test]
fn test_matrix_col_view() {
    let m = Matrix::from_data(3, 3, vec![1, 2, 3, 4, 5, 6, 7, 8, 9]);
    let col_view = m.col_view(1);
    assert_eq!(col_view.rows, 3);
    assert_eq!(*col_view.get(0, 0), 2);
    assert_eq!(*col_view.get(2, 0), 8);
}

#[test]
fn test_matrix_read_col_on_matrix() {
    let m = Matrix::from_data(3, 3, vec![1, 2, 3, 4, 5, 6, 7, 8, 9]);
    let col = m.col(1);

    assert_eq!(col.rows(), 3);
    assert_eq!(col.cols(), 1);
    assert_eq!(*col.get(0, 0), 2);
    assert_eq!(*col.get(2, 0), 8);
}

#[test]
fn test_matrix_read_col_on_matrix_view() {
    let m = Matrix::from_data(4, 4, vec![1, 2, 3, 4, 5, 6, 7, 8, 9, 10, 11, 12, 13, 14, 15, 16]);
    let view = m.view(1..4, 1..3);
    let col = view.col(1);

    assert_eq!(col.rows(), 3);
    assert_eq!(col.cols(), 1);
    assert_eq!(*col.get(0, 0), 7);
    assert_eq!(*col.get(2, 0), 15);
}

#[test]
fn test_matrix_read_col_on_row_view() {
    let m = Matrix::from_data(3, 3, vec![1, 2, 3, 4, 5, 6, 7, 8, 9]);
    let row = m.row(1);
    let col = row.col(2);

    assert_eq!(col.rows(), 1);
    assert_eq!(col.cols(), 1);
    assert_eq!(*col.get(0, 0), 6);
}

#[test]
fn test_matrix_read_col_on_col_view() {
    let m = Matrix::from_data(3, 3, vec![1, 2, 3, 4, 5, 6, 7, 8, 9]);
    let first_col = m.col(1);
    let nested_col = first_col.col(0);

    assert_eq!(nested_col.rows(), 3);
    assert_eq!(nested_col.cols(), 1);
    assert_eq!(*nested_col.get(1, 0), 5);
}

#[test]
fn test_gemm_kernel_basic() {
    let a = Matrix::from_data(2, 3, vec![1.0, 2.0, 3.0, 4.0, 5.0, 6.0]);
    let b = Matrix::from_data(3, 2, vec![7.0, 8.0, 9.0, 10.0, 11.0, 12.0]);
    let mut out = Matrix::zeros(2, 2);

    gemm_kernel(&a, &b, &mut out, None, None);

    assert_eq!(*out.get(0, 0), 58.0);
    assert_eq!(*out.get(0, 1), 64.0);
    assert_eq!(*out.get(1, 0), 139.0);
    assert_eq!(*out.get(1, 1), 154.0);
}

#[test]
fn test_gemm_kernel_with_alpha() {
    let a = Matrix::from_data(2, 2, vec![1.0, 2.0, 3.0, 4.0]);
    let b = Matrix::from_data(2, 2, vec![2.0, 0.0, 1.0, 2.0]);
    let mut out = Matrix::zeros(2, 2);

    gemm_kernel(&a, &b, &mut out, Some(2.0), None);

    assert_eq!(*out.get(0, 0), 8.0);
    assert_eq!(*out.get(0, 1), 8.0);
    assert_eq!(*out.get(1, 0), 20.0);
    assert_eq!(*out.get(1, 1), 16.0);
}

#[test]
fn test_gemm_kernel_with_beta() {
    let a = Matrix::from_data(2, 2, vec![1.0, 2.0, 3.0, 4.0]);
    let b = Matrix::from_data(2, 2, vec![2.0, 0.0, 1.0, 2.0]);
    let mut out = Matrix::from_data(2, 2, vec![1.0, 1.0, 1.0, 1.0]);

    gemm_kernel(&a, &b, &mut out, None, Some(2.0));

    assert_eq!(*out.get(0, 0), 6.0);
    assert_eq!(*out.get(0, 1), 6.0);
    assert_eq!(*out.get(1, 0), 12.0);
    assert_eq!(*out.get(1, 1), 10.0);
}

#[test]
fn test_gemm_kernel_with_alpha_and_beta() {
    let a = Matrix::from_data(2, 2, vec![1.0, 2.0, 3.0, 4.0]);
    let b = Matrix::from_data(2, 2, vec![2.0, 0.0, 1.0, 2.0]);
    let mut out = Matrix::from_data(2, 2, vec![1.0, 1.0, 1.0, 1.0]);

    gemm_kernel(&a, &b, &mut out, Some(3.0), Some(2.0));

    assert_eq!(*out.get(0, 0), 14.0);
    assert_eq!(*out.get(0, 1), 14.0);
    assert_eq!(*out.get(1, 0), 32.0);
    assert_eq!(*out.get(1, 1), 26.0);
}

#[test]
fn test_gemm_kernel_zero_alpha() {
    let a = Matrix::from_data(2, 2, vec![1.0, 2.0, 3.0, 4.0]);
    let b = Matrix::from_data(2, 2, vec![2.0, 0.0, 1.0, 2.0]);
    let mut out = Matrix::from_data(2, 2, vec![5.0, 5.0, 5.0, 5.0]);

    gemm_kernel(&a, &b, &mut out, Some(0.0), Some(2.0));

    assert_eq!(*out.get(0, 0), 10.0);
    assert_eq!(*out.get(0, 1), 10.0);
    assert_eq!(*out.get(1, 0), 10.0);
    assert_eq!(*out.get(1, 1), 10.0);
}

#[test]
fn test_matmul_operator() {
    let a = Matrix::from_data(2, 3, vec![1.0, 2.0, 3.0, 4.0, 5.0, 6.0]);
    let b = Matrix::from_data(3, 2, vec![7.0, 8.0, 9.0, 10.0, 11.0, 12.0]);
    let c = &a * &b;

    assert_eq!(*c.get(0, 0), 58.0);
    assert_eq!(*c.get(0, 1), 64.0);
    assert_eq!(*c.get(1, 0), 139.0);
    assert_eq!(*c.get(1, 1), 154.0);
}

// ---------- further cases ----------

#[test]
fn gemm_kernel_i64_scales_and_adds() {
    // out = beta * out + alpha * a * b with alpha = 3 and beta = -2
    let a = Matrix::from_data(2, 2, vec![1i64, 2, 3, 4]);
    let b = Matrix::from_data(2, 2, vec![2i64, 0, 1, 2]);
    let mut out = Matrix::from_data(2, 2, vec![1i64, 2, 3, 4]);
    gemm_kernel(&a, &b, &mut out, Some(3), Some(-2));
    // a * b = [[4, 4], [10, 8]]
    assert_eq!(out.data, vec![-2 + 12, -4 + 12, -6 + 30, -8 + 24]);
}

#[test]
fn gemm_kernel_beta_one_keeps_output_before_adding() {
    let a = Matrix::from_data(1, 1, vec![3i64]);
    let b = Matrix::from_data(1, 1, vec![4i64]);
    let mut out = Matrix::from_data(1, 1, vec![5i64]);
    gemm_kernel(&a, &b, &mut out, None, Some(1));
    assert_eq!(out.data, vec![17]);
}

#[test]
fn gemm_kernel_on_view_leaves_rest_alone() {
    let a = Matrix::from_data(1, 1, vec![2i64]);
    let b = Matrix::from_data(1, 1, vec![5i64]);
    let mut m = Matrix::from_data(2, 2, vec![1i64, 1, 1, 1]);
    {
        let mut v = m.view_mut(1..2, 0..1);
        gemm_kernel(&a, &b, &mut v, None, None);
    }
    assert_eq!(m.data, vec![1, 1, 10, 1]);
}

#[test]
fn identity_is_neutral_for_the_product() {
    let id: Matrix<i64> = Matrix::identity(3);
    assert_eq!(id.data, vec![1, 0, 0, 0, 1, 0, 0, 0, 1]);
    let a = Matrix::from_data(3, 2, vec![1i64, -2, 3, 4, 5, -6]);
    let left = &id * &a;
    assert_eq!(left.data, a.data);
    let id2: Matrix<i64> = Matrix::identity(2);
    let right = &a * &id2;
    assert_eq!(right.data, a.data);
}

#[test]
fn transpose_twice_gives_back_the_matrix() {
    let m = Matrix::from_data(2, 3, vec![1, 2, 3, 4, 5, 6]);
    let t = m.transpose(None);
    assert_eq!((t.rows, t.cols), (3, 2));
    assert_eq!(t.data, vec![1, 4, 2, 5, 3, 6]);
    let u = t.transpose(Some(1));
    assert_eq!((u.rows, u.cols), (2, 3));
    assert_eq!(u.data, m.data);
}

#[test]
fn transpose_of_empty_matrix_swaps_shape() {
    let m: Matrix<i32> = Matrix::from_data(0, 3, vec![]);
    let t = m.transpose(Some(0));
    assert_eq!((t.rows, t.cols), (3, 0));
    assert!(t.data.is_empty());
}

#[test]
fn transpose_with_small_blocks() {
    let m = Matrix::from_data(3, 4, (0..12).collect::<Vec<i32>>());
    let t = m.transpose(Some(2));
    for i in 0..3 {
        for j in 0..4 {
            assert_eq!(t.data[j * 3 + i], m.data[i * 4 + j]);
        }
    }
}

#[test]
fn view_mut_writes_land_in_matrix() {
    let mut m = Matrix::from_data(2, 3, vec![0i32; 6]);
    {
        let mut v = m.view_mut(0..2, 1..3);
        *v.get_mut(1, 0) = 7;
        v.accumulate(0, 1, 5);
    }
    assert_eq!(m.data, vec![0, 0, 5, 0, 7, 0]);
}

#[test]
fn row_and_col_views_mut_write_through() {
    let mut m = Matrix::from_data(2, 2, vec![1i32, 2, 3, 4]);
    {
        let mut r = m.row_view_mut(1);
        *r.get_mut(0, 1) = 40;
    }
    {
        let mut c = m.col_view_mut(0);
        *c.get_mut(0, 0) = 10;
    }
    assert_eq!(m.data, vec![10, 2, 3, 40]);
}

#[test]
fn row_slices_of_views() {
    let m = Matrix::from_data(3, 3, vec![1, 2, 3, 4, 5, 6, 7, 8, 9]);
    let v = m.view(1..3, 0..2);
    assert_eq!(v.row_slice(1), Some(&[7, 8][..]));
    let r = m.row_view(2);
    assert_eq!(r.as_slice(), Some(&[7, 8, 9][..]));
    let mut n = Matrix::from_data(2, 2, vec![1, 2, 3, 4]);
    {
        let mut w = n.view_mut(0..2, 0..2);
        if let Some(s) = w.row_slice_mut(1) {
            s[0] = 30;
        }
    }
    assert_eq!(n.data, vec![1, 2, 30, 4]);
}

#[test]
fn frontend_identity_zeros_and_transpose() {
    let id: FrontMatrix<f64> = FrontMatrix::identity(2);
    assert_eq!(id.data, vec![1.0, 0.0, 0.0, 1.0]);
    let z: FrontMatrix<f64> = FrontMatrix::zeros(2, 3);
    assert_eq!(z.data, vec![0.0; 6]);
    let m = FrontMatrix::new(2, 3, vec![1, 2, 3, 4, 5, 6]);
    let t = m.transpose(None);
    assert_eq!((t.rows, t.cols), (3, 2));
    assert_eq!(t.data, vec![1, 4, 2, 5, 3, 6]);
    assert_eq!(t.transpose(Some(2)).data, m.data);
}

#[test]
fn frontend_arithmetic_runs_over_the_shorter_storage() {
    let a = FrontMatrix { rows: 1, cols: 3, data: vec![1, 2, 3] };
    let b = FrontMatrix { rows: 1, cols: 3, data: vec![10, 20] };
    assert_eq!((&a + &b).data, vec![11, 22]);
    assert_eq!((&b - &a).data, vec![9, 18]);
    assert_eq!((&a * 3).data, vec![3, 6, 9]);
}
