use ferrum::algorithms::gemv::{basic_gemv_kernel, GemvBlocking};
use ferrum::dense::matrix::Matrix;
use ferrum::dense::vector::Vector;

#[test]
fn gemv_blocking_default_sizes() {
    let b = GemvBlocking::default();
    assert_eq!((b.m_block, b.k_block), (64, 64));
}

#[test]
fn gemv_defaults_compute_the_product() {
    let a = Matrix::from_data(2, 3, vec![1i64, 2, 3, 4, 5, 6]);
    let x = Vector { data: vec![1i64, 0, -1], size: 3 };
    let mut y = Vector { data: vec![9i64, 9], size: 2 };
    basic_gemv_kernel(&a, &x, &mut y, None, None);
    assert_eq!(y.data, vec![-2, -2]);
}

#[test]
fn gemv_with_alpha_and_beta() {
    let a = Matrix::from_data(2, 2, vec![1.0, 2.0, 3.0, 4.0]);
    let x = Vector { data: vec![1.0, 1.0], size: 2 };
    let mut y = Vector { data: vec![1.0, 2.0, 5.0], size: 3 };
    basic_gemv_kernel(&a, &x, &mut y, Some(2.0), Some(3.0));
    // rows of a sum to 3 and 7; the third element is past the rows and untouched
    assert_eq!(y.data, vec![3.0 + 6.0, 6.0 + 14.0, 5.0]);
}

#[test]
fn gemv_zero_alpha_only_scales() {
    let a = Matrix::from_data(1, 1, vec![4i32]);
    let x = Vector { data: vec![5i32], size: 1 };
    let mut y = Vector { data: vec![3i32], size: 1 };
    basic_gemv_kernel(&a, &x, &mut y, Some(0), Some(-1));
    assert_eq!(y.data, vec![-3]);
}

/// An element type whose default value is not its zero.
#[derive(Debug, Clone, Copy, PartialEq)]
struct Shifted(i64);

impl Default for Shifted {
    fn default() -> Self {
        Shifted(100)
    }
}

impl From<i8> for Shifted {
    fn from(v: i8) -> Self {
        Shifted(v as i64)
    }
}

impl std::ops::Add for Shifted {
    type Output = Shifted;
    fn add(self, o: Shifted) -> Shifted {
        Shifted(self.0 + o.0)
    }
}

impl std::ops::Sub for Shifted {
    type Output = Shifted;
    fn sub(self, o: Shifted) -> Shifted {
        Shifted(self.0 - o.0)
    }
}

impl std::ops::Mul for Shifted {
    type Output = Shifted;
    fn mul(self, o: Shifted) -> Shifted {
        Shifted(self.0 * o.0)
    }
}

#[test]
fn gemv_row_sums_start_from_the_default() {
    let a = Matrix::from_data(1, 1, vec![Shifted(2)]);
    let x = Vector { data: vec![Shifted(3)], size: 1 };
    let mut y = Vector { data: vec![Shifted(1)], size: 1 };
    basic_gemv_kernel(&a, &x, &mut y, None, None);
    // beta zero clears the element; the row sum is default + 2 * 3
    assert_eq!(y.data, vec![Shifted(106)]);
}
