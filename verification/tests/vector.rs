use ferrum::dense::vector::{Vector, VectorRead, VectorWrite};

#[test]
fn test_vector_addition() {
    let v1 = Vector { data: vec![1, 2, 3], size: 3 };
    let v2 = Vector { data: vec![4, 5, 6], size: 3 };
    let result = &v1 + &v2;
    assert_eq!(result.data, vec![5, 7, 9]);
}

#[test]
fn test_vector_subtraction() {
    let v1 = Vector { data: vec![5, 7, 9], size: 3 };
    let v2 = Vector { data: vec![1, 2, 3], size: 3 };
    let result = &v1 - &v2;
    assert_eq!(result.data, vec![4, 5, 6]);
}

#[test]
fn test_scalar_multiplication() {
    let v = Vector { data: vec![1, 2, 3], size: 3 };
    let scalar = 2;
    let result = &v * scalar;
    assert_eq!(result.data, vec![2, 4, 6]);
}

#[test]
fn test_dot_product() {
    let v1 = Vector { data: vec![1, 2, 3], size: 3 };
    let v2 = Vector { data: vec![4, 5, 6], size: 3 };
    let result = v1.dot(&v2);
    assert_eq!(result, 32);
}

#[test]
fn new_vector_reports_size_and_holds_nothing() {
    let v: Vector<i32> = Vector::new(4);
    assert_eq!(v.size(), 4);
    assert!(v.data.is_empty());
}

#[test]
fn dot_of_single_elements() {
    let v1 = Vector { data: vec![-3i64], size: 1 };
    let v2 = Vector { data: vec![7i64], size: 1 };
    assert_eq!(v1.dot(&v2), -21);
}

#[test]
fn vector_accumulate_adds_in_place() {
    let mut v = Vector { data: vec![1, 2, 3], size: 3 };
    v.accumulate(1, 10);
    *v.get_mut(2) = 0;
    assert_eq!(v.data, vec![1, 12, 0]);
    assert_eq!(*v.get(1), 12);
}
