use ferrum::frontend::matrix::MatrixRead;
use ferrum::frontend::views::{ColView, MatrixView, MatrixViewMut, RowView, RowViewMut};

#[test]
fn frontend_views_read_through_strides() {
    let data = vec![1, 2, 3, 4, 5, 6, 7, 8, 9];
    let v = MatrixView { rows: 2, cols: 2, data: &data, offset: 4, row_stride: 3, col_stride: 1 };
    assert_eq!((v.rows(), v.cols()), (2, 2));
    assert_eq!(*v.get(0, 0), 5);
    assert_eq!(*v.get(1, 1), 9);

    let r = RowView { cols: 3, data: &data, offset: 3, col_stride: 1 };
    assert_eq!((r.rows(), r.cols()), (1, 3));
    assert_eq!(*r.get(0, 2), 6);
    // the row index is not read
    assert_eq!(*r.get(5, 2), 6);

    let c = ColView { rows: 3, data: &data, offset: 1, row_stride: 3 };
    assert_eq!((c.rows(), c.cols()), (3, 1));
    assert_eq!(*c.get(2, 0), 8);
    assert_eq!(*c.get(2, 7), 8);
}

#[test]
fn frontend_mutable_views_read_too() {
    let mut data = vec![1, 2, 3, 4];
    {
        let v = MatrixViewMut { rows: 2, cols: 2, data: &mut data, offset: 0, row_stride: 1, col_stride: 2 };
        // column-major reading of a row-major block
        assert_eq!(*v.get(0, 1), 3);
        assert_eq!(*v.get(1, 0), 2);
    }
    let r = RowViewMut { cols: 2, data: &mut data, offset: 2, col_stride: 1 };
    assert_eq!(*r.get(0, 1), 4);
}
