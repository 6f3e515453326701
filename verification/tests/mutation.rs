use matrixes::errors::IndexError;
use matrixes::errors::SizingError;
use matrixes::Matrix;

#[test]
fn swappers_handles_errors() {
    let mut m = Matrix::<u16>::new_identity(6);

    assert_eq!(m.swap_elements((13, 2), (5, 1)), Err(IndexError::Row(13)));
    assert_eq!(m.swap_elements((0, 8), (3, 4)), Err(IndexError::Column(8)));
    assert_eq!(m.swap_elements((18, 27), (1, 2)), Err(IndexError::Both(18, 27)));
    assert_eq!(m.swap_elements((3, 0), (6, 5)), Err(IndexError::Row(6)));
    assert_eq!(m.swap_elements((4, 3), (3, 9)), Err(IndexError::Column(9)));
    assert_eq!(m.swap_elements((0, 2), (12, 7)), Err(IndexError::Both(12, 7)));
}

#[test]
fn test_swaps_elements() {
    let mut m = Matrix::<i8>::new_identity(3);

    assert_eq!(m.swap_elements((0, 0), (0, 2)), Ok(()));
    assert_eq!(m.data, vec![0, 0, 1, 0, 1, 0, 0, 0, 1]);
}

#[test]
fn swappers_swaps_elements() {
    let mut m = Matrix::<i8>::new_identity(3);

    assert_eq!(m.swap_elements((0, 0), (0, 2)), Ok(()));
    assert_eq!(m.data, vec![0, 0, 1, 0, 1, 0, 0, 0, 1]);
}

#[test]
fn test_swaps_rows() {
    let mut m = Matrix::new_from_data(&vec![
        vec![5, 4, 3, 2, 1],
        vec![1, 2, 3, 4, 5],
        vec![5, 4, 3, 2, 1],
    ])
    .unwrap();

    assert_eq!(m.swap_rows(0, 1), Ok(()));
    assert_eq!(m.data, vec![1, 2, 3, 4, 5, 5, 4, 3, 2, 1, 5, 4, 3, 2, 1]);
}

#[test]
fn swaps_rows() {
    let mut m = Matrix::new_from_data(&vec![
        vec![5, 4, 3, 2, 1],
        vec![1, 2, 3, 4, 5],
        vec![5, 4, 3, 2, 1],
    ])
    .unwrap();

    assert_eq!(m.swap_rows(0, 1), Ok(()));
    assert_eq!(m.data, vec![1, 2, 3, 4, 5, 5, 4, 3, 2, 1, 5, 4, 3, 2, 1]);
}

#[test]
fn test_swaps_columns() {
    let mut m = Matrix::<u8>::new_identity(4);

    assert_eq!(m.swap_columns(0, 2), Ok(()));
    assert_eq!(m.data, vec![0, 0, 1, 0, 0, 1, 0, 0, 1, 0, 0, 0, 0, 0, 0, 1]);
}

#[test]
fn swappers_swaps_columns() {
    let mut m = Matrix::<u8>::new_identity(4);

    assert_eq!(m.swap_columns(0, 2), Ok(()));
    assert_eq!(m.data, vec![0, 0, 1, 0, 0, 1, 0, 0, 1, 0, 0, 0, 0, 0, 0, 1]);
}

#[test]
fn test_scale() {
    let mut m = Matrix::new_from_data(&vec![vec![1, 2, 3], vec![2, 3, 1], vec![3, 1, 2]]).unwrap();
    m.scale(2);

    assert_eq!(m.data, vec![2, 4, 6, 4, 6, 2, 6, 2, 4]);
}

#[test]
fn operations_scale() {
    let mut m = Matrix::new_from_data(&vec![vec![1, 2, 3], vec![2, 3, 1], vec![3, 1, 2]]).unwrap();
    m.scale(2);

    assert_eq!(m.data, vec![2, 4, 6, 4, 6, 2, 6, 2, 4]);
}

#[test]
fn operations_handles_errors() {
    let mut m = Matrix::new_from_data(&vec![vec![1]]).unwrap();

    assert_eq!(m.scale_row(4, 3), Err(IndexError::Row(4)));
}

#[test]
fn test_scales_row() {
    let mut m = Matrix::<u128>::new_identity(2);

    assert_eq!(m.scale_row(0, 3), Ok(()));
    assert_eq!(m.data, vec![3, 0, 0, 1]);
}

#[test]
fn operations_scales_row() {
    let mut m = Matrix::<u128>::new_identity(2);

    assert_eq!(m.scale_row(0, 3), Ok(()));
    assert_eq!(m.data, vec![3, 0, 0, 1]);
}

#[test]
fn test_adds_scaled_row() {
    let mut m =
        Matrix::new_from_data(&vec![vec![1, 0, 1], vec![2, 3, 0], vec![0, 5, 9]]).unwrap();

    assert_eq!(m.add_scaled_row(0, 2, 3), Ok(()));
    assert_eq!(m.data, vec![1, 0, 1, 2, 3, 0, 3, 5, 12]);
}

#[test]
fn operations_adds_scaled_row() {
    let mut m =
        Matrix::new_from_data(&vec![vec![1, 0, 1], vec![2, 3, 0], vec![0, 5, 9]]).unwrap();

    assert_eq!(m.add_scaled_row(0, 2, 3), Ok(()));
    assert_eq!(m.data, vec![1, 0, 1, 2, 3, 0, 3, 5, 12]);
}

#[test]
fn test_scales_column() {
    let mut m = Matrix::<u128>::new_identity(2);

    assert_eq!(m.scale_column(0, 3), Ok(()));
    assert_eq!(m.data, vec![3, 0, 0, 1]);
}

#[test]
fn operations_scales_column() {
    let mut m = Matrix::<u128>::new_identity(2);

    assert_eq!(m.scale_column(0, 3), Ok(()));
    assert_eq!(m.data, vec![3, 0, 0, 1]);
}

#[test]
fn test_adds_scaled_column() {
    let mut m =
        Matrix::new_from_data(&vec![vec![1, 0, 1], vec![2, 3, 0], vec![0, 5, 9]]).unwrap();

    assert_eq!(m.add_scaled_column(0, 2, 3), Ok(()));
    assert_eq!(m.data, vec![1, 0, 4, 2, 3, 6, 0, 5, 9]);
}

#[test]
fn operations_adds_scaled_column() {
    let mut m =
        Matrix::new_from_data(&vec![vec![1, 0, 1], vec![2, 3, 0], vec![0, 5, 9]]).unwrap();

    assert_eq!(m.add_scaled_column(0, 2, 3), Ok(()));
    assert_eq!(m.data, vec![1, 0, 4, 2, 3, 6, 0, 5, 9]);
}

#[test]
fn test_resizes() {
    let mut m = Matrix::new_from_data(&vec![vec![2, 5, 3], vec![9, 1, 6]]).unwrap();

    assert_eq!(m.resize((3, 2)), Ok(()));
    assert_eq!(m.rows, 3);
    assert_eq!(m.columns, 2);

    assert_eq!(m.resize((6, 1)), Ok(()));
    assert_eq!(m.rows, 6);
    assert_eq!(m.columns, 1);

    assert_eq!(m.resize((1, 6)), Ok(()));
    assert_eq!(
        m,
        Matrix {
            data: vec![2, 5, 3, 9, 1, 6],
            rows: 1,
            columns: 6,
        }
    );
}

#[test]
fn operations_resizes() {
    let mut m = Matrix::new_from_data(&vec![vec![2, 5, 3], vec![9, 1, 6]]).unwrap();

    assert_eq!(m.resize((3, 2)), Ok(()));
    assert_eq!(m.rows, 3);
    assert_eq!(m.columns, 2);

    assert_eq!(m.resize((6, 1)), Ok(()));
    assert_eq!(m.rows, 6);
    assert_eq!(m.columns, 1);

    assert_eq!(m.resize((1, 6)), Ok(()));
    assert_eq!(
        m,
        Matrix {
            data: vec![2, 5, 3, 9, 1, 6],
            rows: 1,
            columns: 6,
        }
    );
}

#[test]
fn test_removes_row() {
    let mut m = Matrix::new_from_data(&vec![
        vec![1, 2, 3],
        vec![4, 5, 6],
        vec![7, 8, 9],
        vec![10, 11, 10],
        vec![9, 8, 7],
        vec![6, 5, 4],
        vec![3, 2, 1],
    ])
    .unwrap();

    assert_eq!(m.remove_row(2), Ok(()));
    assert_eq!(
        m,
        Matrix {
            data: vec![1, 2, 3, 4, 5, 6, 10, 11, 10, 9, 8, 7, 6, 5, 4, 3, 2, 1],
            rows: 6,
            columns: 3,
        }
    );
    assert_eq!(m.remove_row(5), Ok(()));
    assert_eq!(
        m,
        Matrix {
            data: vec![1, 2, 3, 4, 5, 6, 10, 11, 10, 9, 8, 7, 6, 5, 4],
            rows: 5,
            columns: 3,
        }
    );
}

#[test]
fn operations_removes_row() {
    let mut m = Matrix::new_from_data(&vec![
        vec![1, 2, 3],
        vec![4, 5, 6],
        vec![7, 8, 9],
        vec![10, 11, 10],
        vec![9, 8, 7],
        vec![6, 5, 4],
        vec![3, 2, 1],
    ])
    .unwrap();

    assert_eq!(m.remove_row(2), Ok(()));
    assert_eq!(
        m,
        Matrix {
            data: vec![1, 2, 3, 4, 5, 6, 10, 11, 10, 9, 8, 7, 6, 5, 4, 3, 2, 1],
            rows: 6,
            columns: 3,
        }
    );
    assert_eq!(m.remove_row(5), Ok(()));
    assert_eq!(
        m,
        Matrix {
            data: vec![1, 2, 3, 4, 5, 6, 10, 11, 10, 9, 8, 7, 6, 5, 4],
            rows: 5,
            columns: 3,
        }
    );
}

#[test]
fn test_inserts_row() {
    let mut m = Matrix::<i8>::new_from_data(&vec![
        vec![1, 2, 3, 4, 5],
        vec![6, 7, 8, 7, 6],
        vec![5, 4, 3, 2, 1],
    ])
    .unwrap();

    assert_eq!(m.insert_row(0, &vec![10, 9, 8, 7, 6]), Ok(()));
    assert_eq!(
        m,
        Matrix {
            data: vec![10, 9, 8, 7, 6, 1, 2, 3, 4, 5, 6, 7, 8, 7, 6, 5, 4, 3, 2, 1],
            rows: 4,
            columns: 5,
        }
    );
    assert_eq!(m.insert_row(4, &vec![2, 4, 6, 8, 10]), Ok(()));
    assert_eq!(
        m,
        Matrix {
            data: vec![
                10, 9, 8, 7, 6, 1, 2, 3, 4, 5, 6, 7, 8, 7, 6, 5, 4, 3, 2, 1, 2, 4, 6, 8, 10
            ],
            rows: 5,
            columns: 5,
        }
    );
}

#[test]
fn operations_inserts_row() {
    let mut m = Matrix::<i8>::new_from_data(&vec![
        vec![1, 2, 3, 4, 5],
        vec![6, 7, 8, 7, 6],
        vec![5, 4, 3, 2, 1],
    ])
    .unwrap();

    assert_eq!(m.insert_row(0, &vec![10, 9, 8, 7, 6]), Ok(()));
    assert_eq!(
        m,
        Matrix {
            data: vec![10, 9, 8, 7, 6, 1, 2, 3, 4, 5, 6, 7, 8, 7, 6, 5, 4, 3, 2, 1],
            rows: 4,
            columns: 5,
        }
    );
    assert_eq!(m.insert_row(4, &vec![2, 4, 6, 8, 10]), Ok(()));
    assert_eq!(
        m,
        Matrix {
            data: vec![
                10, 9, 8, 7, 6, 1, 2, 3, 4, 5, 6, 7, 8, 7, 6, 5, 4, 3, 2, 1, 2, 4, 6, 8, 10
            ],
            rows: 5,
            columns: 5,
        }
    );
}

#[test]
fn test_inserts_column() {
    let mut m = Matrix::new_from_data(&vec![
        vec![1, 4, 7, 10],
        vec![2, 5, 8, 11],
        vec![3, 6, 9, 12],
    ])
    .unwrap();

    assert_eq!(m.insert_column(2, &vec![0, 0, 0]), Ok(()));
    assert_eq!(
        m,
        Matrix {
            data: vec![1, 4, 0, 7, 10, 2, 5, 0, 8, 11, 3, 6, 0, 9, 12],
            rows: 3,
            columns: 5,
        }
    );
    assert_eq!(m.insert_column(2, &vec![0, 0, 0]), Ok(()));
    assert_eq!(
        m,
        Matrix {
            data: vec![1, 4, 0, 0, 7, 10, 2, 5, 0, 0, 8, 11, 3, 6, 0, 0, 9, 12],
            rows: 3,
            columns: 6,
        }
    );
}

#[test]
fn operations_inserts_column() {
    let mut m = Matrix::new_from_data(&vec![
        vec![1, 4, 7, 10],
        vec![2, 5, 8, 11],
        vec![3, 6, 9, 12],
    ])
    .unwrap();

    assert_eq!(m.insert_column(2, &vec![0, 0, 0]), Ok(()));
    assert_eq!(
        m,
        Matrix {
            data: vec![1, 4, 0, 7, 10, 2, 5, 0, 8, 11, 3, 6, 0, 9, 12],
            rows: 3,
            columns: 5,
        }
    );
    assert_eq!(m.insert_column(2, &vec![0, 0, 0]), Ok(()));
    assert_eq!(
        m,
        Matrix {
            data: vec![1, 4, 0, 0, 7, 10, 2, 5, 0, 0, 8, 11, 3, 6, 0, 0, 9, 12],
            rows: 3,
            columns: 6,
        }
    );
}

#[test]
fn test_joins_above() {
    let mut m1 = Matrix::new_identity(2);
    let m2 = Matrix::new_with_data(2, vec![2, 5]).unwrap();

    assert_eq!(m1.join_matrix_above(&m2), Ok(()));
    assert_eq!(
        m1,
        Matrix {
            data: vec![2, 5, 1, 0, 0, 1],
            columns: 2,
            rows: 3,
        }
    );
}

#[test]
fn operations_joins_above() {
    let mut m1 = Matrix::new_identity(2);
    let m2 = Matrix::new_with_data(2, vec![2, 5]).unwrap();

    assert_eq!(m1.join_matrix_above(&m2), Ok(()));
    assert_eq!(
        m1,
        Matrix {
            data: vec![2, 5, 1, 0, 0, 1],
            columns: 2,
            rows: 3,
        }
    );
}

#[test]
fn test_joins_below() {
    let mut m1 = Matrix::new_identity(2);
    let m2 = Matrix::new_with_data(2, vec![2, 5]).unwrap();

    assert_eq!(m1.join_matrix_below(&m2), Ok(()));
    assert_eq!(
        m1,
        Matrix {
            data: vec![1, 0, 0, 1, 2, 5],
            columns: 2,
            rows: 3,
        }
    );
}

#[test]
fn operations_joins_below() {
    let mut m1 = Matrix::new_identity(2);
    let m2 = Matrix::new_with_data(2, vec![2, 5]).unwrap();

    assert_eq!(m1.join_matrix_below(&m2), Ok(()));
    assert_eq!(
        m1,
        Matrix {
            data: vec![1, 0, 0, 1, 2, 5],
            columns: 2,
            rows: 3,
        }
    );
}

#[test]
fn test_joins_left() {
    let mut m1 = Matrix::new_identity(2);
    let m2 = Matrix::new_with_data(1, vec![2, 5]).unwrap();

    assert_eq!(m1.join_matrix_left(&m2), Ok(()));
    assert_eq!(
        m1,
        Matrix {
            data: vec![2, 1, 0, 5, 0, 1],
            columns: 3,
            rows: 2,
        }
    );
}

#[test]
fn operations_joins_left() {
    let mut m1 = Matrix::new_identity(2);
    let m2 = Matrix::new_with_data(1, vec![2, 5]).unwrap();

    assert_eq!(m1.join_matrix_left(&m2), Ok(()));
    assert_eq!(
        m1,
        Matrix {
            data: vec![2, 1, 0, 5, 0, 1],
            columns: 3,
            rows: 2,
        }
    );
}

#[test]
fn joins_left() {
    let mut m1 = Matrix::new_identity(2);
    let m2 = Matrix::new_with_data(1, vec![2, 5]).unwrap();

    assert_eq!(m1.join_matrix_right(&m2), Ok(()));
    assert_eq!(
        m1,
        Matrix {
            data: vec![1, 0, 2, 0, 1, 5],
            columns: 3,
            rows: 2,
        }
    );
}

#[test]
fn swappers_swaps_rows() {
    let mut m = Matrix::new_from_data(&vec![
        vec![5, 4, 3, 2, 1],
        vec![1, 2, 3, 4, 5],
        vec![5, 4, 3, 2, 1],
    ])
    .unwrap();

    assert_eq!(m.swap_rows(0, 1), Ok(()));
    assert_eq!(m.data, vec![1, 2, 3, 4, 5, 5, 4, 3, 2, 1, 5, 4, 3, 2, 1]);
}
