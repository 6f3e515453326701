use matrixes::errors::IndexError;
use matrixes::errors::InversionError;
use matrixes::errors::SizingError;
use matrixes::Matrix;

#[test]
fn shape_invariant_survives_mutation() {
    let mut m = Matrix::new_from_data(&vec![vec![1, 2, 3], vec![4, 5, 6]]).unwrap();
    assert_eq!(m.data.len(), m.rows * m.columns);

    assert_eq!(m.insert_row(1, &vec![7, 8, 9]), Ok(()));
    assert_eq!(m.data.len(), m.rows * m.columns);

    assert_eq!(m.insert_column(0, &vec![0, 0, 0]), Ok(()));
    assert_eq!(m.data.len(), m.rows * m.columns);

    assert_eq!(m.remove_column(2), Ok(()));
    assert_eq!(m.data.len(), m.rows * m.columns);

    assert_eq!(m.remove_row(0), Ok(()));
    assert_eq!(m.data.len(), m.rows * m.columns);
    assert_eq!((m.rows == 0), (m.columns == 0));
}

#[test]
fn transpose_twice_restores() {
    let m = Matrix::new_from_data(&vec![vec![1, 2, 3, 4], vec![5, 6, 7, 8]]).unwrap();

    assert_eq!(m.transpose().transpose(), m);
}

#[test]
fn multiplying_by_identity_changes_nothing() {
    let m = Matrix::new_from_data(&vec![vec![3, 1, 4], vec![1, 5, 9]]).unwrap();
    let right = Matrix::<i32>::new_identity(3);
    let left = Matrix::<i32>::new_identity(2);

    assert_eq!((&m * &right).unwrap(), m);
    assert_eq!((&left * &m).unwrap(), m);
}

#[test]
fn determinant_of_identity_is_one() {
    assert_eq!(Matrix::<i64>::new_identity(1).determinant(), Some(1));
    assert_eq!(Matrix::<i64>::new_identity(2).determinant(), Some(1));
    assert_eq!(Matrix::<i64>::new_identity(5).determinant(), Some(1));
}

#[test]
fn inverse_multiplies_back_to_identity() {
    let m = Matrix::new_from_data(&vec![vec![1, -1, 1], vec![2, 3, 0], vec![0, -2, 1]]).unwrap();
    let inv = m.inverse().unwrap();

    assert_eq!((&m * &inv).unwrap(), Matrix::<i32>::new_identity(3));
    assert_eq!((&inv * &m).unwrap(), Matrix::<i32>::new_identity(3));
}

#[test]
fn swapping_rows_twice_restores() {
    let mut m = Matrix::new_from_data(&vec![vec![1, 2], vec![3, 4], vec![5, 6]]).unwrap();
    let original = m.data();

    assert_eq!(m.swap_rows(0, 2), Ok(()));
    assert_eq!(m.swap_rows(0, 2), Ok(()));
    assert_eq!(m.data, original);
}

#[test]
fn swapping_columns_twice_restores() {
    let mut m = Matrix::new_from_data(&vec![vec![1, 2], vec![3, 4], vec![5, 6]]).unwrap();
    let original = m.data();

    assert_eq!(m.swap_columns(0, 1), Ok(()));
    assert_eq!(m.swap_columns(0, 1), Ok(()));
    assert_eq!(m.data, original);
}

#[test]
fn two_by_two_determinant() {
    let m = Matrix::new_from_data(&vec![vec![1, 2], vec![5, 7]]).unwrap();

    assert_eq!(m.determinant(), Some(-3));
}

#[test]
fn identity_minor_is_one() {
    let m = Matrix::<i32>::new_identity(4);

    assert_eq!(m.minor((0, 0)), Ok(1));
}

#[test]
fn empty_buffer_needs_zero_columns() {
    assert_eq!(Matrix::<i32>::new_with_data(0, vec![]), Ok(Matrix::empty()));
    assert_eq!(
        Matrix::new_with_data(0, vec![1, 2]),
        Err(SizingError::Column(0))
    );
}

#[test]
fn inserting_into_empty_sets_the_width() {
    let mut m = Matrix::<i32>::empty();

    assert_eq!(m.insert_row(0, &vec![1, 2, 3]), Ok(()));
    assert_eq!(m.rows, 1);
    assert_eq!(m.columns, 3);
    assert_eq!(m.get_row(0).unwrap(), vec![&1, &2, &3]);
}

#[test]
fn removing_the_last_row_empties_the_matrix() {
    let mut m = Matrix::new_from_data(&vec![vec![1, 2, 3]]).unwrap();

    assert_eq!(m.remove_row(0), Ok(()));
    assert_eq!(m.rows, 0);
    assert_eq!(m.columns, 0);
    assert_eq!(m.data, vec![]);
}

#[test]
fn removing_the_last_column_empties_the_matrix() {
    let mut m = Matrix::new_from_data(&vec![vec![1], vec![2]]).unwrap();

    assert_eq!(m.remove_column(0), Ok(()));
    assert_eq!(m.rows, 0);
    assert_eq!(m.columns, 0);
    assert_eq!(m.data, vec![]);
}

#[test]
fn from_data_rejects_ragged_rows() {
    assert_eq!(
        Matrix::new_from_data(&vec![vec![], vec![1, 5, 6], vec![2, 6, 9]]),
        Err(0)
    );
    assert_eq!(
        Matrix::new_from_data(&vec![
            vec![1, 5, 3, 2, 7],
            vec![1, 2, 45, 7, 3],
            vec![65, 8, 5, 23, 67],
            vec![123, 5, 47]
        ]),
        Err(3)
    );
    assert_eq!(
        Matrix::<&str>::new_from_data(&vec![]),
        Ok(Matrix {
            data: vec![],
            rows: 0,
            columns: 0,
        })
    );
}

#[test]
fn from_closure_builds_row_major() {
    assert_eq!(
        Matrix::new_from_closure(|i, j| i + j, 2, 3),
        Ok(Matrix {
            data: vec![0, 1, 2, 1, 2, 3],
            rows: 2,
            columns: 3,
        })
    );
    assert_eq!(
        Matrix::new_from_closure(|i, _j| i, 0, 6),
        Err(SizingError::Row(0))
    );
    assert_eq!(
        Matrix::new_from_closure(|_i, j| j, 13, 0),
        Err(SizingError::Column(0))
    );
    assert_eq!(
        Matrix::new_from_closure(|i, j| i * j, 0, 0),
        Ok(Matrix::empty())
    );
}

#[test]
fn diagonal_need_not_be_square() {
    assert_eq!(Matrix::new_diagonal(7, 0, 5), Err(SizingError::Row(0)));
    assert_eq!(Matrix::new_diagonal(1250, 4, 0), Err(SizingError::Column(0)));
    assert_eq!(
        Matrix::new_diagonal(1, 5, 3),
        Ok(Matrix {
            data: vec![1, 0, 0, 0, 1, 0, 0, 0, 1, 0, 0, 0, 0, 0, 0],
            rows: 5,
            columns: 3,
        })
    );
    assert_eq!(
        Matrix::new_diagonal(20, 0, 0),
        Ok(Matrix {
            data: vec![],
            rows: 0,
            columns: 0,
        })
    );
}

#[test]
fn of_elem_fills_the_shape() {
    assert_eq!(
        Matrix::of_elem(9, 2, 2),
        Ok(Matrix {
            data: vec![9, 9, 9, 9],
            rows: 2,
            columns: 2,
        })
    );
    assert_eq!(Matrix::of_elem(9, 0, 3), Err(SizingError::Row(0)));
}

#[test]
fn resize_rejects_a_different_size() {
    let mut m = Matrix::new_from_data(&vec![vec![2, 5, 3], vec![9, 1, 6]]).unwrap();

    assert_eq!(m.resize((0, 5)), Err(SizingError::Row(0)));
    assert_eq!(m.resize((2, 0)), Err(SizingError::Column(0)));
    assert_eq!(m.resize((3, 4)), Err(SizingError::Both(3, 4)));
    assert_eq!(m.as_resize((3, 4)), Err(SizingError::Both(3, 4)));
}

#[test]
fn remove_rejects_out_of_bounds() {
    let mut m = Matrix::<u64>::new(10, 7).unwrap();

    assert_eq!(m.remove_row(19), Err(IndexError::Row(19)));
    assert_eq!(m.remove_row(10), Err(IndexError::Row(10)));
    assert_eq!(m.remove_column(9), Err(IndexError::Column(9)));
}

#[test]
fn insert_names_the_failing_axis() {
    let mut m = Matrix::<u128>::new(4, 7).unwrap();

    assert_eq!(
        m.insert_row(9, &vec![1, 2, 3, 4, 5, 6, 7]),
        Err(SizingError::Row(9))
    );
    assert_eq!(
        m.insert_row(3, &vec![1, 2, 3, 4, 5, 6, 7, 8, 9, 10]),
        Err(SizingError::Column(10))
    );
    assert_eq!(
        m.insert_row(20, &vec![3, 5, 12, 3, 56, 7, 8, 4, 2, 1, 6, 23, 1, 7]),
        Err(SizingError::Both(20, 14))
    );
    assert_eq!(m.insert_column(2, &vec![0, 3, 1]), Err(SizingError::Row(3)));
    assert_eq!(
        m.insert_column(32, &vec![0, 1, 2, 3]),
        Err(SizingError::Column(32))
    );
    assert_eq!(
        m.insert_column(22, &vec![2, 4, 6, 8, 1, 3, 5, 7, 9]),
        Err(SizingError::Both(9, 22))
    );
}

#[test]
fn joins_check_the_shared_axis() {
    let mut m1 = Matrix::<i8>::new(2, 9).unwrap();
    let m2 = Matrix::new(3, 5).unwrap();

    assert_eq!(m1.join_matrix_above(&m2), Err(SizingError::Column(5)));
    assert_eq!(m1.join_matrix_below(&m2), Err(SizingError::Column(5)));

    let mut m3 = Matrix::<i8>::new(5, 1).unwrap();
    let m4 = Matrix::new(3, 2).unwrap();

    assert_eq!(m3.join_matrix_left(&m4), Err(SizingError::Row(3)));
    assert_eq!(m3.join_matrix_right(&m4), Err(SizingError::Row(3)));
}

#[test]
fn joining_onto_empty_adopts_the_shape() {
    let other = Matrix::new_from_data(&vec![vec![1, 2], vec![3, 4]]).unwrap();

    let mut m1 = Matrix::<i32>::empty();
    assert_eq!(m1.join_matrix_below(&other), Ok(()));
    assert_eq!(m1, other);

    let mut m2 = Matrix::<i32>::empty();
    assert_eq!(m2.join_matrix_right(&other), Ok(()));
    assert_eq!(m2, other);
}

#[test]
fn area_fails_on_the_first_bad_index() {
    let m = Matrix::new_from_data(&vec![vec![10, 12], vec![20, 22]]).unwrap();

    assert_eq!(m.get_area(0..10, 0..2), None);
    assert_eq!(m.get_area(0..2, 0..15), None);
    assert_eq!(m.get_area(0..0, 0..15).unwrap(), Vec::<Vec<&i32>>::new());
}

#[test]
fn inverse_names_its_errors() {
    let m1 = Matrix::new_from_data(&vec![vec![1, 4], vec![2, 8]]).unwrap();
    let m2 = Matrix::<i16>::new(4, 5).unwrap();

    assert_eq!(m1.inverse(), Err(InversionError::InvalidDeterminant));
    assert_eq!(m2.inverse(), Err(InversionError::NotSquare));
}

#[test]
fn minor_matrix_needs_a_square() {
    let m = Matrix::new_from_data(&vec![vec![1, 2, 31]]).unwrap();

    assert_eq!(m.minor_matrix(), None);
    assert_eq!(m.cofactor(), None);
    assert_eq!(m.adjunct(), None);
    assert_eq!(m.determinant(), None);
}

#[test]
fn map_keeps_the_shape() {
    let m = Matrix::new_from_data(&vec![vec![1, 2], vec![3, 4]]).unwrap();
    let doubled = m.map(|x| x * 2);

    assert_eq!(
        doubled,
        Matrix {
            data: vec![2, 4, 6, 8],
            rows: 2,
            columns: 2,
        }
    );
}

#[test]
fn row_additions_combine_rows() {
    let mut m = Matrix::new_from_data(&vec![vec![1, 2], vec![10, 20]]).unwrap();

    assert_eq!(m.add_rows(0, 1), Ok(()));
    assert_eq!(m.data, vec![1, 2, 11, 22]);
    assert_eq!(m.add_rows(5, 0), Err(IndexError::Row(5)));

    let mut c = Matrix::new_from_data(&vec![vec![1, 2], vec![10, 20]]).unwrap();

    assert_eq!(c.add_cols(0, 1), Ok(()));
    assert_eq!(c.data, vec![1, 3, 10, 30]);
    assert_eq!(c.add_cols(0, 7), Err(IndexError::Column(7)));
}

#[test]
fn swapping_equal_positions_changes_nothing() {
    let mut m = Matrix::new_from_data(&vec![vec![1, 2], vec![3, 4]]).unwrap();

    assert_eq!(m.swap_elements((1, 1), (1, 1)), Ok(()));
    assert_eq!(m.swap_rows(0, 0), Ok(()));
    assert_eq!(m.swap_columns(1, 1), Ok(()));
    assert_eq!(m.data, vec![1, 2, 3, 4]);
}

#[test]
fn elimination_detects_a_singular_matrix() {
    let m1 = Matrix::new_from_data(&vec![vec![1, 4], vec![2, 8]]).unwrap();
    let m2 = Matrix::<i16>::new(4, 5).unwrap();

    assert_eq!(m1.fast_inverse(), Err(InversionError::InvalidDeterminant));
    assert_eq!(m2.fast_inverse(), Err(InversionError::NotSquare));
}

#[test]
fn elimination_inverts_the_identity() {
    let m = Matrix::<i8>::new_identity(6);

    assert_eq!(m.fast_inverse(), Ok(m));
}

#[test]
fn elimination_applies_row_operations() {
    let m = Matrix::new_from_data(&vec![vec![1, 0, 2], vec![0, 1, 1], vec![0, 0, 1]]).unwrap();

    assert_eq!(
        m.fast_inverse(),
        Ok(Matrix {
            data: vec![1, 0, -2, 0, 1, -1, 0, 0, 1],
            rows: 3,
            columns: 3,
        })
    );
}
