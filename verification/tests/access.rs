use matrixes::errors::IndexError;
use matrixes::Matrix;

#[test]
fn data() {
    let m = Matrix::<u16>::new(12, 5).unwrap();

    assert_eq!(m.data(), vec![0; 60]);
}

#[test]
fn test_rows() {
    let m = Matrix::<u16>::new(9, 3).unwrap();

    assert_eq!(m.rows(), 9);
}

#[test]
fn getters_rows() {
    let m = Matrix::<u16>::new(9, 3).unwrap();

    assert_eq!(m.rows(), 9);
}

#[test]
fn test_columns() {
    let m = Matrix::<u16>::new(2, 4).unwrap();

    assert_eq!(m.columns(), 4);
}

#[test]
fn getters_columns() {
    let m = Matrix::<u16>::new(2, 4).unwrap();

    assert_eq!(m.columns(), 4);
}

#[test]
fn test_size() {
    let m1 = Matrix::<i32>::new(9, 16).unwrap();
    let m2 = Matrix::<u32>::new_identity(12);

    assert_eq!(m1.size(), 144);
    assert_eq!(m2.size(), 144);
}

#[test]
fn getters_size() {
    let m1 = Matrix::<i32>::new(9, 16).unwrap();
    let m2 = Matrix::<u32>::new_identity(12);

    assert_eq!(m1.size(), 144);
    assert_eq!(m2.size(), 144);
}

#[test]
fn test_is_square() {
    let m1 = Matrix::<u16>::new(6, 2).unwrap();
    let m2 = Matrix::<i8>::new(3, 3).unwrap();
    let m3 = Matrix::<u32>::new_identity(4);

    assert!(!m1.is_square());
    assert!(m2.is_square());
    assert!(m3.is_square());
}

#[test]
fn getters_is_square() {
    let m1 = Matrix::<u16>::new(6, 2).unwrap();
    let m2 = Matrix::<i8>::new(3, 3).unwrap();
    let m3 = Matrix::<u32>::new_identity(4);

    assert!(!m1.is_square());
    assert!(m2.is_square());
    assert!(m3.is_square());
}

#[test]
fn getters_handles_errors() {
    let m = Matrix::<i8>::new(5, 3).unwrap();

    assert_eq!(m.get(12, 8), Err(IndexError::Both(12, 8)));
    assert_eq!(m.get(5, 2), Err(IndexError::Row(5)));
    assert_eq!(m.get(0, 19), Err(IndexError::Column(19)));
}

#[test]
fn test_gets_element() {
    let m = Matrix::new_from_closure(|i, j| i * j, 12, 7).unwrap();

    for r in 0..m.rows {
        for c in 0..m.columns {
            assert_eq!(m.get(r, c), Ok(&m[(r, c)]));
        }
    }
}

#[test]
fn getters_gets_element() {
    let m = Matrix::new_from_closure(|i, j| i * j, 12, 7).unwrap();

    for r in 0..m.rows {
        for c in 0..m.columns {
            assert_eq!(m.get(r, c), Ok(&m[(r, c)]));
        }
    }
}

#[test]
fn test_gets_row() {
    let m = Matrix::<i32>::new_identity(5);

    assert_eq!(m.get_row(3).unwrap(), vec![&0i32, &0, &0, &1, &0]);
}

#[test]
fn getters_gets_row() {
    let m = Matrix::<i32>::new_identity(5);

    assert_eq!(m.get_row(3).unwrap(), vec![&0i32, &0, &0, &1, &0]);
}

#[test]
fn test_gets_rows() {
    let m = Matrix::<u64>::new_identity(7);

    assert_eq!(
        m.get_rows(1..4).unwrap(),
        vec![
            vec![&0, &1, &0, &0, &0, &0, &0],
            vec![&0, &0, &1, &0, &0, &0, &0],
            vec![&0, &0, &0, &1, &0, &0, &0]
        ]
    )
}

#[test]
fn getters_gets_rows() {
    let m = Matrix::<u64>::new_identity(7);

    assert_eq!(
        m.get_rows(1..4).unwrap(),
        vec![
            vec![&0, &1, &0, &0, &0, &0, &0],
            vec![&0, &0, &1, &0, &0, &0, &0],
            vec![&0, &0, &0, &1, &0, &0, &0]
        ]
    )
}

#[test]
fn test_gets_column() {
    let m = Matrix::new_from_data(&vec![
        vec![1, 2, 3, 4, 5],
        vec![6, 7, 8, 7, 6],
        vec![5, 4, 3, 2, 1],
    ])
    .unwrap();

    assert_eq!(m.get_column(3).unwrap(), vec![&4, &7, &2]);
}

#[test]
fn getters_gets_column() {
    let m = Matrix::new_from_data(&vec![
        vec![1, 2, 3, 4, 5],
        vec![6, 7, 8, 7, 6],
        vec![5, 4, 3, 2, 1],
    ])
    .unwrap();

    assert_eq!(m.get_column(3).unwrap(), vec![&4, &7, &2]);
}

#[test]
fn test_gets_columns() {
    let m = Matrix::new_from_data(&vec![
        vec![1, 2, 3, 4, 5],
        vec![6, 7, 8, 7, 6],
        vec![5, 4, 3, 2, 1],
    ])
    .unwrap();

    assert_eq!(
        m.get_columns(2..4).unwrap(),
        vec![vec![&3, &8, &3], vec![&4, &7, &2]]
    );
}

#[test]
fn getters_gets_columns() {
    let m = Matrix::new_from_data(&vec![
        vec![1, 2, 3, 4, 5],
        vec![6, 7, 8, 7, 6],
        vec![5, 4, 3, 2, 1],
    ])
    .unwrap();

    assert_eq!(
        m.get_columns(2..4).unwrap(),
        vec![vec![&3, &8, &3], vec![&4, &7, &2]]
    );
}

#[test]
fn gets_area() {
    let m = Matrix::new_from_data(&vec![vec![10, 12, 14], vec![20, 22, 24], vec![30, 32, 34]])
        .unwrap();

    assert_eq!(
        m.get_area(0..3, 0..3).unwrap(),
        vec![
            vec![&10, &12, &14],
            vec![&20, &22, &24],
            vec![&30, &32, &34]
        ]
    );
}

#[test]
fn data_mut() {
    let mut m = Matrix::new_identity(2);
    let data = m.data_mut();

    assert_eq!(data, &mut vec![1, 0, 0, 1]);

    data[1] = 5;

    assert_eq!(m.data, vec![1, 5, 0, 1]);
}

#[test]
fn mut_getters_handles_errors() {
    let mut m = Matrix::<i8>::new(5, 3).unwrap();

    assert_eq!(m.get_mut(12, 8), Err(IndexError::Both(12, 8)));
    assert_eq!(m.get_mut(5, 2), Err(IndexError::Row(5)));
    assert_eq!(m.get_mut(0, 19), Err(IndexError::Column(19)));
}

#[test]
fn gets_element() {
    let mut m = Matrix::new_from_closure(|i, j| i * j, 12, 7).unwrap();

    for r in 0..m.rows {
        for c in 0..m.columns {
            *m.get_mut(r, c).unwrap() = 13;
        }
    }

    for r in 0..m.rows {
        for c in 0..m.columns {
            assert_eq!(m[(r, c)], 13);
        }
    }
}

#[test]
fn mut_getters_gets_element() {
    let mut m = Matrix::new_from_closure(|i, j| i * j, 12, 7).unwrap();

    for r in 0..m.rows {
        for c in 0..m.columns {
            *m.get_mut(r, c).unwrap() = 13;
        }
    }

    for r in 0..m.rows {
        for c in 0..m.columns {
            assert_eq!(m[(r, c)], 13);
        }
    }
}

#[test]
fn test_index() {
    let m = Matrix::new_from_data(&vec![
        vec![2, 5, 7, 2, 1],
        vec![8, 0, 5, 3, 6],
        vec![6, 4, 3, 6, 7],
        vec![1, 7, 9, 3, 4],
    ])
    .unwrap();

    assert_eq!(m[(3, 4)], 4);
    assert_eq!(m[(1, 2)], 5);
    assert_eq!(m[(3, 1)], 7);
    assert_eq!(m[(0, 3)], 2);
}

#[test]
fn traits_index() {
    let m = Matrix::new_from_data(&vec![
        vec![2, 5, 7, 2, 1],
        vec![8, 0, 5, 3, 6],
        vec![6, 4, 3, 6, 7],
        vec![1, 7, 9, 3, 4],
    ])
    .unwrap();

    assert_eq!(m[(3, 4)], 4);
    assert_eq!(m[(1, 2)], 5);
    assert_eq!(m[(3, 1)], 7);
    assert_eq!(m[(0, 3)], 2);
}
