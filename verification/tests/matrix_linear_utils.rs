use slal::matrix::Matrix;

#[test]
fn is_upper_triangular() {
    let m = Matrix::new(&[
        vec![1, 2, 3, 4],
        vec![0, 5, 6, 7],
        vec![0, 0, 8, 9],
        vec![0, 0, 0, 10],
    ])
    .unwrap();

    assert!(m.is_upper_triangular());
}

#[test]
fn not_upper_triangular_size() {
    let m = Matrix::new(&[vec![1, 0, 0, 0], vec![2, 3, 0, 0], vec![4, 5, 6, 0]]).unwrap();

    assert!(!m.is_upper_triangular());
}

#[test]
fn not_upper_triangular() {
    let m = Matrix::new(&[
        vec![1, 0, 0, 1],
        vec![2, 3, 2, 0],
        vec![4, 5, 6, 0],
        vec![7, 8, 9, 10],
    ])
    .unwrap();

    assert!(!m.is_upper_triangular());
}

#[test]
fn is_lower_triangular() {
    let m = Matrix::new(&[
        vec![1, 0, 0, 0],
        vec![2, 3, 0, 0],
        vec![4, 5, 6, 0],
        vec![7, 8, 9, 10],
    ])
    .unwrap();

    assert!(m.is_lower_triangular());
}

#[test]
fn not_lower_triangular_size() {
    let m = Matrix::new(&[vec![1, 2, 3, 4], vec![0, 5, 6, 7], vec![0, 0, 8, 9]]).unwrap();

    assert!(!m.is_lower_triangular());
}

#[test]
fn not_lower_triangular() {
    let m = Matrix::new(&[
        vec![1, 2, 3, 4],
        vec![0, 5, 6, 7],
        vec![0, 1, 8, 9],
        vec![0, 2, 3, 10],
    ])
    .unwrap();

    assert!(!m.is_lower_triangular());
}

#[test]
fn diagonal_matrix() {
    let m = Matrix::diagonal(&[-2, 4, -8, 16]);

    assert!(
        m == Matrix::new(&[
            vec![-2, 0, 0, 0],
            vec![0, 4, 0, 0],
            vec![0, 0, -8, 0],
            vec![0, 0, 0, 16]
        ])
        .unwrap()
    );
}

#[test]
fn is_diagonal() {
    let m = Matrix::new(&[vec![1, 0], vec![0, 2]]).unwrap();

    assert!(m.is_diagonal());
}

#[test]
fn not_diagonal() {
    let m = Matrix::new(&[vec![0x1fffffff, 0x000000], vec![0x2fffffff, 0x3fffffff]]).unwrap();

    assert!(!m.is_diagonal());
}

#[test]
fn determinant_2d() {
    let m = Matrix::new(&[vec![1, 2], vec![3, 4]]).unwrap();

    match m.det() {
        Ok(det) => assert!(det == -2),
        Err(_) => assert!(false),
    }
}

#[test]
fn determinant_3d() {
    let m = Matrix::new(&[vec![1, 2, 3], vec![4, 5, 6], vec![7, 8, 9]]).unwrap();

    match m.det() {
        Ok(det) => {
            let excepted = (45 - 48) - 4 * (18 - 24) + 7 * (12 - 15);

            assert!(det == excepted);
        }
        Err(_) => assert!(false),
    }
}

#[test]
fn determinant_triangular() {
    let m = Matrix::new(&[vec![1, 2], vec![0, 2]]).unwrap();

    match m.det() {
        Ok(det) => assert!(det == 2),
        Err(_) => assert!(false),
    }
}

#[test]
fn determinant_1d() {
    let m = Matrix::new(&[vec![9]]).unwrap();

    match m.det() {
        Ok(det) => assert!(det == 9),
        Err(_) => assert!(false),
    }
}

#[test]
fn determinant_empty() {
    let m = Matrix::empty();

    match m.det() {
        Ok(_) => assert!(false),
        Err(_) => assert!(true),
    }
}

#[test]
fn determinant_not_square() {
    let m = Matrix::new(&[vec![1], vec![2]]).unwrap();

    assert!(m.det().is_err());
}

#[test]
fn cofactor_1d() {
    let m = Matrix {
        m: vec![1],
        size: [1, 1],
    };

    match m.cofactor() {
        Ok(cofactor) => assert!(
            cofactor
                == Matrix {
                    m: vec![1],
                    size: [1, 1],
                }
        ),
        Err(_) => assert!(false),
    }
}

#[test]
fn cofactor_2d() {
    let m = Matrix {
        m: vec![1, 2, 3, 4],
        size: [2, 2],
    };

    match m.cofactor() {
        Ok(cofactor) => assert!(
            cofactor
                == Matrix {
                    m: vec![4, -3, -2, 1],
                    size: [2, 2],
                }
        ),
        Err(_) => assert!(false),
    }
}

#[test]
fn cofactor_3d() {
    let m = Matrix {
        m: vec![1, 2, 3, 4, 5, 6, 7, 8, 9],
        size: [3, 3],
    };

    match m.cofactor() {
        Ok(cofactor) => {
            assert!(
                cofactor
                    == Matrix {
                        m: vec![
                            5 * 9 - 6 * 8,
                            -(4 * 9 - 6 * 7),
                            4 * 8 - 5 * 7,
                            -(2 * 9 - 3 * 8),
                            1 * 9 - 3 * 7,
                            -(1 * 8 - 2 * 7),
                            2 * 6 - 3 * 5,
                            -(1 * 6 - 3 * 4),
                            1 * 5 - 2 * 4,
                        ],
                        size: [3, 3],
                    }
            )
        }
        Err(_) => assert!(false),
    }
}

#[test]
fn cofactor_not_square() {
    let m = Matrix {
        m: vec![1, 2, 3, 1, 4, 9, 1, 16, 81, 1, 32, 241],
        size: [3, 4],
    };

    assert!(m.cofactor().is_err())
}

#[test]
fn cofactor_empty() {
    let m = Matrix::empty();

    assert!(m.cofactor().is_err())
}

#[test]
fn cofactor_determinant_not_exist() {
    let m = Matrix {
        m: vec![
            0, 1, 2, 3, 4, 5, 6, 7, 8, 9, 10, 11, 12, 13, 14, 15, 16, 17, 18, 19, 20, 21, 22, 23,
            24,
        ],
        size: [5, 5],
    };

    assert!(m.cofactor().is_err())
}

#[test]
fn inverse() {
    let m = Matrix {
        m: vec![1, 2, 3, 4],
        size: [2, 2],
    };

    match m.inverse() {
        Ok(_) => assert!(true),
        Err(err) => {
            println!("{:?}", err);
            assert!(false)
        }
    }
}

#[test]
fn inverse_not_square() {
    let m = Matrix {
        m: vec![1, 2, 3, 4],
        size: [1, 4],
    };

    match m.inverse() {
        Ok(_) => assert!(false),
        Err(_) => assert!(true),
    }
}

#[test]
fn inverse_determinant_zero_value() {
    let m = Matrix {
        m: vec![0, 1, 0, 3],
        size: [2, 2],
    };

    match m.inverse() {
        Ok(_) => assert!(false),
        Err(_) => assert!(true),
    }
}
