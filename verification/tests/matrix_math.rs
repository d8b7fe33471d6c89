use slal::matrix::Matrix;

#[test]
fn add() {
    let m = Matrix::new(&[vec![1, 2, 3], vec![11, 12, 13]]).unwrap();
    let n = Matrix::new(&[vec![21, 22, 23], vec![31, 32, 33]]).unwrap();

    assert_eq!(
        m.add(&n),
        Matrix {
            m: vec![22, 24, 26, 42, 44, 46],
            size: [3, 2]
        }
    );
}

#[test]
fn sub() {
    let m = Matrix::new(&[vec![1, 2, 3], vec![11, 12, 13]]).unwrap();
    let n = Matrix::new(&[vec![21, 22, 23], vec![31, 32, 33]]).unwrap();

    assert_eq!(
        m.sub(&n),
        Matrix {
            m: vec![-20, -20, -20, -20, -20, -20],
            size: [3, 2]
        }
    );
}
