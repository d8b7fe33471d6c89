use slal::matrix::Matrix;

#[test]
fn linear_test_mul_scala() {
    let m = Matrix::new(&[vec![1, 2, 3], vec![-4, -5, -6]]).unwrap();

    assert_eq!(
        m.scale(-3),
        Matrix::new(&[vec![-3, -6, -9], vec![12, 15, 18]]).unwrap()
    );
}

#[test]
fn linear_test_mul_with_scala() {
    let m = Matrix::new(&[vec![2, 3], vec![5, 7]]).unwrap();

    assert_eq!(
        m.scale(4),
        Matrix::new(&[vec![8, 12], vec![20, 28]]).unwrap()
    );
}

#[test]
fn linear_test_dot_scala() {
    let m = Matrix::new(&[vec![1, 1, 2, 3, 5, 8], vec![13, 21, 34, 55, 89, 144]]).unwrap();

    assert_eq!(
        m.scale(2),
        Matrix::new(&[vec![2, 2, 4, 6, 10, 16], vec![26, 42, 68, 110, 178, 288]]).unwrap()
    );
}

#[test]
fn linear_test_dot_with_scala() {
    let m = Matrix::new(&[vec![1, 1, 2, 3, 5, 8], vec![13, 21, 34, 55, 89, 144]]).unwrap();

    assert_eq!(
        m.scale(2),
        Matrix::new(&[vec![2, 2, 4, 6, 10, 16], vec![26, 42, 68, 110, 178, 288]]).unwrap()
    );
}
