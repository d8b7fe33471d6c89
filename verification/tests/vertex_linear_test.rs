use slal::matrix::Matrix;
use slal::vertex::Vertex;

#[test]
fn linear_test_mul() {
    let v1 = Vertex::new(&[1, 2, 3]);
    let mut v2 = Vertex::new(&[4, 5, 6]);

    v2.t();

    assert_eq!(v1.mul(&v2), Matrix::new(&[vec![32]]).unwrap());
}

#[test]
fn linear_test_mul_trasposed() {
    let v1 = Vertex::new(&[1, 2, 3]);
    let mut v2 = Vertex::new(&[4, 5, 6]);

    v2.t();

    assert_eq!(
        v2.mul(&v1),
        Matrix::new(&[vec![4, 8, 12], vec![5, 10, 15], vec![6, 12, 18]]).unwrap()
    );
}
