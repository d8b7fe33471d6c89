use slal::matrix::Matrix;
use slal::vertex::Vertex;

#[test]
fn mul_scala() {
    let v = Vertex::new(&[1, 2, 3]);

    assert_eq!(v.scale(-3), Vertex::new(&[-3, -6, -9]));
}

#[test]
fn mul_with_scala() {
    let v = Vertex::new(&[1, 2, 3]);

    assert_eq!(v.scale(3), Vertex::new(&[3, 6, 9]));
}

#[test]
fn mul() {
    let v1 = Vertex::new(&[1, 2, 3]);
    let mut v2 = Vertex::new(&[4, 5, 6]);

    v2.t();

    assert_eq!(v1.mul(&v2), Matrix::new(&[vec![32]]).unwrap());
}

#[test]
fn mul_trasposed() {
    let v1 = Vertex::new(&[1, 2, 3]);
    let mut v2 = Vertex::new(&[4, 5, 6]);

    v2.t();

    assert_eq!(
        v2.mul(&v1),
        Matrix::new(&[vec![4, 8, 12], vec![5, 10, 15], vec![6, 12, 18]]).unwrap()
    );
}

#[test]
fn dot_scala() {
    let v = Vertex::new(&[1, 2, 3]);
    let scala: i64 = 3;

    assert!(v.scale(scala) == Vertex::new(&[3, 6, 9]))
}

#[test]
fn dot_with_scala() {
    let v = Vertex::new(&[1, 2, 3]);
    let scala: i64 = -4;

    assert!(v.scale(scala) == Vertex::new(&[-4, -8, -12]))
}

#[test]
fn dot_vertex() {
    let v = Vertex::new(&[1, 2, 3]);
    let mut w = Vertex::new(&[1, 4, 9]);

    w.t();

    assert!(v.dot(&w) == Ok(1 + 8 + 27))
}

#[test]
fn dot_vertex_invalid() {
    let v = Vertex::new(&[1, 2, 3]);
    let w = Vertex::new(&[1, 4, 27, 64]);

    assert!(match v.dot(&w) {
        Ok(_) => false,
        Err(_) => true,
    })
}

#[test]
fn cross() {
    let mut v = Vertex::new(&[1, 2, 3]);
    let w = Vertex::new(&[1, 8, 27]);

    v.t();

    assert!(
        v.cross(&w)
            == Ok(Vertex::new(&[
                2 * 27 - 3 * 8,
                3 * 1 - 1 * 27,
                1 * 8 - 2 * 1
            ]))
    )
}

#[test]
fn cross_invalid() {
    let mut v = Vertex::new(&[0, 1, 2, 3]);
    let w = Vertex::new(&[1, 8, 27]);

    v.t();

    assert!(match v.cross(&w) {
        Ok(_) => false,
        Err(_) => true,
    })
}

#[test]
fn inner() {
    let v = Vertex {
        v: vec![1, 2, 3, 4],
        vertical: false,
    };

    assert!(v.inner() == 1 + 4 + 9 + 16)
}
