use slal::vertex::Vertex;

#[test]
fn i8_vertex() {
    let v = Vertex::new(&[1, 2, 3]);

    assert_eq!(v, Vertex::new(&[1, 2, 3]));
}

#[test]
fn u8_vertex() {
    let v = Vertex::new(&[1, 2, 3]);

    assert_eq!(v, Vertex::new(&[1, 2, 3]));
}

#[test]
fn i16_vertex() {
    let v = Vertex::new(&[1, 2, 3]);

    assert_eq!(v, Vertex::new(&[1, 2, 3]));
}

#[test]
fn u16_vertex() {
    let v = Vertex::new(&[1, 2, 3]);

    assert_eq!(v, Vertex::new(&[1, 2, 3]));
}

#[test]
fn i32_vertex() {
    let v = Vertex::new(&[1, 2, 3]);

    assert_eq!(v, Vertex::new(&[1, 2, 3]));
}

#[test]
fn u32_vertex() {
    let v = Vertex::new(&[1, 2, 3]);

    assert_eq!(v, Vertex::new(&[1, 2, 3]));
}

#[test]
fn i64_vertex() {
    let v = Vertex::new(&[1, 2, 3]);

    assert_eq!(v, Vertex::new(&[1, 2, 3]));
}

#[test]
fn u64_vertex() {
    let v = Vertex::new(&[1, 2, 3]);

    assert_eq!(v, Vertex::new(&[1, 2, 3]));
}

#[test]
fn i128_vertex() {
    let v = Vertex::new(&[1, 2, 3]);

    assert_eq!(v, Vertex::new(&[1, 2, 3]));
}

#[test]
fn u128_vertex() {
    let v = Vertex::new(&[1, 2, 3]);

    assert_eq!(v, Vertex::new(&[1, 2, 3]));
}

#[test]
fn isize_vertex() {
    let v = Vertex::new(&[1, 2, 3]);

    assert_eq!(v, Vertex::new(&[1, 2, 3]));
}

#[test]
fn usize_vertex() {
    let v = Vertex::new(&[1, 2, 3]);

    assert_eq!(v, Vertex::new(&[1, 2, 3]));
}

#[test]
fn mod_empty() {
    let v = Vertex::empty();

    assert_eq!(v, Vertex::new(&[]));
}

#[test]
fn mod_is_empty() {
    let v = Vertex::empty();

    assert!(v.is_empty());
}

#[test]
fn is_transposed() {
    let mut v = Vertex::new(&[1, 2, 3]);
    v.t();

    assert!(v.is_transposed());
}

#[test]
fn len() {
    let v = Vertex::new(&[1, 2, 3, 4, 5, 6]);

    assert_eq!(v.len(), 6);
}

#[test]
fn set_vertex() {
    let mut v = Vertex::new(&[1, 2, 3]);
    v.set_vertex(&[30, 40, 50]);

    assert_eq!(v, Vertex::new(&[30, 40, 50]));
}

#[test]
fn mod_transpose() {
    let mut v = Vertex::new(&[1, 2, 3]);
    v.t();

    assert_eq!(
        v,
        Vertex {
            v: vec![1, 2, 3],
            vertical: true
        }
    );
}

#[test]
fn mod_to_vec() {
    let v = Vertex::new(&[1 << 1, 1 << 11, 1 << 21]);

    assert_eq!(v.to_vec(), vec![1 << 1, 1 << 11, 1 << 21]);
}
