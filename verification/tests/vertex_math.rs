use slal::vertex::Vertex;

#[test]
fn add_i8() {
    let v = Vertex::new(&[1, 2, 3]);
    let w = Vertex::new(&[4, 5, 6]);

    assert_eq!(v.add(&w), Vertex::new(&[5, 7, 9]));
}

#[test]
fn add_u8() {
    let v = Vertex::new(&[1, 2, 3]);
    let w = Vertex::new(&[4, 5, 6]);

    assert_eq!(v.add(&w), Vertex::new(&[5, 7, 9]));
}

#[test]
fn add_i16() {
    let v = Vertex::new(&[1, 2, 3]);
    let w = Vertex::new(&[4, 5, 6]);

    assert_eq!(v.add(&w), Vertex::new(&[5, 7, 9]));
}

#[test]
fn add_u16() {
    let v = Vertex::new(&[1, 2, 3]);
    let w = Vertex::new(&[4, 5, 6]);

    assert_eq!(v.add(&w), Vertex::new(&[5, 7, 9]));
}

#[test]
fn add_i32() {
    let v = Vertex::new(&[1, 2, 3]);
    let w = Vertex::new(&[4, 5, 6]);

    assert_eq!(v.add(&w), Vertex::new(&[5, 7, 9]));
}

#[test]
fn add_u32() {
    let v = Vertex::new(&[1, 2, 3]);
    let w = Vertex::new(&[4, 5, 6]);

    assert_eq!(v.add(&w), Vertex::new(&[5, 7, 9]));
}

#[test]
fn add_i64() {
    let v = Vertex::new(&[1, 2, 3]);
    let w = Vertex::new(&[4, 5, 6]);

    assert_eq!(v.add(&w), Vertex::new(&[5, 7, 9]));
}

#[test]
fn add_u64() {
    let v = Vertex::new(&[1, 2, 3]);
    let w = Vertex::new(&[4, 5, 6]);

    assert_eq!(v.add(&w), Vertex::new(&[5, 7, 9]));
}

#[test]
fn add_i128() {
    let v = Vertex::new(&[1, 2, 3]);
    let w = Vertex::new(&[4, 5, 6]);

    assert_eq!(v.add(&w), Vertex::new(&[5, 7, 9]));
}

#[test]
fn add_u128() {
    let v = Vertex::new(&[1, 2, 3]);
    let w = Vertex::new(&[4, 5, 6]);

    assert_eq!(v.add(&w), Vertex::new(&[5, 7, 9]));
}

#[test]
fn add_isize() {
    let v = Vertex::new(&[1, 2, 3]);
    let w = Vertex::new(&[4, 5, 6]);

    assert_eq!(v.add(&w), Vertex::new(&[5, 7, 9]));
}

#[test]
fn add_usize() {
    let v = Vertex::new(&[1, 2, 3]);
    let w = Vertex::new(&[4, 5, 6]);

    assert_eq!(v.add(&w), Vertex::new(&[5, 7, 9]));
}

#[test]
fn sub_i8() {
    let v = Vertex::new(&[1, 2, 3]);
    let w = Vertex::new(&[4, 5, 6]);

    assert_eq!(v.sub(&w), Vertex::new(&[-3, -3, -3]));
}

#[test]
fn sub_u8() {
    let v = Vertex::new(&[1, 2, 3]);
    let w = Vertex::new(&[4, 5, 6]);

    assert_eq!(w.sub(&v), Vertex::new(&[3, 3, 3]));
}

#[test]
fn sub_i16() {
    let v = Vertex::new(&[1, 2, 3]);
    let w = Vertex::new(&[4, 5, 6]);

    assert_eq!(v.sub(&w), Vertex::new(&[-3, -3, -3]));
}

#[test]
fn sub_u16() {
    let v = Vertex::new(&[1, 2, 3]);
    let w = Vertex::new(&[4, 5, 6]);

    assert_eq!(w.sub(&v), Vertex::new(&[3, 3, 3]));
}

#[test]
fn sub_i32() {
    let v = Vertex::new(&[1, 2, 3]);
    let w = Vertex::new(&[4, 5, 6]);

    assert_eq!(v.sub(&w), Vertex::new(&[-3, -3, -3]));
}

#[test]
fn sub_u32() {
    let v = Vertex::new(&[1, 2, 3]);
    let w = Vertex::new(&[4, 5, 6]);

    assert_eq!(w.sub(&v), Vertex::new(&[3, 3, 3]));
}

#[test]
fn sub_i64() {
    let v = Vertex::new(&[1, 2, 3]);
    let w = Vertex::new(&[4, 5, 6]);

    assert_eq!(v.sub(&w), Vertex::new(&[-3, -3, -3]));
}

#[test]
fn sub_u64() {
    let v = Vertex::new(&[1, 2, 3]);
    let w = Vertex::new(&[4, 5, 6]);

    assert_eq!(w.sub(&v), Vertex::new(&[3, 3, 3]));
}

#[test]
fn sub_i128() {
    let v = Vertex::new(&[1, 2, 3]);
    let w = Vertex::new(&[4, 5, 6]);

    assert_eq!(v.sub(&w), Vertex::new(&[-3, -3, -3]));
}

#[test]
fn sub_u128() {
    let v = Vertex::new(&[1, 2, 3]);
    let w = Vertex::new(&[4, 5, 6]);

    assert_eq!(w.sub(&v), Vertex::new(&[3, 3, 3]));
}

#[test]
fn sub_isize() {
    let v = Vertex::new(&[1, 2, 3]);
    let w = Vertex::new(&[4, 5, 6]);

    assert_eq!(v.sub(&w), Vertex::new(&[-3, -3, -3]));
}

#[test]
fn sub_usize() {
    let v = Vertex::new(&[1, 2, 3]);
    let w = Vertex::new(&[4, 5, 6]);

    assert_eq!(w.sub(&v), Vertex::new(&[3, 3, 3]));
}
