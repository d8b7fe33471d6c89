use slal::error::SlalError;
use slal::matrix::{minor, Matrix};
use slal::vertex::Vertex;

#[test]
fn product_shape_follows_operands() {
    let a = Matrix::new(&[vec![1, 2, 3], vec![4, 5, 6]]).unwrap();
    let b = Matrix::new(&[vec![1, 2], vec![3, 4], vec![5, 6]]).unwrap();

    let ab = a.dot(&b).unwrap();
    assert_eq!(ab.size(), (2, 2));
    assert_eq!(
        ab,
        Matrix::new(&[vec![22, 28], vec![49, 64]]).unwrap()
    );

    let ba = b.dot(&a).unwrap();
    assert_eq!(ba.size(), (3, 3));
}

#[test]
fn determinant_agrees_with_transpose() {
    let m = Matrix::new(&[vec![2, 7, 1], vec![0, 3, -1], vec![5, 4, 6]]).unwrap();
    let mut t = Matrix::new(&[vec![2, 7, 1], vec![0, 3, -1], vec![5, 4, 6]]).unwrap();
    t.t();

    assert_eq!(m.det().unwrap(), t.det().unwrap());
}

#[test]
fn transpose_twice_restores_vertex() {
    let mut v = Vertex::new(&[3, 1, 4, 1, 5]);
    let orientation = v.is_transposed();
    let elements = v.to_vec();

    v.t();
    v.t();

    assert_eq!(v.is_transposed(), orientation);
    assert_eq!(v.to_vec(), elements);
}

#[test]
fn transpose_twice_restores_matrix() {
    let original = Matrix::new(&[vec![1, 2, 3], vec![4, 5, 6]]).unwrap();
    let mut m = Matrix::new(&[vec![1, 2, 3], vec![4, 5, 6]]).unwrap();

    m.t();
    m.t();

    assert_eq!(m, original);
}

#[test]
fn triangular_determinant_is_diagonal_product() {
    let upper = Matrix::new(&[
        vec![2, 5, 1, 9],
        vec![0, 3, 8, 2],
        vec![0, 0, -4, 7],
        vec![0, 0, 0, 5],
    ])
    .unwrap();
    assert_eq!(upper.det(), Ok(2 * 3 * -4 * 5));

    let lower = Matrix::new(&[
        vec![6, 0, 0],
        vec![2, -3, 0],
        vec![9, 1, 7],
    ])
    .unwrap();
    assert_eq!(lower.det(), Ok(6 * -3 * 7));
}

#[test]
fn dot_reports_orientation_before_length() {
    let row_a = Vertex::new(&[1, 2, 3]);
    let row_b = Vertex::new(&[4, 5]);
    let mut col_a = Vertex::new(&[1, 2, 3]);
    let mut col_b = Vertex::new(&[4, 5]);
    col_a.t();
    col_b.t();

    // Lengths differ as well, yet the orientation conflict must win.
    assert!(matches!(
        row_a.dot(&row_b),
        Err(SlalError::VertexStateError(_))
    ));
    assert!(matches!(
        col_a.dot(&col_b),
        Err(SlalError::VertexStateError(_))
    ));
}

#[test]
fn outer_product_reports_orientation_before_length() {
    let row_a = Vertex::new(&[1, 2, 3]);
    let row_b = Vertex::new(&[4, 5]);

    assert_eq!(
        row_a.mul_checked(&row_b),
        Err(SlalError::BothVerticesTransposed(false))
    );

    let mut col_a = Vertex::new(&[1, 2, 3]);
    let mut col_b = Vertex::new(&[4, 5]);
    col_a.t();
    col_b.t();

    assert_eq!(
        col_a.mul_checked(&col_b),
        Err(SlalError::BothVerticesTransposed(true))
    );
}

#[test]
fn outer_product_shape_and_entries() {
    let mut left = Vertex::new(&[2, -3]);
    left.t();
    let right = Vertex::new(&[10, 20, 30]);

    let outer = left.mul_checked(&right).unwrap();
    assert_eq!(outer.size(), (3, 2));
    let rows = outer.to_vec();
    for j in 0..2 {
        for i in 0..3 {
            assert_eq!(rows[j][i], left.to_vec()[j] * right.to_vec()[i]);
        }
    }
}

#[test]
fn inverse_round_trip_on_random_matrix() {
    // A random, diagonally dominant integer matrix: well conditioned, with a
    // nonzero determinant and nonzero natural pivots.
    let n = 4usize;
    let mut rows: Vec<Vec<i64>> = Vec::new();
    for j in 0..n {
        let mut row: Vec<i64> = Vec::new();
        for _ in 0..n {
            row.push(rand::random_range(-9..=9i64));
        }
        let off: i64 = row.iter().map(|x| x.abs()).sum();
        row[j] = off + 1 + rand::random_range(0..=9i64);
        rows.push(row);
    }
    let a = Matrix::new(&rows).unwrap();

    let (adjugate, det) = a.inverse().unwrap();
    assert_ne!(det, 0);

    // Exactly: the matrix times its adjugate is the determinant times the
    // identity.
    let product = a.dot(&adjugate).unwrap();
    assert_eq!(product, Matrix::diagonal(&[det, det, det, det]));

    // And in floating point: the matrix times its inverse is the identity
    // within a small tolerance.
    let pv = product.to_vec();
    for j in 0..n {
        for i in 0..n {
            let inv_entry = pv[j][i] as f64 / det as f64;
            let expected = if i == j { 1.0 } else { 0.0 };
            assert!((inv_entry - expected).abs() < 1e-9);
        }
    }
}

#[test]
fn determinant_of_two_by_two() {
    let m = Matrix::new(&[vec![1, 2], vec![3, 4]]).unwrap();

    assert_eq!(m.det(), Ok(-2));
}

#[test]
fn row_dot_column_scenario() {
    let v = Vertex::new(&[1, 2, 3]);
    let mut w = Vertex::new(&[4, 5, 6]);
    w.t();

    assert_eq!(v.dot(&w), Ok(32));
}

#[test]
fn cross_product_scenario() {
    let mut v = Vertex::new(&[1, 2, 3]);
    v.t();
    let w = Vertex::new(&[4, 5, 6]);

    assert_eq!(
        v.cross(&w),
        Ok(Vertex::new(&[2 * 6 - 3 * 5, 3 * 4 - 1 * 6, 1 * 5 - 2 * 4]))
    );
    assert_eq!(v.cross(&w), Ok(Vertex::new(&[-3, 6, -3])));
}

#[test]
fn lower_triangular_scenario() {
    let m = Matrix::new(&[vec![1, 0, 0], vec![2, 3, 0], vec![4, 5, 6]]).unwrap();

    assert!(m.is_lower_triangular());
    assert!(!m.is_upper_triangular());
}

#[test]
fn zero_pivot_reports_not_computable() {
    // Invertible by a pivoted method (it is a permutation of the identity),
    // but its first natural pivot is exactly zero, so the unpivoted
    // decomposition must report the determinant as not computable.
    let m = Matrix::new(&[
        vec![0, 1, 0, 0, 0],
        vec![1, 0, 0, 0, 0],
        vec![0, 0, 1, 0, 0],
        vec![0, 0, 0, 1, 0],
        vec![0, 0, 0, 0, 1],
    ])
    .unwrap();

    assert!(matches!(
        m.det(),
        Err(SlalError::TriangularMatrixNotExist(_))
    ));
}

#[test]
fn minor_deletes_row_and_column() {
    let m = Matrix::new(&[vec![1, 2, 3], vec![4, 5, 6], vec![7, 8, 9]]).unwrap();

    let mn = minor(&m, 1, 0);
    assert_eq!(mn, Matrix::new(&[vec![2, 3], vec![8, 9]]).unwrap());
}

#[test]
fn inner_product_of_empty_vectors() {
    let v = Vertex::empty();
    let mut w = Vertex::empty();
    w.t();

    assert_eq!(v.dot(&w), Ok(0));
}

#[test]
fn length_mismatch_reports_both_lengths() {
    let v = Vertex::new(&[1, 2, 3]);
    let mut w = Vertex::new(&[4, 5]);
    w.t();

    assert_eq!(v.dot(&w), Err(SlalError::UnmatchingVertexLength(3, 2)));
}

#[test]
fn matrix_size_mismatch_reports_both_sides() {
    let a = Matrix::new(&[vec![1, 2], vec![3, 4]]).unwrap();
    let b = Matrix::new(&[vec![1, 2], vec![3, 4], vec![5, 6]]).unwrap();

    assert_eq!(a.dot(&b), Err(SlalError::UnmatchingMatrixSize(2, 3)));
}

#[test]
fn determinant_errors_name_the_shape() {
    let m = Matrix::new(&[vec![1, 2, 3], vec![4, 5, 6]]).unwrap();

    assert_eq!(m.det(), Err(SlalError::NotSquareMatrix(3, 2)));

    let empty = Matrix::empty();
    assert!(matches!(empty.det(), Err(SlalError::EmptyMatrix(_))));
}

#[test]
fn cofactor_carries_the_guilty_minor() {
    // The minor at (0, 0) is singular in every leading block of size three,
    // so its determinant is not computable and the failure must carry it.
    let m = Matrix {
        m: vec![
            0, 1, 2, 3, 4, 5, 6, 7, 8, 9, 10, 11, 12, 13, 14, 15, 16, 17, 18, 19, 20, 21, 22, 23,
            24,
        ],
        size: [5, 5],
    };

    match m.cofactor() {
        Err(SlalError::TriangularMatrixNotExist(guilty)) => {
            assert_eq!(guilty.size(), (4, 4));
        }
        _ => assert!(false),
    }
}

#[test]
fn scaling_by_zero_empties_every_entry() {
    let m = Matrix::new(&[vec![3, -7], vec![11, 13]]).unwrap();

    assert_eq!(m.scale(0), Matrix::new(&[vec![0, 0], vec![0, 0]]).unwrap());
}

#[test]
fn new_transposed() {
    let m_t = Matrix::new_transposed(&[vec![1, 2, 3], vec![10, 20, 30]]).unwrap();

    assert!(
        m_t == Matrix {
            m: vec![1, 10, 2, 20, 3, 30],
            size: [2, 3],
        }
    );
}

#[test]
fn set_matrix_validates_like_construction() {
    let mut m = Matrix::new(&[vec![1, 2]]).unwrap();

    assert!(matches!(
        m.set_matrix(&[]),
        Err(SlalError::MatrixUpdateError(_))
    ));
    assert!(matches!(
        m.set_matrix(&[vec![]]),
        Err(SlalError::MatrixUpdateError(_))
    ));
    // A failed update leaves the matrix untouched.
    assert_eq!(m, Matrix::new(&[vec![1, 2]]).unwrap());
}

#[test]
fn checked_product_of_row_and_column_is_inner() {
    let v = Vertex::new(&[1, 2, 3]);
    let mut w = Vertex::new(&[4, 5, 6]);
    w.t();

    assert_eq!(
        v.mul_checked(&w),
        Ok(Matrix {
            m: vec![32],
            size: [1, 1],
        })
    );
}
