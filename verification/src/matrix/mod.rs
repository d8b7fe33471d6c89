use vstd::prelude::*;

use crate::error::{SlalErr, SlalError};

pub mod determinant;
pub mod linear_arithmatic;
pub mod linear_utils;
pub mod math;

pub use linear_utils::minor;

verus! {

pub const EMPTY_MATRIX_ON_INITIALIZATION: &'static str = "Cannot create matrix of size (0, 0)";

pub const EMPTY_HORIZONTAL_VECTOR_ON_INITIALIZATION: &'static str =
    "Cannot create matrix of size (0, y)";

pub const DIFFERENT_HORIZONTAL_VECTOR_IN_MATRIX: &'static str =
    "Cannot create matrix with different horizontal size";

pub const EMPTY_MATRIX_ON_UPDATE: &'static str = "Cannot update matrix to size (0, 0)";

pub const EMPTY_HORIZONTAL_VECTOR_ON_UPDATE: &'static str = "Cannot update matrix to size (0, y)";

pub const DIFFERENT_HORIZONTAL_VECTOR_IN_MATRIX_ON_UPDATE: &'static str =
    "Cannot update matrix with different horizontal size";

/// Two-dimensional numeric container: a flat row-major buffer plus its shape.
/// `size[0]` is the width (number of columns), `size[1]` the height (number
/// of rows); the element at row `j`, column `i` lives at `j * size[0] + i`.
#[derive(Debug, Clone, PartialEq)]
pub struct Matrix {
    pub m: Vec<i64>,
    pub size: [usize; 2],
}

/// How an attempt to assemble a buffer from a list of rows can fail.
enum RowsFault {
    /// No rows were given at all.
    NoRows,
    /// The first row is empty.
    EmptyRow,
    /// Some row's length differs from the first row's.
    Ragged,
}

/// All rows have the same length as the first one.
pub open spec fn rows_rectangular(rs: Seq<Vec<i64>>) -> bool {
    forall|j: int| 0 <= j < rs.len() ==> (#[trigger] rs[j])@.len() == rs[0]@.len()
}

/// A list of rows from which a matrix can be built: at least one row, a
/// nonempty first row, and all rows of one length.
pub open spec fn rows_valid(rs: Seq<Vec<i64>>) -> bool {
    rs.len() > 0 && rs[0]@.len() > 0 && rows_rectangular(rs)
}

/// The matrix read as a sequence of `w`-column rows, transposed: entry
/// `(i, j)` of the result is entry `(j, i)` of the argument.
pub open spec fn transpose_rows(r: Seq<Seq<i64>>, w: int) -> Seq<Seq<i64>> {
    Seq::new(w as nat, |i: int| Seq::new(r.len(), |j: int| r[j][i]))
}

/// A row-major position is within the flat buffer.
pub proof fn lemma_row_major_bounds(w: int, h: int, j: int, i: int)
    by (nonlinear_arith)
    requires
        0 <= i < w,
        0 <= j < h,
    ensures
        0 <= j * w + i,
        j * w + i < h * w,
{
}

impl Matrix {
    /// Number of columns.
    pub open spec fn width(self) -> int {
        self.size[0] as int
    }

    /// Number of rows.
    pub open spec fn height(self) -> int {
        self.size[1] as int
    }

    /// The structural invariant: the buffer holds exactly width times height
    /// elements, and the only shape with an empty buffer is `(0, 0)`.
    pub open spec fn wf(self) -> bool {
        self.m@.len() == self.height() * self.width() && (self.width() == 0 <==> self.height()
            == 0)
    }

    /// The element at row `j`, column `i`.
    pub open spec fn ent(self, j: int, i: int) -> i64 {
        self.m@[j * self.width() + i]
    }

    /// The matrix as a sequence of rows, each a sequence of elements.
    pub open spec fn rows(self) -> Seq<Seq<i64>> {
        Seq::new(
            self.height() as nat,
            |j: int| Seq::new(self.width() as nat, |i: int| self.ent(j, i)),
        )
    }

    pub open spec fn is_empty_spec(self) -> bool {
        self.width() == 0 && self.height() == 0
    }

    pub open spec fn is_square_spec(self) -> bool {
        self.width() == self.height() && !self.is_empty_spec()
    }

    /// Assemble a flat row-major buffer from a list of rows, reporting which
    /// validation failed.
    fn assemble(matrix: &[Vec<i64>]) -> (r: Result<Matrix, RowsFault>)
        ensures
            matrix@.len() == 0 ==> (r matches Err(f) && f is NoRows),
            matrix@.len() > 0 && matrix@[0]@.len() == 0 ==> (r matches Err(f) && f is EmptyRow),
            matrix@.len() > 0 && matrix@[0]@.len() > 0 && !rows_rectangular(matrix@) ==> (r matches
                Err(f) && f is Ragged),
            rows_valid(matrix@) ==> (r matches Ok(mm) && mm.wf() && mm.width() == matrix@[0]@.len()
                && mm.height() == matrix@.len() && (forall|j: int, i: int|
                0 <= j < mm.height() && 0 <= i < mm.width() ==> #[trigger] mm.ent(j, i)
                    == matrix@[j]@[i])),
    {
        if matrix.len() == 0 {
            return Err(RowsFault::NoRows);
        }
        let w = matrix[0].len();
        let h = matrix.len();
        if w == 0 {
            return Err(RowsFault::EmptyRow);
        }
        let mut m: Vec<i64> = Vec::new();
        let mut j: usize = 0;
        while j < h
            invariant
                0 < w,
                0 < h,
                j <= h,
                h == matrix@.len(),
                w == matrix@[0]@.len(),
                m@.len() == j * w,
                forall|jj: int| 0 <= jj < j ==> (#[trigger] matrix@[jj])@.len() == w,
                forall|jj: int, ii: int|
                    0 <= jj < j && 0 <= ii < w ==> m@[jj * w + ii] == (#[trigger] matrix@[jj]@[ii]),
            decreases h - j,
        {
            let row = &matrix[j];
            if row.len() != w {
                return Err(RowsFault::Ragged);
            }
            let mut i: usize = 0;
            while i < w
                invariant
                    0 < w,
                    j < h,
                    i <= w,
                    h == matrix@.len(),
                    w == matrix@[0]@.len(),
                    row == matrix@[j as int],
                    row@.len() == w,
                    m@.len() == j * w + i,
                    forall|jj: int| 0 <= jj < j ==> (#[trigger] matrix@[jj])@.len() == w,
                    forall|jj: int, ii: int|
                        0 <= jj < j && 0 <= ii < w ==> m@[jj * w + ii] == (#[trigger] matrix@[jj]@[ii]),
                    forall|ii: int|
                        0 <= ii < i ==> m@[j * w + ii] == (#[trigger] matrix@[j as int]@[ii]),
                decreases w - i,
            {
                proof {
                    lemma_row_major_bounds(w as int, h as int, j as int, i as int);
                }
                m.push(row[i]);
                i = i + 1;
                proof {
                    assert forall|jj: int, ii: int|
                        0 <= jj < j && 0 <= ii < w implies m@[jj * w + ii] == (
                    #[trigger] matrix@[jj]@[ii]) by {
                        lemma_row_major_bounds(w as int, j as int, jj, ii);
                    }
                }
            }
            j = j + 1;
            proof {
                assert forall|jj: int, ii: int| 0 <= jj < j && 0 <= ii < w implies m@[jj * w + ii]
                    == (#[trigger] matrix@[jj]@[ii]) by {
                    lemma_row_major_bounds(w as int, j as int, jj, ii);
                }
                assert((j - 1) * w + w == j * w) by (nonlinear_arith);
            }
        }
        let result = Matrix { m, size: [w, h] };
        proof {
            assert forall|jj: int, ii: int|
                0 <= jj < result.height() && 0 <= ii < result.width() implies #[trigger] result.ent(
                jj,
                ii,
            ) == matrix@[jj]@[ii] by {
                lemma_row_major_bounds(w as int, h as int, jj, ii);
            }
        }
        Ok(result)
    }

    /// Create a new matrix from a list of rows.  Fails if no rows are given,
    /// if the first row is empty, or if the rows differ in length.
    pub fn new(matrix: &[Vec<i64>]) -> (r: SlalErr<Self>)
        ensures
            matrix@.len() == 0 ==> r == Err::<Matrix, SlalError>(
                SlalError::MatrixInitializationError(EMPTY_MATRIX_ON_INITIALIZATION),
            ),
            matrix@.len() > 0 && matrix@[0]@.len() == 0 ==> r == Err::<Matrix, SlalError>(
                SlalError::MatrixInitializationError(EMPTY_HORIZONTAL_VECTOR_ON_INITIALIZATION),
            ),
            matrix@.len() > 0 && matrix@[0]@.len() > 0 && !rows_rectangular(matrix@) ==> r == Err::<
                Matrix,
                SlalError,
            >(SlalError::MatrixInitializationError(DIFFERENT_HORIZONTAL_VECTOR_IN_MATRIX)),
            rows_valid(matrix@) ==> (r matches Ok(mm) && mm.wf() && mm.width() == matrix@[0]@.len()
                && mm.height() == matrix@.len() && (forall|j: int, i: int|
                0 <= j < mm.height() && 0 <= i < mm.width() ==> #[trigger] mm.ent(j, i)
                    == matrix@[j]@[i])),
    {
        match Self::assemble(matrix) {
            Ok(mm) => Ok(mm),
            Err(RowsFault::NoRows) => Err(
                SlalError::MatrixInitializationError(EMPTY_MATRIX_ON_INITIALIZATION),
            ),
            Err(RowsFault::EmptyRow) => Err(
                SlalError::MatrixInitializationError(EMPTY_HORIZONTAL_VECTOR_ON_INITIALIZATION),
            ),
            Err(RowsFault::Ragged) => Err(
                SlalError::MatrixInitializationError(DIFFERENT_HORIZONTAL_VECTOR_IN_MATRIX),
            ),
        }
    }

    /// Create a new matrix holding the transpose of the given rows; the
    /// rows are validated exactly as in `new`.
    pub fn new_transposed(matrix: &[Vec<i64>]) -> (r: SlalErr<Self>)
        ensures
            matrix@.len() == 0 ==> r == Err::<Matrix, SlalError>(
                SlalError::MatrixInitializationError(EMPTY_MATRIX_ON_INITIALIZATION),
            ),
            matrix@.len() > 0 && matrix@[0]@.len() == 0 ==> r == Err::<Matrix, SlalError>(
                SlalError::MatrixInitializationError(EMPTY_HORIZONTAL_VECTOR_ON_INITIALIZATION),
            ),
            matrix@.len() > 0 && matrix@[0]@.len() > 0 && !rows_rectangular(matrix@) ==> r == Err::<
                Matrix,
                SlalError,
            >(SlalError::MatrixInitializationError(DIFFERENT_HORIZONTAL_VECTOR_IN_MATRIX)),
            rows_valid(matrix@) ==> (r matches Ok(mm) && mm.wf() && mm.width() == matrix@.len()
                && mm.height() == matrix@[0]@.len() && (forall|j: int, i: int|
                0 <= j < mm.height() && 0 <= i < mm.width() ==> #[trigger] mm.ent(j, i)
                    == matrix@[i]@[j])),
    {
        let mut mm = match Self::new(matrix) {
            Ok(mm) => mm,
            Err(e) => {
                return Err(e);
            },
        };
        mm.t();
        Ok(mm)
    }

    /// The empty matrix of shape `(0, 0)`.
    pub fn empty() -> (r: Self)
        ensures
            r.wf(),
            r.is_empty_spec(),
    {
        let r = Self { m: Vec::new(), size: [0, 0] };
        proof {
            assert(r.size[0] == 0 && r.size[1] == 0);
            assert(r.height() * r.width() == 0);
        }
        r
    }

    /// Check if this is the empty matrix.
    pub fn is_empty(&self) -> (r: bool)
        requires
            self.wf(),
        ensures
            r == self.is_empty_spec(),
    {
        self.size[0] == 0 && self.size[1] == 0
    }

    /// Check if the matrix is square (and not empty).
    pub fn is_square_matrix(&self) -> (r: bool)
        requires
            self.wf(),
        ensures
            r == self.is_square_spec(),
    {
        self.size[0] == self.size[1] && !self.is_empty()
    }

    /// Replace the whole matrix with a new list of rows, re-validating them;
    /// the previous shape does not matter.  On failure the matrix is left
    /// unchanged.
    pub fn set_matrix(&mut self, matrix: &[Vec<i64>]) -> (r: SlalErr<()>)
        ensures
            matrix@.len() == 0 ==> r == Err::<(), SlalError>(
                SlalError::MatrixUpdateError(EMPTY_MATRIX_ON_UPDATE),
            ),
            matrix@.len() > 0 && matrix@[0]@.len() == 0 ==> r == Err::<(), SlalError>(
                SlalError::MatrixUpdateError(EMPTY_HORIZONTAL_VECTOR_ON_UPDATE),
            ),
            matrix@.len() > 0 && matrix@[0]@.len() > 0 && !rows_rectangular(matrix@) ==> r == Err::<
                (),
                SlalError,
            >(SlalError::MatrixUpdateError(DIFFERENT_HORIZONTAL_VECTOR_IN_MATRIX_ON_UPDATE)),
            r matches Err(e) ==> *final (self) == *old(self),
            rows_valid(matrix@) ==> r == Ok::<(), SlalError>(()) && final (self).wf()
                && final (self).width() == matrix@[0]@.len()
                && final (self).height() == matrix@.len()
                && (forall|j: int, i: int|
                    0 <= j < final (self).height() && 0 <= i < final (self).width()
                        ==> #[trigger] final (self).ent(j, i) == matrix@[j]@[i]),
    {
        match Self::assemble(matrix) {
            Ok(mm) => {
                *self = mm;
                Ok(())
            },
            Err(RowsFault::NoRows) => Err(SlalError::MatrixUpdateError(EMPTY_MATRIX_ON_UPDATE)),
            Err(RowsFault::EmptyRow) => Err(
                SlalError::MatrixUpdateError(EMPTY_HORIZONTAL_VECTOR_ON_UPDATE),
            ),
            Err(RowsFault::Ragged) => Err(
                SlalError::MatrixUpdateError(DIFFERENT_HORIZONTAL_VECTOR_IN_MATRIX_ON_UPDATE),
            ),
        }
    }

    /// The shape of the matrix as `(width, height)`.
    pub fn size(&self) -> (r: (usize, usize))
        ensures
            r.0 == self.width(),
            r.1 == self.height(),
    {
        (self.size[0], self.size[1])
    }

    /// Transpose in place: the shape `(w, h)` becomes `(h, w)` and the buffer
    /// is rebuilt so that entry `(i, j)` of the result is entry `(j, i)` of
    /// the original.
    pub fn t(&mut self)
        requires
            old(self).wf(),
        ensures
            final (self).wf(),
            final (self).width() == old(self).height(),
            final (self).height() == old(self).width(),
            forall|i: int, j: int|
                0 <= i < old(self).width() && 0 <= j < old(self).height()
                    ==> #[trigger] final (self).ent(i, j) == old(self).ent(j, i),
            final (self).rows() == transpose_rows(old(self).rows(), old(self).width()),
    {
        let w = self.size[0];
        let h = self.size[1];
        let total = self.m.len();
        let mut m: Vec<i64> = Vec::new();
        let mut i: usize = 0;
        while i < w
            invariant
                i <= w,
                w == old(self).size[0],
                h == old(self).size[1],
                *self == *old(self),
                self.wf(),
                total == self.m@.len(),
                m@.len() == i * h,
                forall|ii: int, jj: int|
                    0 <= ii < i && 0 <= jj < h ==> m@[ii * h + jj] == (#[trigger] old(self).ent(
                        jj,
                        ii,
                    )),
            decreases w - i,
        {
            let mut j: usize = 0;
            while j < h
                invariant
                    i < w,
                    j <= h,
                    w == old(self).size[0],
                    h == old(self).size[1],
                    *self == *old(self),
                    self.wf(),
                    total == self.m@.len(),
                    m@.len() == i * h + j,
                    forall|ii: int, jj: int|
                        0 <= ii < i && 0 <= jj < h ==> m@[ii * h + jj] == (#[trigger] old(self).ent(
                            jj,
                            ii,
                        )),
                    forall|jj: int|
                        0 <= jj < j ==> m@[i * h + jj] == (#[trigger] old(self).ent(jj, i as int)),
                decreases h - j,
            {
                proof {
                    lemma_row_major_bounds(w as int, h as int, j as int, i as int);
                    assert(h * w == w * h) by (nonlinear_arith);
                }
                m.push(self.m[j * w + i]);
                j = j + 1;
                proof {
                    assert forall|ii: int, jj: int|
                        0 <= ii < i && 0 <= jj < h implies m@[ii * h + jj] == (
                    #[trigger] old(self).ent(jj, ii)) by {
                        lemma_row_major_bounds(h as int, i as int, ii, jj);
                    }
                }
            }
            i = i + 1;
            proof {
                assert forall|ii: int, jj: int| 0 <= ii < i && 0 <= jj < h implies m@[ii * h + jj]
                    == (#[trigger] old(self).ent(jj, ii)) by {
                    lemma_row_major_bounds(h as int, i as int, ii, jj);
                }
                assert((i - 1) * h + h == i * h) by (nonlinear_arith);
            }
        }
        self.m = m;
        self.size = [h, w];
        proof {
            assert(self.wf()) by {
                assert(w * h == h * w) by (nonlinear_arith);
            }
            assert forall|i2: int, j2: int|
                0 <= i2 < old(self).width() && 0 <= j2 < old(self).height() implies #[trigger] self
                .ent(i2, j2) == old(self).ent(j2, i2) by {
                lemma_row_major_bounds(h as int, w as int, i2, j2);
            }
            assert(self.rows() =~~= transpose_rows(old(self).rows(), old(self).width()));
        }
    }

    /// Clone the matrix into a vector of row vectors.
    pub fn to_vec(&self) -> (r: Vec<Vec<i64>>)
        requires
            self.wf(),
        ensures
            r@.len() == self.height(),
            forall|j: int| 0 <= j < self.height() ==> (#[trigger] r@[j])@ == self.rows()[j],
    {
        let w = self.size[0];
        let h = self.size[1];
        let total = self.m.len();
        let mut r: Vec<Vec<i64>> = Vec::new();
        let mut j: usize = 0;
        while j < h
            invariant
                j <= h,
                w == self.size[0],
                h == self.size[1],
                self.wf(),
                total == self.m@.len(),
                r@.len() == j,
                forall|jj: int| 0 <= jj < j ==> (#[trigger] r@[jj])@ == self.rows()[jj],
            decreases h - j,
        {
            let mut row: Vec<i64> = Vec::new();
            let mut i: usize = 0;
            while i < w
                invariant
                    j < h,
                    i <= w,
                    w == self.size[0],
                    h == self.size[1],
                    self.wf(),
                    total == self.m@.len(),
                    row@.len() == i,
                    forall|ii: int| 0 <= ii < i ==> row@[ii] == (#[trigger] self.ent(j as int, ii)),
                decreases w - i,
            {
                proof {
                    lemma_row_major_bounds(w as int, h as int, j as int, i as int);
                }
                row.push(self.m[j * w + i]);
                i = i + 1;
            }
            proof {
                assert(row@ =~= self.rows()[j as int]);
            }
            r.push(row);
            j = j + 1;
        }
        r
    }

    /// The path of this container type, for diagnostics.
    pub fn type_str(&self) -> (r: &'static str)
        ensures
            r@ == "slal::matrix::Matrix"@,
    {
        "slal::matrix::Matrix"
    }

    /// A fresh matrix with the same shape and the same elements.
    pub(crate) fn copy_of(&self) -> (r: Matrix)
        requires
            self.wf(),
        ensures
            r.size == self.size,
            r.m@ == self.m@,
    {
        let mut m: Vec<i64> = Vec::new();
        let n = self.m.len();
        let mut k: usize = 0;
        while k < n
            invariant
                k <= n,
                n == self.m@.len(),
                m@.len() == k,
                forall|kk: int| 0 <= kk < k ==> m@[kk] == self.m@[kk],
            decreases n - k,
        {
            m.push(self.m[k]);
            k = k + 1;
        }
        proof {
            assert(m@ =~= self.m@);
        }
        Matrix { m, size: self.size }
    }
}

/// Transposing a rectangular table of rows twice gives the table back.
pub proof fn lemma_transpose_rows_involution(r: Seq<Seq<i64>>, w: int)
    requires
        w >= 0,
        forall|j: int| 0 <= j < r.len() ==> (#[trigger] r[j]).len() == w,
    ensures
        transpose_rows(transpose_rows(r, w), r.len() as int) == r,
{
    assert(transpose_rows(transpose_rows(r, w), r.len() as int) =~~= r);
}

/// Transposing a well-formed matrix twice restores it exactly: the shape
/// returns to its starting value and every entry is back in its place.
pub proof fn lemma_matrix_transpose_involution(a: Matrix, b: Matrix, c: Matrix)
    requires
        a.wf(),
        b.width() == a.height(),
        b.height() == a.width(),
        b.rows() == transpose_rows(a.rows(), a.width()),
        c.width() == b.height(),
        c.height() == b.width(),
        c.rows() == transpose_rows(b.rows(), b.width()),
    ensures
        c.width() == a.width(),
        c.height() == a.height(),
        c.rows() == a.rows(),
{
    assert forall|j: int| 0 <= j < a.rows().len() implies (#[trigger] a.rows()[j]).len()
        == a.width() by {}
    lemma_transpose_rows_involution(a.rows(), a.width());
    assert(transpose_rows(a.rows(), a.width()).len() == b.rows().len());
    assert(a.rows().len() == a.height());
}

} // verus!
