use vstd::prelude::*;

use crate::error::{SlalErr, SlalError};
use crate::linear::{dot_fits, scale_fits, sum_prod};
use crate::matrix::{lemma_row_major_bounds, Matrix};
use crate::vertex::Vertex;

verus! {

pub const VERTEX_TRANSPOSED_ON_DOT_MATRIX: &'static str =
    "Vertex must not be transposed when computing product of vertex and matrix";

pub const VERTEX_NOT_TRANSPOSED_ON_MATRIX_DOT: &'static str =
    "Vertex must be transposed when computing product of matrix and vertex";

/// Row `j` of a matrix as a sequence.
pub open spec fn row_of(m: Matrix, j: int) -> Seq<i64> {
    Seq::new(m.width() as nat, |i: int| m.ent(j, i))
}

/// Column `i` of a matrix as a sequence.
pub open spec fn col_of(m: Matrix, i: int) -> Seq<i64> {
    Seq::new(m.height() as nat, |j: int| m.ent(j, i))
}

/// The inner products of `a` against every column of `m` stay within the
/// element type.
pub open spec fn vertex_matrix_fits(a: Seq<i64>, m: Matrix) -> bool {
    forall|i: int| 0 <= i < m.width() ==> dot_fits(a, #[trigger] col_of(m, i))
}

/// The inner products of every row of `m` against `a` stay within the
/// element type.
pub open spec fn matrix_vertex_fits(m: Matrix, a: Seq<i64>) -> bool {
    forall|j: int| 0 <= j < m.height() ==> dot_fits(#[trigger] row_of(m, j), a)
}

/// The inner products of every row of `a` against every column of `b` stay
/// within the element type.
pub open spec fn matrix_matrix_fits(a: Matrix, b: Matrix) -> bool {
    forall|j: int, i: int|
        #![trigger row_of(a, j), col_of(b, i)]
        0 <= j < a.height() && 0 <= i < b.width() ==> dot_fits(row_of(a, j), col_of(b, i))
}

/// Every element of `m` scaled by `s` stays within the element type.
pub open spec fn matrix_scale_fits(m: Matrix, s: i64) -> bool {
    scale_fits(m.m@, s)
}

impl Matrix {
    /// Scalar product: every element multiplied by `scala`.  The shape is
    /// preserved; this operation cannot fail.
    pub fn scale(&self, scala: i64) -> (r: Matrix)
        requires
            self.wf(),
            matrix_scale_fits(*self, scala),
        ensures
            r.wf(),
            r.width() == self.width(),
            r.height() == self.height(),
            forall|j: int, i: int|
                0 <= j < self.height() && 0 <= i < self.width() ==> #[trigger] r.ent(j, i)
                    == self.ent(j, i) * scala,
    {
        let n = self.m.len();
        let mut out: Vec<i64> = Vec::new();
        let mut t: usize = 0;
        while t < n
            invariant
                t <= n,
                n == self.m@.len(),
                matrix_scale_fits(*self, scala),
                out@.len() == t,
                forall|tt: int| 0 <= tt < t ==> #[trigger] out@[tt] == self.m@[tt] * scala,
            decreases n - t,
        {
            out.push(self.m[t] * scala);
            t = t + 1;
        }
        let r = Matrix { m: out, size: self.size };
        proof {
            assert forall|j: int, i: int|
                0 <= j < self.height() && 0 <= i < self.width() implies #[trigger] r.ent(j, i)
                == self.ent(j, i) * scala by {
                lemma_row_major_bounds(self.width(), self.height(), j, i);
            }
        }
        r
    }

    /// Product of a matrix with a column vector, on the checking surface.
    /// Legal exactly when the vector is a column whose length equals the
    /// matrix width; the result is a column vector of the matrix height with
    /// entry `j` the inner product of row `j` with the vector.  The
    /// orientation is checked, and reported, before the length.
    pub fn dot_vertex(&self, other: &Vertex) -> (r: SlalErr<Vertex>)
        requires
            self.wf(),
            other.vertical && self.width() == other.v@.len() ==> matrix_vertex_fits(
                *self,
                other.v@,
            ),
        ensures
            !other.vertical ==> r == Err::<Vertex, SlalError>(
                SlalError::VertexStateError(VERTEX_NOT_TRANSPOSED_ON_MATRIX_DOT),
            ),
            other.vertical && self.width() != other.v@.len() ==> r == Err::<Vertex, SlalError>(
                SlalError::VertexLengthAndMatrixWidthNotMatch(
                    other.v@.len() as usize,
                    self.width() as usize,
                ),
            ),
            other.vertical && self.width() == other.v@.len() ==> (r matches Ok(v) && v.vertical
                && v.v@.len() == self.height() && (forall|j: int|
                0 <= j < self.height() ==> #[trigger] v.v@[j] == sum_prod(
                    row_of(*self, j),
                    other.v@,
                    self.width(),
                ))),
    {
        if !other.is_transposed() {
            return Err(SlalError::VertexStateError(VERTEX_NOT_TRANSPOSED_ON_MATRIX_DOT));
        }
        let w = self.size[0];
        let h = self.size[1];
        if w != other.len() {
            return Err(SlalError::VertexLengthAndMatrixWidthNotMatch(other.len(), w));
        }
        let total = self.m.len();
        let mut out: Vec<i64> = Vec::new();
        let mut j: usize = 0;
        while j < h
            invariant
                j <= h,
                w == self.size[0],
                h == self.size[1],
                self.wf(),
                total == self.m@.len(),
                w == other.v@.len(),
                matrix_vertex_fits(*self, other.v@),
                out@.len() == j,
                forall|jj: int|
                    0 <= jj < j ==> #[trigger] out@[jj] == sum_prod(
                        row_of(*self, jj),
                        other.v@,
                        w as int,
                    ),
            decreases h - j,
        {
            let mut acc: i64 = 0;
            let mut i: usize = 0;
            while i < w
                invariant
                    j < h,
                    i <= w,
                    w == self.size[0],
                    h == self.size[1],
                    self.wf(),
                    total == self.m@.len(),
                    w == other.v@.len(),
                    matrix_vertex_fits(*self, other.v@),
                    acc == sum_prod(row_of(*self, j as int), other.v@, i as int),
                decreases w - i,
            {
                proof {
                    lemma_row_major_bounds(w as int, h as int, j as int, i as int);
                    assert(dot_fits(row_of(*self, j as int), other.v@));
                    assert(row_of(*self, j as int)[i as int] == self.ent(j as int, i as int));
                    assert(sum_prod(row_of(*self, j as int), other.v@, i as int + 1) == sum_prod(
                        row_of(*self, j as int),
                        other.v@,
                        i as int,
                    ) + row_of(*self, j as int)[i as int] * other.v@[i as int]);
                }
                acc = acc + self.m[j * w + i] * other.v[i];
                i = i + 1;
            }
            out.push(acc);
            j = j + 1;
        }
        Ok(Vertex { v: out, vertical: true })
    }

    /// Product of two matrices, on the checking surface.  Legal exactly when
    /// the left operand's width equals the right operand's height; the
    /// result has the right operand's width and the left operand's height,
    /// and entry `(j, i)` is the inner product of row `j` of the left with
    /// column `i` of the right.
    pub fn dot(&self, other: &Matrix) -> (r: SlalErr<Matrix>)
        requires
            self.wf(),
            other.wf(),
            self.width() == other.height() ==> matrix_matrix_fits(*self, *other),
        ensures
            self.width() != other.height() ==> r == Err::<Matrix, SlalError>(
                SlalError::UnmatchingMatrixSize(self.width() as usize, other.height() as usize),
            ),
            self.width() == other.height() ==> (r matches Ok(p) && p.wf() && p.width()
                == other.width() && p.height() == self.height() && (forall|j: int, i: int|
                0 <= j < self.height() && 0 <= i < other.width() ==> #[trigger] p.ent(j, i)
                    == sum_prod(row_of(*self, j), col_of(*other, i), self.width()))),
    {
        let w = self.size[0];
        let h = self.size[1];
        let ow = other.size[0];
        let oh = other.size[1];
        if w != oh {
            return Err(SlalError::UnmatchingMatrixSize(w, oh));
        }
        let total = self.m.len();
        let ototal = other.m.len();
        let mut out: Vec<i64> = Vec::new();
        let mut j: usize = 0;
        while j < h
            invariant
                j <= h,
                w == self.size[0],
                h == self.size[1],
                ow == other.size[0],
                oh == other.size[1],
                w == oh,
                self.wf(),
                other.wf(),
                total == self.m@.len(),
                ototal == other.m@.len(),
                matrix_matrix_fits(*self, *other),
                out@.len() == j * ow,
                forall|jj: int, ii: int|
                    #![trigger row_of(*self, jj), col_of(*other, ii)]
                    0 <= jj < j && 0 <= ii < ow ==> out@[jj * ow + ii] == sum_prod(
                        row_of(*self, jj),
                        col_of(*other, ii),
                        w as int,
                    ),
            decreases h - j,
        {
            let mut i: usize = 0;
            while i < ow
                invariant
                    j < h,
                    i <= ow,
                    w == self.size[0],
                    h == self.size[1],
                    ow == other.size[0],
                    oh == other.size[1],
                    w == oh,
                    self.wf(),
                    other.wf(),
                    total == self.m@.len(),
                    ototal == other.m@.len(),
                    matrix_matrix_fits(*self, *other),
                    out@.len() == j * ow + i,
                    forall|jj: int, ii: int|
                        #![trigger row_of(*self, jj), col_of(*other, ii)]
                        0 <= jj < j && 0 <= ii < ow ==> out@[jj * ow + ii] == sum_prod(
                            row_of(*self, jj),
                            col_of(*other, ii),
                            w as int,
                        ),
                    forall|ii: int|
                        0 <= ii < i ==> out@[j * ow + ii] == sum_prod(
                            row_of(*self, j as int),
                            #[trigger] col_of(*other, ii),
                            w as int,
                        ),
                decreases ow - i,
            {
                let mut acc: i64 = 0;
                let mut k: usize = 0;
                while k < w
                    invariant
                        j < h,
                        i < ow,
                        k <= w,
                        w == self.size[0],
                        h == self.size[1],
                        ow == other.size[0],
                        oh == other.size[1],
                        w == oh,
                        self.wf(),
                        other.wf(),
                        total == self.m@.len(),
                        ototal == other.m@.len(),
                        matrix_matrix_fits(*self, *other),
                        acc == sum_prod(row_of(*self, j as int), col_of(*other, i as int), k as int),
                    decreases w - k,
                {
                    proof {
                        lemma_row_major_bounds(w as int, h as int, j as int, k as int);
                        lemma_row_major_bounds(ow as int, oh as int, k as int, i as int);
                        assert(dot_fits(row_of(*self, j as int), col_of(*other, i as int)));
                        assert(row_of(*self, j as int)[k as int] == self.ent(j as int, k as int));
                        assert(col_of(*other, i as int)[k as int] == other.ent(k as int, i as int));
                        assert(sum_prod(row_of(*self, j as int), col_of(*other, i as int), k as int
                            + 1) == sum_prod(
                            row_of(*self, j as int),
                            col_of(*other, i as int),
                            k as int,
                        ) + row_of(*self, j as int)[k as int] * col_of(*other, i as int)[k as int]);
                    }
                    acc = acc + self.m[j * w + k] * other.m[k * ow + i];
                    k = k + 1;
                }
                out.push(acc);
                i = i + 1;
                proof {
                    assert forall|jj: int, ii: int|
                        #![trigger row_of(*self, jj), col_of(*other, ii)]
                        0 <= jj < j && 0 <= ii < ow implies out@[jj * ow + ii] == sum_prod(
                        row_of(*self, jj),
                        col_of(*other, ii),
                        w as int,
                    ) by {
                        lemma_row_major_bounds(ow as int, j as int, jj, ii);
                    }
                }
            }
            j = j + 1;
            proof {
                assert forall|jj: int, ii: int|
                    #![trigger row_of(*self, jj), col_of(*other, ii)]
                    0 <= jj < j && 0 <= ii < ow implies out@[jj * ow + ii] == sum_prod(
                    row_of(*self, jj),
                    col_of(*other, ii),
                    w as int,
                ) by {
                    lemma_row_major_bounds(ow as int, j as int, jj, ii);
                }
                assert((j - 1) * ow + ow == j * ow) by (nonlinear_arith);
            }
        }
        let p = Matrix { m: out, size: [ow, h] };
        proof {
            assert(p.size[0] == ow && p.size[1] == h);
            assert(p.m@.len() == h * ow);
            if ow == 0 {
                assert(other.height() == 0);
                assert(self.width() == 0);
                assert(self.height() == 0);
                assert(h * ow == 0) by (nonlinear_arith)
                    requires
                        ow == 0,
                ;
            }
            if h == 0 {
                assert(self.width() == 0);
                assert(other.height() == 0);
                assert(other.width() == 0);
                assert(h * ow == 0) by (nonlinear_arith)
                    requires
                        h == 0,
                ;
            }
            assert(p.wf());
            assert forall|jj: int, ii: int|
                0 <= jj < self.height() && 0 <= ii < other.width() implies #[trigger] p.ent(jj, ii)
                == sum_prod(row_of(*self, jj), col_of(*other, ii), self.width()) by {
                lemma_row_major_bounds(ow as int, h as int, jj, ii);
            }
        }
        Ok(p)
    }

    /// Product of a matrix with a column vector on the trusting surface: the
    /// caller must have validated the orientation and the length.  The same
    /// arithmetic as `dot_vertex`.
    pub fn mul_vertex(&self, other: &Vertex) -> (r: Vertex)
        requires
            self.wf(),
            other.vertical,
            self.width() == other.v@.len(),
            matrix_vertex_fits(*self, other.v@),
        ensures
            r.vertical,
            r.v@.len() == self.height(),
            forall|j: int|
                0 <= j < self.height() ==> #[trigger] r.v@[j] == sum_prod(
                    row_of(*self, j),
                    other.v@,
                    self.width(),
                ),
    {
        match self.dot_vertex(other) {
            Ok(v) => v,
            Err(_) => vstd::pervasive::unreached(),
        }
    }

    /// Product of two matrices on the trusting surface: the caller must have
    /// validated the shapes.  The same arithmetic as `dot`.
    pub fn mul_matrix(&self, other: &Matrix) -> (r: Matrix)
        requires
            self.wf(),
            other.wf(),
            self.width() == other.height(),
            matrix_matrix_fits(*self, *other),
        ensures
            r.wf(),
            r.width() == other.width(),
            r.height() == self.height(),
            forall|j: int, i: int|
                0 <= j < self.height() && 0 <= i < other.width() ==> #[trigger] r.ent(j, i)
                    == sum_prod(row_of(*self, j), col_of(*other, i), self.width()),
    {
        match self.dot(other) {
            Ok(p) => p,
            Err(_) => vstd::pervasive::unreached(),
        }
    }
}

impl Vertex {
    /// Product of a row vector with a matrix, on the checking surface.
    /// Legal exactly when the vector is a row whose length equals the matrix
    /// height; the result is a row vector of the matrix width with entry `i`
    /// the inner product of the vector with column `i`.  The orientation is
    /// checked, and reported, before the length.
    pub fn dot_matrix(&self, other: &Matrix) -> (r: SlalErr<Vertex>)
        requires
            other.wf(),
            !self.vertical && self.v@.len() == other.height() ==> vertex_matrix_fits(
                self.v@,
                *other,
            ),
        ensures
            self.vertical ==> r == Err::<Vertex, SlalError>(
                SlalError::VertexStateError(VERTEX_TRANSPOSED_ON_DOT_MATRIX),
            ),
            !self.vertical && self.v@.len() != other.height() ==> r == Err::<Vertex, SlalError>(
                SlalError::VertexLengthAndMatrixHeightNotMatch(
                    self.v@.len() as usize,
                    other.height() as usize,
                ),
            ),
            !self.vertical && self.v@.len() == other.height() ==> (r matches Ok(v) && !v.vertical
                && v.v@.len() == other.width() && (forall|i: int|
                0 <= i < other.width() ==> #[trigger] v.v@[i] == sum_prod(
                    self.v@,
                    col_of(*other, i),
                    other.height(),
                ))),
    {
        if self.is_transposed() {
            return Err(SlalError::VertexStateError(VERTEX_TRANSPOSED_ON_DOT_MATRIX));
        }
        let w = other.size[0];
        let h = other.size[1];
        if self.len() != h {
            return Err(SlalError::VertexLengthAndMatrixHeightNotMatch(self.len(), h));
        }
        let ototal = other.m.len();
        let mut out: Vec<i64> = Vec::new();
        let mut i: usize = 0;
        while i < w
            invariant
                i <= w,
                w == other.size[0],
                h == other.size[1],
                other.wf(),
                ototal == other.m@.len(),
                h == self.v@.len(),
                vertex_matrix_fits(self.v@, *other),
                out@.len() == i,
                forall|ii: int|
                    0 <= ii < i ==> out@[ii] == sum_prod(
                        self.v@,
                        #[trigger] col_of(*other, ii),
                        h as int,
                    ),
            decreases w - i,
        {
            let mut acc: i64 = 0;
            let mut j: usize = 0;
            while j < h
                invariant
                    i < w,
                    j <= h,
                    w == other.size[0],
                    h == other.size[1],
                    other.wf(),
                    ototal == other.m@.len(),
                    h == self.v@.len(),
                    vertex_matrix_fits(self.v@, *other),
                    acc == sum_prod(self.v@, col_of(*other, i as int), j as int),
                decreases h - j,
            {
                proof {
                    lemma_row_major_bounds(w as int, h as int, j as int, i as int);
                    assert(dot_fits(self.v@, col_of(*other, i as int)));
                    assert(col_of(*other, i as int)[j as int] == other.ent(j as int, i as int));
                    assert(sum_prod(self.v@, col_of(*other, i as int), j as int + 1) == sum_prod(
                        self.v@,
                        col_of(*other, i as int),
                        j as int,
                    ) + self.v@[j as int] * col_of(*other, i as int)[j as int]);
                }
                acc = acc + self.v[j] * other.m[j * w + i];
                j = j + 1;
            }
            out.push(acc);
            i = i + 1;
        }
        Ok(Vertex { v: out, vertical: false })
    }

    /// Product of a row vector with a matrix on the trusting surface: the
    /// caller must have validated the orientation and the length.  The same
    /// arithmetic as `dot_matrix`.
    pub fn mul_matrix(&self, other: &Matrix) -> (r: Vertex)
        requires
            other.wf(),
            !self.vertical,
            self.v@.len() == other.height(),
            vertex_matrix_fits(self.v@, *other),
        ensures
            !r.vertical,
            r.v@.len() == other.width(),
            forall|i: int|
                0 <= i < other.width() ==> #[trigger] r.v@[i] == sum_prod(
                    self.v@,
                    col_of(*other, i),
                    other.height(),
                ),
    {
        match self.dot_matrix(other) {
            Ok(v) => v,
            Err(_) => vstd::pervasive::unreached(),
        }
    }
}

} // verus!
