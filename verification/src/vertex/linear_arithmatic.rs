use vstd::prelude::*;

use crate::error::{SlalErr, SlalError};
use crate::linear::{cross_fits, cross_term, dot_fits, in64, scale_fits, sum_prod};
use crate::matrix::Matrix;
use crate::vertex::Vertex;

verus! {

pub const VERTEX_STATE_ON_DOT: &'static str =
    "Inner product needs a row vector on the left and a column vector on the right";

pub const VERTEX_STATE_ON_CROSS: &'static str =
    "Cross product needs a column vector on the left and a row vector on the right";

/// Every entry of the outer product of `a` (as the column) and `b` (as the
/// row) stays within the element type.
pub open spec fn outer_fits(a: Seq<i64>, b: Seq<i64>) -> bool {
    forall|j: int, i: int|
        #![trigger a[j], b[i]]
        0 <= j < a.len() && 0 <= i < b.len() ==> in64(a[j] * b[i])
}

impl Vertex {
    /// Scalar product: every element multiplied by `scala`.  The length and
    /// the orientation are preserved; this operation cannot fail.
    pub fn scale(&self, scala: i64) -> (r: Vertex)
        requires
            scale_fits(self.v@, scala),
        ensures
            r.vertical == self.vertical,
            r.v@.len() == self.v@.len(),
            forall|t: int| 0 <= t < self.v@.len() ==> #[trigger] r.v@[t] == self.v@[t] * scala,
    {
        let n = self.v.len();
        let mut out: Vec<i64> = Vec::new();
        let mut t: usize = 0;
        while t < n
            invariant
                t <= n,
                n == self.v@.len(),
                scale_fits(self.v@, scala),
                out@.len() == t,
                forall|tt: int| 0 <= tt < t ==> #[trigger] out@[tt] == self.v@[tt] * scala,
            decreases n - t,
        {
            out.push(self.v[t] * scala);
            t = t + 1;
        }
        Vertex { v: out, vertical: self.vertical }
    }

    /// Inner product on the checking surface.  Legal exactly when the left
    /// operand is a row, the right operand is a column, and the lengths
    /// match; the orientation is checked, and reported, before the length.
    pub fn dot(&self, other: &Vertex) -> (r: SlalErr<i64>)
        requires
            !self.vertical && other.vertical && self.v@.len() == other.v@.len() ==> dot_fits(
                self.v@,
                other.v@,
            ),
        ensures
            self.vertical || !other.vertical ==> r == Err::<i64, SlalError>(
                SlalError::VertexStateError(VERTEX_STATE_ON_DOT),
            ),
            !self.vertical && other.vertical && self.v@.len() != other.v@.len() ==> r == Err::<
                i64,
                SlalError,
            >(SlalError::UnmatchingVertexLength(self.v@.len() as usize, other.v@.len() as usize)),
            !self.vertical && other.vertical && self.v@.len() == other.v@.len() ==> (r matches Ok(d)
                && d == sum_prod(self.v@, other.v@, self.v@.len() as int)),
    {
        if self.is_transposed() || !other.is_transposed() {
            return Err(SlalError::VertexStateError(VERTEX_STATE_ON_DOT));
        }
        let n = self.len();
        if n != other.len() {
            return Err(SlalError::UnmatchingVertexLength(n, other.len()));
        }
        let mut acc: i64 = 0;
        let mut t: usize = 0;
        while t < n
            invariant
                t <= n,
                n == self.v@.len(),
                n == other.v@.len(),
                dot_fits(self.v@, other.v@),
                acc == sum_prod(self.v@, other.v@, t as int),
            decreases n - t,
        {
            proof {
                assert(sum_prod(self.v@, other.v@, t as int + 1) == sum_prod(
                    self.v@,
                    other.v@,
                    t as int,
                ) + self.v@[t as int] * other.v@[t as int]);
            }
            acc = acc + self.v[t] * other.v[t];
            t = t + 1;
        }
        Ok(acc)
    }

    /// Cyclic cross product on the checking surface.  Legal exactly when the
    /// lengths match, the left operand is a column and the right operand a
    /// row; the result is a row vector.  The three-dimensional formula is
    /// applied cyclically to any common length, as a design choice, not a
    /// geometric generalization.
    pub fn cross(&self, other: &Vertex) -> (r: SlalErr<Vertex>)
        requires
            self.v@.len() == other.v@.len() && self.vertical && !other.vertical ==> cross_fits(
                self.v@,
                other.v@,
            ),
        ensures
            self.v@.len() != other.v@.len() ==> r == Err::<Vertex, SlalError>(
                SlalError::UnmatchingVertexLength(self.v@.len() as usize, other.v@.len() as usize),
            ),
            self.v@.len() == other.v@.len() && !(self.vertical && !other.vertical) ==> r == Err::<
                Vertex,
                SlalError,
            >(SlalError::VertexStateError(VERTEX_STATE_ON_CROSS)),
            self.v@.len() == other.v@.len() && self.vertical && !other.vertical ==> (r matches Ok(v)
                && !v.vertical && v.v@.len() == self.v@.len() && (forall|k: int|
                0 <= k < self.v@.len() ==> #[trigger] v.v@[k] == cross_term(
                    self.v@,
                    other.v@,
                    k,
                    self.v@.len() as int,
                ))),
    {
        let n = self.len();
        if n != other.len() {
            return Err(SlalError::UnmatchingVertexLength(n, other.len()));
        }
        if !self.is_transposed() || other.is_transposed() {
            return Err(SlalError::VertexStateError(VERTEX_STATE_ON_CROSS));
        }
        let mut out: Vec<i64> = Vec::new();
        let mut k: usize = 0;
        while k < n
            invariant
                k <= n,
                n == self.v@.len(),
                n == other.v@.len(),
                cross_fits(self.v@, other.v@),
                out@.len() == k,
                forall|kk: int|
                    0 <= kk < k ==> #[trigger] out@[kk] == cross_term(
                        self.v@,
                        other.v@,
                        kk,
                        n as int,
                    ),
            decreases n - k,
        {
            let k1 = if k + 1 == n {
                0
            } else {
                k + 1
            };
            let k2 = if k1 + 1 == n {
                0
            } else {
                k1 + 1
            };
            proof {
                assert(k1 == (k + 1) % (n as int) && k2 == (k + 2) % (n as int))
                    by (nonlinear_arith)
                    requires
                        0 <= k < n,
                        k1 == if k + 1 == n {
                            0int
                        } else {
                            k + 1
                        },
                        k2 == if k1 + 1 == n {
                            0int
                        } else {
                            k1 + 1
                        },
                ;
                assert(in64(self.v@[(k + 1) % (n as int)] * other.v@[(k + 2) % (n as int)]));
                assert(in64(self.v@[(k + 2) % (n as int)] * other.v@[(k + 1) % (n as int)]));
                assert(in64(cross_term(self.v@, other.v@, k as int, n as int)));
            }
            out.push(self.v[k1] * other.v[k2] - self.v[k2] * other.v[k1]);
            k = k + 1;
        }
        Ok(Vertex { v: out, vertical: false })
    }

    /// Product of two vectors on the trusting surface: the caller must have
    /// validated the shapes.  A column times a row is their outer product,
    /// whatever the two lengths (only an outer product of one empty and one
    /// nonempty vector is excluded, since no matrix has a zero side); a row
    /// times a column of the same length is their inner product as a
    /// one-by-one matrix.
    pub fn mul(&self, other: &Vertex) -> (r: Matrix)
        requires
            self.vertical != other.vertical,
            self.vertical ==> (self.v@.len() == 0 <==> other.v@.len() == 0),
            !self.vertical ==> self.v@.len() == other.v@.len(),
            self.vertical ==> outer_fits(self.v@, other.v@),
            !self.vertical ==> dot_fits(self.v@, other.v@),
        ensures
            r.wf(),
            self.vertical ==> r.width() == other.v@.len() && r.height() == self.v@.len() && (forall|
                j: int,
                i: int,
            |
                0 <= j < self.v@.len() && 0 <= i < other.v@.len() ==> #[trigger] r.ent(j, i)
                    == self.v@[j] * other.v@[i]),
            !self.vertical ==> r.width() == 1 && r.height() == 1 && r.ent(0, 0) == sum_prod(
                self.v@,
                other.v@,
                self.v@.len() as int,
            ),
    {
        if self.is_transposed() {
            let h = self.len();
            let w = other.len();
            let mut out: Vec<i64> = Vec::new();
            let mut j: usize = 0;
            while j < h
                invariant
                    j <= h,
                    h == self.v@.len(),
                    w == other.v@.len(),
                    outer_fits(self.v@, other.v@),
                    out@.len() == j * w,
                    forall|jj: int, ii: int|
                        #![trigger self.v@[jj], other.v@[ii]]
                        0 <= jj < j && 0 <= ii < w ==> out@[jj * w + ii] == self.v@[jj]
                            * other.v@[ii],
                decreases h - j,
            {
                let mut i: usize = 0;
                while i < w
                    invariant
                        j < h,
                        i <= w,
                        h == self.v@.len(),
                        w == other.v@.len(),
                        outer_fits(self.v@, other.v@),
                        out@.len() == j * w + i,
                        forall|jj: int, ii: int|
                            #![trigger self.v@[jj], other.v@[ii]]
                            0 <= jj < j && 0 <= ii < w ==> out@[jj * w + ii] == self.v@[jj]
                                * other.v@[ii],
                        forall|ii: int|
                            0 <= ii < i ==> out@[j * w + ii] == (#[trigger] self.v@[j as int])
                                * other.v@[ii],
                    decreases w - i,
                {
                    out.push(self.v[j] * other.v[i]);
                    i = i + 1;
                    proof {
                        assert forall|jj: int, ii: int|
                            #![trigger self.v@[jj], other.v@[ii]]
                            0 <= jj < j && 0 <= ii < w implies out@[jj * w + ii] == self.v@[jj]
                            * other.v@[ii] by {
                            crate::matrix::lemma_row_major_bounds(w as int, j as int, jj, ii);
                        }
                    }
                }
                j = j + 1;
                proof {
                    assert forall|jj: int, ii: int|
                        #![trigger self.v@[jj], other.v@[ii]]
                        0 <= jj < j && 0 <= ii < w implies out@[jj * w + ii] == self.v@[jj]
                        * other.v@[ii] by {
                        crate::matrix::lemma_row_major_bounds(w as int, j as int, jj, ii);
                    }
                    assert((j - 1) * w + w == j * w) by (nonlinear_arith);
                }
            }
            let r = Matrix { m: out, size: [w, h] };
            proof {
                assert(r.size[0] == w && r.size[1] == h);
                assert(r.m@.len() == h * w);
                assert(r.wf());
                assert forall|jj: int, ii: int|
                    #![trigger r.ent(jj, ii)]
                    0 <= jj < self.v@.len() && 0 <= ii < other.v@.len() implies r.ent(jj, ii)
                    == self.v@[jj] * other.v@[ii] by {
                    crate::matrix::lemma_row_major_bounds(w as int, h as int, jj, ii);
                }
            }
            r
        } else {
            let n = self.len();
            let mut acc: i64 = 0;
            let mut t: usize = 0;
            while t < n
                invariant
                    t <= n,
                    n == self.v@.len(),
                    n == other.v@.len(),
                    dot_fits(self.v@, other.v@),
                    acc == sum_prod(self.v@, other.v@, t as int),
                decreases n - t,
            {
                proof {
                    assert(sum_prod(self.v@, other.v@, t as int + 1) == sum_prod(
                        self.v@,
                        other.v@,
                        t as int,
                    ) + self.v@[t as int] * other.v@[t as int]);
                }
                acc = acc + self.v[t] * other.v[t];
                t = t + 1;
            }
            let mut out: Vec<i64> = Vec::new();
            out.push(acc);
            let r = Matrix { m: out, size: [1, 1] };
            proof {
                assert(r.size[0] == 1 && r.size[1] == 1);
                assert(r.m@.len() == 1);
                assert(r.wf());
                assert(r.ent(0, 0) == acc);
            }
            r
        }
    }

    /// Product of two vectors on the checking surface: the same arithmetic
    /// as `mul`, with each shape violation reported as a recoverable error.
    /// A shared orientation is reported before anything about the lengths.
    pub fn mul_checked(&self, other: &Vertex) -> (r: SlalErr<Matrix>)
        requires
            self.vertical && !other.vertical && (self.v@.len() == 0 <==> other.v@.len() == 0)
                ==> outer_fits(self.v@, other.v@),
            !self.vertical && other.vertical && self.v@.len() == other.v@.len() ==> dot_fits(
                self.v@,
                other.v@,
            ),
        ensures
            self.vertical == other.vertical ==> r == Err::<Matrix, SlalError>(
                SlalError::BothVerticesTransposed(self.vertical),
            ),
            self.vertical && !other.vertical && !(self.v@.len() == 0 <==> other.v@.len() == 0)
                ==> r == Err::<Matrix, SlalError>(
                SlalError::UnmatchingVertexLength(self.v@.len() as usize, other.v@.len() as usize),
            ),
            !self.vertical && other.vertical && self.v@.len() != other.v@.len() ==> r == Err::<
                Matrix,
                SlalError,
            >(SlalError::UnmatchingVertexLength(self.v@.len() as usize, other.v@.len() as usize)),
            self.vertical && !other.vertical && (self.v@.len() == 0 <==> other.v@.len() == 0) ==> (
            r matches Ok(m) && m.wf() && m.width() == other.v@.len() && m.height() == self.v@.len()
                && (forall|j: int, i: int|
                0 <= j < self.v@.len() && 0 <= i < other.v@.len() ==> #[trigger] m.ent(j, i)
                    == self.v@[j] * other.v@[i])),
            !self.vertical && other.vertical && self.v@.len() == other.v@.len() ==> (r matches Ok(m)
                && m.wf() && m.width() == 1 && m.height() == 1 && m.ent(0, 0) == sum_prod(
                self.v@,
                other.v@,
                self.v@.len() as int,
            )),
    {
        if self.is_transposed() == other.is_transposed() {
            return Err(SlalError::BothVerticesTransposed(self.vertical));
        }
        if self.is_transposed() {
            let se = self.len() == 0;
            let oe = other.len() == 0;
            if se != oe {
                return Err(SlalError::UnmatchingVertexLength(self.len(), other.len()));
            }
        } else if self.len() != other.len() {
            return Err(SlalError::UnmatchingVertexLength(self.len(), other.len()));
        }
        Ok(self.mul(other))
    }
}

} // verus!
