use vstd::prelude::*;

use crate::error::{SlalErr, SlalError};
use crate::linear::in64;
use crate::matrix::linear_utils::{lower_tri, mat_del, minor, row_del, upper_tri};
use crate::matrix::{lemma_row_major_bounds, Matrix};

verus! {

pub const EMPTY_MATRIX_ON_DETERMINANT: &'static str =
    "Cannot calculate determinant of empty matrix";

pub const EMPTY_MATRIX_ON_COFACTOR: &'static str = "Cannot calculate cofactor of empty matrix";

/// The sign of position `j` in a cofactor expansion.
pub open spec fn neg_one_pow(j: int) -> int {
    if j % 2 == 0 {
        1
    } else {
        -1
    }
}

/// A square table of rows: every row as long as the table is high.
pub open spec fn mat_sq(m: Seq<Seq<i64>>) -> bool {
    forall|j: int| 0 <= j < m.len() ==> (#[trigger] m[j]).len() == m.len()
}

/// Term `j` of the cofactor expansion of the determinant along the first
/// column.
pub open spec fn det_term(m: Seq<Seq<i64>>, j: int) -> int
    decreases m.len(), 0int, 0int,
    when m.len() >= 1
{
    neg_one_pow(j) * m[j][0] * mat_det(mat_del(m, j, 0))
}

/// Sum of the first `k` terms of the cofactor expansion along the first
/// column.
pub open spec fn det_psum(m: Seq<Seq<i64>>, k: int) -> int
    decreases m.len(), 1int, k,
    when m.len() >= 1
{
    if k <= 0 {
        0
    } else {
        det_psum(m, k - 1) + det_term(m, k - 1)
    }
}

/// The determinant of a square table of rows, by cofactor expansion along
/// the first column; the empty table has determinant one.
pub open spec fn mat_det(m: Seq<Seq<i64>>) -> int
    decreases m.len(), 2int, 0int,
{
    if m.len() == 0 {
        1
    } else {
        det_psum(m, m.len() as int)
    }
}

/// Product of the first `k` diagonal entries.
pub open spec fn diag_prod(m: Seq<Seq<i64>>, k: int) -> int
    decreases k,
{
    if k <= 0 {
        1
    } else {
        diag_prod(m, k - 1) * m[k - 1][k - 1]
    }
}

/// A partial sum of expansion terms that are all zero is zero.
proof fn lemma_psum_zero(m: Seq<Seq<i64>>, k: int)
    requires
        m.len() >= 1,
        forall|j: int| 0 <= j < k ==> #[trigger] det_term(m, j) == 0,
    ensures
        det_psum(m, k) == 0,
    decreases k,
{
    if k > 0 {
        lemma_psum_zero(m, k - 1);
        assert(det_psum(m, k) == det_psum(m, k - 1) + det_term(m, k - 1));
    }
}

/// A partial sum whose terms past the first are all zero collapses to the
/// first term.
proof fn lemma_psum_first(m: Seq<Seq<i64>>, k: int)
    requires
        m.len() >= 1,
        1 <= k,
        forall|j: int| 1 <= j < k ==> #[trigger] det_term(m, j) == 0,
    ensures
        det_psum(m, k) == det_term(m, 0),
    decreases k,
{
    if k == 1 {
        assert(det_psum(m, 1) == det_psum(m, 0) + det_term(m, 0));
    } else {
        lemma_psum_first(m, k - 1);
        assert(det_psum(m, k) == det_psum(m, k - 1) + det_term(m, k - 1));
    }
}

/// The minor of a square table is square.
proof fn lemma_mat_del_sq(m: Seq<Seq<i64>>, r: int, c: int)
    requires
        mat_sq(m),
        0 <= r < m.len(),
        0 <= c < m.len(),
    ensures
        mat_sq(mat_del(m, r, c)),
        mat_del(m, r, c).len() == m.len() - 1,
{
    assert forall|j: int| 0 <= j < mat_del(m, r, c).len() implies (#[trigger] mat_del(m, r, c)[j]).len()
        == mat_del(m, r, c).len() by {
        if j < r {
            assert(mat_del(m, r, c)[j] == row_del(m[j], c));
        } else {
            assert(mat_del(m, r, c)[j] == row_del(m[j + 1], c));
        }
    }
}

/// A square table with a row of zeros has determinant zero.
proof fn lemma_det_zero_row(m: Seq<Seq<i64>>, r: int)
    requires
        mat_sq(m),
        0 <= r < m.len(),
        forall|i: int| 0 <= i < m.len() ==> m[r][i] == 0,
    ensures
        mat_det(m) == 0,
    decreases m.len(),
{
    let n = m.len() as int;
    assert forall|j: int| 0 <= j < n implies #[trigger] det_term(m, j) == 0 by {
        if j == r {
            assert(m[r][0] == 0);
        } else {
            let d = mat_del(m, j, 0);
            lemma_mat_del_sq(m, j, 0);
            let rr = if r < j {
                r
            } else {
                r - 1
            };
            assert forall|i: int| 0 <= i < d.len() implies d[rr][i] == 0 by {
                if rr < j {
                    assert(d[rr] == row_del(m[rr], 0));
                    assert(d[rr][i] == m[rr][i + 1]);
                    assert(rr == r);
                } else {
                    assert(d[rr] == row_del(m[rr + 1], 0));
                    assert(d[rr][i] == m[rr + 1][i + 1]);
                    assert(rr + 1 == r);
                }
            }
            lemma_det_zero_row(d, rr);
        }
    }
    lemma_psum_zero(m, n);
}

/// The diagonal product of the leading minor follows the diagonal product of
/// the table itself, one step behind.
proof fn lemma_diag_shift(m: Seq<Seq<i64>>, k: int)
    requires
        mat_sq(m),
        1 <= m.len(),
        0 <= k < m.len(),
    ensures
        diag_prod(mat_del(m, 0, 0), k) * m[0][0] == diag_prod(m, k + 1),
    decreases k,
{
    let d = mat_del(m, 0, 0);
    if k == 0 {
        assert(diag_prod(d, 0) == 1);
        assert(diag_prod(m, 1) == diag_prod(m, 0) * m[0][0]);
    } else {
        lemma_diag_shift(m, k - 1);
        assert(d[k - 1] == row_del(m[k], 0));
        assert(d[k - 1][k - 1] == m[k][k]);
        assert(diag_prod(d, k) == diag_prod(d, k - 1) * d[k - 1][k - 1]);
        assert(diag_prod(m, k + 1) == diag_prod(m, k) * m[k][k]);
        assert(diag_prod(d, k) * m[0][0] == diag_prod(m, k + 1)) by (nonlinear_arith)
            requires
                diag_prod(d, k - 1) * m[0][0] == diag_prod(m, k),
                diag_prod(d, k) == diag_prod(d, k - 1) * d[k - 1][k - 1],
                d[k - 1][k - 1] == m[k][k],
                diag_prod(m, k + 1) == diag_prod(m, k) * m[k][k],
        ;
    }
}

/// The determinant of a triangular square table is exactly the product of
/// its diagonal entries.  This holds for the upper and the lower triangular
/// shape alike.
pub proof fn lemma_det_triangular(m: Seq<Seq<i64>>)
    requires
        mat_sq(m),
        upper_tri(m) || lower_tri(m),
    ensures
        mat_det(m) == diag_prod(m, m.len() as int),
    decreases m.len(),
{
    let n = m.len() as int;
    if n == 0 {
        assert(mat_det(m) == 1);
    } else {
        let d = mat_del(m, 0, 0);
        lemma_mat_del_sq(m, 0, 0);
        assert forall|j: int, i: int| 0 <= j < d.len() && 0 <= i < d.len() implies #[trigger] d[j][i]
            == m[j + 1][i + 1] by {
            assert(d[j] == row_del(m[j + 1], 0));
        }
        if upper_tri(m) {
            assert forall|j: int| 1 <= j < n implies #[trigger] det_term(m, j) == 0 by {
                assert(m[j][0] == 0);
                assert(det_term(m, j) == neg_one_pow(j) * m[j][0] * mat_det(mat_del(m, j, 0)));
                assert(neg_one_pow(j) * 0 == 0) by (nonlinear_arith);
            }
            assert(upper_tri(d));
        } else {
            assert forall|j: int| 1 <= j < n implies #[trigger] det_term(m, j) == 0 by {
                let dj = mat_del(m, j, 0);
                lemma_mat_del_sq(m, j, 0);
                assert forall|i: int| 0 <= i < dj.len() implies dj[0][i] == 0 by {
                    assert(dj[0] == row_del(m[0], 0));
                    assert(dj[0][i] == m[0][i + 1]);
                }
                lemma_det_zero_row(dj, 0);
            }
            assert(lower_tri(d));
        }
        lemma_psum_first(m, n);
        lemma_det_triangular(d);
        lemma_diag_shift(m, n - 1);
        assert(det_term(m, 0) == neg_one_pow(0) * m[0][0] * mat_det(d));
        assert(mat_det(m) == m[0][0] * mat_det(d)) by (nonlinear_arith)
            requires
                mat_det(m) == neg_one_pow(0) * m[0][0] * mat_det(d),
                neg_one_pow(0) == 1,
        ;
        assert(mat_det(d) == diag_prod(d, n - 1));
        assert(m[0][0] * diag_prod(d, n - 1) == diag_prod(m, n)) by (nonlinear_arith)
            requires
                diag_prod(mat_del(m, 0, 0), n - 1) * m[0][0] == diag_prod(m, n),
                d == mat_del(m, 0, 0),
        ;
    }
}

/// The arithmetic performed by the expansion of the determinant stays within
/// the element type: each minor's determinant, each term, and each partial
/// sum.  This is the machine-limit precondition of the exact expansion.
pub open spec fn det_fits(m: Seq<Seq<i64>>) -> bool
    decreases m.len(),
{
    if m.len() <= 1 {
        true
    } else {
        &&& forall|j: int| 0 <= j < m.len() ==> det_fits(#[trigger] mat_del(m, j, 0))
        &&& forall|j: int| 0 <= j < m.len() ==> in64(mat_det(#[trigger] mat_del(m, j, 0)))
        &&& forall|j: int|
            0 <= j < m.len() ==> in64((#[trigger] m[j])[0] * mat_det(mat_del(m, j, 0)))
        &&& forall|k: int| 0 <= k <= m.len() ==> in64(#[trigger] det_psum(m, k))
    }
}

/// The leading principal `k`-by-`k` block of a table of rows.
pub open spec fn leading_sub(m: Seq<Seq<i64>>, k: int) -> Seq<Seq<i64>> {
    Seq::new(k as nat, |j: int| Seq::new(k as nat, |i: int| m[j][i]))
}

/// When the unpivoted decomposition of a square table succeeds, and hence
/// when a determinant is reported as computable: the table is empty,
/// triangular, small enough for a closed form, or all of its natural pivots
/// are nonzero, which is to say all its leading principal minors.
pub open spec fn sq_det_some(m: Seq<Seq<i64>>) -> bool {
    ||| m.len() == 0
    ||| upper_tri(m)
    ||| lower_tri(m)
    ||| m.len() <= 3
    ||| forall|k: int| 1 <= k <= m.len() ==> mat_det(#[trigger] leading_sub(m, k)) != 0
}

/// The machine-limit precondition of the determinant of a square table: the
/// path the computation takes must stay within the element type.
pub open spec fn det_core_req(m: Seq<Seq<i64>>) -> bool {
    if m.len() == 0 {
        true
    } else if upper_tri(m) || lower_tri(m) {
        forall|k: int| 0 <= k <= m.len() ==> in64(#[trigger] diag_prod(m, k))
    } else if m.len() <= 3 {
        det_fits(m)
    } else {
        forall|k: int| 1 <= k <= m.len() ==> det_fits(#[trigger] leading_sub(m, k))
    }
}

/// The rows of a square matrix form a square table.
pub proof fn lemma_rows_square(m: Matrix)
    requires
        m.width() == m.height(),
    ensures
        mat_sq(m.rows()),
        m.rows().len() == m.height(),
{
}

impl Matrix {
    /// Cofactor expansion of the determinant along the first column; exact
    /// integer arithmetic.
    fn det_exp(&self) -> (r: i64)
        requires
            self.wf(),
            self.width() == self.height(),
            1 <= self.width(),
            det_fits(self.rows()),
        ensures
            r as int == mat_det(self.rows()),
        decreases self.width(),
    {
        let w = self.size[0];
        proof {
            assert(self.rows().len() == w);
        }
        if w == 1 {
            proof {
                assert(self.m@.len() == 1) by (nonlinear_arith)
                    requires
                        self.m@.len() == self.height() * self.width(),
                        self.width() == 1,
                        self.height() == 1,
                ;
                let rows = self.rows();
                assert(mat_det(rows) == det_psum(rows, 1));
                assert(det_psum(rows, 1) == det_psum(rows, 0) + det_term(rows, 0));
                assert(mat_del(rows, 0, 0).len() == 0);
                assert(mat_det(mat_del(rows, 0, 0)) == 1);
                assert(det_term(rows, 0) == neg_one_pow(0) * rows[0][0] * 1);
                assert(rows[0][0] == self.ent(0, 0));
                assert(self.ent(0, 0) == self.m@[0]);
            }
            return self.m[0];
        }
        let total = self.m.len();
        let mut acc: i64 = 0;
        let mut j: usize = 0;
        while j < w
            invariant
                self.wf(),
                self.width() == self.height(),
                w == self.size[0],
                2 <= w,
                j <= w,
                total == self.m@.len(),
                det_fits(self.rows()),
                acc == det_psum(self.rows(), j as int),
            decreases w - j,
        {
            let ghost rows = self.rows();
            let mn = minor(self, j, 0);
            proof {
                assert(det_fits(mat_del(rows, j as int, 0)));
                assert(in64(mat_det(mat_del(rows, j as int, 0))));
                assert(mn.rows() == mat_del(rows, j as int, 0));
            }
            let d = mn.det_exp();
            proof {
                lemma_row_major_bounds(w as int, w as int, j as int, 0);
                assert(rows[j as int][0] == self.ent(j as int, 0));
                assert(self.ent(j as int, 0) == self.m@[j as int * w]);
            }
            let e = self.m[j * w];
            proof {
                assert(in64(rows[j as int][0] * mat_det(mat_del(rows, j as int, 0))));
                assert(det_psum(rows, j as int + 1) == det_psum(rows, j as int) + det_term(
                    rows,
                    j as int,
                ));
                assert(det_term(rows, j as int) == neg_one_pow(j as int) * rows[j as int][0]
                    * mat_det(mat_del(rows, j as int, 0)));
                assert(in64(det_psum(rows, j as int + 1)));
            }
            if j % 2 == 0 {
                proof {
                    assert(neg_one_pow(j as int) == 1);
                    assert(det_term(rows, j as int) == e as int * d as int) by (nonlinear_arith)
                        requires
                            det_term(rows, j as int) == neg_one_pow(j as int) * rows[j as int][0]
                                * mat_det(mat_del(rows, j as int, 0)),
                            neg_one_pow(j as int) == 1,
                            e == rows[j as int][0],
                            d as int == mat_det(mat_del(rows, j as int, 0)),
                    ;
                }
                acc = acc + e * d;
            } else {
                proof {
                    assert(neg_one_pow(j as int) == -1);
                    assert(det_term(rows, j as int) == -(e as int * d as int)) by (nonlinear_arith)
                        requires
                            det_term(rows, j as int) == neg_one_pow(j as int) * rows[j as int][0]
                                * mat_det(mat_del(rows, j as int, 0)),
                            neg_one_pow(j as int) == -1,
                            e == rows[j as int][0],
                            d as int == mat_det(mat_del(rows, j as int, 0)),
                    ;
                }
                acc = acc - e * d;
            }
            j = j + 1;
        }
        acc
    }
}

impl Matrix {
    /// The leading principal `k`-by-`k` block: the natural pivots of the
    /// unpivoted decomposition are the determinants of these blocks.
    fn leading(&self, k: usize) -> (r: Matrix)
        requires
            self.wf(),
            self.width() == self.height(),
            1 <= k <= self.width(),
        ensures
            r.wf(),
            r.width() == k,
            r.height() == k,
            r.rows() == leading_sub(self.rows(), k as int),
    {
        let w = self.size[0];
        let total = self.m.len();
        let mut out: Vec<i64> = Vec::new();
        let mut j: usize = 0;
        while j < k
            invariant
                self.wf(),
                self.width() == self.height(),
                w == self.size[0],
                1 <= k <= w,
                j <= k,
                total == self.m@.len(),
                out@.len() == j * k,
                forall|jj: int, ii: int|
                    #![trigger out@[jj * k + ii]]
                    0 <= jj < j && 0 <= ii < k ==> out@[jj * k + ii] == self.ent(jj, ii),
            decreases k - j,
        {
            let mut i: usize = 0;
            while i < k
                invariant
                    self.wf(),
                    self.width() == self.height(),
                    w == self.size[0],
                    1 <= k <= w,
                    j < k,
                    i <= k,
                    total == self.m@.len(),
                    out@.len() == j * k + i,
                    forall|jj: int, ii: int|
                        #![trigger out@[jj * k + ii]]
                        0 <= jj < j && 0 <= ii < k ==> out@[jj * k + ii] == self.ent(jj, ii),
                    forall|ii: int|
                        #![trigger out@[j * k + ii]]
                        0 <= ii < i ==> out@[j * k + ii] == self.ent(j as int, ii),
                decreases k - i,
            {
                proof {
                    lemma_row_major_bounds(w as int, w as int, j as int, i as int);
                }
                out.push(self.m[j * w + i]);
                i = i + 1;
                proof {
                    assert forall|jj: int, ii: int|
                        #![trigger out@[jj * k + ii]]
                        0 <= jj < j && 0 <= ii < k implies out@[jj * k + ii] == self.ent(jj, ii) by {
                        lemma_row_major_bounds(k as int, j as int, jj, ii);
                    }
                }
            }
            j = j + 1;
            proof {
                assert forall|jj: int, ii: int|
                    #![trigger out@[jj * k + ii]]
                    0 <= jj < j && 0 <= ii < k implies out@[jj * k + ii] == self.ent(jj, ii) by {
                    lemma_row_major_bounds(k as int, j as int, jj, ii);
                }
                assert((j - 1) * k + k == j * k) by (nonlinear_arith);
            }
        }
        let r = Matrix { m: out, size: [k, k] };
        proof {
            assert(r.size[0] == k && r.size[1] == k);
            assert(r.m@.len() == k * k);
            assert(r.wf());
            assert forall|jj: int, ii: int|
                #![trigger r.ent(jj, ii)]
                0 <= jj < k && 0 <= ii < k implies r.ent(jj, ii) == self.ent(jj, ii) by {
                lemma_row_major_bounds(k as int, k as int, jj, ii);
            }
            assert(r.rows() =~~= leading_sub(self.rows(), k as int));
        }
        r
    }

    /// Determinant of a square matrix, exact over the integer elements, with
    /// the failure behaviour of the unpivoted decomposition: triangular
    /// matrices and sizes up to three are always computable; past that, the
    /// determinant exists exactly when every natural pivot, which is to say
    /// every leading principal minor, is nonzero.  `None` reports a vanishing
    /// pivot.  The empty matrix has determinant one here; the public surface
    /// rejects it before this point.
    fn det_core(&self) -> (r: Option<i64>)
        requires
            self.wf(),
            self.width() == self.height(),
            det_core_req(self.rows()),
        ensures
            (r matches Some(d)) <==> sq_det_some(self.rows()),
            r matches Some(d) ==> d as int == mat_det(self.rows()),
    {
        let ghost rows = self.rows();
        proof {
            lemma_rows_square(*self);
        }
        let w = self.size[0];
        let upper = self.is_upper_triangular();
        let lower = self.is_lower_triangular();
        if upper || lower {
            proof {
                lemma_det_triangular(rows);
            }
            let total = self.m.len();
            let mut rv: i64 = 1;
            let mut k: usize = 0;
            while k < w
                invariant
                    self.wf(),
                    self.width() == self.height(),
                    w == self.size[0],
                    k <= w,
                    total == self.m@.len(),
                    rows == self.rows(),
                    forall|t: int| 0 <= t <= w ==> in64(#[trigger] diag_prod(rows, t)),
                    rv == diag_prod(rows, k as int),
                decreases w - k,
            {
                proof {
                    lemma_row_major_bounds(w as int, w as int, k as int, k as int);
                    assert(rows[k as int][k as int] == self.ent(k as int, k as int));
                    assert(diag_prod(rows, k as int + 1) == diag_prod(rows, k as int)
                        * rows[k as int][k as int]);
                    assert(in64(diag_prod(rows, k as int + 1)));
                }
                rv = rv * self.m[k * w + k];
                k = k + 1;
            }
            return Some(rv);
        }
        proof {
            if w == 0 {
                assert(upper_tri(rows));
                assert(false);
            }
        }
        if w <= 3 {
            return Some(self.det_exp());
        }
        let mut k: usize = 1;
        while k < w
            invariant
                self.wf(),
                self.width() == self.height(),
                w == self.size[0],
                4 <= w,
                1 <= k <= w,
                rows == self.rows(),
                det_core_req(rows),
                !upper_tri(rows),
                !lower_tri(rows),
                forall|t: int| 1 <= t < k ==> mat_det(#[trigger] leading_sub(rows, t)) != 0,
            decreases w - k,
        {
            let led = self.leading(k);
            proof {
                assert(det_fits(leading_sub(rows, k as int)));
            }
            let d = led.det_exp();
            if d == 0 {
                proof {
                    assert(mat_det(leading_sub(rows, k as int)) == 0);
                    assert(!sq_det_some(rows));
                }
                return None;
            }
            k = k + 1;
        }
        proof {
            assert(leading_sub(rows, w as int) =~~= rows);
            assert(det_fits(leading_sub(rows, w as int)));
        }
        let d = self.det_exp();
        if d == 0 {
            proof {
                assert(mat_det(leading_sub(rows, w as int)) == 0);
                assert(!sq_det_some(rows));
            }
            return None;
        }
        proof {
            assert forall|t: int| 1 <= t <= w implies mat_det(#[trigger] leading_sub(rows, t))
                != 0 by {
                if t == w {
                    assert(leading_sub(rows, w as int) =~~= rows);
                }
            }
        }
        Some(d)
    }
}

/// Entry `(j, i)` of the cofactor matrix: the signed determinant of the
/// minor at that position.
pub open spec fn cof_ent(m: Seq<Seq<i64>>, j: int, i: int) -> int {
    neg_one_pow(j + i) * mat_det(mat_del(m, j, i))
}

/// Every minor's determinant is computable, so the cofactor matrix exists.
pub open spec fn cof_minors_ok(m: Seq<Seq<i64>>) -> bool {
    forall|j: int, i: int|
        #![trigger mat_del(m, j, i)]
        0 <= j < m.len() && 0 <= i < m.len() ==> sq_det_some(mat_del(m, j, i))
}

/// The machine-limit precondition of the cofactor matrix: every minor's
/// determinant stays within the element type, signed or not.
pub open spec fn cofactor_req(m: Seq<Seq<i64>>) -> bool {
    forall|j: int, i: int|
        #![trigger mat_del(m, j, i)]
        0 <= j < m.len() && 0 <= i < m.len() ==> det_core_req(mat_del(m, j, i)) && in64(
            cof_ent(m, j, i),
        )
}

impl Matrix {
    /// Determinant of the matrix, exact over the integer elements.  Fails on
    /// the empty matrix and on a non-square one; past size three a
    /// non-triangular matrix keeps the unpivoted decomposition's limitation:
    /// the determinant is reported as not computable exactly when one of the
    /// natural pivots, the leading principal minors, vanishes, even though a
    /// pivoted method could still compute it.
    pub fn det(&self) -> (r: SlalErr<i64>)
        requires
            self.wf(),
            self.width() == self.height() && !self.is_empty_spec() ==> det_core_req(self.rows()),
        ensures
            self.is_empty_spec() ==> r == Err::<i64, SlalError>(
                SlalError::EmptyMatrix(EMPTY_MATRIX_ON_DETERMINANT),
            ),
            !self.is_empty_spec() && self.width() != self.height() ==> r == Err::<i64, SlalError>(
                SlalError::NotSquareMatrix(self.width() as usize, self.height() as usize),
            ),
            self.is_square_spec() && sq_det_some(self.rows()) ==> (r matches Ok(d) && d as int
                == mat_det(self.rows())),
            self.is_square_spec() && !sq_det_some(self.rows()) ==> (r matches Err(e)
                && e matches SlalError::TriangularMatrixNotExist(x) && x.size == self.size && x.m@
                == self.m@),
    {
        if self.is_empty() {
            return Err(SlalError::EmptyMatrix(EMPTY_MATRIX_ON_DETERMINANT));
        }
        let w = self.size[0];
        let h = self.size[1];
        if w != h {
            return Err(SlalError::NotSquareMatrix(w, h));
        }
        match self.det_core() {
            Some(d) => Ok(d),
            None => Err(SlalError::TriangularMatrixNotExist(self.copy_of())),
        }
    }

    /// The matrix of cofactors: at every position, the signed determinant of
    /// the minor there.  Fails on the empty matrix, on a non-square one, and
    /// whenever one minor's determinant is not computable; that last failure
    /// propagates the decomposition failure unchanged, carrying the guilty
    /// minor.
    pub fn cofactor(&self) -> (r: SlalErr<Matrix>)
        requires
            self.wf(),
            self.is_square_spec() ==> cofactor_req(self.rows()),
        ensures
            self.is_empty_spec() ==> r == Err::<Matrix, SlalError>(
                SlalError::EmptyMatrix(EMPTY_MATRIX_ON_COFACTOR),
            ),
            !self.is_empty_spec() && self.width() != self.height() ==> r == Err::<Matrix, SlalError>(
                SlalError::NotSquareMatrix(self.width() as usize, self.height() as usize),
            ),
            self.is_square_spec() && cof_minors_ok(self.rows()) ==> (r matches Ok(c) && c.wf()
                && c.width() == self.width() && c.height() == self.height() && (forall|
                j: int,
                i: int,
            |
                0 <= j < self.height() && 0 <= i < self.width() ==> #[trigger] c.ent(j, i)
                    == cof_ent(self.rows(), j, i))),
            self.is_square_spec() && !cof_minors_ok(self.rows()) ==> (r matches Err(e)
                && e matches SlalError::TriangularMatrixNotExist(x) && x.wf() && (exists|
                j: int,
                i: int,
            |
                #![trigger mat_del(self.rows(), j, i)]
                0 <= j < self.height() && 0 <= i < self.width() && !sq_det_some(
                    mat_del(self.rows(), j, i),
                ) && x.rows() == mat_del(self.rows(), j, i))),
    {
        if self.is_empty() {
            return Err(SlalError::EmptyMatrix(EMPTY_MATRIX_ON_COFACTOR));
        }
        let w = self.size[0];
        let h = self.size[1];
        if w != h {
            return Err(SlalError::NotSquareMatrix(w, h));
        }
        let ghost rows = self.rows();
        let total = self.m.len();
        let mut out: Vec<i64> = Vec::new();
        let mut j: usize = 0;
        while j < h
            invariant
                self.wf(),
                w == self.size[0],
                h == self.size[1],
                w == h,
                1 <= w,
                j <= h,
                total == self.m@.len(),
                rows == self.rows(),
                cofactor_req(rows),
                out@.len() == j * w,
                forall|jj: int, ii: int|
                    #![trigger out@[jj * w + ii]]
                    0 <= jj < j && 0 <= ii < w ==> out@[jj * w + ii] == cof_ent(rows, jj, ii),
                forall|jj: int, ii: int|
                    #![trigger mat_del(rows, jj, ii)]
                    0 <= jj < j && 0 <= ii < w ==> sq_det_some(mat_del(rows, jj, ii)),
            decreases h - j,
        {
            let mut i: usize = 0;
            while i < w
                invariant
                    self.wf(),
                    w == self.size[0],
                    h == self.size[1],
                    w == h,
                    1 <= w,
                    j < h,
                    i <= w,
                    total == self.m@.len(),
                    rows == self.rows(),
                    cofactor_req(rows),
                    out@.len() == j * w + i,
                    forall|jj: int, ii: int|
                        #![trigger out@[jj * w + ii]]
                        0 <= jj < j && 0 <= ii < w ==> out@[jj * w + ii] == cof_ent(rows, jj, ii),
                    forall|jj: int, ii: int|
                        #![trigger mat_del(rows, jj, ii)]
                        0 <= jj < j && 0 <= ii < w ==> sq_det_some(mat_del(rows, jj, ii)),
                    forall|ii: int|
                        #![trigger out@[j * w + ii]]
                        0 <= ii < i ==> out@[j * w + ii] == cof_ent(rows, j as int, ii),
                    forall|ii: int|
                        #![trigger mat_del(rows, j as int, ii)]
                        0 <= ii < i ==> sq_det_some(mat_del(rows, j as int, ii)),
                decreases w - i,
            {
                let mn = minor(self, j, i);
                proof {
                    assert(det_core_req(mat_del(rows, j as int, i as int)) && in64(
                        cof_ent(rows, j as int, i as int),
                    ));
                    assert(mn.rows() == mat_del(rows, j as int, i as int));
                }
                let d = match mn.det_core() {
                    Some(d) => d,
                    None => {
                        proof {
                            assert(!sq_det_some(mat_del(rows, j as int, i as int)));
                            assert(!cof_minors_ok(rows));
                        }
                        return Err(SlalError::TriangularMatrixNotExist(mn));
                    },
                };
                proof {
                    assert(cof_ent(rows, j as int, i as int) == neg_one_pow(j as int + i as int)
                        * mat_det(mat_del(rows, j as int, i as int)));
                    assert((i as int) + (j as int) <= (usize::MAX as int)) by (nonlinear_arith)
                        requires
                            0 <= (i as int) && (i as int) < (w as int),
                            0 <= (j as int) && (j as int) < (w as int),
                            (w as int) * (w as int) <= (usize::MAX as int),
                    ;
                }
                if (i + j) % 2 == 0 {
                    proof {
                        assert(neg_one_pow(j as int + i as int) == 1);
                        assert(cof_ent(rows, j as int, i as int) == mat_det(
                            mat_del(rows, j as int, i as int),
                        )) by (nonlinear_arith)
                            requires
                                cof_ent(rows, j as int, i as int) == neg_one_pow(
                                    j as int + i as int,
                                ) * mat_det(mat_del(rows, j as int, i as int)),
                                neg_one_pow(j as int + i as int) == 1,
                        ;
                    }
                    out.push(d);
                } else {
                    proof {
                        assert(neg_one_pow(j as int + i as int) == -1);
                        assert(cof_ent(rows, j as int, i as int) == -mat_det(
                            mat_del(rows, j as int, i as int),
                        )) by (nonlinear_arith)
                            requires
                                cof_ent(rows, j as int, i as int) == neg_one_pow(
                                    j as int + i as int,
                                ) * mat_det(mat_del(rows, j as int, i as int)),
                                neg_one_pow(j as int + i as int) == -1,
                        ;
                    }
                    out.push(0 - d);
                }
                i = i + 1;
                proof {
                    assert forall|jj: int, ii: int|
                        #![trigger out@[jj * w + ii]]
                        0 <= jj < j && 0 <= ii < w implies out@[jj * w + ii] == cof_ent(
                        rows,
                        jj,
                        ii,
                    ) by {
                        lemma_row_major_bounds(w as int, j as int, jj, ii);
                    }
                }
            }
            j = j + 1;
            proof {
                assert forall|jj: int, ii: int|
                    #![trigger out@[jj * w + ii]]
                    0 <= jj < j && 0 <= ii < w implies out@[jj * w + ii] == cof_ent(rows, jj, ii) by {
                    lemma_row_major_bounds(w as int, j as int, jj, ii);
                }
                assert((j - 1) * w + w == j * w) by (nonlinear_arith);
            }
        }
        let c = Matrix { m: out, size: [w, h] };
        proof {
            assert(c.size[0] == w && c.size[1] == h);
            assert(c.m@.len() == h * w);
            assert(c.wf());
            assert forall|jj: int, ii: int|
                0 <= jj < self.height() && 0 <= ii < self.width() implies #[trigger] c.ent(jj, ii)
                == cof_ent(rows, jj, ii) by {
                lemma_row_major_bounds(w as int, h as int, jj, ii);
            }
            assert(cof_minors_ok(rows));
        }
        Ok(c)
    }
}

impl Matrix {
    /// The inverse, presented exactly: the adjugate (the transpose of the
    /// cofactor matrix) together with the determinant.  The inverse of the
    /// matrix is the adjugate divided element-wise by the determinant; the
    /// division is left to the caller so that nothing is rounded here.
    /// Fails like `det` on an empty or non-square matrix, when the
    /// determinant is not computable or exactly zero, and like `cofactor`
    /// when one minor's determinant is not computable.
    pub fn inverse(&self) -> (r: SlalErr<(Matrix, i64)>)
        requires
            self.wf(),
            self.is_square_spec() ==> det_core_req(self.rows()) && cofactor_req(self.rows()),
        ensures
            self.is_empty_spec() ==> r == Err::<(Matrix, i64), SlalError>(
                SlalError::EmptyMatrix(EMPTY_MATRIX_ON_DETERMINANT),
            ),
            !self.is_empty_spec() && self.width() != self.height() ==> r == Err::<
                (Matrix, i64),
                SlalError,
            >(SlalError::NotSquareMatrix(self.width() as usize, self.height() as usize)),
            self.is_square_spec() && (!sq_det_some(self.rows()) || mat_det(self.rows()) == 0)
                ==> (r matches Err(e) && e matches SlalError::TriangularMatrixNotExist(x) && x.size
                == self.size && x.m@ == self.m@),
            self.is_square_spec() && sq_det_some(self.rows()) && mat_det(self.rows()) != 0
                && !cof_minors_ok(self.rows()) ==> (r matches Err(e)
                && e matches SlalError::TriangularMatrixNotExist(x) && x.wf() && (exists|
                j: int,
                i: int,
            |
                #![trigger mat_del(self.rows(), j, i)]
                0 <= j < self.height() && 0 <= i < self.width() && !sq_det_some(
                    mat_del(self.rows(), j, i),
                ) && x.rows() == mat_del(self.rows(), j, i))),
            self.is_square_spec() && sq_det_some(self.rows()) && mat_det(self.rows()) != 0
                && cof_minors_ok(self.rows()) ==> (r matches Ok(p) && p.0.wf() && p.0.width()
                == self.width() && p.0.height() == self.height() && p.1 as int == mat_det(
                self.rows(),
            ) && (forall|j: int, i: int|
                0 <= j < self.height() && 0 <= i < self.width() ==> #[trigger] p.0.ent(j, i)
                    == cof_ent(self.rows(), i, j))),
    {
        let d = match self.det() {
            Ok(d) => d,
            Err(e) => {
                return Err(e);
            },
        };
        if d == 0 {
            return Err(SlalError::TriangularMatrixNotExist(self.copy_of()));
        }
        let mut c = match self.cofactor() {
            Ok(c) => c,
            Err(e) => {
                return Err(e);
            },
        };
        c.t();
        Ok((c, d))
    }
}

/// The determinant of a triangular square matrix is exactly the product of
/// its diagonal entries, and such a determinant is always computable: the
/// fast path and the expansion agree.
pub proof fn lemma_det_of_triangular_matrix(m: Matrix)
    requires
        m.wf(),
        m.width() == m.height(),
        upper_tri(m.rows()) || lower_tri(m.rows()),
    ensures
        sq_det_some(m.rows()),
        mat_det(m.rows()) == diag_prod(m.rows(), m.height()),
{
    lemma_rows_square(m);
    lemma_det_triangular(m.rows());
}

/// Term `i` of the cofactor expansion of the determinant along the first
/// row.
spec fn row_term(m: Seq<Seq<i64>>, i: int) -> int
    decreases m.len(), 0int, 0int,
    when m.len() >= 1
{
    neg_one_pow(i) * m[0][i] * mat_det(mat_del(m, 0, i))
}

/// Sum of the first `k` terms of the cofactor expansion along the first
/// row.
spec fn row_psum(m: Seq<Seq<i64>>, k: int) -> int
    decreases m.len(), 1int, k,
    when m.len() >= 1
{
    if k <= 0 {
        0
    } else {
        row_psum(m, k - 1) + row_term(m, k - 1)
    }
}

/// Sum of `f(1) + f(2) + ... + f(k - 1)`.
spec fn sum_from1(f: spec_fn(int) -> int, k: int) -> int
    decreases k,
{
    if k <= 1 {
        0
    } else {
        sum_from1(f, k - 1) + f(k - 1)
    }
}

/// Sums of pointwise equal summands are equal.
proof fn lemma_sum_congruent(f: spec_fn(int) -> int, g: spec_fn(int) -> int, k: int)
    requires
        forall|t: int| 1 <= t < k ==> #[trigger] f(t) == g(t),
    ensures
        sum_from1(f, k) == sum_from1(g, k),
    decreases k,
{
    if k > 1 {
        lemma_sum_congruent(f, g, k - 1);
    }
}

/// A sum of pointwise scaled summands is the scaled sum.
proof fn lemma_sum_scale(f: spec_fn(int) -> int, g: spec_fn(int) -> int, c: int, k: int)
    requires
        forall|t: int| 1 <= t < k ==> #[trigger] g(t) == c * f(t),
    ensures
        sum_from1(g, k) == c * sum_from1(f, k),
    decreases k,
{
    if k <= 1 {
        assert(c * 0 == 0) by (nonlinear_arith);
    } else {
        lemma_sum_scale(f, g, c, k - 1);
        assert(sum_from1(g, k - 1) + g(k - 1) == c * (sum_from1(f, k - 1) + f(k - 1)))
            by (nonlinear_arith)
            requires
                sum_from1(g, k - 1) == c * sum_from1(f, k - 1),
                g(k - 1) == c * f(k - 1),
        ;
    }
}

/// Sums of pointwise sums split into the two sums.
proof fn lemma_sum_add(
    f: spec_fn(int) -> int,
    g: spec_fn(int) -> int,
    h: spec_fn(int) -> int,
    k: int,
)
    requires
        forall|t: int| 1 <= t < k ==> #[trigger] h(t) == f(t) + g(t),
    ensures
        sum_from1(h, k) == sum_from1(f, k) + sum_from1(g, k),
    decreases k,
{
    if k > 1 {
        lemma_sum_add(f, g, h, k - 1);
    }
}

/// A double sum may be read row by row or column by column.
proof fn lemma_sum_swap(t: spec_fn(int, int) -> int, kj: int, ki: int)
    ensures
        sum_from1(|j: int| sum_from1(|i: int| t(j, i), ki), kj) == sum_from1(
            |i: int| sum_from1(|j: int| t(j, i), kj),
            ki,
        ),
    decreases kj,
{
    let lhs_inner = |j: int| sum_from1(|i: int| t(j, i), ki);
    let rhs_inner = |i: int| sum_from1(|j: int| t(j, i), kj);
    if kj <= 1 {
        let zero = |i: int| 0int;
        assert forall|i: int| 1 <= i < ki implies #[trigger] rhs_inner(i) == zero(i) by {
            assert(sum_from1(|j: int| t(j, i), kj) == 0);
        }
        lemma_sum_congruent(rhs_inner, zero, ki);
        lemma_sum_scale(zero, zero, 0, ki);
        assert(sum_from1(zero, ki) == 0);
    } else {
        lemma_sum_swap(t, kj - 1, ki);
        let prev = |i: int| sum_from1(|j: int| t(j, i), kj - 1);
        let last = |i: int| t(kj - 1, i);
        let full = rhs_inner;
        assert forall|i: int| 1 <= i < ki implies #[trigger] full(i) == prev(i) + last(i) by {
            let g = |j: int| t(j, i);
            assert(sum_from1(g, kj) == sum_from1(g, kj - 1) + g(kj - 1));
        }
        lemma_sum_add(prev, last, full, ki);
        assert(sum_from1(lhs_inner, kj) == sum_from1(lhs_inner, kj - 1) + lhs_inner(kj - 1));
        assert(lhs_inner(kj - 1) == sum_from1(last, ki)) by {
            lemma_sum_congruent(|i: int| t(kj - 1, i), last, ki);
        }
        assert(sum_from1(lhs_inner, kj - 1) == sum_from1(prev, ki));
    }
}

/// Signs of a cofactor expansion compose additively.
proof fn lemma_sign_add(a: int, b: int)
    ensures
        neg_one_pow(a) * neg_one_pow(b) == neg_one_pow(a + b),
{
    if a % 2 == 0 {
        if b % 2 == 0 {
            assert((a + b) % 2 == 0) by (nonlinear_arith)
                requires
                    a % 2 == 0,
                    b % 2 == 0,
            ;
        } else {
            assert((a + b) % 2 != 0) by (nonlinear_arith)
                requires
                    a % 2 == 0,
                    b % 2 != 0,
            ;
        }
    } else {
        if b % 2 == 0 {
            assert((a + b) % 2 != 0) by (nonlinear_arith)
                requires
                    a % 2 != 0,
                    b % 2 == 0,
            ;
        } else {
            assert((a + b) % 2 == 0) by (nonlinear_arith)
                requires
                    a % 2 != 0,
                    b % 2 != 0,
            ;
        }
    }
}

/// Deleting a later row and an earlier column commutes with deleting the
/// earlier column and the later row, once the indices are shifted past each
/// other: both orders leave the same double minor.
proof fn lemma_double_minor(m: Seq<Seq<i64>>, j: int, i: int)
    requires
        mat_sq(m),
        1 <= j < m.len(),
        1 <= i < m.len(),
    ensures
        mat_del(mat_del(m, j, 0), 0, i - 1) == mat_del(mat_del(m, 0, i), j - 1, 0),
{
    let a = mat_del(m, j, 0);
    let b = mat_del(m, 0, i);
    let lhs = mat_del(a, 0, i - 1);
    let rhs = mat_del(b, j - 1, 0);
    assert forall|r: int, c: int|
        0 <= r < m.len() - 2 && 0 <= c < m.len() - 2 implies #[trigger] lhs[r][c] == rhs[r][c] by {
        let rr = if r + 1 < j {
            r + 1
        } else {
            r + 2
        };
        let cc = if c + 1 < i {
            c + 1
        } else {
            c + 2
        };
        assert(a[r + 1] == row_del(m[rr], 0));
        assert(lhs[r] == row_del(a[r + 1], i - 1));
        assert(lhs[r][c] == m[rr][cc]);
        let br = if r < j - 1 {
            r
        } else {
            r + 1
        };
        assert(b[br] == row_del(m[br + 1], i));
        assert(rhs[r] == row_del(b[br], 0));
        assert(rhs[r][c] == m[br + 1][cc]);
        assert(br + 1 == rr);
    }
    assert(lhs =~~= rhs);
}

/// The column expansion split off its first term.
proof fn lemma_psum_split(m: Seq<Seq<i64>>, k: int)
    requires
        m.len() >= 1,
        1 <= k,
    ensures
        det_psum(m, k) == det_term(m, 0) + sum_from1(|j: int| det_term(m, j), k),
    decreases k,
{
    if k == 1 {
        assert(det_psum(m, 1) == det_psum(m, 0) + det_term(m, 0));
    } else {
        lemma_psum_split(m, k - 1);
        let f = |j: int| det_term(m, j);
        assert(det_psum(m, k) == det_psum(m, k - 1) + det_term(m, k - 1));
        assert(sum_from1(f, k) == sum_from1(f, k - 1) + f(k - 1));
    }
}

/// The row expansion split off its first term.
proof fn lemma_rowpsum_split(m: Seq<Seq<i64>>, k: int)
    requires
        m.len() >= 1,
        1 <= k,
    ensures
        row_psum(m, k) == row_term(m, 0) + sum_from1(|i: int| row_term(m, i), k),
    decreases k,
{
    if k == 1 {
        assert(row_psum(m, 1) == row_psum(m, 0) + row_term(m, 0));
    } else {
        lemma_rowpsum_split(m, k - 1);
        let f = |i: int| row_term(m, i);
        assert(row_psum(m, k) == row_psum(m, k - 1) + row_term(m, k - 1));
        assert(sum_from1(f, k) == sum_from1(f, k - 1) + f(k - 1));
    }
}

/// Summand `(j, i)` of the doubly expanded determinant, reached by deleting
/// row `j` and column zero first.
spec fn xterm(m: Seq<Seq<i64>>, j: int, i: int) -> int {
    neg_one_pow(i - 1) * m[0][i] * mat_det(mat_del(mat_del(m, j, 0), 0, i - 1))
}

/// Summand `(j, i)` of the doubly expanded determinant, reached by deleting
/// row zero and column `i` first.
spec fn yterm(m: Seq<Seq<i64>>, i: int, j: int) -> int {
    neg_one_pow(j - 1) * m[j][0] * mat_det(mat_del(mat_del(m, 0, i), j - 1, 0))
}

/// The row expansion of the minor at `(j, 0)`, reindexed over the original
/// columns.
proof fn lemma_rowpsum_shift(m: Seq<Seq<i64>>, j: int, k: int)
    requires
        mat_sq(m),
        2 <= m.len(),
        1 <= j < m.len(),
        1 <= k <= m.len(),
    ensures
        row_psum(mat_del(m, j, 0), k - 1) == sum_from1(|i: int| xterm(m, j, i), k),
    decreases k,
{
    let d = mat_del(m, j, 0);
    let f = |i: int| xterm(m, j, i);
    if k == 1 {
        assert(row_psum(d, 0) == 0);
    } else {
        lemma_rowpsum_shift(m, j, k - 1);
        assert(row_psum(d, k - 1) == row_psum(d, k - 2) + row_term(d, k - 2));
        assert(sum_from1(f, k) == sum_from1(f, k - 1) + f(k - 1));
        assert(d[0] == row_del(m[0], 0));
        assert(d[0][k - 2] == m[0][k - 1]);
        assert(row_term(d, k - 2) == neg_one_pow(k - 2) * d[0][k - 2] * mat_det(
            mat_del(d, 0, k - 2),
        ));
        assert(f(k - 1) == neg_one_pow(k - 2) * m[0][k - 1] * mat_det(mat_del(d, 0, k - 2)));
    }
}

/// The column expansion of the minor at `(0, i)`, reindexed over the
/// original rows.
proof fn lemma_colpsum_shift(m: Seq<Seq<i64>>, i: int, k: int)
    requires
        mat_sq(m),
        2 <= m.len(),
        1 <= i < m.len(),
        1 <= k <= m.len(),
    ensures
        det_psum(mat_del(m, 0, i), k - 1) == sum_from1(|j: int| yterm(m, i, j), k),
    decreases k,
{
    let d = mat_del(m, 0, i);
    let f = |j: int| yterm(m, i, j);
    if k == 1 {
        assert(det_psum(d, 0) == 0);
    } else {
        lemma_colpsum_shift(m, i, k - 1);
        assert(det_psum(d, k - 1) == det_psum(d, k - 2) + det_term(d, k - 2));
        assert(sum_from1(f, k) == sum_from1(f, k - 1) + f(k - 1));
        assert(d[k - 2] == row_del(m[k - 1], i));
        assert(d[k - 2][0] == m[k - 1][0]);
        assert(det_term(d, k - 2) == neg_one_pow(k - 2) * d[k - 2][0] * mat_det(
            mat_del(d, k - 2, 0),
        ));
        assert(f(k - 1) == neg_one_pow(k - 2) * m[k - 1][0] * mat_det(mat_del(d, k - 2, 0)));
    }
}

/// Both double expansions produce the same summand at `(j, i)`: the double
/// minors coincide and the signs compose to the same parity.
proof fn lemma_terms_match(m: Seq<Seq<i64>>, j: int, i: int)
    requires
        mat_sq(m),
        1 <= j < m.len(),
        1 <= i < m.len(),
    ensures
        neg_one_pow(j) * m[j][0] * xterm(m, j, i) == neg_one_pow(i) * m[0][i] * yterm(m, i, j),
{
    lemma_double_minor(m, j, i);
    let d = mat_det(mat_del(mat_del(m, j, 0), 0, i - 1));
    assert(mat_det(mat_del(mat_del(m, 0, i), j - 1, 0)) == d);
    lemma_sign_add(j, i - 1);
    lemma_sign_add(i, j - 1);
    assert(j + (i - 1) == i + (j - 1));
    let a = m[j][0];
    let b = m[0][i];
    let s = neg_one_pow(j + i - 1);
    assert(neg_one_pow(j) * a * (neg_one_pow(i - 1) * b * d) == neg_one_pow(i) * b * (neg_one_pow(
        j - 1,
    ) * a * d)) by (nonlinear_arith)
        requires
            neg_one_pow(j) * neg_one_pow(i - 1) == s,
            neg_one_pow(i) * neg_one_pow(j - 1) == s,
    ;
}

/// The determinant may be expanded along the first row as well as along the
/// first column: both cofactor expansions agree.
proof fn lemma_row_expansion(m: Seq<Seq<i64>>)
    requires
        mat_sq(m),
        1 <= m.len(),
    ensures
        mat_det(m) == row_psum(m, m.len() as int),
    decreases m.len(),
{
    let n = m.len() as int;
    if n == 1 {
        assert(mat_det(m) == det_psum(m, 1));
        assert(det_psum(m, 1) == det_psum(m, 0) + det_term(m, 0));
        assert(row_psum(m, 1) == row_psum(m, 0) + row_term(m, 0));
        assert(det_term(m, 0) == neg_one_pow(0) * m[0][0] * mat_det(mat_del(m, 0, 0)));
        assert(row_term(m, 0) == neg_one_pow(0) * m[0][0] * mat_det(mat_del(m, 0, 0)));
    } else {
        // The column expansion, with the corner term split off and every
        // remaining term expanded once more along its minor's first row.
        let cf = |j: int| det_term(m, j);
        let colrow = |j: int| sum_from1(|i: int| neg_one_pow(j) * m[j][0] * xterm(m, j, i), n);
        lemma_psum_split(m, n);
        assert(mat_det(m) == det_term(m, 0) + sum_from1(cf, n));
        assert forall|j: int| 1 <= j < n implies #[trigger] cf(j) == colrow(j) by {
            let d = mat_del(m, j, 0);
            lemma_mat_del_sq(m, j, 0);
            lemma_row_expansion(d);
            lemma_rowpsum_shift(m, j, n);
            assert(mat_det(d) == sum_from1(|i: int| xterm(m, j, i), n));
            lemma_sum_scale(
                |i: int| xterm(m, j, i),
                |i: int| neg_one_pow(j) * m[j][0] * xterm(m, j, i),
                neg_one_pow(j) * m[j][0],
                n,
            );
            assert(det_term(m, j) == neg_one_pow(j) * m[j][0] * mat_det(d));
            assert(neg_one_pow(j) * m[j][0] * mat_det(d) == (neg_one_pow(j) * m[j][0]) * sum_from1(
                |i: int| xterm(m, j, i),
                n,
            )) by (nonlinear_arith)
                requires
                    mat_det(d) == sum_from1(|i: int| xterm(m, j, i), n),
            ;
        }
        lemma_sum_congruent(cf, colrow, n);

        // The row expansion, with the corner term split off and every
        // remaining term expanded once more along its minor's first column.
        let rf = |i: int| row_term(m, i);
        let rowcol = |i: int| sum_from1(|j: int| neg_one_pow(i) * m[0][i] * yterm(m, i, j), n);
        lemma_rowpsum_split(m, n);
        assert(row_psum(m, n) == row_term(m, 0) + sum_from1(rf, n));
        assert forall|i: int| 1 <= i < n implies #[trigger] rf(i) == rowcol(i) by {
            let d = mat_del(m, 0, i);
            lemma_mat_del_sq(m, 0, i);
            lemma_colpsum_shift(m, i, n);
            assert(mat_det(d) == det_psum(d, n - 1));
            assert(mat_det(d) == sum_from1(|j: int| yterm(m, i, j), n));
            lemma_sum_scale(
                |j: int| yterm(m, i, j),
                |j: int| neg_one_pow(i) * m[0][i] * yterm(m, i, j),
                neg_one_pow(i) * m[0][i],
                n,
            );
            assert(row_term(m, i) == neg_one_pow(i) * m[0][i] * mat_det(d));
            assert(neg_one_pow(i) * m[0][i] * mat_det(d) == (neg_one_pow(i) * m[0][i]) * sum_from1(
                |j: int| yterm(m, i, j),
                n,
            )) by (nonlinear_arith)
                requires
                    mat_det(d) == sum_from1(|j: int| yterm(m, i, j), n),
            ;
        }
        lemma_sum_congruent(rf, rowcol, n);

        // Both corner terms are one and the same expression.
        assert(det_term(m, 0) == row_term(m, 0));

        // The two double sums enumerate the same summands, one row by row,
        // the other column by column.
        let t = |j: int, i: int| neg_one_pow(j) * m[j][0] * xterm(m, j, i);
        assert forall|j: int| 1 <= j < n implies #[trigger] colrow(j) == sum_from1(
            |i: int| t(j, i),
            n,
        ) by {
            lemma_sum_congruent(
                |i: int| neg_one_pow(j) * m[j][0] * xterm(m, j, i),
                |i: int| t(j, i),
                n,
            );
        }
        lemma_sum_congruent(colrow, |j: int| sum_from1(|i: int| t(j, i), n), n);
        lemma_sum_swap(t, n, n);
        assert forall|i: int| 1 <= i < n implies #[trigger] rowcol(i) == sum_from1(
            |j: int| t(j, i),
            n,
        ) by {
            let lf = |j: int| neg_one_pow(i) * m[0][i] * yterm(m, i, j);
            let rt = |j: int| t(j, i);
            assert forall|j: int| 1 <= j < n implies #[trigger] lf(j) == rt(j) by {
                lemma_terms_match(m, j, i);
            }
            lemma_sum_congruent(lf, rt, n);
        }
        lemma_sum_congruent(rowcol, |i: int| sum_from1(|j: int| t(j, i), n), n);
        assert(sum_from1(colrow, n) == sum_from1(rowcol, n));
    }
}

/// Column-expansion terms that match row-expansion terms give matching
/// partial sums.
proof fn lemma_psums_row_eq(b: Seq<Seq<i64>>, m: Seq<Seq<i64>>, k: int)
    requires
        b.len() >= 1,
        m.len() >= 1,
        forall|j: int| 0 <= j < k ==> #[trigger] det_term(b, j) == row_term(m, j),
    ensures
        det_psum(b, k) == row_psum(m, k),
    decreases k,
{
    if k > 0 {
        lemma_psums_row_eq(b, m, k - 1);
        assert(det_psum(b, k) == det_psum(b, k - 1) + det_term(b, k - 1));
        assert(row_psum(m, k) == row_psum(m, k - 1) + row_term(m, k - 1));
    }
}

/// The determinant of the transpose equals the determinant: the column
/// expansion of the transpose is the row expansion of the original, minor by
/// minor, and the two expansions of one table agree.
pub proof fn lemma_det_transpose(m: Seq<Seq<i64>>)
    requires
        mat_sq(m),
    ensures
        mat_det(crate::matrix::transpose_rows(m, m.len() as int)) == mat_det(m),
    decreases m.len(),
{
    let n = m.len() as int;
    let b = crate::matrix::transpose_rows(m, n);
    assert(b.len() == n);
    if n == 0 {
        assert(mat_det(b) == 1);
        assert(mat_det(m) == 1);
    } else {
        assert(mat_sq(b));
        assert forall|j: int| 0 <= j < n implies #[trigger] det_term(b, j) == row_term(m, j) by {
            assert(b[j][0] == m[0][j]);
            let del = mat_del(m, 0, j);
            lemma_mat_del_sq(m, 0, j);
            let tdel = crate::matrix::transpose_rows(del, n - 1);
            assert forall|r: int, c: int|
                0 <= r < n - 1 && 0 <= c < n - 1 implies #[trigger] mat_del(b, j, 0)[r][c]
                == tdel[r][c] by {
                let rr = if r < j {
                    r
                } else {
                    r + 1
                };
                assert(mat_del(b, j, 0)[r] == row_del(b[rr], 0));
                assert(mat_del(b, j, 0)[r][c] == b[rr][c + 1]);
                assert(b[rr][c + 1] == m[c + 1][rr]);
                assert(tdel[r][c] == del[c][r]);
                assert(del[c] == row_del(m[c + 1], j));
                assert(del[c][r] == m[c + 1][rr]);
            }
            assert(mat_del(b, j, 0) =~~= tdel);
            lemma_det_transpose(del);
            assert(mat_det(mat_del(b, j, 0)) == mat_det(del));
            assert(det_term(b, j) == neg_one_pow(j) * b[j][0] * mat_det(mat_del(b, j, 0)));
            assert(row_term(m, j) == neg_one_pow(j) * m[0][j] * mat_det(mat_del(m, 0, j)));
        }
        lemma_psums_row_eq(b, m, n);
        lemma_row_expansion(m);
        assert(mat_det(b) == det_psum(b, n));
        assert(mat_det(m) == row_psum(m, n));
    }
}

/// The matrix-level reading of the law: a well-formed square matrix and its
/// transpose have one determinant.  (Whether the unpivoted decomposition can
/// compute each side is a separate question: past size three the two sides
/// may differ in computability, but never in value.)
pub proof fn lemma_det_transpose_matrix(a: Matrix, b: Matrix)
    requires
        a.wf(),
        a.width() == a.height(),
        b.width() == a.height(),
        b.height() == a.width(),
        b.rows() == crate::matrix::transpose_rows(a.rows(), a.width()),
    ensures
        mat_det(b.rows()) == mat_det(a.rows()),
{
    lemma_rows_square(a);
    lemma_det_transpose(a.rows());
}

} // verus!
