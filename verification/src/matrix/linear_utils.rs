use vstd::prelude::*;

use crate::matrix::{lemma_row_major_bounds, Matrix};

verus! {

/// Every entry strictly below the diagonal is zero.
pub open spec fn upper_tri(m: Seq<Seq<i64>>) -> bool {
    forall|j: int, i: int| #![trigger m[j][i]] 0 <= i < j < m.len() ==> m[j][i] == 0
}

/// Every entry strictly above the diagonal is zero.
pub open spec fn lower_tri(m: Seq<Seq<i64>>) -> bool {
    forall|j: int, i: int| #![trigger m[j][i]] 0 <= j < i < m.len() ==> m[j][i] == 0
}

/// Every entry off the diagonal is zero.
pub open spec fn diag_only(m: Seq<Seq<i64>>) -> bool {
    forall|j: int, i: int|
        #![trigger m[j][i]]
        0 <= j < m.len() && 0 <= i < m.len() && j != i ==> m[j][i] == 0
}

/// The row `s` with position `c` deleted.
pub open spec fn row_del(s: Seq<i64>, c: int) -> Seq<i64> {
    Seq::new(
        (s.len() - 1) as nat,
        |i: int|
            if i < c {
                s[i]
            } else {
                s[i + 1]
            },
    )
}

/// The table of rows `m` with row `r` and column `c` deleted: the minor
/// shape of a matrix.
pub open spec fn mat_del(m: Seq<Seq<i64>>, r: int, c: int) -> Seq<Seq<i64>> {
    Seq::new(
        (m.len() - 1) as nat,
        |j: int|
            row_del(
                m[if j < r {
                    j
                } else {
                    j + 1
                }],
                c,
            ),
    )
}

/// The minor of a matrix: the matrix with row `row` and column `column`
/// deleted.  The caller is expected to know already that the matrix is
/// square and the position in range.
pub fn minor(mtx: &Matrix, row: usize, column: usize) -> (r: Matrix)
    requires
        mtx.wf(),
        mtx.width() == mtx.height(),
        0 < mtx.width(),
        row < mtx.height(),
        column < mtx.width(),
    ensures
        r.wf(),
        r.width() == mtx.width() - 1,
        r.height() == mtx.height() - 1,
        r.rows() == mat_del(mtx.rows(), row as int, column as int),
{
    let w = mtx.size[0];
    let h = mtx.size[1];
    let total = mtx.m.len();
    let ow = w - 1;
    let oh = h - 1;
    let mut out: Vec<i64> = Vec::new();
    let mut j: usize = 0;
    while j < oh
        invariant
            j <= oh,
            w == mtx.size[0],
            h == mtx.size[1],
            ow == w - 1,
            oh == h - 1,
            row < h,
            column < w,
            mtx.wf(),
            total == mtx.m@.len(),
            out@.len() == j * ow,
            forall|jj: int, ii: int|
                #![trigger out@[jj * ow + ii]]
                0 <= jj < j && 0 <= ii < ow ==> out@[jj * ow + ii] == mtx.ent(
                    if jj < row {
                        jj
                    } else {
                        jj + 1
                    },
                    if ii < column {
                        ii
                    } else {
                        ii + 1
                    },
                ),
        decreases oh - j,
    {
        let sj = if j < row {
            j
        } else {
            j + 1
        };
        let mut i: usize = 0;
        while i < ow
            invariant
                j < oh,
                i <= ow,
                w == mtx.size[0],
                h == mtx.size[1],
                ow == w - 1,
                oh == h - 1,
                row < h,
                column < w,
                mtx.wf(),
                total == mtx.m@.len(),
                sj == if j < row {
                    j as int
                } else {
                    j + 1
                },
                out@.len() == j * ow + i,
                forall|jj: int, ii: int|
                    #![trigger out@[jj * ow + ii]]
                    0 <= jj < j && 0 <= ii < ow ==> out@[jj * ow + ii] == mtx.ent(
                        if jj < row {
                            jj
                        } else {
                            jj + 1
                        },
                        if ii < column {
                            ii
                        } else {
                            ii + 1
                        },
                    ),
                forall|ii: int|
                    #![trigger out@[j * ow + ii]]
                    0 <= ii < i ==> out@[j * ow + ii] == mtx.ent(
                        sj as int,
                        if ii < column {
                            ii
                        } else {
                            ii + 1
                        },
                    ),
            decreases ow - i,
        {
            let si = if i < column {
                i
            } else {
                i + 1
            };
            proof {
                lemma_row_major_bounds(w as int, h as int, sj as int, si as int);
            }
            out.push(mtx.m[sj * w + si]);
            i = i + 1;
            proof {
                assert forall|jj: int, ii: int|
                    #![trigger out@[jj * ow + ii]]
                    0 <= jj < j && 0 <= ii < ow implies out@[jj * ow + ii] == mtx.ent(
                    if jj < row {
                        jj
                    } else {
                        jj + 1
                    },
                    if ii < column {
                        ii
                    } else {
                        ii + 1
                    },
                ) by {
                    lemma_row_major_bounds(ow as int, j as int, jj, ii);
                }
            }
        }
        j = j + 1;
        proof {
            assert forall|jj: int, ii: int|
                #![trigger out@[jj * ow + ii]]
                0 <= jj < j && 0 <= ii < ow implies out@[jj * ow + ii] == mtx.ent(
                if jj < row {
                    jj
                } else {
                    jj + 1
                },
                if ii < column {
                    ii
                } else {
                    ii + 1
                },
            ) by {
                lemma_row_major_bounds(ow as int, j as int, jj, ii);
            }
            assert((j - 1) * ow + ow == j * ow) by (nonlinear_arith);
        }
    }
    let r = Matrix { m: out, size: [ow, oh] };
    proof {
        assert(r.size[0] == ow && r.size[1] == oh);
        assert(r.m@.len() == oh * ow);
        if ow == 0 {
            assert(oh * ow == 0) by (nonlinear_arith)
                requires
                    ow == 0,
            ;
        }
        if oh == 0 {
            assert(oh * ow == 0) by (nonlinear_arith)
                requires
                    oh == 0,
            ;
        }
        assert(r.wf());
        assert forall|jj: int, ii: int|
            #![trigger r.ent(jj, ii)]
            0 <= jj < oh && 0 <= ii < ow implies r.ent(jj, ii) == mtx.ent(
            if jj < row {
                jj
            } else {
                jj + 1
            },
            if ii < column {
                ii
            } else {
                ii + 1
            },
        ) by {
            lemma_row_major_bounds(ow as int, oh as int, jj, ii);
        }
        assert(r.rows() =~~= mat_del(mtx.rows(), row as int, column as int));
    }
    r
}

impl Matrix {
    /// Check that the matrix is upper triangular: square shape and only
    /// zeros strictly below the diagonal.  A non-square matrix is never
    /// triangular.
    pub fn is_upper_triangular(&self) -> (r: bool)
        requires
            self.wf(),
        ensures
            r == (self.width() == self.height() && upper_tri(self.rows())),
    {
        let w = self.size[0];
        let h = self.size[1];
        if w != h {
            return false;
        }
        let total = self.m.len();
        let mut j: usize = 0;
        while j < h
            invariant
                j <= h,
                w == self.size[0],
                h == self.size[1],
                w == h,
                self.wf(),
                total == self.m@.len(),
                forall|jj: int, ii: int|
                    #![trigger self.rows()[jj][ii]]
                    0 <= ii < jj < j ==> self.rows()[jj][ii] == 0,
            decreases h - j,
        {
            let mut i: usize = 0;
            while i < j
                invariant
                    j < h,
                    i <= j,
                    w == self.size[0],
                    h == self.size[1],
                    w == h,
                    self.wf(),
                    total == self.m@.len(),
                    forall|jj: int, ii: int|
                        #![trigger self.rows()[jj][ii]]
                        0 <= ii < jj < j ==> self.rows()[jj][ii] == 0,
                    forall|ii: int|
                        #![trigger self.rows()[j as int][ii]]
                        0 <= ii < i ==> self.rows()[j as int][ii] == 0,
                decreases j - i,
            {
                proof {
                    lemma_row_major_bounds(w as int, h as int, j as int, i as int);
                    assert(self.rows()[j as int][i as int] == self.ent(j as int, i as int));
                }
                if self.m[j * w + i] != 0 {
                    return false;
                }
                i = i + 1;
            }
            j = j + 1;
        }
        true
    }

    /// Check that the matrix is lower triangular: square shape and only
    /// zeros strictly above the diagonal.  A non-square matrix is never
    /// triangular.
    pub fn is_lower_triangular(&self) -> (r: bool)
        requires
            self.wf(),
        ensures
            r == (self.width() == self.height() && lower_tri(self.rows())),
    {
        let w = self.size[0];
        let h = self.size[1];
        if w != h {
            return false;
        }
        let total = self.m.len();
        let mut j: usize = 0;
        while j < h
            invariant
                j <= h,
                w == self.size[0],
                h == self.size[1],
                w == h,
                self.wf(),
                total == self.m@.len(),
                forall|jj: int, ii: int|
                    #![trigger self.rows()[jj][ii]]
                    0 <= jj < j && jj < ii < w ==> self.rows()[jj][ii] == 0,
            decreases h - j,
        {
            let mut i: usize = j + 1;
            while i < w
                invariant
                    j < h,
                    j + 1 <= i <= w,
                    w == self.size[0],
                    h == self.size[1],
                    w == h,
                    self.wf(),
                    total == self.m@.len(),
                    forall|jj: int, ii: int|
                        #![trigger self.rows()[jj][ii]]
                        0 <= jj < j && jj < ii < w ==> self.rows()[jj][ii] == 0,
                    forall|ii: int|
                        #![trigger self.rows()[j as int][ii]]
                        j < ii < i ==> self.rows()[j as int][ii] == 0,
                decreases w - i,
            {
                proof {
                    lemma_row_major_bounds(w as int, h as int, j as int, i as int);
                    assert(self.rows()[j as int][i as int] == self.ent(j as int, i as int));
                }
                if self.m[j * w + i] != 0 {
                    return false;
                }
                i = i + 1;
            }
            j = j + 1;
        }
        true
    }

    /// Check that the matrix is diagonal: square shape and only zeros off
    /// the diagonal.  A non-square matrix is never diagonal.
    pub fn is_diagonal(&self) -> (r: bool)
        requires
            self.wf(),
        ensures
            r == (self.width() == self.height() && diag_only(self.rows())),
    {
        let w = self.size[0];
        let h = self.size[1];
        if w != h {
            return false;
        }
        let total = self.m.len();
        let mut j: usize = 0;
        while j < h
            invariant
                j <= h,
                w == self.size[0],
                h == self.size[1],
                w == h,
                self.wf(),
                total == self.m@.len(),
                forall|jj: int, ii: int|
                    #![trigger self.rows()[jj][ii]]
                    0 <= jj < j && 0 <= ii < w && jj != ii ==> self.rows()[jj][ii] == 0,
            decreases h - j,
        {
            let mut i: usize = 0;
            while i < w
                invariant
                    j < h,
                    i <= w,
                    w == self.size[0],
                    h == self.size[1],
                    w == h,
                    self.wf(),
                    total == self.m@.len(),
                    forall|jj: int, ii: int|
                        #![trigger self.rows()[jj][ii]]
                        0 <= jj < j && 0 <= ii < w && jj != ii ==> self.rows()[jj][ii] == 0,
                    forall|ii: int|
                        #![trigger self.rows()[j as int][ii]]
                        0 <= ii < i && ii != j ==> self.rows()[j as int][ii] == 0,
                decreases w - i,
            {
                if i != j {
                    proof {
                        lemma_row_major_bounds(w as int, h as int, j as int, i as int);
                        assert(self.rows()[j as int][i as int] == self.ent(j as int, i as int));
                    }
                    if self.m[j * w + i] != 0 {
                        return false;
                    }
                }
                i = i + 1;
            }
            j = j + 1;
        }
        true
    }

    /// Build the square matrix whose diagonal holds the given values and
    /// whose other entries are zero.
    pub fn diagonal(diagonal: &[i64]) -> (r: Matrix)
        ensures
            r.wf(),
            r.width() == diagonal@.len(),
            r.height() == diagonal@.len(),
            forall|t: int| 0 <= t < diagonal@.len() ==> #[trigger] r.ent(t, t) == diagonal@[t],
            diag_only(r.rows()),
    {
        let n = diagonal.len();
        let mut out: Vec<i64> = Vec::new();
        let mut j: usize = 0;
        while j < n
            invariant
                j <= n,
                n == diagonal@.len(),
                out@.len() == j * n,
                forall|jj: int, ii: int|
                    #![trigger out@[jj * n + ii]]
                    0 <= jj < j && 0 <= ii < n ==> out@[jj * n + ii] == (if jj == ii {
                        diagonal@[jj]
                    } else {
                        0
                    }),
            decreases n - j,
        {
            let mut i: usize = 0;
            while i < n
                invariant
                    j < n,
                    i <= n,
                    n == diagonal@.len(),
                    out@.len() == j * n + i,
                    forall|jj: int, ii: int|
                        #![trigger out@[jj * n + ii]]
                        0 <= jj < j && 0 <= ii < n ==> out@[jj * n + ii] == (if jj == ii {
                            diagonal@[jj]
                        } else {
                            0
                        }),
                    forall|ii: int|
                        #![trigger out@[j * n + ii]]
                        0 <= ii < i ==> out@[j * n + ii] == (if j == ii {
                            diagonal@[j as int]
                        } else {
                            0
                        }),
                decreases n - i,
            {
                if i == j {
                    out.push(diagonal[i]);
                } else {
                    out.push(0);
                }
                i = i + 1;
                proof {
                    assert forall|jj: int, ii: int|
                        #![trigger out@[jj * n + ii]]
                        0 <= jj < j && 0 <= ii < n implies out@[jj * n + ii] == (if jj == ii {
                        diagonal@[jj]
                    } else {
                        0
                    }) by {
                        lemma_row_major_bounds(n as int, j as int, jj, ii);
                    }
                }
            }
            j = j + 1;
            proof {
                assert forall|jj: int, ii: int|
                    #![trigger out@[jj * n + ii]]
                    0 <= jj < j && 0 <= ii < n implies out@[jj * n + ii] == (if jj == ii {
                    diagonal@[jj]
                } else {
                    0
                }) by {
                    lemma_row_major_bounds(n as int, j as int, jj, ii);
                }
                assert((j - 1) * n + n == j * n) by (nonlinear_arith);
            }
        }
        let r = Matrix { m: out, size: [n, n] };
        proof {
            assert(r.size[0] == n && r.size[1] == n);
            assert(r.m@.len() == n * n);
            assert(r.wf());
            assert forall|jj: int, ii: int|
                #![trigger r.ent(jj, ii)]
                0 <= jj < n && 0 <= ii < n implies r.ent(jj, ii) == (if jj == ii {
                diagonal@[jj]
            } else {
                0
            }) by {
                lemma_row_major_bounds(n as int, n as int, jj, ii);
            }
        }
        r
    }
}

} // verus!
