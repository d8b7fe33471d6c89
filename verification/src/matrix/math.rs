use vstd::prelude::*;

use crate::linear::{add_fits, sub_fits};
use crate::matrix::{lemma_row_major_bounds, Matrix};

verus! {

impl Matrix {
    /// Element-wise sum, on the trusting surface: both matrices must have
    /// one shape.
    pub fn add(&self, other: &Matrix) -> (r: Matrix)
        requires
            self.wf(),
            other.wf(),
            self.width() == other.width(),
            self.height() == other.height(),
            add_fits(self.m@, other.m@),
        ensures
            r.wf(),
            r.width() == self.width(),
            r.height() == self.height(),
            forall|j: int, i: int|
                0 <= j < self.height() && 0 <= i < self.width() ==> #[trigger] r.ent(j, i)
                    == self.ent(j, i) + other.ent(j, i),
    {
        let n = self.m.len();
        let mut out: Vec<i64> = Vec::new();
        let mut t: usize = 0;
        while t < n
            invariant
                t <= n,
                n == self.m@.len(),
                n == other.m@.len(),
                add_fits(self.m@, other.m@),
                out@.len() == t,
                forall|tt: int| 0 <= tt < t ==> #[trigger] out@[tt] == self.m@[tt] + other.m@[tt],
            decreases n - t,
        {
            out.push(self.m[t] + other.m[t]);
            t = t + 1;
        }
        let r = Matrix { m: out, size: self.size };
        proof {
            assert forall|j: int, i: int|
                0 <= j < self.height() && 0 <= i < self.width() implies #[trigger] r.ent(j, i)
                == self.ent(j, i) + other.ent(j, i) by {
                lemma_row_major_bounds(self.width(), self.height(), j, i);
            }
        }
        r
    }

    /// Element-wise difference, on the trusting surface: both matrices must
    /// have one shape.
    pub fn sub(&self, other: &Matrix) -> (r: Matrix)
        requires
            self.wf(),
            other.wf(),
            self.width() == other.width(),
            self.height() == other.height(),
            sub_fits(self.m@, other.m@),
        ensures
            r.wf(),
            r.width() == self.width(),
            r.height() == self.height(),
            forall|j: int, i: int|
                0 <= j < self.height() && 0 <= i < self.width() ==> #[trigger] r.ent(j, i)
                    == self.ent(j, i) - other.ent(j, i),
    {
        let n = self.m.len();
        let mut out: Vec<i64> = Vec::new();
        let mut t: usize = 0;
        while t < n
            invariant
                t <= n,
                n == self.m@.len(),
                n == other.m@.len(),
                sub_fits(self.m@, other.m@),
                out@.len() == t,
                forall|tt: int| 0 <= tt < t ==> #[trigger] out@[tt] == self.m@[tt] - other.m@[tt],
            decreases n - t,
        {
            out.push(self.m[t] - other.m[t]);
            t = t + 1;
        }
        let r = Matrix { m: out, size: self.size };
        proof {
            assert forall|j: int, i: int|
                0 <= j < self.height() && 0 <= i < self.width() implies #[trigger] r.ent(j, i)
                == self.ent(j, i) - other.ent(j, i) by {
                lemma_row_major_bounds(self.width(), self.height(), j, i);
            }
        }
        r
    }
}

} // verus!
