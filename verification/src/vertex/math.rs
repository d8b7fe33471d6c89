use vstd::prelude::*;

use crate::linear::{add_fits, sub_fits};
use crate::vertex::Vertex;

verus! {

impl Vertex {
    /// Element-wise sum, on the trusting surface: both vectors must have one
    /// length and one orientation.
    pub fn add(&self, other: &Vertex) -> (r: Vertex)
        requires
            self.v@.len() == other.v@.len(),
            self.vertical == other.vertical,
            add_fits(self.v@, other.v@),
        ensures
            r.vertical == self.vertical,
            r.v@.len() == self.v@.len(),
            forall|t: int| 0 <= t < self.v@.len() ==> #[trigger] r.v@[t] == self.v@[t] + other.v@[t],
    {
        let n = self.v.len();
        let mut out: Vec<i64> = Vec::new();
        let mut t: usize = 0;
        while t < n
            invariant
                t <= n,
                n == self.v@.len(),
                n == other.v@.len(),
                add_fits(self.v@, other.v@),
                out@.len() == t,
                forall|tt: int|
                    0 <= tt < t ==> #[trigger] out@[tt] == self.v@[tt] + other.v@[tt],
            decreases n - t,
        {
            out.push(self.v[t] + other.v[t]);
            t = t + 1;
        }
        Vertex { v: out, vertical: self.vertical }
    }

    /// Element-wise difference, on the trusting surface: both vectors must
    /// have one length and one orientation.
    pub fn sub(&self, other: &Vertex) -> (r: Vertex)
        requires
            self.v@.len() == other.v@.len(),
            self.vertical == other.vertical,
            sub_fits(self.v@, other.v@),
        ensures
            r.vertical == self.vertical,
            r.v@.len() == self.v@.len(),
            forall|t: int| 0 <= t < self.v@.len() ==> #[trigger] r.v@[t] == self.v@[t] - other.v@[t],
    {
        let n = self.v.len();
        let mut out: Vec<i64> = Vec::new();
        let mut t: usize = 0;
        while t < n
            invariant
                t <= n,
                n == self.v@.len(),
                n == other.v@.len(),
                sub_fits(self.v@, other.v@),
                out@.len() == t,
                forall|tt: int|
                    0 <= tt < t ==> #[trigger] out@[tt] == self.v@[tt] - other.v@[tt],
            decreases n - t,
        {
            out.push(self.v[t] - other.v[t]);
            t = t + 1;
        }
        Vertex { v: out, vertical: self.vertical }
    }
}

} // verus!
