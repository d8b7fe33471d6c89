use vstd::prelude::*;

use crate::linear::{dot_fits, sum_prod};
use crate::vertex::Vertex;

verus! {

impl Vertex {
    /// The inner product of the vector with itself: the sum of the squares
    /// of its elements, whatever the orientation.  This is the energy of the
    /// vector; its square root is the magnitude.
    pub fn inner(&self) -> (r: i64)
        requires
            dot_fits(self.v@, self.v@),
        ensures
            r as int == sum_prod(self.v@, self.v@, self.v@.len() as int),
    {
        let n = self.v.len();
        let mut acc: i64 = 0;
        let mut t: usize = 0;
        while t < n
            invariant
                t <= n,
                n == self.v@.len(),
                dot_fits(self.v@, self.v@),
                acc == sum_prod(self.v@, self.v@, t as int),
            decreases n - t,
        {
            proof {
                assert(sum_prod(self.v@, self.v@, t as int + 1) == sum_prod(
                    self.v@,
                    self.v@,
                    t as int,
                ) + self.v@[t as int] * self.v@[t as int]);
            }
            acc = acc + self.v[t] * self.v[t];
            t = t + 1;
        }
        acc
    }
}

} // verus!
