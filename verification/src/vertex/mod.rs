use vstd::prelude::*;

pub mod linear_arithmatic;
pub mod linear_utils;
pub mod math;

verus! {

/// One-dimensional numeric container: an owned buffer of elements plus one
/// bit of orientation state.  A freshly built vertex is a row vector;
/// `vertical == true` means the vector has been transposed into a column.
#[derive(Debug, Clone, PartialEq)]
pub struct Vertex {
    pub v: Vec<i64>,
    pub vertical: bool,
}

impl Vertex {
    /// The same vector with the orientation bit flipped; the elements are untouched.
    pub open spec fn transposed(self) -> Vertex {
        Vertex { v: self.v, vertical: !self.vertical }
    }

    /// Create a new vector from a slice; the result is always a row vector.
    pub fn new(vertex: &[i64]) -> (r: Self)
        ensures
            r.v@ == vertex@,
            !r.vertical,
    {
        Self { v: vstd::slice::slice_to_vec(vertex), vertical: false }
    }

    /// Returns the empty row vector.
    pub fn empty() -> (r: Self)
        ensures
            r.v@.len() == 0,
            !r.vertical,
    {
        Self { v: Vec::new(), vertical: false }
    }

    /// Check if the vector holds no elements.
    pub fn is_empty(&self) -> (r: bool)
        ensures
            r == (self.v@.len() == 0),
    {
        self.v.len() == 0
    }

    /// Check if the vector is transposed (a column vector).
    pub fn is_transposed(&self) -> (r: bool)
        ensures
            r == self.vertical,
    {
        self.vertical
    }

    /// The number of elements.
    pub fn len(&self) -> (r: usize)
        ensures
            r == self.v@.len(),
    {
        self.v.len()
    }

    /// Replace the whole buffer; the length may change, the orientation never does.
    pub fn set_vertex(&mut self, vertex: &[i64])
        ensures
            final (self).v@ == vertex@,
            final (self).vertical == old(self).vertical,
    {
        self.v = vstd::slice::slice_to_vec(vertex);
    }

    /// Transpose in place: flips the orientation bit and nothing else.
    pub fn t(&mut self)
        ensures
            *final (self) == old(self).transposed(),
    {
        self.vertical = !self.vertical;
    }

    /// Clone the elements into a plain `Vec`.
    pub fn to_vec(&self) -> (r: Vec<i64>)
        ensures
            r@ == self.v@,
    {
        self.v.clone()
    }

    /// The path of this container type, for diagnostics.
    pub fn type_str(&self) -> (r: &'static str)
        ensures
            r@ == "slal::vertex::Vertex"@,
    {
        "slal::vertex::Vertex"
    }
}

/// Transposing twice restores the vector exactly: the orientation returns to
/// its starting value and the elements were never altered.
pub proof fn lemma_vertex_transpose_involution(v: Vertex)
    ensures
        v.transposed().transposed() == v,
{
}

} // verus!
