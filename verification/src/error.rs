use vstd::prelude::*;

verus! {

/// The failure taxonomy shared by every operation of the library.  Each
/// variant names one kind of violation, so that a caller can tell bad
/// dimensions, bad orientation and a numerically impossible decomposition
/// apart.
#[derive(Debug, Clone, PartialEq)]
pub enum SlalError {
    /// A matrix could not be built from the given rows; the message says why.
    MatrixInitializationError(&'static str),
    /// A matrix could not be re-assigned from the given rows.
    MatrixUpdateError(&'static str),
    /// Two vectors of differing length were combined; carries both lengths.
    UnmatchingVertexLength(usize, usize),
    /// Both vectors of an outer product share one orientation; carries that
    /// orientation (`true` for both transposed).
    BothVerticesTransposed(bool),
    /// A vector's length does not equal the width of the matrix it multiplies.
    VertexLengthAndMatrixWidthNotMatch(usize, usize),
    /// A vector's length does not equal the height of the matrix it multiplies.
    VertexLengthAndMatrixHeightNotMatch(usize, usize),
    /// A vector has the wrong orientation for the requested product.
    VertexStateError(&'static str),
    /// Two matrices with incompatible shapes were multiplied; carries the
    /// left operand's width and the right operand's height.
    UnmatchingMatrixSize(usize, usize),
    /// A square matrix was required; carries the offending width and height.
    NotSquareMatrix(usize, usize),
    /// An empty matrix was given to an operation that has no meaning for it.
    EmptyMatrix(&'static str),
    /// The unpivoted triangular decomposition of this matrix does not exist:
    /// one of its natural pivots vanishes.
    TriangularMatrixNotExist(crate::matrix::Matrix),
}

/// Shorthand for results that fail with a `SlalError`.
pub type SlalErr<V> = Result<V, SlalError>;

} // verus!
