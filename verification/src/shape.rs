use vstd::prelude::*;
use crate::error::NumericalError;

verus! {

/// Row and column count of a dense matrix.
///
/// The entries themselves never enter this crate. Everything that decides
/// whether an operation on matrices is defined, and what shape its result
/// has, is a function of the shapes alone.
#[derive(Clone, Copy, Debug, PartialEq, Eq, Structural)]
pub struct Shape {
    pub nrows: usize,
    pub ncols: usize,
}

/// Shape of the product of two matrices that are themselves outcomes of
/// earlier operations. A fault of the left operand goes before one of the
/// right operand, and both before a fault of the product itself.
pub open spec fn product_of(
    lhs: Result<Shape, NumericalError>,
    rhs: Result<Shape, NumericalError>,
) -> Result<Shape, NumericalError> {
    match (lhs, rhs) {
        (Ok(a), Ok(b)) => a.product(b),
        (Err(fault), _) => Err(fault),
        (_, Err(fault)) => Err(fault),
    }
}

/// Shape of an entry-by-entry combination of two matrices that are
/// themselves outcomes of earlier operations, with faults in the same order
/// as in `product_of`.
pub open spec fn elementwise_of(
    lhs: Result<Shape, NumericalError>,
    rhs: Result<Shape, NumericalError>,
) -> Result<Shape, NumericalError> {
    match (lhs, rhs) {
        (Ok(a), Ok(b)) => a.elementwise(b),
        (Err(fault), _) => Err(fault),
        (_, Err(fault)) => Err(fault),
    }
}

impl Shape {
    /// Number of entries of a matrix of this shape.
    pub open spec fn entries(self) -> nat {
        (self.nrows * self.ncols) as nat
    }

    /// Shape of the transposed matrix.
    pub open spec fn spec_transposed(self) -> Shape {
        Shape { nrows: self.ncols, ncols: self.nrows }
    }

    /// Shape of the matrix product `self * rhs`, defined when the inner
    /// dimensions agree.
    pub open spec fn spec_product(self, rhs: Shape) -> Result<Shape, NumericalError> {
        if self.ncols == rhs.nrows {
            Ok(Shape { nrows: self.nrows, ncols: rhs.ncols })
        } else {
            Err(NumericalError::DimensionMismatch)
        }
    }

    /// Shape of an entry-by-entry combination (sum, difference, component-wise
    /// product) of two matrices, defined when both have the same shape.
    pub open spec fn spec_elementwise(self, rhs: Shape) -> Result<Shape, NumericalError> {
        if self == rhs {
            Ok(self)
        } else {
            Err(NumericalError::DimensionMismatch)
        }
    }

    /// Shape of the block of `len` whole rows that starts at row `start`,
    /// defined when the block ends within the matrix.
    pub open spec fn spec_row_block(self, start: usize, len: usize) -> Result<
        Shape,
        NumericalError,
    > {
        if start + len <= self.nrows {
            Ok(Shape { nrows: len, ncols: self.ncols })
        } else {
            Err(NumericalError::IndexOutOfRange)
        }
    }

    /// Shape of the window of shape `size` whose top left corner lies at
    /// `(row, col)`, defined when the window ends within the matrix.
    pub open spec fn spec_window(self, row: usize, col: usize, size: Shape) -> Result<
        Shape,
        NumericalError,
    > {
        if row + size.nrows <= self.nrows && col + size.ncols <= self.ncols {
            Ok(size)
        } else {
            Err(NumericalError::IndexOutOfRange)
        }
    }

    /// The shape of `nrows` rows and `ncols` columns.
    pub fn new(nrows: usize, ncols: usize) -> (shape: Shape)
        ensures
            shape.nrows == nrows,
            shape.ncols == ncols,
    {
        Shape { nrows, ncols }
    }

    /// Shape of the matrix that `len` entries, listed row by row, fill exactly.
    ///
    /// Fails with `DimensionMismatch` when `len` is not `nrows * ncols`; too
    /// many entries are a fault just as too few are.
    pub fn for_data(nrows: usize, ncols: usize, len: usize) -> (made: Result<Shape, NumericalError>)
        ensures
            len == nrows * ncols ==> made == Ok::<Shape, NumericalError>(Shape { nrows, ncols }),
            len != nrows * ncols ==> made == Err::<Shape, NumericalError>(
                NumericalError::DimensionMismatch,
            ),
    {
        match nrows.checked_mul(ncols) {
            Some(entries) => {
                if entries == len {
                    Ok(Shape { nrows, ncols })
                } else {
                    Err(NumericalError::DimensionMismatch)
                }
            },
            None => Err(NumericalError::DimensionMismatch),
        }
    }

    /// Shape of the transposed matrix: rows and columns change places.
    #[verifier::when_used_as_spec(spec_transposed)]
    pub fn transposed(self) -> (shape: Shape)
        ensures
            shape == self.spec_transposed(),
    {
        Shape { nrows: self.ncols, ncols: self.nrows }
    }

    /// Shape of the matrix product `self * rhs`: the rows of `self` and the
    /// columns of `rhs`. Fails with `DimensionMismatch` unless `self` has as
    /// many columns as `rhs` has rows.
    #[verifier::when_used_as_spec(spec_product)]
    pub fn product(self, rhs: Shape) -> (shape: Result<Shape, NumericalError>)
        ensures
            shape == self.spec_product(rhs),
    {
        if self.ncols == rhs.nrows {
            Ok(Shape { nrows: self.nrows, ncols: rhs.ncols })
        } else {
            Err(NumericalError::DimensionMismatch)
        }
    }

    /// Shape of a sum, a difference or a component-wise product of two
    /// matrices. Fails with `DimensionMismatch` unless both have the same
    /// shape.
    #[verifier::when_used_as_spec(spec_elementwise)]
    pub fn elementwise(self, rhs: Shape) -> (shape: Result<Shape, NumericalError>)
        ensures
            shape == self.spec_elementwise(rhs),
    {
        if self.nrows == rhs.nrows && self.ncols == rhs.ncols {
            Ok(self)
        } else {
            Err(NumericalError::DimensionMismatch)
        }
    }

    /// Shape of the block of `len` whole rows from row `start` on. Fails with
    /// `IndexOutOfRange` when the block would end beyond the last row.
    #[verifier::when_used_as_spec(spec_row_block)]
    pub fn row_block(self, start: usize, len: usize) -> (shape: Result<Shape, NumericalError>)
        ensures
            shape == self.spec_row_block(start, len),
    {
        if start <= self.nrows && len <= self.nrows - start {
            Ok(Shape { nrows: len, ncols: self.ncols })
        } else {
            Err(NumericalError::IndexOutOfRange)
        }
    }

    /// Shape of the window of shape `size` with its top left corner at
    /// `(row, col)`. Fails with `IndexOutOfRange` when the window would end
    /// beyond the last row or the last column.
    #[verifier::when_used_as_spec(spec_window)]
    pub fn window(self, row: usize, col: usize, size: Shape) -> (shape: Result<
        Shape,
        NumericalError,
    >)
        ensures
            shape == self.spec_window(row, col, size),
    {
        if row <= self.nrows && size.nrows <= self.nrows - row && col <= self.ncols && size.ncols
            <= self.ncols - col {
            Ok(size)
        } else {
            Err(NumericalError::IndexOutOfRange)
        }
    }
}

} // verus!
