use vstd::prelude::*;

verus! {

/// Why a request was turned down before any arithmetic was scheduled.
///
/// Every failure is a fault of the caller's input. Nothing is retried or
/// clamped: the first fault found is reported and no plan is made.
#[derive(Clone, Copy, Debug, PartialEq, Eq, Structural)]
pub enum NumericalError {
    /// The shapes of the matrices handed in do not fit the operation.
    DimensionMismatch,
    /// A count or a size is unusable, whatever the matrices look like.
    InvalidArgument,
    /// A block of rows or columns would reach beyond the matrix it is cut from.
    IndexOutOfRange,
}

} // verus!
