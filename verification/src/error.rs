//! The failures that log replay reports.

use crate::schema::PrimitiveType;
use vstd::prelude::*;

verus! {

/// The invariant that did not hold when an [`Error::InternalError`] is reported.
#[derive(Clone, Copy, Debug, PartialEq, Eq, Structural)]
pub enum Violation {
    /// A visitor was handed this many column getters, which is not the number
    /// of columns it selects.
    WrongGetterCount(usize),
    /// A transform names this field of the logical schema, which does not exist.
    PartitionFieldOutOfBounds(usize),
    /// A transform needs the partition value of this field, and none was parsed
    /// for it (or it has been used up by an earlier slot).
    MissingPartitionValue(usize),
}

/// Why a batch, or an item of the log stream, could not be processed.
#[derive(Clone, Copy, Debug, PartialEq, Eq, Structural)]
pub enum Error {
    /// An invariant of the replay itself was violated.
    InternalError(Violation),
    /// The text of a partition value is not a value of the declared type.
    InvalidPartitionValue(PrimitiveType),
    /// A column getter was asked for a value of a type the column does not hold.
    UnexpectedColumnType,
    /// A value that must be present is null.
    MissingData,
    /// A batch lacks a column that was selected from it.
    MissingColumn(usize),
    /// A request that cannot be evaluated, such as a partition column whose
    /// declared type is not primitive.
    Generic,
    /// A failure of the reader that produced the log stream, identified by the
    /// reader's own code. It is handed on unchanged.
    Engine(u32),
}

/// The result of an operation that can fail with an [`Error`].
pub type DeltaResult<T> = Result<T, Error>;

/// The mathematical value of a result: the view of what succeeded, or the
/// error itself.
pub open spec fn result_view<T: View>(r: Result<T, Error>) -> Result<T::V, Error> {
    match r {
        Ok(v) => Ok(v@),
        Err(e) => Err(e),
    }
}

} // verus!
