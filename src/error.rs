use vstd::prelude::*;

verus! {

/// The failures of the codec and of the link table.
#[derive(Debug, Clone, Copy, PartialEq, Eq)]
pub enum LinkError {
    /// A short code that is empty, holds a character outside `0-9a-z`, or
    /// denotes a number wider than an identifier.
    InvalidCode,
    /// No link for the given source or identifier.
    NotFound,
    /// The store cannot take the operation (it has no identifier left).
    StorageUnavailable,
    /// A rule of the table refused the operation: an empty source, or a
    /// visit counter at its largest value.
    ConstraintViolation,
}

} // verus!
