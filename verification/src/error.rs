//! The error taxonomy of the service operations.

use vstd::prelude::*;

verus! {

/// Why an operation was refused.
#[derive(Clone, Copy, PartialEq, Eq, Structural, Debug)]
pub enum DdsError {
    /// Malformed or truncated octets on the wire.
    Wire,
    /// A supplied configuration is internally inconsistent.
    Inconsistent,
    /// An attempt to change a policy that is immutable after enable.
    Immutable,
    /// The operation targeted an entity that is gone.
    AlreadyDeleted,
    /// The operation came in the wrong order.
    PreconditionNotMet,
    /// A blocking wait expired without satisfaction.
    Timeout,
}

pub type DdsResult<T> = Result<T, DdsError>;

} // verus!
