//! The kinds of failure that a session reports.

use vstd::prelude::*;

verus! {

/// Why a model could not be prepared or run.
#[derive(Debug, Clone, PartialEq, Eq)]
pub enum SessionError {
    /// An operator received inputs that it cannot derive a shape from.
    ShapeInference,
    /// The operator is known, but nothing here can work it out.
    UnsupportedOp,
    /// The model refers to a value that it does not hold, lacks an
    /// initializer, or lists an initializer among its inputs.
    InvalidModel,
    /// A tensor fed to the model disagrees with the declared input.
    FeedMismatch,
    /// A kernel failed; the name of its operator is given.
    KernelFailure(String),
    /// The backend asked for is not there.
    BackendUnavailable,
    /// Any other failure, in words.
    Message(String),
}

} // verus!
