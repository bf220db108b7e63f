//! Errors reported synchronously by constructors, and the execution-time
//! failures that a command buffer reports through its terminal status.

use vstd::prelude::*;

verus! {

/// Why a source container could not be bound to a file handle.
#[derive(Copy, Clone, Debug, PartialEq, Eq, Hash, Structural)]
pub enum HandleErrorKind {
    /// The container does not exist.
    NotFound,
    /// The container exists but may not be read.
    PermissionDenied,
    /// The container is malformed, or was encoded with another method.
    Format,
}

#[derive(Copy, Clone, Debug, PartialEq, Eq, Hash, Structural)]
pub enum IOError {
    /// A destination or source path cannot be opened or created.
    PathError,
    /// A chunk size, a compression method or a queue bound is invalid.
    ConfigError,
    /// A source container cannot be bound to a device.
    HandleError(HandleErrorKind),
    /// An operation failed while a command buffer executed.
    TransferError,
    /// A command buffer was cancelled before it completed.
    Cancelled,
}

} // verus!
