//! Errors of the library's operations.
use vstd::prelude::*;

verus! {

/// Domain layer unified error.
#[derive(Debug)]
pub enum DomainError {
    /// An I/O operation failed.
    Io(std::io::Error),
    /// An archive, consistency or infrastructure error, with its message.
    Archive(String),
    /// User cancelled the operation.
    Cancelled,
}

} // verus!
