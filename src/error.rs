//! The failures of this library's operations.
use vstd::prelude::*;
use crate::bootspec::DecodeError;
use crate::json::SyntaxError;

verus! {

/// Why an operation failed.
#[derive(Debug)]
pub enum GenError {
    /// The profile's `system` link could not be resolved.
    ProfileLink { link: String, cause: String },
    /// A descriptor could not be found or read.
    NotFound { path: String, cause: String },
    /// A descriptor is not JSON text.
    Syntax { path: String, syntax: SyntaxError },
    /// A descriptor does not have the shape of a generation.
    Decode { path: String, error: DecodeError },
    /// A generation link's index does not fit in `usize`.
    IndexOutOfRange { name: String },
    /// No ancestor of the starting directory holds a repository.
    NoRepository,
    /// The repository could not be opened or read.
    Repository { source: gix::Error },
    /// The system clock lies outside the range of representable times.
    Clock { source: jiff::Error },
}

} // verus!
