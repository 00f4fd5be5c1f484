use vstd::prelude::*;

verus! {

/// Protocol/boundary errors: a contract violation between host and guest.
/// These are never retried; they abort the invocation that raised them.
#[derive(Debug, PartialEq, Eq, Structural, Clone, Copy)]
pub enum BoundaryError {
    /// A wire region could not be decoded: an out-of-range tagged-union
    /// discriminant, a bad boolean byte, a dangling or mis-sized buffer
    /// reference, or a string region that is not valid UTF-8.
    MalformedEncoding,
    /// A handle that was never registered, or whose resource has already
    /// been taken or dropped.
    InvalidHandle,
}

} // verus!
