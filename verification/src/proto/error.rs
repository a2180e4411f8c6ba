//! Errors of the protocol layer.

use vstd::prelude::*;

verus! {

/// Why a message or a transform is refused.
#[derive(Debug, Clone, Copy, PartialEq, Eq)]
pub enum ProtoError {
    /// A field holds what the protocol does not allow there.
    Malformed(&'static str),
    /// A transform cannot be sealed or opened.
    Crypto(&'static str),
    /// The bytes end inside a fixed or counted field.
    Truncated,
}

pub type ProtoResult<T> = Result<T, ProtoError>;

} // verus!
