//! Errors of file operations.

use crate::ntstatus::{
    STATUS_NOT_A_DIRECTORY, STATUS_NOT_SUPPORTED, STATUS_OBJECT_NAME_COLLISION,
    STATUS_OBJECT_NAME_NOT_FOUND, STATUS_OBJECT_PATH_NOT_FOUND,
};
use vstd::prelude::*;

verus! {

/// Why a file operation failed.
#[derive(Debug, Clone, Copy, PartialEq, Eq, Structural)]
pub enum SmbError {
    NotFound,
    PathNotFound,
    Exists,
    NotSupported,
    NotADirectory,
}

impl SmbError {
    /// The status of an error.
    pub open spec fn status(self) -> u32 {
        match self {
            SmbError::NotFound => STATUS_OBJECT_NAME_NOT_FOUND,
            SmbError::PathNotFound => STATUS_OBJECT_PATH_NOT_FOUND,
            SmbError::Exists => STATUS_OBJECT_NAME_COLLISION,
            SmbError::NotSupported => STATUS_NOT_SUPPORTED,
            SmbError::NotADirectory => STATUS_NOT_A_DIRECTORY,
        }
    }

    /// The status that clients are told of an error.
    pub fn to_nt_status(self) -> (r: u32)
        ensures
            r == self.status(),
    {
        match self {
            SmbError::NotFound => STATUS_OBJECT_NAME_NOT_FOUND,
            SmbError::PathNotFound => STATUS_OBJECT_PATH_NOT_FOUND,
            SmbError::Exists => STATUS_OBJECT_NAME_COLLISION,
            SmbError::NotSupported => STATUS_NOT_SUPPORTED,
            SmbError::NotADirectory => STATUS_NOT_A_DIRECTORY,
        }
    }
}

/// The result of a file operation.
pub type SmbResult<T> = Result<T, SmbError>;

} // verus!
