//! Status codes.

use vstd::prelude::*;

verus! {

/// The operation succeeded.
pub const STATUS_SUCCESS: u32 = 0x0000_0000;

/// The answer comes later.
pub const STATUS_PENDING: u32 = 0x0000_0103;

/// A watch ended because its handle was closed.
pub const STATUS_NOTIFY_CLEANUP: u32 = 0x0000_010B;

/// The changes do not fit the buffer: the directory is to be listed anew.
pub const STATUS_NOTIFY_ENUM_DIR: u32 = 0x0000_010C;

/// The operation failed.
pub const STATUS_UNSUCCESSFUL: u32 = 0xC000_0001;

/// A parameter is invalid.
pub const STATUS_INVALID_PARAMETER: u32 = 0xC000_000D;

/// There is no object of that name.
pub const STATUS_OBJECT_NAME_NOT_FOUND: u32 = 0xC000_0034;

/// The name is taken.
pub const STATUS_OBJECT_NAME_COLLISION: u32 = 0xC000_0035;

/// The directory of the file is not there.
pub const STATUS_OBJECT_PATH_NOT_FOUND: u32 = 0xC000_003A;

/// Another holder has locked the range.
pub const STATUS_FILE_LOCK_CONFLICT: u32 = 0xC000_0054;

/// The lock was not granted.
pub const STATUS_LOCK_NOT_GRANTED: u32 = 0xC000_0055;

/// The file is to be deleted.
pub const STATUS_DELETE_PENDING: u32 = 0xC000_0056;

/// The range is not locked.
pub const STATUS_RANGE_NOT_LOCKED: u32 = 0xC000_007E;

/// The request is not supported.
pub const STATUS_NOT_SUPPORTED: u32 = 0xC000_00BB;

/// The request was not accepted.
pub const STATUS_REQUEST_NOT_ACCEPTED: u32 = 0xC000_00D0;

/// The acknowledgment does not fit the state of the oplock.
pub const STATUS_INVALID_OPLOCK_PROTOCOL: u32 = 0xC000_00E3;

/// The file is not a directory.
pub const STATUS_NOT_A_DIRECTORY: u32 = 0xC000_0103;

/// The request was cancelled.
pub const STATUS_CANCELLED: u32 = 0xC000_0120;

/// The file is closed.
pub const STATUS_FILE_CLOSED: u32 = 0xC000_0128;

} // verus!
