//! What storage backends report and are asked for, as plain values.

use crate::path::SmbPath;
use vstd::prelude::*;

verus! {

/// The file may not be written.
pub const FILE_ATTRIBUTE_READONLY: u32 = 0x0001;

/// The file is left out of ordinary listings.
pub const FILE_ATTRIBUTE_HIDDEN: u32 = 0x0002;

/// The file belongs to the system.
pub const FILE_ATTRIBUTE_SYSTEM: u32 = 0x0004;

/// The file is a directory.
pub const FILE_ATTRIBUTE_DIRECTORY: u32 = 0x0010;

/// The file is to be archived.
pub const FILE_ATTRIBUTE_ARCHIVE: u32 = 0x0020;

/// The file has no other attribute.
pub const FILE_ATTRIBUTE_NORMAL: u32 = 0x0080;

/// The file is temporary.
pub const FILE_ATTRIBUTE_TEMPORARY: u32 = 0x0100;

/// The data of the file is not at hand.
pub const FILE_ATTRIBUTE_OFFLINE: u32 = 0x1000;

/// The attributes of a file that has none of its own.
pub fn default_file_attributes(is_directory: bool) -> (r: u32)
    ensures
        r == if is_directory {
            FILE_ATTRIBUTE_DIRECTORY
        } else {
            FILE_ATTRIBUTE_ARCHIVE
        },
{
    if is_directory {
        FILE_ATTRIBUTE_DIRECTORY
    } else {
        FILE_ATTRIBUTE_ARCHIVE
    }
}

/// Attributes changed.
pub const WATCH_CHANGE_ATTRIBUTES: u32 = 0x0001;

/// The size changed.
pub const WATCH_CHANGE_SIZE: u32 = 0x0002;

/// The time of the last write changed.
pub const WATCH_CHANGE_LAST_WRITE: u32 = 0x0004;

/// The time of the last access changed.
pub const WATCH_CHANGE_LAST_ACCESS: u32 = 0x0008;

/// The creation time changed.
pub const WATCH_CHANGE_CREATION: u32 = 0x0010;

/// The security descriptor changed.
pub const WATCH_CHANGE_SECURITY: u32 = 0x0020;

/// What a backend saw happen to a file.
#[derive(Debug, Clone, Copy, PartialEq, Eq, Structural)]
pub enum WatchAction {
    Added,
    Removed,
    RenamedOld,
    RenamedNew,
    Modified,
}

/// A file that a backend saw change.
#[derive(Debug, Clone, PartialEq, Eq)]
pub struct WatchRecord {
    pub action: WatchAction,
    pub path: SmbPath,
    pub is_directory: bool,
}

/// Changes that a backend reports together; `change` says what was modified.
#[derive(Debug, Clone, PartialEq, Eq)]
pub struct WatchEvent {
    pub records: Vec<WatchRecord>,
    pub change: u32,
}

/// What is known of a file.
#[derive(Debug, Clone, PartialEq, Eq)]
pub struct FileInfo {
    pub name: String,
    pub end_of_file: u64,
    pub allocation_size: u64,
    pub creation_time: u64,
    pub last_access_time: u64,
    pub last_write_time: u64,
    pub change_time: u64,
    pub is_directory: bool,
    pub file_index: u64,
    pub file_attributes: u32,
}

impl FileInfo {
    /// The attributes that clients are told.
    pub fn attributes(&self) -> (r: u32)
        ensures
            r == self.file_attributes,
    {
        self.file_attributes
    }
}

/// One file of a directory listing.
#[derive(Debug, Clone, PartialEq, Eq)]
pub struct DirEntry {
    pub info: FileInfo,
}

/// Times to set on a file; `None` leaves a time as it is.
#[derive(Debug, Clone, Copy, PartialEq, Eq)]
pub struct FileTimes {
    pub creation_time: Option<u64>,
    pub last_access_time: Option<u64>,
    pub last_write_time: Option<u64>,
    pub change_time: Option<u64>,
}

impl Default for FileTimes {
    fn default() -> (r: Self)
        ensures
            r == (FileTimes {
                creation_time: None,
                last_access_time: None,
                last_write_time: None,
                change_time: None,
            }),
    {
        FileTimes {
            creation_time: None,
            last_access_time: None,
            last_write_time: None,
            change_time: None,
        }
    }
}

/// How a file is to be opened.
#[derive(Debug, Clone, Copy, PartialEq, Eq, Structural)]
pub enum OpenIntent {
    Open,
    Create,
    OpenOrCreate,
    Truncate,
    OverwriteOrCreate,
}

} // verus!
