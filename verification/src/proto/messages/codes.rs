//! The numbers that clients know statuses, dialects, levels, controls and kinds of information by.

use crate::backend;
use crate::error::SmbError;
use crate::info_class;
use crate::ntstatus;
use crate::proto::messages::create::{ImpersonationLevel, OplockLevel};
use crate::proto::messages::create_context::CreateContext;
use crate::proto::messages::ioctl::Fsctl;
use crate::proto::messages::negotiate::Dialect;
use crate::proto::messages::negotiate_context::NegotiateContext;
use crate::proto::messages::query_directory::FileInfoClass;
use crate::proto::messages::query_info::InfoType;
use crate::server::events;
use vstd::prelude::*;

verus! {

/// The statuses that clients are told.
pub proof fn statuses_are_as_clients_know_them()
    ensures
        ntstatus::STATUS_SUCCESS == 0x0000_0000,
        ntstatus::STATUS_PENDING == 0x0000_0103,
        ntstatus::STATUS_NOTIFY_CLEANUP == 0x0000_010B,
        ntstatus::STATUS_NOTIFY_ENUM_DIR == 0x0000_010C,
        ntstatus::STATUS_UNSUCCESSFUL == 0xC000_0001,
        ntstatus::STATUS_INVALID_PARAMETER == 0xC000_000D,
        ntstatus::STATUS_OBJECT_NAME_NOT_FOUND == 0xC000_0034,
        ntstatus::STATUS_OBJECT_NAME_COLLISION == 0xC000_0035,
        ntstatus::STATUS_OBJECT_PATH_NOT_FOUND == 0xC000_003A,
        ntstatus::STATUS_FILE_LOCK_CONFLICT == 0xC000_0054,
        ntstatus::STATUS_LOCK_NOT_GRANTED == 0xC000_0055,
        ntstatus::STATUS_DELETE_PENDING == 0xC000_0056,
        ntstatus::STATUS_RANGE_NOT_LOCKED == 0xC000_007E,
        ntstatus::STATUS_NOT_SUPPORTED == 0xC000_00BB,
        ntstatus::STATUS_REQUEST_NOT_ACCEPTED == 0xC000_00D0,
        ntstatus::STATUS_INVALID_OPLOCK_PROTOCOL == 0xC000_00E3,
        ntstatus::STATUS_NOT_A_DIRECTORY == 0xC000_0103,
        ntstatus::STATUS_CANCELLED == 0xC000_0120,
        ntstatus::STATUS_FILE_CLOSED == 0xC000_0128,
{
}

/// A failure of a file operation is told by its own status.
pub proof fn failures_are_told_by_their_status(e: SmbError)
    ensures
        e == SmbError::NotFound <==> e.status() == 0xC000_0034,
        e == SmbError::PathNotFound <==> e.status() == 0xC000_003A,
        e == SmbError::Exists <==> e.status() == 0xC000_0035,
        e == SmbError::NotSupported <==> e.status() == 0xC000_00BB,
        e == SmbError::NotADirectory <==> e.status() == 0xC000_0103,
{
}

/// A dialect is named by its version in hexadecimal digits; the wildcard is `0x02ff`.
pub proof fn dialects_are_named_by_their_version(d: Dialect, v: u16)
    ensures
        d == Dialect::Smb202 <==> d.code() == 0x0202,
        d == Dialect::Smb210 <==> d.code() == 0x0210,
        d == Dialect::Smb300 <==> d.code() == 0x0300,
        d == Dialect::Smb302 <==> d.code() == 0x0302,
        d == Dialect::Smb311 <==> d.code() == 0x0311,
        d == Dialect::Smb2Wildcard <==> d.code() == 0x02FF,
        Dialect::of_code(v) is Some <==> v == 0x0202 || v == 0x0210 || v == 0x0300 || v == 0x0302
            || v == 0x0311 || v == 0x02FF,
{
}

/// Oplocks and impersonation have their levels.
pub proof fn levels_have_their_codes(o: OplockLevel, i: ImpersonationLevel, v: u8)
    ensures
        o == OplockLevel::NoOplock <==> o.code() == 0,
        o == OplockLevel::Ii <==> o.code() == 1,
        o == OplockLevel::Exclusive <==> o.code() == 8,
        o == OplockLevel::Batch <==> o.code() == 9,
        o == OplockLevel::Lease <==> o.code() == 255,
        OplockLevel::of_code(v) is Some <==> v == 0 || v == 1 || v == 8 || v == 9 || v == 255,
        i == ImpersonationLevel::Anonymous <==> i.code() == 0,
        i == ImpersonationLevel::Identification <==> i.code() == 1,
        i == ImpersonationLevel::Impersonation <==> i.code() == 2,
        i == ImpersonationLevel::Delegate <==> i.code() == 3,
{
}

/// A control that stands under its name has the code that clients send for it.
pub proof fn controls_have_their_codes(c: Fsctl)
    requires
        c.recognised(),
    ensures
        c == Fsctl::ValidateNegotiateInfo <==> c.code() == 0x0014_0204,
        c == Fsctl::DfsGetReferrals <==> c.code() == 0x0006_0194,
        c == Fsctl::DfsGetReferralsEx <==> c.code() == 0x0006_0198,
        c == Fsctl::PipeTranscede <==> c.code() == 0x0011_C017,
        c == Fsctl::PipePeek <==> c.code() == 0x0011_400C,
        c == Fsctl::PipeWait <==> c.code() == 0x0011_C018,
        c == Fsctl::CreateOrGetObjectId <==> c.code() == 0x0009_00C0,
        c == Fsctl::LmrRequestResiliency <==> c.code() == 0x0014_01D4,
        c == Fsctl::QueryNetworkInterfaceInfo <==> c.code() == 0x0014_01FC,
        c == Fsctl::SmbTortureForceUnackedTimeout <==> c.code() == 0x8384_8003,
        c matches Fsctl::Other(n) ==> c.code() == n,
{
}

/// Kinds of information and classes of directory entries have their codes.
pub proof fn kinds_of_information_have_their_codes(t: InfoType, c: FileInfoClass, v: u8)
    ensures
        t == InfoType::File <==> t.code() == 1,
        t == InfoType::FileSystem <==> t.code() == 2,
        t == InfoType::Security <==> t.code() == 3,
        t == InfoType::Quota <==> t.code() == 4,
        InfoType::of_code(v) is Some <==> 1 <= v <= 4,
        c == FileInfoClass::FileDirectoryInformation <==> c.code() == 0x01,
        c == FileInfoClass::FileFullDirectoryInformation <==> c.code() == 0x02,
        c == FileInfoClass::FileBothDirectoryInformation <==> c.code() == 0x03,
        c == FileInfoClass::FileNamesInformation <==> c.code() == 0x0C,
        c == FileInfoClass::FileIdBothDirectoryInformation <==> c.code() == 0x25,
        c == FileInfoClass::FileIdFullDirectoryInformation <==> c.code() == 0x26,
        c == FileInfoClass::FileIdExtdDirectoryInformation <==> c.code() == 0x3C,
        c == FileInfoClass::FileId64ExtdDirectoryInformation <==> c.code() == 0x4E,
        c == FileInfoClass::FileId64ExtdBothDirectoryInformation <==> c.code() == 0x4F,
        c == FileInfoClass::FileIdAllExtdDirectoryInformation <==> c.code() == 0x50,
        c == FileInfoClass::FileIdAllExtdBothDirectoryInformation <==> c.code() == 0x51,
        c == FileInfoClass::FilePosixInformation <==> c.code() == 0x64,
{
}

/// The classes of information on files and on file systems.
pub proof fn classes_are_as_clients_know_them()
    ensures
        info_class::FILE_DIRECTORY_INFORMATION == 0x01,
        info_class::FILE_FULL_DIRECTORY_INFORMATION == 0x02,
        info_class::FILE_BOTH_DIRECTORY_INFORMATION == 0x03,
        info_class::FILE_BASIC_INFORMATION == 0x04,
        info_class::FILE_STANDARD_INFORMATION == 0x05,
        info_class::FILE_INTERNAL_INFORMATION == 0x06,
        info_class::FILE_EA_INFORMATION == 0x07,
        info_class::FILE_ACCESS_INFORMATION == 0x08,
        info_class::FILE_NAME_INFORMATION == 0x09,
        info_class::FILE_NAMES_INFORMATION == 0x0C,
        info_class::FILE_POSITION_INFORMATION == 0x0E,
        info_class::FILE_FULL_EA_INFORMATION == 0x0F,
        info_class::FILE_MODE_INFORMATION == 0x10,
        info_class::FILE_ALIGNMENT_INFORMATION == 0x11,
        info_class::FILE_ALL_INFORMATION == 0x12,
        info_class::FILE_ALLOCATION_INFORMATION == 0x13,
        info_class::FILE_END_OF_FILE_INFORMATION == 0x14,
        info_class::FILE_ALTERNATE_NAME_INFORMATION == 0x15,
        info_class::FILE_STREAM_INFORMATION == 0x16,
        info_class::FILE_COMPRESSION_INFORMATION == 0x1C,
        info_class::FILE_DISPOSITION_INFORMATION == 0x0D,
        info_class::FILE_RENAME_INFORMATION == 0x0A,
        info_class::FILE_DISPOSITION_INFORMATION_EX == 0x40,
        info_class::FILE_RENAME_INFORMATION_EX == 0x41,
        info_class::FILE_NETWORK_OPEN_INFORMATION == 0x22,
        info_class::FILE_ATTRIBUTE_TAG_INFORMATION == 0x23,
        info_class::FILE_ID_BOTH_DIRECTORY_INFORMATION == 0x25,
        info_class::FILE_ID_FULL_DIRECTORY_INFORMATION == 0x26,
        info_class::FILE_NORMALIZED_NAME_INFORMATION == 0x30,
        info_class::FILE_REMOTE_PROTOCOL_INFORMATION == 0x37,
        info_class::FILE_ID_INFORMATION == 0x3B,
        info_class::FILE_ID_EXTD_DIRECTORY_INFORMATION == 0x3C,
        info_class::FILE_ID_64_EXTD_DIRECTORY_INFORMATION == 0x4E,
        info_class::FILE_ID_64_EXTD_BOTH_DIRECTORY_INFORMATION == 0x4F,
        info_class::FILE_ID_ALL_EXTD_DIRECTORY_INFORMATION == 0x50,
        info_class::FILE_ID_ALL_EXTD_BOTH_DIRECTORY_INFORMATION == 0x51,
        info_class::FILE_POSIX_INFORMATION == 0x64,
        info_class::FS_VOLUME_INFORMATION == 0x01,
        info_class::FS_CONTROL_INFORMATION == 0x02,
        info_class::FS_SIZE_INFORMATION == 0x03,
        info_class::FS_DEVICE_INFORMATION == 0x04,
        info_class::FS_ATTRIBUTE_INFORMATION == 0x05,
        info_class::FS_QUOTA_INFORMATION == 0x06,
        info_class::FS_FULL_SIZE_INFORMATION == 0x07,
        info_class::FS_OBJECT_ID_INFORMATION == 0x08,
        info_class::FS_SECTOR_SIZE_INFORMATION == 0x0b,
{
}

/// The attributes of files, what a backend reports as changed, and what a watch asks for.
pub proof fn attributes_and_changes_have_their_bits()
    ensures
        backend::FILE_ATTRIBUTE_READONLY == 0x0001,
        backend::FILE_ATTRIBUTE_HIDDEN == 0x0002,
        backend::FILE_ATTRIBUTE_SYSTEM == 0x0004,
        backend::FILE_ATTRIBUTE_DIRECTORY == 0x0010,
        backend::FILE_ATTRIBUTE_ARCHIVE == 0x0020,
        backend::FILE_ATTRIBUTE_NORMAL == 0x0080,
        backend::FILE_ATTRIBUTE_TEMPORARY == 0x0100,
        backend::FILE_ATTRIBUTE_OFFLINE == 0x1000,
        backend::WATCH_CHANGE_ATTRIBUTES == 0x0001,
        backend::WATCH_CHANGE_SIZE == 0x0002,
        backend::WATCH_CHANGE_LAST_WRITE == 0x0004,
        backend::WATCH_CHANGE_LAST_ACCESS == 0x0008,
        backend::WATCH_CHANGE_CREATION == 0x0010,
        backend::WATCH_CHANGE_SECURITY == 0x0020,
        events::FILE_NOTIFY_CHANGE_FILE_NAME == 0x0000_0001,
        events::FILE_NOTIFY_CHANGE_DIR_NAME == 0x0000_0002,
        events::FILE_NOTIFY_CHANGE_ATTRIBUTES == 0x0000_0004,
        events::FILE_NOTIFY_CHANGE_SIZE == 0x0000_0008,
        events::FILE_NOTIFY_CHANGE_LAST_WRITE == 0x0000_0010,
        events::FILE_NOTIFY_CHANGE_LAST_ACCESS == 0x0000_0020,
        events::FILE_NOTIFY_CHANGE_CREATION == 0x0000_0040,
        events::FILE_NOTIFY_CHANGE_SECURITY == 0x0000_0100,
{
}

/// Create contexts are known by their four letters.
pub proof fn create_contexts_have_their_names()
    ensures
        CreateContext::NAME_EXTA@ == seq![0x45u8, 0x78, 0x74, 0x41],
        CreateContext::NAME_SECD@ == seq![0x53u8, 0x65, 0x63, 0x44],
        CreateContext::NAME_DHNQ@ == seq![0x44u8, 0x48, 0x6E, 0x51],
        CreateContext::NAME_DHNC@ == seq![0x44u8, 0x48, 0x6E, 0x43],
        CreateContext::NAME_ALSI@ == seq![0x41u8, 0x6C, 0x53, 0x69],
        CreateContext::NAME_MXAC@ == seq![0x4Du8, 0x78, 0x41, 0x63],
        CreateContext::NAME_TWRP@ == seq![0x54u8, 0x57, 0x72, 0x70],
        CreateContext::NAME_QFID@ == seq![0x51u8, 0x46, 0x69, 0x64],
        CreateContext::NAME_RQLS@ == seq![0x52u8, 0x71, 0x4C, 0x73],
        CreateContext::NAME_DH2Q@ == seq![0x44u8, 0x48, 0x32, 0x51],
        CreateContext::NAME_DH2C@ == seq![0x44u8, 0x48, 0x32, 0x43],
        CreateContext::NAME_AAPL@ == seq![0x41u8, 0x41, 0x50, 0x4C],
{
    assert(CreateContext::NAME_EXTA@ =~= seq![0x45u8, 0x78, 0x74, 0x41]);
    assert(CreateContext::NAME_SECD@ =~= seq![0x53u8, 0x65, 0x63, 0x44]);
    assert(CreateContext::NAME_DHNQ@ =~= seq![0x44u8, 0x48, 0x6E, 0x51]);
    assert(CreateContext::NAME_DHNC@ =~= seq![0x44u8, 0x48, 0x6E, 0x43]);
    assert(CreateContext::NAME_ALSI@ =~= seq![0x41u8, 0x6C, 0x53, 0x69]);
    assert(CreateContext::NAME_MXAC@ =~= seq![0x4Du8, 0x78, 0x41, 0x63]);
    assert(CreateContext::NAME_TWRP@ =~= seq![0x54u8, 0x57, 0x72, 0x70]);
    assert(CreateContext::NAME_QFID@ =~= seq![0x51u8, 0x46, 0x69, 0x64]);
    assert(CreateContext::NAME_RQLS@ =~= seq![0x52u8, 0x71, 0x4C, 0x73]);
    assert(CreateContext::NAME_DH2Q@ =~= seq![0x44u8, 0x48, 0x32, 0x51]);
    assert(CreateContext::NAME_DH2C@ =~= seq![0x44u8, 0x48, 0x32, 0x43]);
    assert(CreateContext::NAME_AAPL@ =~= seq![0x41u8, 0x41, 0x50, 0x4C]);
}

/// Negotiate contexts are known by their types.
pub proof fn negotiate_contexts_have_their_types()
    ensures
        NegotiateContext::TYPE_PREAUTH_INTEGRITY == 0x0001,
        NegotiateContext::TYPE_ENCRYPTION == 0x0002,
        NegotiateContext::TYPE_COMPRESSION == 0x0003,
        NegotiateContext::TYPE_NETNAME_NEGOTIATE == 0x0005,
        NegotiateContext::TYPE_TRANSPORT_CAPS == 0x0006,
        NegotiateContext::TYPE_RDMA_TRANSFORM == 0x0007,
        NegotiateContext::TYPE_SIGNING == 0x0008,
        NegotiateContext::TYPE_POSIX == 0x0100,
{
}

} // verus!
