//! File, file-system and security information as clients query it.

pub mod attributes;
pub mod directory;
pub mod ea;
pub mod guarding;
pub mod layout;
pub mod security;
pub mod short_name;
pub mod volumes;

use crate::backend::FileInfo;
use crate::info_class::short_name::make_short_name;
use crate::proto::messages::Dialect;
use crate::text;
use crate::text::encode_utf16le;
use crate::wire;
use vstd::prelude::*;

verus! {

/// Class `FileDirectoryInformation`.
pub const FILE_DIRECTORY_INFORMATION: u8 = 0x01;

/// Class `FileFullDirectoryInformation`.
pub const FILE_FULL_DIRECTORY_INFORMATION: u8 = 0x02;

/// Class `FileBothDirectoryInformation`.
pub const FILE_BOTH_DIRECTORY_INFORMATION: u8 = 0x03;

/// Class `FileBasicInformation`.
pub const FILE_BASIC_INFORMATION: u8 = 0x04;

/// Class `FileStandardInformation`.
pub const FILE_STANDARD_INFORMATION: u8 = 0x05;

/// Class `FileInternalInformation`.
pub const FILE_INTERNAL_INFORMATION: u8 = 0x06;

/// Class `FileEaInformation`.
pub const FILE_EA_INFORMATION: u8 = 0x07;

/// Class `FileAccessInformation`.
pub const FILE_ACCESS_INFORMATION: u8 = 0x08;

/// Class `FileNameInformation`.
pub const FILE_NAME_INFORMATION: u8 = 0x09;

/// Class `FileNamesInformation`.
pub const FILE_NAMES_INFORMATION: u8 = 0x0C;

/// Class `FilePositionInformation`.
pub const FILE_POSITION_INFORMATION: u8 = 0x0E;

/// Class `FileFullEaInformation`.
pub const FILE_FULL_EA_INFORMATION: u8 = 0x0F;

/// Class `FileModeInformation`.
pub const FILE_MODE_INFORMATION: u8 = 0x10;

/// Class `FileAlignmentInformation`.
pub const FILE_ALIGNMENT_INFORMATION: u8 = 0x11;

/// Class `FileAllInformation`.
pub const FILE_ALL_INFORMATION: u8 = 0x12;

/// Class `FileAllocationInformation`.
pub const FILE_ALLOCATION_INFORMATION: u8 = 0x13;

/// Class `FileEndOfFileInformation`.
pub const FILE_END_OF_FILE_INFORMATION: u8 = 0x14;

/// Class `FileAlternateNameInformation`.
pub const FILE_ALTERNATE_NAME_INFORMATION: u8 = 0x15;

/// Class `FileStreamInformation`.
pub const FILE_STREAM_INFORMATION: u8 = 0x16;

/// Class `FileCompressionInformation`.
pub const FILE_COMPRESSION_INFORMATION: u8 = 0x1C;

/// Class `FileDispositionInformation`.
pub const FILE_DISPOSITION_INFORMATION: u8 = 0x0D;

/// Class `FileRenameInformation`.
pub const FILE_RENAME_INFORMATION: u8 = 0x0A;

/// Class `FileDispositionInformationEx`.
pub const FILE_DISPOSITION_INFORMATION_EX: u8 = 0x40;

/// Class `FileRenameInformationEx`.
pub const FILE_RENAME_INFORMATION_EX: u8 = 0x41;

/// Class `FileNetworkOpenInformation`.
pub const FILE_NETWORK_OPEN_INFORMATION: u8 = 0x22;

/// Class `FileAttributeTagInformation`.
pub const FILE_ATTRIBUTE_TAG_INFORMATION: u8 = 0x23;

/// Class `FileIdBothDirectoryInformation`.
pub const FILE_ID_BOTH_DIRECTORY_INFORMATION: u8 = 0x25;

/// Class `FileIdFullDirectoryInformation`.
pub const FILE_ID_FULL_DIRECTORY_INFORMATION: u8 = 0x26;

/// Class `FileNormalizedNameInformation`.
pub const FILE_NORMALIZED_NAME_INFORMATION: u8 = 0x30;

/// Class `FileRemoteProtocolInformation`.
pub const FILE_REMOTE_PROTOCOL_INFORMATION: u8 = 0x37;

/// Class `FileIdInformation`.
pub const FILE_ID_INFORMATION: u8 = 0x3B;

/// Class `FileIdExtdDirectoryInformation`.
pub const FILE_ID_EXTD_DIRECTORY_INFORMATION: u8 = 0x3C;

/// Class `FileId64ExtdDirectoryInformation`.
pub const FILE_ID_64_EXTD_DIRECTORY_INFORMATION: u8 = 0x4E;

/// Class `FileId64ExtdBothDirectoryInformation`.
pub const FILE_ID_64_EXTD_BOTH_DIRECTORY_INFORMATION: u8 = 0x4F;

/// Class `FileIdAllExtdDirectoryInformation`.
pub const FILE_ID_ALL_EXTD_DIRECTORY_INFORMATION: u8 = 0x50;

/// Class `FileIdAllExtdBothDirectoryInformation`.
pub const FILE_ID_ALL_EXTD_BOTH_DIRECTORY_INFORMATION: u8 = 0x51;

/// Class `FilePosixInformation`.
pub const FILE_POSIX_INFORMATION: u8 = 0x64;

/// Class `FsVolumeInformation`.
pub const FS_VOLUME_INFORMATION: u8 = 0x01;

/// Class `FsControlInformation`.
pub const FS_CONTROL_INFORMATION: u8 = 0x02;

/// Class `FsSizeInformation`.
pub const FS_SIZE_INFORMATION: u8 = 0x03;

/// Class `FsDeviceInformation`.
pub const FS_DEVICE_INFORMATION: u8 = 0x04;

/// Class `FsAttributeInformation`.
pub const FS_ATTRIBUTE_INFORMATION: u8 = 0x05;

/// Class `FsQuotaInformation`.
pub const FS_QUOTA_INFORMATION: u8 = 0x06;

/// Class `FsFullSizeInformation`.
pub const FS_FULL_SIZE_INFORMATION: u8 = 0x07;

/// Class `FsObjectIdInformation`.
pub const FS_OBJECT_ID_INFORMATION: u8 = 0x08;

/// Class `FsSectorSizeInformation`.
pub const FS_SECTOR_SIZE_INFORMATION: u8 = 0x0b;

/// Owner and mode of a file, as POSIX clients see it.
#[derive(Debug, Clone, Copy, PartialEq, Eq)]
pub struct PosixMetadata {
    pub mode: u32,
    pub uid: u32,
    pub gid: u32,
}

/// A named stream of a file.
#[derive(Debug, Clone, PartialEq, Eq)]
pub struct FileStream {
    pub name: String,
    pub size: u64,
    pub allocation: u64,
}

// ---------------------------------------------------------------------------
// File information
// ---------------------------------------------------------------------------

/// The four times of a file.
pub open spec fn times_bytes(info: FileInfo) -> Seq<u8> {
    wire::bytes64(info.creation_time) + wire::bytes64(info.last_access_time) + wire::bytes64(
        info.last_write_time,
    ) + wire::bytes64(info.change_time)
}

fn put_times(out: &mut Vec<u8>, info: &FileInfo)
    ensures
        final(out)@ == old(out)@ + times_bytes(*info),
{
    wire::put_u64(out, info.creation_time);
    wire::put_u64(out, info.last_access_time);
    wire::put_u64(out, info.last_write_time);
    wire::put_u64(out, info.change_time);
    assert(out@ =~= old(out)@ + times_bytes(*info));
}

/// Basic information: times and attributes.
pub open spec fn basic_information(info: FileInfo) -> Seq<u8> {
    times_bytes(info) + wire::bytes32(info.file_attributes) + wire::bytes32(0)
}

/// Encodes basic information.
pub fn encode_file_basic_information(info: &FileInfo) -> (r: Vec<u8>)
    ensures
        r@ == basic_information(*info),
        r@.len() == 40,
{
    let mut out: Vec<u8> = Vec::new();
    put_times(&mut out, info);
    wire::put_u32(&mut out, info.attributes());
    wire::put_u32(&mut out, 0);
    assert(out@ =~= basic_information(*info));
    out
}

/// One byte for a flag.
pub open spec fn flag_byte(flag: bool) -> Seq<u8> {
    if flag {
        seq![1u8]
    } else {
        seq![0u8]
    }
}

fn put_flag(out: &mut Vec<u8>, flag: bool)
    ensures
        final(out)@ == old(out)@ + flag_byte(flag),
{
    if flag {
        out.push(1);
    } else {
        out.push(0);
    }
    assert(out@ =~= old(out)@ + flag_byte(flag));
}

/// Standard information: sizes, links and flags.
pub open spec fn standard_information(info: FileInfo, delete_pending: bool, links: u32) -> Seq<u8> {
    wire::bytes64(info.allocation_size) + wire::bytes64(info.end_of_file) + wire::bytes32(links)
        + flag_byte(delete_pending) + flag_byte(info.is_directory) + wire::bytes16(0)
}

/// Encodes standard information of a file with one link.
pub fn encode_file_standard_information(info: &FileInfo, delete_pending: bool) -> (r: Vec<u8>)
    ensures
        r@ == standard_information(*info, delete_pending, 1),
        r@.len() == 24,
{
    encode_file_standard_information_with_links(info, delete_pending, 1)
}

/// Encodes standard information.
pub fn encode_file_standard_information_with_links(
    info: &FileInfo,
    delete_pending: bool,
    number_of_links: u32,
) -> (r: Vec<u8>)
    ensures
        r@ == standard_information(*info, delete_pending, number_of_links),
        r@.len() == 24,
{
    let mut out: Vec<u8> = Vec::new();
    wire::put_u64(&mut out, info.allocation_size);
    wire::put_u64(&mut out, info.end_of_file);
    wire::put_u32(&mut out, number_of_links);
    put_flag(&mut out, delete_pending);
    put_flag(&mut out, info.is_directory);
    wire::put_u16(&mut out, 0);
    assert(out@ =~= standard_information(*info, delete_pending, number_of_links));
    out
}

/// Encodes the index of a file.
pub fn encode_file_internal_information(file_index: u64) -> (r: Vec<u8>)
    ensures
        r@ == wire::bytes64(file_index),
        r@.len() == 8,
{
    let mut out: Vec<u8> = Vec::new();
    wire::put_u64(&mut out, file_index);
    assert(out@ =~= wire::bytes64(file_index));
    out
}

/// Encodes an access mask.
pub fn encode_file_access_information(access_mask: u32) -> (r: Vec<u8>)
    ensures
        r@ == wire::bytes32(access_mask),
        r@.len() == 4,
{
    let mut out: Vec<u8> = Vec::new();
    wire::put_u32(&mut out, access_mask);
    assert(out@ =~= wire::bytes32(access_mask));
    out
}

/// Encodes a position in a file.
pub fn encode_file_position_information(current_offset: u64) -> (r: Vec<u8>)
    ensures
        r@ == wire::bytes64(current_offset),
        r@.len() == 8,
{
    let mut out: Vec<u8> = Vec::new();
    wire::put_u64(&mut out, current_offset);
    assert(out@ =~= wire::bytes64(current_offset));
    out
}

/// Encodes the mode of an open.
pub fn encode_file_mode_information(mode: u32) -> (r: Vec<u8>)
    ensures
        r@ == wire::bytes32(mode),
        r@.len() == 4,
{
    let mut out: Vec<u8> = Vec::new();
    wire::put_u32(&mut out, mode);
    assert(out@ =~= wire::bytes32(mode));
    out
}

/// Encodes that buffers need no alignment.
pub fn encode_file_alignment_information() -> (r: Vec<u8>)
    ensures
        r@ == wire::bytes32(0),
        r@.len() == 4,
{
    let mut out: Vec<u8> = Vec::new();
    wire::put_u32(&mut out, 0);
    assert(out@ =~= wire::bytes32(0));
    out
}

/// A length in bytes and the UTF-16 text behind it.
pub open spec fn counted_name(name: Seq<char>) -> Seq<u8> {
    wire::bytes32(text::utf16le(name).len() as u32) + text::utf16le(name)
}

/// Encodes a name.
pub fn encode_file_name_information(name: &str) -> (r: Vec<u8>)
    ensures
        r@ == counted_name(name@),
{
    let n: Vec<u8> = encode_utf16le(name);
    let mut out: Vec<u8> = Vec::new();
    wire::put_u32(&mut out, n.len() as u32);
    wire::put_bytes(&mut out, n.as_slice());
    assert(out@ =~= counted_name(name@));
    out
}

/// Encodes the short name of a name.
pub fn encode_file_alternate_name_information(name: &str) -> (r: Vec<u8>)
    ensures
        r@ == counted_name(short_name::short_name(name@)),
{
    let short: String = make_short_name(name);
    encode_file_name_information(short.as_str())
}

/// The concatenation of the information classes of a file, at least 101 bytes.
pub open spec fn all_information(
    info: FileInfo,
    file_index: u64,
    access_mask: u32,
    current_offset: u64,
    mode: u32,
    delete_pending: bool,
    links: u32,
) -> Seq<u8> {
    let fixed = basic_information(info) + standard_information(info, delete_pending, links)
        + wire::bytes64(file_index) + wire::bytes32(0) + wire::bytes32(access_mask) + wire::bytes64(
        current_offset,
    ) + wire::bytes32(mode) + wire::bytes32(0);
    let whole = fixed + counted_name(info.name@);
    if whole.len() < 101 {
        whole.push(0)
    } else {
        whole
    }
}

/// Encodes all information of a file with one link.
pub fn encode_file_all_information(
    info: &FileInfo,
    file_index: u64,
    access_mask: u32,
    current_offset: u64,
    mode: u32,
    delete_pending: bool,
) -> (r: Vec<u8>)
    ensures
        r@ == all_information(
            *info,
            file_index,
            access_mask,
            current_offset,
            mode,
            delete_pending,
            1,
        ),
        r@.len() >= 101,
{
    encode_file_all_information_with_links(
        info,
        file_index,
        access_mask,
        current_offset,
        mode,
        delete_pending,
        1,
    )
}

/// Encodes all information of a file. Clients count on 101 bytes, with at least one
/// byte of name.
pub fn encode_file_all_information_with_links(
    info: &FileInfo,
    file_index: u64,
    access_mask: u32,
    current_offset: u64,
    mode: u32,
    delete_pending: bool,
    number_of_links: u32,
) -> (r: Vec<u8>)
    ensures
        r@ == all_information(
            *info,
            file_index,
            access_mask,
            current_offset,
            mode,
            delete_pending,
            number_of_links,
        ),
        r@.len() >= 101,
{
    let mut out: Vec<u8> = encode_file_basic_information(info);
    let standard: Vec<u8> = encode_file_standard_information_with_links(
        info,
        delete_pending,
        number_of_links,
    );
    wire::put_bytes(&mut out, standard.as_slice());
    wire::put_u64(&mut out, file_index);
    wire::put_u32(&mut out, 0);
    wire::put_u32(&mut out, access_mask);
    wire::put_u64(&mut out, current_offset);
    wire::put_u32(&mut out, mode);
    wire::put_u32(&mut out, 0);
    assert(out@.len() == 96);
    let name: Vec<u8> = encode_file_name_information(info.name.as_str());
    wire::put_bytes(&mut out, name.as_slice());
    if out.len() < 101 {
        out.push(0);
    }
    out
}

/// Network-open information: times, sizes and attributes.
pub open spec fn network_open_information(info: FileInfo) -> Seq<u8> {
    times_bytes(info) + wire::bytes64(info.allocation_size) + wire::bytes64(info.end_of_file)
        + wire::bytes32(info.file_attributes) + wire::bytes32(0)
}

/// Encodes network-open information.
pub fn encode_file_network_open_information(info: &FileInfo) -> (r: Vec<u8>)
    ensures
        r@ == network_open_information(*info),
        r@.len() == 56,
{
    let mut out: Vec<u8> = Vec::new();
    put_times(&mut out, info);
    wire::put_u64(&mut out, info.allocation_size);
    wire::put_u64(&mut out, info.end_of_file);
    wire::put_u32(&mut out, info.attributes());
    wire::put_u32(&mut out, 0);
    assert(out@ =~= network_open_information(*info));
    out
}

// ---------------------------------------------------------------------------
// Streams
// ---------------------------------------------------------------------------

/// What a stream record says of a stream.
pub struct StreamModel {
    pub name: Seq<char>,
    pub size: u64,
    pub allocation: u64,
}

impl View for FileStream {
    type V = StreamModel;

    open spec fn view(&self) -> StreamModel {
        StreamModel { name: self.name@, size: self.size, allocation: self.allocation }
    }
}

/// `n` rounded up to a multiple of eight.
pub open spec fn aligned8(n: int) -> int {
    (n + 7) / 8 * 8
}

/// Rounds up to a multiple of eight.
pub fn align8(n: usize) -> (r: usize)
    requires
        n + 7 <= usize::MAX,
    ensures
        r == aligned8(n as int),
        n <= r < n + 8,
        r % 8 == 0,
{
    (n + 7) / 8 * 8
}

/// The number of bytes of a stream record, with its padding.
pub open spec fn stream_record_len(s: StreamModel) -> int {
    aligned8(24int + text::utf16le(s.name).len())
}

/// A stream record; `next` is the distance to the record behind it, zero for the last.
#[verifier::opaque]
pub open spec fn stream_record(s: StreamModel, next: u32) -> Seq<u8> {
    let name = text::utf16le(s.name);
    wire::bytes32(next) + wire::bytes32(name.len() as u32) + wire::bytes64(s.size) + wire::bytes64(
        s.allocation,
    ) + name + wire::zeros(stream_record_len(s) - 24 - name.len())
}

/// The records of the first `n` streams.
pub open spec fn stream_records(streams: Seq<StreamModel>, n: int) -> Seq<u8>
    decreases n,
{
    if n <= 0 {
        Seq::empty()
    } else {
        let s = streams[n - 1];
        let next = if n < streams.len() {
            stream_record_len(s) as u32
        } else {
            0
        };
        stream_records(streams, n - 1) + stream_record(s, next)
    }
}

/// What stream records are written of: the given streams or, where there is none, the
/// unnamed stream of a file; a directory has none.
pub open spec fn reported_streams(info: FileInfo, streams: Seq<StreamModel>) -> Seq<StreamModel> {
    if streams.len() > 0 {
        streams
    } else if info.is_directory {
        Seq::empty()
    } else {
        seq![
            StreamModel {
                name: "::$DATA"@,
                size: info.end_of_file,
                allocation: info.allocation_size,
            },
        ]
    }
}

/// Stream information.
pub open spec fn stream_information(info: FileInfo, streams: Seq<FileStream>) -> Seq<u8> {
    let listed = reported_streams(info, streams.map_values(|s: FileStream| s@));
    stream_records(listed, listed.len() as int)
}

/// How many bytes are missing to a multiple of eight.
fn padding8(n: usize) -> (r: usize)
    ensures
        n + r == aligned8(n as int),
        r < 8,
{
    (8 - n % 8) % 8
}

fn encode_stream(name: &str, size: u64, allocation: u64, last: bool) -> (r: Vec<u8>)
    ensures
        r@ == stream_record(
            StreamModel { name: name@, size, allocation },
            if last {
                0
            } else {
                stream_record_len(StreamModel { name: name@, size, allocation }) as u32
            },
        ),
{
    let encoded: Vec<u8> = encode_utf16le(name);
    let ghost model = StreamModel { name: name@, size, allocation };
    let mut rec: Vec<u8> = Vec::new();
    wire::put_u32(&mut rec, 0);
    assert(rec@ =~= wire::bytes32(0));
    wire::put_u32(&mut rec, encoded.len() as u32);
    wire::put_u64(&mut rec, size);
    wire::put_u64(&mut rec, allocation);
    wire::put_bytes(&mut rec, encoded.as_slice());
    let len: usize = rec.len();
    assert(len == 24 + encoded@.len());
    wire::put_zeros(&mut rec, padding8(len));
    let padded: usize = rec.len();
    assert(padded == stream_record_len(model));
    assert(rec@ == stream_record(model, 0)) by {
        reveal(stream_record);
    }
    if !last {
        wire::set_u32(&mut rec, 0, padded as u32);
        proof {
            lemma_stream_record_next(model, padded as u32);
        }
    }
    rec
}

proof fn lemma_stream_record_next(s: StreamModel, next: u32)
    ensures
        wire::overwritten(stream_record(s, 0), 0, wire::bytes32(next)) == stream_record(s, next),
{
    reveal(stream_record);
    assert(wire::overwritten(stream_record(s, 0), 0, wire::bytes32(next)) =~= stream_record(
        s,
        next,
    ));
}

/// Encodes the streams of a file.
pub fn encode_file_stream_information(info: &FileInfo, streams: &[FileStream]) -> (r: Vec<u8>)
    ensures
        r@ == stream_information(*info, streams@),
{
    let mut out: Vec<u8> = Vec::new();
    let ghost listed = streams@.map_values(|s: FileStream| s@);
    if streams.len() == 0 {
        if !info.is_directory {
            out = encode_stream("::$DATA", info.end_of_file, info.allocation_size, true);
            proof {
                let all = reported_streams(*info, listed);
                reveal_with_fuel(stream_records, 2);
                assert(out@ =~= stream_records(all, 1));
            }
        }
        return out;
    }
    let mut i: usize = 0;
    while i < streams.len()
        invariant
            i <= streams@.len(),
            listed == streams@.map_values(|s: FileStream| s@),
            out@ == stream_records(listed, i as int),
        decreases streams@.len() - i,
    {
        let s: &FileStream = &streams[i];
        let rec: Vec<u8> = encode_stream(
            s.name.as_str(),
            s.size,
            s.allocation,
            i == streams.len() - 1,
        );
        wire::put_bytes(&mut out, rec.as_slice());
        assert(listed[i as int] == streams@[i as int]@);
        i += 1;
    }
    out
}

/// Encodes that data is stored uncompressed.
pub fn encode_file_compression_information() -> (r: Vec<u8>)
    ensures
        r@ == wire::zeros(16),
{
    let mut out: Vec<u8> = Vec::new();
    wire::put_zeros(&mut out, 16);
    assert(out@ =~= wire::zeros(16));
    out
}

/// Encodes attributes, with no reparse tag.
pub fn encode_file_attribute_tag_information(info: &FileInfo) -> (r: Vec<u8>)
    ensures
        r@ == wire::bytes32(info.file_attributes) + wire::bytes32(0),
        r@.len() == 8,
{
    let mut out: Vec<u8> = Vec::new();
    wire::put_u32(&mut out, info.attributes());
    wire::put_u32(&mut out, 0);
    assert(out@ =~= wire::bytes32(info.file_attributes) + wire::bytes32(0));
    out
}

/// Major, minor and revision number of a dialect; a wildcard counts as SMB 3.0.
pub open spec fn protocol_version(dialect: Option<Dialect>) -> (u16, u16, u16) {
    match dialect {
        Some(Dialect::Smb202) => (2, 0, 2),
        Some(Dialect::Smb210) => (2, 1, 0),
        Some(Dialect::Smb300) => (3, 0, 0),
        Some(Dialect::Smb302) => (3, 0, 2),
        Some(Dialect::Smb311) => (3, 1, 1),
        _ => (3, 0, 0),
    }
}

fn remote_protocol_version(dialect: Option<Dialect>) -> (r: (u16, u16, u16))
    ensures
        r == protocol_version(dialect),
{
    match dialect {
        Some(Dialect::Smb202) => (2, 0, 2),
        Some(Dialect::Smb210) => (2, 1, 0),
        Some(Dialect::Smb300) => (3, 0, 0),
        Some(Dialect::Smb302) => (3, 0, 2),
        Some(Dialect::Smb311) => (3, 1, 1),
        _ => (3, 0, 0),
    }
}

/// Remote-protocol information: structure version and size, the number of SMB, the
/// version of the dialect and reserved bytes.
pub open spec fn remote_protocol_information(dialect: Option<Dialect>) -> Seq<u8> {
    let v = protocol_version(dialect);
    wire::bytes16(1) + wire::bytes16(180) + wire::bytes32(0x0002_0000) + wire::bytes16(v.0)
        + wire::bytes16(v.1) + wire::bytes16(v.2) + wire::zeros(166)
}

/// Encodes the protocol that a file is reached by.
pub fn encode_file_remote_protocol_information(dialect: Option<Dialect>) -> (r: Vec<u8>)
    ensures
        r@ == remote_protocol_information(dialect),
        r@.len() == 180,
{
    let (major, minor, revision) = remote_protocol_version(dialect);
    let mut out: Vec<u8> = Vec::new();
    wire::put_u16(&mut out, 1);
    wire::put_u16(&mut out, 180);
    wire::put_u32(&mut out, 0x0002_0000);
    wire::put_u16(&mut out, major);
    wire::put_u16(&mut out, minor);
    wire::put_u16(&mut out, revision);
    wire::put_zeros(&mut out, 166);
    assert(out@ =~= remote_protocol_information(dialect));
    out
}

/// The ids of a volume and of a file, the latter in the upper half of its field.
pub open spec fn file_id_information(volume_id: u64, file_id: u64) -> Seq<u8> {
    wire::bytes64(volume_id) + wire::bytes64(0) + wire::bytes64(file_id)
}

/// Encodes the ids of a volume and of a file, the latter in the upper half of its field.
pub fn encode_file_id_information(volume_id: u64, file_id: u64) -> (r: Vec<u8>)
    ensures
        r@ == file_id_information(volume_id, file_id),
        r@.len() == 24,
{
    let mut out: Vec<u8> = Vec::new();
    wire::put_u64(&mut out, volume_id);
    wire::put_u64(&mut out, 0);
    wire::put_u64(&mut out, file_id);
    assert(out@ =~= file_id_information(volume_id, file_id));
    out
}

// ---------------------------------------------------------------------------
// POSIX extensions
// ---------------------------------------------------------------------------

/// The mode of a file that none was set for.
pub open spec fn implied_posix_mode(info: FileInfo) -> u32 {
    if info.is_directory {
        0o755
    } else {
        0o644
    }
}

/// Owner and mode of a file that none were set for.
pub open spec fn implied_posix_metadata(info: FileInfo) -> PosixMetadata {
    PosixMetadata { mode: implied_posix_mode(info), uid: 0, gid: 0 }
}

/// The mode of a file that none was set for.
pub fn default_posix_mode(info: &FileInfo) -> (r: u32)
    ensures
        r == implied_posix_mode(*info),
{
    if info.is_directory {
        0o755
    } else {
        0o644
    }
}

/// Owner and mode of a file that none were set for.
pub fn default_posix_metadata(info: &FileInfo) -> (r: PosixMetadata)
    ensures
        r == implied_posix_metadata(*info),
{
    PosixMetadata { mode: default_posix_mode(info), uid: 0, gid: 0 }
}

/// The field of a POSIX user (`kind` 1) or group (`kind` 2): a security id with three
/// sub-authorities, padded.
pub open spec fn posix_sid(kind: u32, id: u32) -> Seq<u8> {
    seq![1u8, 3, 0, 0, 0, 0, 0, 5] + wire::bytes32(88) + wire::bytes32(kind) + wire::bytes32(id)
        + wire::zeros(8)
}

fn put_posix_sid(out: &mut Vec<u8>, kind: u32, id: u32)
    ensures
        final(out)@ == old(out)@ + posix_sid(kind, id),
{
    let head: [u8; 8] = [1, 3, 0, 0, 0, 0, 0, 5];
    wire::put_bytes(out, head.as_slice());
    wire::put_u32(out, 88);
    wire::put_u32(out, kind);
    wire::put_u32(out, id);
    wire::put_zeros(out, 8);
    assert(head@ =~= seq![1u8, 3, 0, 0, 0, 0, 0, 5]);
    assert(out@ =~= old(out)@ + posix_sid(kind, id));
}

/// POSIX data of a file: links, no reparse tag, the permission bits and the owners.
pub open spec fn posix_context(posix: PosixMetadata, links: u32) -> Seq<u8> {
    wire::bytes32(links) + wire::bytes32(0) + wire::bytes32(posix.mode & 0o7777) + posix_sid(
        1,
        posix.uid,
    ) + posix_sid(2, posix.gid)
}

/// What was set for a file, or what is implied.
pub open spec fn posix_or_implied(info: FileInfo, posix: Option<PosixMetadata>) -> PosixMetadata {
    match posix {
        Some(p) => p,
        None => implied_posix_metadata(info),
    }
}

fn put_posix_context(
    out: &mut Vec<u8>,
    info: &FileInfo,
    posix: Option<PosixMetadata>,
    number_of_links: u32,
)
    ensures
        final(out)@ == old(out)@ + posix_context(posix_or_implied(*info, posix), number_of_links),
{
    let posix: PosixMetadata = match posix {
        Some(p) => p,
        None => default_posix_metadata(info),
    };
    wire::put_u32(out, number_of_links);
    wire::put_u32(out, 0);
    wire::put_u32(out, posix.mode & 0o7777);
    put_posix_sid(out, 1, posix.uid);
    put_posix_sid(out, 2, posix.gid);
    assert(out@ =~= old(out)@ + posix_context(posix, number_of_links));
}

/// Encodes the POSIX data of a file with one link.
pub fn encode_posix_create_context_response(
    info: &FileInfo,
    posix: Option<PosixMetadata>,
) -> (r: [u8; 68])
    ensures
        r@ == posix_context(posix_or_implied(*info, posix), 1),
{
    encode_posix_create_context_response_with_links(info, posix, 1)
}

/// Encodes the POSIX data of a file.
pub fn encode_posix_create_context_response_with_links(
    info: &FileInfo,
    posix: Option<PosixMetadata>,
    number_of_links: u32,
) -> (r: [u8; 68])
    ensures
        r@ == posix_context(posix_or_implied(*info, posix), number_of_links),
{
    let mut bytes: Vec<u8> = Vec::new();
    put_posix_context(&mut bytes, info, posix, number_of_links);
    assert(bytes@ =~= posix_context(posix_or_implied(*info, posix), number_of_links));
    let mut out: [u8; 68] = [0u8; 68];
    let mut i: usize = 0;
    while i < 68
        invariant
            i <= 68,
            bytes@.len() == 68,
            forall|j: int| 0 <= j < i ==> out@[j] == bytes@[j],
        decreases 68 - i,
    {
        out[i] = bytes[i];
        i += 1;
    }
    assert(out@ =~= bytes@);
    out
}

/// POSIX information of a file.
pub open spec fn posix_information(
    info: FileInfo,
    file_id: u64,
    posix: Option<PosixMetadata>,
    links: u32,
) -> Seq<u8> {
    times_bytes(info) + wire::bytes64(info.allocation_size) + wire::bytes64(info.end_of_file)
        + wire::bytes32(info.file_attributes) + wire::bytes64(file_id) + wire::zeros(8)
        + posix_context(posix_or_implied(info, posix), links)
}

/// Encodes POSIX information of a file with one link.
pub fn encode_file_posix_information(
    info: &FileInfo,
    file_id: u64,
    posix: Option<PosixMetadata>,
) -> (r: Vec<u8>)
    ensures
        r@ == posix_information(*info, file_id, posix, 1),
        r@.len() == 136,
{
    encode_file_posix_information_with_links(info, file_id, posix, 1)
}

/// Encodes POSIX information of a file.
pub fn encode_file_posix_information_with_links(
    info: &FileInfo,
    file_id: u64,
    posix: Option<PosixMetadata>,
    number_of_links: u32,
) -> (r: Vec<u8>)
    ensures
        r@ == posix_information(*info, file_id, posix, number_of_links),
        r@.len() == 136,
{
    let mut out: Vec<u8> = Vec::new();
    put_times(&mut out, info);
    wire::put_u64(&mut out, info.allocation_size);
    wire::put_u64(&mut out, info.end_of_file);
    wire::put_u32(&mut out, info.attributes());
    wire::put_u64(&mut out, file_id);
    wire::put_zeros(&mut out, 8);
    put_posix_context(&mut out, info, posix, number_of_links);
    assert(out@ =~= posix_information(*info, file_id, posix, number_of_links));
    out
}

// ---------------------------------------------------------------------------
// File systems
// ---------------------------------------------------------------------------

/// Creation time, serial number and label of a volume.
pub open spec fn fs_volume_information(
    creation_time: u64,
    serial: u32,
    label: Seq<char>,
) -> Seq<u8> {
    wire::bytes64(creation_time) + wire::bytes32(serial) + wire::bytes32(
        text::utf16le(label).len() as u32,
    ) + wire::zeros(2) + text::utf16le(label)
}

/// Encodes creation time, serial number and label of a volume.
pub fn encode_fs_volume_information(creation_time: u64, serial: u32, label: &str) -> (r: Vec<u8>)
    ensures
        r@ == fs_volume_information(creation_time, serial, label@),
{
    let label_utf16: Vec<u8> = encode_utf16le(label);
    let mut out: Vec<u8> = Vec::new();
    wire::put_u64(&mut out, creation_time);
    wire::put_u32(&mut out, serial);
    wire::put_u32(&mut out, label_utf16.len() as u32);
    wire::put_zeros(&mut out, 2);
    wire::put_bytes(&mut out, label_utf16.as_slice());
    assert(out@ =~= fs_volume_information(creation_time, serial, label@));
    out
}

/// Encodes that there are no quotas to control.
pub fn encode_fs_control_information() -> (r: Vec<u8>)
    ensures
        r@ == wire::zeros(48),
{
    let mut out: Vec<u8> = Vec::new();
    wire::put_zeros(&mut out, 48);
    assert(out@ =~= wire::zeros(48));
    out
}

/// The size of a volume.
pub open spec fn fs_size_information(
    total: u64,
    available: u64,
    sectors_per_unit: u32,
    bytes_per_sector: u32,
) -> Seq<u8> {
    wire::bytes64(total) + wire::bytes64(available) + wire::bytes32(sectors_per_unit)
        + wire::bytes32(bytes_per_sector)
}

/// Encodes the size of a volume.
pub fn encode_fs_size_information(
    total_alloc_units: u64,
    avail_alloc_units: u64,
    sectors_per_unit: u32,
    bytes_per_sector: u32,
) -> (r: Vec<u8>)
    ensures
        r@ == fs_size_information(
            total_alloc_units,
            avail_alloc_units,
            sectors_per_unit,
            bytes_per_sector,
        ),
        r@.len() == 24,
{
    let mut out: Vec<u8> = Vec::new();
    wire::put_u64(&mut out, total_alloc_units);
    wire::put_u64(&mut out, avail_alloc_units);
    wire::put_u32(&mut out, sectors_per_unit);
    wire::put_u32(&mut out, bytes_per_sector);
    assert(out@ =~= fs_size_information(
        total_alloc_units,
        avail_alloc_units,
        sectors_per_unit,
        bytes_per_sector,
    ));
    out
}

/// Type and characteristics of a device.
pub open spec fn fs_device_information(device_type: u32, characteristics: u32) -> Seq<u8> {
    wire::bytes32(device_type) + wire::bytes32(characteristics)
}

/// Encodes type and characteristics of a device.
pub fn encode_fs_device_information(device_type: u32, characteristics: u32) -> (r: Vec<u8>)
    ensures
        r@ == fs_device_information(device_type, characteristics),
        r@.len() == 8,
{
    let mut out: Vec<u8> = Vec::new();
    wire::put_u32(&mut out, device_type);
    wire::put_u32(&mut out, characteristics);
    assert(out@ =~= fs_device_information(device_type, characteristics));
    out
}

/// Attributes and name of a file system.
pub open spec fn fs_attribute_information(
    attributes: u32,
    max_component_len: u32,
    name: Seq<char>,
) -> Seq<u8> {
    wire::bytes32(attributes) + wire::bytes32(max_component_len) + counted_name(name)
}

/// Encodes attributes and name of a file system.
pub fn encode_fs_attribute_information(
    attributes: u32,
    max_component_len: u32,
    fs_name: &str,
) -> (r: Vec<u8>)
    ensures
        r@ == fs_attribute_information(attributes, max_component_len, fs_name@),
{
    let name: Vec<u8> = encode_file_name_information(fs_name);
    let mut out: Vec<u8> = Vec::new();
    wire::put_u32(&mut out, attributes);
    wire::put_u32(&mut out, max_component_len);
    wire::put_bytes(&mut out, name.as_slice());
    assert(out@ =~= fs_attribute_information(attributes, max_component_len, fs_name@));
    out
}

/// What is left of a volume where quotas would stand.
pub open spec fn fs_quota_information(total: u64, available: u64) -> Seq<u8> {
    wire::bytes64(total) + wire::bytes64(available) + wire::zeros(32)
}

/// Encodes what is left of a volume where quotas would stand.
pub fn encode_fs_quota_information(total_alloc_units: u64, avail_alloc_units: u64) -> (r: Vec<u8>)
    ensures
        r@ == fs_quota_information(total_alloc_units, avail_alloc_units),
        r@.len() == 48,
{
    let mut out: Vec<u8> = Vec::new();
    wire::put_u64(&mut out, total_alloc_units);
    wire::put_u64(&mut out, avail_alloc_units);
    wire::put_zeros(&mut out, 32);
    assert(out@ =~= fs_quota_information(total_alloc_units, avail_alloc_units));
    out
}

/// The size of a volume, with what the caller may use of it.
pub open spec fn fs_full_size_information(
    total: u64,
    caller: u64,
    actual: u64,
    sectors_per_unit: u32,
    bytes_per_sector: u32,
) -> Seq<u8> {
    wire::bytes64(total) + wire::bytes64(caller) + wire::bytes64(actual) + wire::bytes32(
        sectors_per_unit,
    ) + wire::bytes32(bytes_per_sector)
}

/// Encodes the size of a volume, with what the caller may use of it.
pub fn encode_fs_full_size_information(
    total_alloc_units: u64,
    caller_avail_alloc_units: u64,
    actual_avail_alloc_units: u64,
    sectors_per_unit: u32,
    bytes_per_sector: u32,
) -> (r: Vec<u8>)
    ensures
        r@ == fs_full_size_information(
            total_alloc_units,
            caller_avail_alloc_units,
            actual_avail_alloc_units,
            sectors_per_unit,
            bytes_per_sector,
        ),
        r@.len() == 32,
{
    let mut out: Vec<u8> = Vec::new();
    wire::put_u64(&mut out, total_alloc_units);
    wire::put_u64(&mut out, caller_avail_alloc_units);
    wire::put_u64(&mut out, actual_avail_alloc_units);
    wire::put_u32(&mut out, sectors_per_unit);
    wire::put_u32(&mut out, bytes_per_sector);
    assert(out@ =~= fs_full_size_information(
        total_alloc_units,
        caller_avail_alloc_units,
        actual_avail_alloc_units,
        sectors_per_unit,
        bytes_per_sector,
    ));
    out
}

/// Encodes the object id of a volume.
pub fn encode_fs_object_id_information(object_id: &[u8; 16]) -> (r: Vec<u8>)
    ensures
        r@ == object_id@ + wire::zeros(48),
        r@.len() == 64,
{
    let mut out: Vec<u8> = Vec::new();
    wire::put_bytes(&mut out, object_id.as_slice());
    wire::put_zeros(&mut out, 48);
    assert(out@ =~= object_id@ + wire::zeros(48));
    out
}

/// Encodes the sector size, the same by every measure.
pub fn encode_fs_sector_size_information(bytes_per_sector: u32) -> (r: Vec<u8>)
    ensures
        r@ == wire::bytes32(bytes_per_sector) + wire::bytes32(bytes_per_sector)
            + wire::bytes32(bytes_per_sector) + wire::bytes32(bytes_per_sector) + wire::zeros(12),
        r@.len() == 28,
{
    let mut out: Vec<u8> = Vec::new();
    wire::put_u32(&mut out, bytes_per_sector);
    wire::put_u32(&mut out, bytes_per_sector);
    wire::put_u32(&mut out, bytes_per_sector);
    wire::put_u32(&mut out, bytes_per_sector);
    wire::put_zeros(&mut out, 12);
    assert(out@ =~= wire::bytes32(bytes_per_sector) + wire::bytes32(bytes_per_sector)
        + wire::bytes32(bytes_per_sector) + wire::bytes32(bytes_per_sector) + wire::zeros(12));
    out
}

} // verus!
