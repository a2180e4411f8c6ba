//! Where the fields of file information and of directory entries lie, counted in bytes.

use crate::backend::FileInfo;
use crate::info_class;
use crate::info_class::directory;
use crate::info_class::{PosixMetadata, StreamModel};
use crate::proto::messages::layout;
use crate::proto::messages::Dialect;
use crate::text;
use crate::wire;
use vstd::prelude::*;

verus! {

/// Basic information has 40 bytes: creation, last access, last write and change time, the
/// attributes, and four zero bytes.
pub proof fn basic_information_lies_in_place(info: FileInfo)
    ensures
        layout::number(info_class::basic_information(info), 0, 8) == info.creation_time,
        layout::number(info_class::basic_information(info), 8, 8) == info.last_access_time,
        layout::number(info_class::basic_information(info), 16, 8) == info.last_write_time,
        layout::number(info_class::basic_information(info), 24, 8) == info.change_time,
        layout::number(info_class::basic_information(info), 32, 4) == info.file_attributes,
        layout::number(info_class::basic_information(info), 36, 4) == 0,
        info_class::basic_information(info).len() == 40,
{
    let b = info_class::basic_information(info);
    assert(layout::number(b, 0, 8) == info.creation_time) by {
        assert(b.subrange(0, 8) =~= wire::bytes64(info.creation_time));
        wire::le64_of_bytes64(b, 0, info.creation_time);
        layout::numbers_are_little_endian(b);
    }
    assert(layout::number(b, 8, 8) == info.last_access_time) by {
        assert(b.subrange(8, 16) =~= wire::bytes64(info.last_access_time));
        wire::le64_of_bytes64(b, 8, info.last_access_time);
        layout::numbers_are_little_endian(b);
    }
    assert(layout::number(b, 16, 8) == info.last_write_time) by {
        assert(b.subrange(16, 24) =~= wire::bytes64(info.last_write_time));
        wire::le64_of_bytes64(b, 16, info.last_write_time);
        layout::numbers_are_little_endian(b);
    }
    assert(layout::number(b, 24, 8) == info.change_time) by {
        assert(b.subrange(24, 32) =~= wire::bytes64(info.change_time));
        wire::le64_of_bytes64(b, 24, info.change_time);
        layout::numbers_are_little_endian(b);
    }
    assert(layout::number(b, 32, 4) == info.file_attributes) by {
        assert(b.subrange(32, 36) =~= wire::bytes32(info.file_attributes));
        wire::le32_of_bytes32(b, 32, info.file_attributes);
        layout::numbers_are_little_endian(b);
    }
    assert(layout::number(b, 36, 4) == 0) by {
        assert(b.subrange(36, 40) =~= wire::bytes32(0u32));
        wire::le32_of_bytes32(b, 36, 0u32);
        layout::numbers_are_little_endian(b);
    }
}

/// Standard information has 24 bytes: allocation size, end of file, links, whether the file is
/// to be deleted, whether it is a directory, and two zero bytes.
pub proof fn standard_information_lies_in_place(info: FileInfo, delete_pending: bool, links: u32)
    ensures
        layout::number(info_class::standard_information(info, delete_pending, links), 0, 8)
            == info.allocation_size,
        layout::number(info_class::standard_information(info, delete_pending, links), 8, 8)
            == info.end_of_file,
        layout::number(info_class::standard_information(info, delete_pending, links), 16, 4)
            == links,
        layout::number(info_class::standard_information(info, delete_pending, links), 22, 2) == 0,
        info_class::standard_information(info, delete_pending, links).len() == 24,
        info_class::standard_information(info, delete_pending, links)[20]
            == if delete_pending { 1u8 } else { 0u8 },
        info_class::standard_information(info, delete_pending, links)[21]
            == if info.is_directory { 1u8 } else { 0u8 },
{
    let b = info_class::standard_information(info, delete_pending, links);
    assert(layout::number(b, 0, 8) == info.allocation_size) by {
        assert(b.subrange(0, 8) =~= wire::bytes64(info.allocation_size));
        wire::le64_of_bytes64(b, 0, info.allocation_size);
        layout::numbers_are_little_endian(b);
    }
    assert(layout::number(b, 8, 8) == info.end_of_file) by {
        assert(b.subrange(8, 16) =~= wire::bytes64(info.end_of_file));
        wire::le64_of_bytes64(b, 8, info.end_of_file);
        layout::numbers_are_little_endian(b);
    }
    assert(layout::number(b, 16, 4) == links) by {
        assert(b.subrange(16, 20) =~= wire::bytes32(links));
        wire::le32_of_bytes32(b, 16, links);
        layout::numbers_are_little_endian(b);
    }
    assert(layout::number(b, 22, 2) == 0) by {
        assert(b.subrange(22, 24) =~= wire::bytes16(0u16));
        wire::le16_of_bytes16(b, 22, 0u16);
        layout::numbers_are_little_endian(b);
    }
}

/// Network-open information has 56 bytes: the four times, allocation size, end of file, the
/// attributes and four zero bytes. It starts as basic information does.
pub proof fn network_open_information_lies_in_place(info: FileInfo)
    ensures
        layout::number(info_class::network_open_information(info), 0, 8) == info.creation_time,
        layout::number(info_class::network_open_information(info), 8, 8) == info.last_access_time,
        layout::number(info_class::network_open_information(info), 16, 8) == info.last_write_time,
        layout::number(info_class::network_open_information(info), 24, 8) == info.change_time,
        layout::number(info_class::network_open_information(info), 32, 8) == info.allocation_size,
        layout::number(info_class::network_open_information(info), 40, 8) == info.end_of_file,
        layout::number(info_class::network_open_information(info), 48, 4) == info.file_attributes,
        layout::number(info_class::network_open_information(info), 52, 4) == 0,
        info_class::network_open_information(info).len() == 56,
        info_class::network_open_information(info).subrange(0, 32)
            == info_class::basic_information(info).subrange(0, 32),
{
    let b = info_class::network_open_information(info);
    assert(layout::number(b, 0, 8) == info.creation_time) by {
        assert(b.subrange(0, 8) =~= wire::bytes64(info.creation_time));
        wire::le64_of_bytes64(b, 0, info.creation_time);
        layout::numbers_are_little_endian(b);
    }
    assert(layout::number(b, 8, 8) == info.last_access_time) by {
        assert(b.subrange(8, 16) =~= wire::bytes64(info.last_access_time));
        wire::le64_of_bytes64(b, 8, info.last_access_time);
        layout::numbers_are_little_endian(b);
    }
    assert(layout::number(b, 16, 8) == info.last_write_time) by {
        assert(b.subrange(16, 24) =~= wire::bytes64(info.last_write_time));
        wire::le64_of_bytes64(b, 16, info.last_write_time);
        layout::numbers_are_little_endian(b);
    }
    assert(layout::number(b, 24, 8) == info.change_time) by {
        assert(b.subrange(24, 32) =~= wire::bytes64(info.change_time));
        wire::le64_of_bytes64(b, 24, info.change_time);
        layout::numbers_are_little_endian(b);
    }
    assert(layout::number(b, 32, 8) == info.allocation_size) by {
        assert(b.subrange(32, 40) =~= wire::bytes64(info.allocation_size));
        wire::le64_of_bytes64(b, 32, info.allocation_size);
        layout::numbers_are_little_endian(b);
    }
    assert(layout::number(b, 40, 8) == info.end_of_file) by {
        assert(b.subrange(40, 48) =~= wire::bytes64(info.end_of_file));
        wire::le64_of_bytes64(b, 40, info.end_of_file);
        layout::numbers_are_little_endian(b);
    }
    assert(layout::number(b, 48, 4) == info.file_attributes) by {
        assert(b.subrange(48, 52) =~= wire::bytes32(info.file_attributes));
        wire::le32_of_bytes32(b, 48, info.file_attributes);
        layout::numbers_are_little_endian(b);
    }
    assert(layout::number(b, 52, 4) == 0) by {
        assert(b.subrange(52, 56) =~= wire::bytes32(0u32));
        wire::le32_of_bytes32(b, 52, 0u32);
        layout::numbers_are_little_endian(b);
    }
}

/// What most entries of a listing start with has 64 bytes: no next entry, the index, the four
/// times, end of file, allocation size, attributes and the length of the name. The times are
/// those that basic information starts with.
#[verifier::rlimit(60)]
pub proof fn entry_prefix_lies_in_place(info: FileInfo, index: u32, name_len: int)
    requires
        0 <= name_len <= u32::MAX,
    ensures
        layout::number(directory::entry_prefix(info, index, name_len), 0, 4) == 0,
        layout::number(directory::entry_prefix(info, index, name_len), 4, 4) == index,
        layout::number(directory::entry_prefix(info, index, name_len), 8, 8) == info.creation_time,
        layout::number(directory::entry_prefix(info, index, name_len), 16, 8)
            == info.last_access_time,
        layout::number(directory::entry_prefix(info, index, name_len), 24, 8)
            == info.last_write_time,
        layout::number(directory::entry_prefix(info, index, name_len), 32, 8) == info.change_time,
        layout::number(directory::entry_prefix(info, index, name_len), 40, 8) == info.end_of_file,
        layout::number(directory::entry_prefix(info, index, name_len), 48, 8)
            == info.allocation_size,
        layout::number(directory::entry_prefix(info, index, name_len), 56, 4)
            == info.file_attributes,
        layout::number(directory::entry_prefix(info, index, name_len), 60, 4) == name_len as u32,
        directory::entry_prefix(info, index, name_len).len() == 64,
        directory::entry_prefix(info, index, name_len).subrange(8, 40)
            == info_class::basic_information(info).subrange(0, 32),
{
    let b = directory::entry_prefix(info, index, name_len);
    reveal(directory::entry_prefix);
    assert(layout::number(b, 0, 4) == 0) by {
        assert(b.subrange(0, 4) =~= wire::bytes32(0u32));
        wire::le32_of_bytes32(b, 0, 0u32);
        layout::numbers_are_little_endian(b);
    }
    assert(layout::number(b, 4, 4) == index) by {
        assert(b.subrange(4, 8) =~= wire::bytes32(index));
        wire::le32_of_bytes32(b, 4, index);
        layout::numbers_are_little_endian(b);
    }
    assert(layout::number(b, 8, 8) == info.creation_time) by {
        assert(b.subrange(8, 16) =~= wire::bytes64(info.creation_time));
        wire::le64_of_bytes64(b, 8, info.creation_time);
        layout::numbers_are_little_endian(b);
    }
    assert(layout::number(b, 16, 8) == info.last_access_time) by {
        assert(b.subrange(16, 24) =~= wire::bytes64(info.last_access_time));
        wire::le64_of_bytes64(b, 16, info.last_access_time);
        layout::numbers_are_little_endian(b);
    }
    assert(layout::number(b, 24, 8) == info.last_write_time) by {
        assert(b.subrange(24, 32) =~= wire::bytes64(info.last_write_time));
        wire::le64_of_bytes64(b, 24, info.last_write_time);
        layout::numbers_are_little_endian(b);
    }
    assert(layout::number(b, 32, 8) == info.change_time) by {
        assert(b.subrange(32, 40) =~= wire::bytes64(info.change_time));
        wire::le64_of_bytes64(b, 32, info.change_time);
        layout::numbers_are_little_endian(b);
    }
    assert(layout::number(b, 40, 8) == info.end_of_file) by {
        assert(b.subrange(40, 48) =~= wire::bytes64(info.end_of_file));
        wire::le64_of_bytes64(b, 40, info.end_of_file);
        layout::numbers_are_little_endian(b);
    }
    assert(layout::number(b, 48, 8) == info.allocation_size) by {
        assert(b.subrange(48, 56) =~= wire::bytes64(info.allocation_size));
        wire::le64_of_bytes64(b, 48, info.allocation_size);
        layout::numbers_are_little_endian(b);
    }
    assert(layout::number(b, 56, 4) == info.file_attributes) by {
        assert(b.subrange(56, 60) =~= wire::bytes32(info.file_attributes));
        wire::le32_of_bytes32(b, 56, info.file_attributes);
        layout::numbers_are_little_endian(b);
    }
    assert(layout::number(b, 60, 4) == name_len as u32) by {
        assert(b.subrange(60, 64) =~= wire::bytes32(name_len as u32));
        wire::le32_of_bytes32(b, 60, name_len as u32);
        layout::numbers_are_little_endian(b);
    }
}

/// All information of a file is its basic information, its standard information, its index,
/// no extended attributes, the access, the position, the mode, no alignment, and the name.
#[verifier::rlimit(60)]
pub proof fn all_information_lies_in_place(
    info: FileInfo,
    file_index: u64,
    access_mask: u32,
    current_offset: u64,
    mode: u32,
    delete_pending: bool,
    links: u32,
)
    requires
        text::utf16le(info.name@).len() <= u32::MAX,
    ensures
        layout::number(info_class::all_information(info, file_index, access_mask, current_offset,
            mode, delete_pending, links), 64, 8) == file_index,
        layout::number(info_class::all_information(info, file_index, access_mask, current_offset,
            mode, delete_pending, links), 72, 4) == 0,
        layout::number(info_class::all_information(info, file_index, access_mask, current_offset,
            mode, delete_pending, links), 76, 4) == access_mask,
        layout::number(info_class::all_information(info, file_index, access_mask, current_offset,
            mode, delete_pending, links), 80, 8) == current_offset,
        layout::number(info_class::all_information(info, file_index, access_mask, current_offset,
            mode, delete_pending, links), 88, 4) == mode,
        layout::number(info_class::all_information(info, file_index, access_mask, current_offset,
            mode, delete_pending, links), 92, 4) == 0,
        layout::number(info_class::all_information(info, file_index, access_mask, current_offset,
            mode, delete_pending, links), 96, 4) == text::utf16le(info.name@).len() as u32,
        info_class::all_information(info, file_index, access_mask, current_offset, mode,
            delete_pending, links).len() >= 101,
        info_class::all_information(info, file_index, access_mask, current_offset, mode,
            delete_pending, links).subrange(0, 40) == info_class::basic_information(info),
        info_class::all_information(info, file_index, access_mask, current_offset, mode,
            delete_pending, links).subrange(40, 64)
            == info_class::standard_information(info, delete_pending, links),
        info_class::all_information(info, file_index, access_mask, current_offset, mode,
            delete_pending, links).subrange(100, 100int + text::utf16le(info.name@).len())
            == text::utf16le(info.name@),
{
    let b = info_class::all_information(info, file_index, access_mask, current_offset, mode,
        delete_pending, links);
    assert(layout::number(b, 64, 8) == file_index) by {
        assert(b.subrange(64, 72) =~= wire::bytes64(file_index));
        wire::le64_of_bytes64(b, 64, file_index);
        layout::numbers_are_little_endian(b);
    }
    assert(layout::number(b, 72, 4) == 0) by {
        assert(b.subrange(72, 76) =~= wire::bytes32(0u32));
        wire::le32_of_bytes32(b, 72, 0u32);
        layout::numbers_are_little_endian(b);
    }
    assert(layout::number(b, 76, 4) == access_mask) by {
        assert(b.subrange(76, 80) =~= wire::bytes32(access_mask));
        wire::le32_of_bytes32(b, 76, access_mask);
        layout::numbers_are_little_endian(b);
    }
    assert(layout::number(b, 80, 8) == current_offset) by {
        assert(b.subrange(80, 88) =~= wire::bytes64(current_offset));
        wire::le64_of_bytes64(b, 80, current_offset);
        layout::numbers_are_little_endian(b);
    }
    assert(layout::number(b, 88, 4) == mode) by {
        assert(b.subrange(88, 92) =~= wire::bytes32(mode));
        wire::le32_of_bytes32(b, 88, mode);
        layout::numbers_are_little_endian(b);
    }
    assert(layout::number(b, 92, 4) == 0) by {
        assert(b.subrange(92, 96) =~= wire::bytes32(0u32));
        wire::le32_of_bytes32(b, 92, 0u32);
        layout::numbers_are_little_endian(b);
    }
    assert(layout::number(b, 96, 4) == text::utf16le(info.name@).len() as u32) by {
        assert(b.subrange(96, 100) =~= wire::bytes32(text::utf16le(info.name@).len() as u32));
        wire::le32_of_bytes32(b, 96, text::utf16le(info.name@).len() as u32);
        layout::numbers_are_little_endian(b);
    }
}

/// A stream record has the distance to the next one, the length of the name, size and
/// allocation, then the name, and is padded with zeros to a multiple of eight.
pub proof fn stream_record_lies_in_place(s: StreamModel, next: u32)
    requires
        text::utf16le(s.name).len() <= u32::MAX,
    ensures
        layout::number(info_class::stream_record(s, next), 0, 4) == next,
        layout::number(info_class::stream_record(s, next), 4, 4)
            == text::utf16le(s.name).len() as u32,
        layout::number(info_class::stream_record(s, next), 8, 8) == s.size,
        layout::number(info_class::stream_record(s, next), 16, 8) == s.allocation,
        info_class::stream_record(s, next).subrange(24, 24int + text::utf16le(s.name).len())
            == text::utf16le(s.name),
        info_class::stream_record(s, next).len() % 8 == 0,
        24int + text::utf16le(s.name).len() <= info_class::stream_record(s, next).len() < 32int
            + text::utf16le(s.name).len(),
        forall|i: int| 24int
            + text::utf16le(s.name).len() <= i < info_class::stream_record(s, next).len()
            ==> #[trigger] info_class::stream_record(s, next)[i] == 0,
{
    let b = info_class::stream_record(s, next);
    reveal(info_class::stream_record);
    assert(layout::number(b, 0, 4) == next) by {
        assert(b.subrange(0, 4) =~= wire::bytes32(next));
        wire::le32_of_bytes32(b, 0, next);
        layout::numbers_are_little_endian(b);
    }
    assert(layout::number(b, 4, 4) == text::utf16le(s.name).len() as u32) by {
        assert(b.subrange(4, 8) =~= wire::bytes32(text::utf16le(s.name).len() as u32));
        wire::le32_of_bytes32(b, 4, text::utf16le(s.name).len() as u32);
        layout::numbers_are_little_endian(b);
    }
    assert(layout::number(b, 8, 8) == s.size) by {
        assert(b.subrange(8, 16) =~= wire::bytes64(s.size));
        wire::le64_of_bytes64(b, 8, s.size);
        layout::numbers_are_little_endian(b);
    }
    assert(layout::number(b, 16, 8) == s.allocation) by {
        assert(b.subrange(16, 24) =~= wire::bytes64(s.allocation));
        wire::le64_of_bytes64(b, 16, s.allocation);
        layout::numbers_are_little_endian(b);
    }
}

/// POSIX data of a file has 68 bytes: links, no reparse tag, the twelve permission bits, and the
/// security ids of user and group, which end in 88, then 1 or 2, then the number.
#[verifier::rlimit(60)]
pub proof fn posix_context_lies_in_place(p: PosixMetadata, links: u32)
    ensures
        layout::number(info_class::posix_context(p, links), 0, 4) == links,
        layout::number(info_class::posix_context(p, links), 4, 4) == 0,
        layout::number(info_class::posix_context(p, links), 8, 4) == p.mode & 0xfff,
        layout::number(info_class::posix_context(p, links), 20, 4) == 88,
        layout::number(info_class::posix_context(p, links), 24, 4) == 1,
        layout::number(info_class::posix_context(p, links), 28, 4) == p.uid,
        layout::number(info_class::posix_context(p, links), 48, 4) == 88,
        layout::number(info_class::posix_context(p, links), 52, 4) == 2,
        layout::number(info_class::posix_context(p, links), 56, 4) == p.gid,
        info_class::posix_context(p, links).len() == 68,
        info_class::posix_context(p, links).subrange(12, 20) == seq![1u8, 3, 0, 0, 0, 0, 0, 5],
        info_class::posix_context(p, links).subrange(40, 48) == seq![1u8, 3, 0, 0, 0, 0, 0, 5],
{
    let b = info_class::posix_context(p, links);
    assert(layout::number(b, 0, 4) == links) by {
        assert(b.subrange(0, 4) =~= wire::bytes32(links));
        wire::le32_of_bytes32(b, 0, links);
        layout::numbers_are_little_endian(b);
    }
    assert(layout::number(b, 4, 4) == 0) by {
        assert(b.subrange(4, 8) =~= wire::bytes32(0u32));
        wire::le32_of_bytes32(b, 4, 0u32);
        layout::numbers_are_little_endian(b);
    }
    assert(layout::number(b, 8, 4) == p.mode & 0xfff) by {
        assert(b.subrange(8, 12) =~= wire::bytes32(p.mode & 0xfff));
        wire::le32_of_bytes32(b, 8, p.mode & 0xfff);
        layout::numbers_are_little_endian(b);
    }
    assert(layout::number(b, 20, 4) == 88) by {
        assert(b.subrange(20, 24) =~= wire::bytes32(88u32));
        wire::le32_of_bytes32(b, 20, 88u32);
        layout::numbers_are_little_endian(b);
    }
    assert(layout::number(b, 24, 4) == 1) by {
        assert(b.subrange(24, 28) =~= wire::bytes32(1u32));
        wire::le32_of_bytes32(b, 24, 1u32);
        layout::numbers_are_little_endian(b);
    }
    assert(layout::number(b, 28, 4) == p.uid) by {
        assert(b.subrange(28, 32) =~= wire::bytes32(p.uid));
        wire::le32_of_bytes32(b, 28, p.uid);
        layout::numbers_are_little_endian(b);
    }
    assert(layout::number(b, 48, 4) == 88) by {
        assert(b.subrange(48, 52) =~= wire::bytes32(88u32));
        wire::le32_of_bytes32(b, 48, 88u32);
        layout::numbers_are_little_endian(b);
    }
    assert(layout::number(b, 52, 4) == 2) by {
        assert(b.subrange(52, 56) =~= wire::bytes32(2u32));
        wire::le32_of_bytes32(b, 52, 2u32);
        layout::numbers_are_little_endian(b);
    }
    assert(layout::number(b, 56, 4) == p.gid) by {
        assert(b.subrange(56, 60) =~= wire::bytes32(p.gid));
        wire::le32_of_bytes32(b, 56, p.gid);
        layout::numbers_are_little_endian(b);
    }
}

/// POSIX information of a file has 136 bytes: the times, allocation size, end of file, the
/// attributes, the file id, eight zero bytes and the POSIX data. What was never set is mode
/// 0755 for a directory, 0644 for a file, and owner and group 0.
#[verifier::rlimit(60)]
pub proof fn posix_information_lies_in_place(
    info: FileInfo,
    file_id: u64,
    posix: Option<PosixMetadata>,
    links: u32,
)
    ensures
        layout::number(info_class::posix_information(info, file_id, posix, links), 0, 8)
            == info.creation_time,
        layout::number(info_class::posix_information(info, file_id, posix, links), 8, 8)
            == info.last_access_time,
        layout::number(info_class::posix_information(info, file_id, posix, links), 16, 8)
            == info.last_write_time,
        layout::number(info_class::posix_information(info, file_id, posix, links), 24, 8)
            == info.change_time,
        layout::number(info_class::posix_information(info, file_id, posix, links), 32, 8)
            == info.allocation_size,
        layout::number(info_class::posix_information(info, file_id, posix, links), 40, 8)
            == info.end_of_file,
        layout::number(info_class::posix_information(info, file_id, posix, links), 48, 4)
            == info.file_attributes,
        layout::number(info_class::posix_information(info, file_id, posix, links), 52, 8)
            == file_id,
        info_class::posix_information(info, file_id, posix, links).len() == 136,
        info_class::posix_information(info, file_id, posix, links).subrange(0, 32)
            == info_class::basic_information(info).subrange(0, 32),
        info_class::posix_information(info, file_id, posix, links).subrange(68, 136)
            == info_class::posix_context(match posix {
            Some(p) => p,
            None => PosixMetadata {
                mode: if info.is_directory { 0x1ed } else { 0x1a4 },
                uid: 0,
                gid: 0,
            },
        }, links),
{
    let b = info_class::posix_information(info, file_id, posix, links);
    assert(layout::number(b, 0, 8) == info.creation_time) by {
        assert(b.subrange(0, 8) =~= wire::bytes64(info.creation_time));
        wire::le64_of_bytes64(b, 0, info.creation_time);
        layout::numbers_are_little_endian(b);
    }
    assert(layout::number(b, 8, 8) == info.last_access_time) by {
        assert(b.subrange(8, 16) =~= wire::bytes64(info.last_access_time));
        wire::le64_of_bytes64(b, 8, info.last_access_time);
        layout::numbers_are_little_endian(b);
    }
    assert(layout::number(b, 16, 8) == info.last_write_time) by {
        assert(b.subrange(16, 24) =~= wire::bytes64(info.last_write_time));
        wire::le64_of_bytes64(b, 16, info.last_write_time);
        layout::numbers_are_little_endian(b);
    }
    assert(layout::number(b, 24, 8) == info.change_time) by {
        assert(b.subrange(24, 32) =~= wire::bytes64(info.change_time));
        wire::le64_of_bytes64(b, 24, info.change_time);
        layout::numbers_are_little_endian(b);
    }
    assert(layout::number(b, 32, 8) == info.allocation_size) by {
        assert(b.subrange(32, 40) =~= wire::bytes64(info.allocation_size));
        wire::le64_of_bytes64(b, 32, info.allocation_size);
        layout::numbers_are_little_endian(b);
    }
    assert(layout::number(b, 40, 8) == info.end_of_file) by {
        assert(b.subrange(40, 48) =~= wire::bytes64(info.end_of_file));
        wire::le64_of_bytes64(b, 40, info.end_of_file);
        layout::numbers_are_little_endian(b);
    }
    assert(layout::number(b, 48, 4) == info.file_attributes) by {
        assert(b.subrange(48, 52) =~= wire::bytes32(info.file_attributes));
        wire::le32_of_bytes32(b, 48, info.file_attributes);
        layout::numbers_are_little_endian(b);
    }
    assert(layout::number(b, 52, 8) == file_id) by {
        assert(b.subrange(52, 60) =~= wire::bytes64(file_id));
        wire::le64_of_bytes64(b, 52, file_id);
        layout::numbers_are_little_endian(b);
    }
}

/// Remote-protocol information has 180 bytes: structure version 1, its size, the number of SMB
/// and the version of the dialect.
pub proof fn remote_protocol_information_lies_in_place(dialect: Option<Dialect>)
    ensures
        layout::number(info_class::remote_protocol_information(dialect), 0, 2) == 1,
        layout::number(info_class::remote_protocol_information(dialect), 2, 2) == 180,
        layout::number(info_class::remote_protocol_information(dialect), 4, 4) == 0x0002_0000,
        layout::number(info_class::remote_protocol_information(dialect), 8, 2)
            == info_class::protocol_version(dialect).0,
        layout::number(info_class::remote_protocol_information(dialect), 10, 2)
            == info_class::protocol_version(dialect).1,
        layout::number(info_class::remote_protocol_information(dialect), 12, 2)
            == info_class::protocol_version(dialect).2,
        info_class::remote_protocol_information(dialect).len() == 180,
        dialect is Some && dialect->0 != Dialect::Smb2Wildcard
            ==> info_class::protocol_version(dialect).0 * 256
            + info_class::protocol_version(dialect).1 * 16
            + info_class::protocol_version(dialect).2 == dialect->0.code(),
{
    let b = info_class::remote_protocol_information(dialect);
    assert(layout::number(b, 0, 2) == 1) by {
        assert(b.subrange(0, 2) =~= wire::bytes16(1u16));
        wire::le16_of_bytes16(b, 0, 1u16);
        layout::numbers_are_little_endian(b);
    }
    assert(layout::number(b, 2, 2) == 180) by {
        assert(b.subrange(2, 4) =~= wire::bytes16(180u16));
        wire::le16_of_bytes16(b, 2, 180u16);
        layout::numbers_are_little_endian(b);
    }
    assert(layout::number(b, 4, 4) == 0x0002_0000) by {
        assert(b.subrange(4, 8) =~= wire::bytes32(0x0002_0000u32));
        wire::le32_of_bytes32(b, 4, 0x0002_0000u32);
        layout::numbers_are_little_endian(b);
    }
    assert(layout::number(b, 8, 2) == info_class::protocol_version(dialect).0) by {
        assert(b.subrange(8, 10) =~= wire::bytes16(info_class::protocol_version(dialect).0));
        wire::le16_of_bytes16(b, 8, info_class::protocol_version(dialect).0);
        layout::numbers_are_little_endian(b);
    }
    assert(layout::number(b, 10, 2) == info_class::protocol_version(dialect).1) by {
        assert(b.subrange(10, 12) =~= wire::bytes16(info_class::protocol_version(dialect).1));
        wire::le16_of_bytes16(b, 10, info_class::protocol_version(dialect).1);
        layout::numbers_are_little_endian(b);
    }
    assert(layout::number(b, 12, 2) == info_class::protocol_version(dialect).2) by {
        assert(b.subrange(12, 14) =~= wire::bytes16(info_class::protocol_version(dialect).2));
        wire::le16_of_bytes16(b, 12, info_class::protocol_version(dialect).2);
        layout::numbers_are_little_endian(b);
    }
}

/// Where the name of an entry stands, by class; `None` for the classes without the common
/// start.
pub open spec fn name_place(class: u8) -> Option<int> {
    if class == 0x01 {
        Some(64)
    } else if class == 0x02 {
        Some(68)
    } else if class == 0x03 {
        Some(94)
    } else if class == 0x25 {
        Some(104)
    } else if class == 0x26 || class == 0x4e {
        Some(80)
    } else if class == 0x3c {
        Some(88)
    } else if class == 0x4f {
        Some(106)
    } else if class == 0x50 {
        Some(96)
    } else if class == 0x51 {
        Some(122)
    } else {
        None
    }
}

/// Where the short name of an entry stands, by class.
pub open spec fn short_name_place(class: u8) -> Option<int> {
    if class == 0x03 || class == 0x25 {
        Some(68)
    } else if class == 0x4f {
        Some(80)
    } else if class == 0x51 {
        Some(96)
    } else {
        None
    }
}

proof fn lemma_short_name_len(name: Seq<char>)
    ensures
        directory::short_name_fields(name).len() == 26,
{
    reveal(directory::short_name_fields);
}

/// An entry of every class with the common start has, in this order, no next entry, the
/// index, the four times, end of file, allocation size, attributes, the length of the name,
/// and the name at the end. Its times are the first 32 bytes of the basic information of the
/// same file.
#[verifier::rlimit(80)]
pub proof fn entries_start_alike(
    class: u8,
    info: FileInfo,
    index: u32,
    file_id: u64,
    posix: Option<PosixMetadata>,
)
    requires
        name_place(class) is Some,
        text::utf16le(info.name@).len() <= u32::MAX,
    ensures
        ({
            let e = directory::dir_entry(class, info, index, file_id, posix);
            let name = text::utf16le(info.name@);
            let at = name_place(class)->0;
            &&& e.len() == at + name.len()
            &&& layout::number(e, 0, 4) == 0
            &&& layout::number(e, 4, 4) == index
            &&& layout::number(e, 8, 8) == info.creation_time
            &&& layout::number(e, 16, 8) == info.last_access_time
            &&& layout::number(e, 24, 8) == info.last_write_time
            &&& layout::number(e, 32, 8) == info.change_time
            &&& layout::number(e, 40, 8) == info.end_of_file
            &&& layout::number(e, 48, 8) == info.allocation_size
            &&& layout::number(e, 56, 4) == info.file_attributes
            &&& layout::number(e, 60, 4) == name.len()
            &&& e.subrange(8, 40) == info_class::basic_information(info).subrange(0, 32)
            &&& e.subrange(at, at + name.len()) == name
        }),
{
    let e = directory::dir_entry(class, info, index, file_id, posix);
    let name = text::utf16le(info.name@);
    let p = directory::entry_prefix(info, index, name.len() as int);
    entry_prefix_lies_in_place(info, index, name.len() as int);
    lemma_short_name_len(info.name@);
    let fields = directory::entry_fields(class, info.name@, file_id)->0;
    assert(fields.len() == name_place(class)->0 - 64);
    assert(e == p + fields + name);
    assert(e.subrange(0, 64) =~= p);
    lemma_number_within(e, p);
    assert(e.subrange(8, 40) =~= p.subrange(8, 40));
}

proof fn lemma_number_within(e: Seq<u8>, p: Seq<u8>)
    requires
        p.len() == 64,
        e.len() >= 64,
        e.subrange(0, 64) == p,
    ensures
        forall|at: int, n: int|
            0 <= at && 0 <= n && at + n <= 64 ==> #[trigger] layout::number(e, at, n)
                == layout::number(p, at, n),
{
    assert forall|at: int, n: int| 0 <= at && 0 <= n && at + n <= 64 implies
        #[trigger] layout::number(e, at, n) == layout::number(p, at, n) by {
        lemma_number_same(e, p, at, n);
    }
}

proof fn lemma_number_same(e: Seq<u8>, p: Seq<u8>, at: int, n: int)
    requires
        p.len() == 64,
        e.len() >= 64,
        e.subrange(0, 64) == p,
        0 <= at,
        0 <= n,
        at + n <= 64,
    ensures
        layout::number(e, at, n) == layout::number(p, at, n),
    decreases n,
{
    reveal(layout::number);
    if n > 0 {
        lemma_number_same(e, p, at + 1, n - 1);
        assert(e.subrange(0, 64)[at] == e[at]);
    }
}

/// Entries with a file id have it at a place of their class, those of the two widest classes
/// twice; entries with a short name have its 26 bytes at a place of their class.
#[verifier::rlimit(80)]
pub proof fn entries_have_file_id_and_short_name_in_place(
    class: u8,
    info: FileInfo,
    index: u32,
    file_id: u64,
    posix: Option<PosixMetadata>,
)
    requires
        name_place(class) is Some,
    ensures
        ({
            let e = directory::dir_entry(class, info, index, file_id, posix);
            &&& class == 0x25 ==> e.subrange(96, 104) == wire::bytes64(file_id)
            &&& class == 0x26 || class == 0x3c || class == 0x4e || class == 0x4f || class == 0x50
                || class == 0x51 ==> e.subrange(72, 80) == wire::bytes64(file_id)
            &&& class == 0x50 || class == 0x51 ==> e.subrange(80, 88) == wire::bytes64(file_id)
            &&& short_name_place(class) matches Some(at) ==> e.subrange(at, at + 26)
                == directory::short_name_fields(info.name@)
        }),
{
    let e = directory::dir_entry(class, info, index, file_id, posix);
    let name = text::utf16le(info.name@);
    let p = directory::entry_prefix(info, index, name.len() as int);
    assert(p.len() == 64) by {
        reveal(directory::entry_prefix);
    }
    lemma_short_name_len(info.name@);
    let fields = directory::entry_fields(class, info.name@, file_id)->0;
    assert(e == p + fields + name);
    if class == 0x25 {
        assert(e.subrange(96, 104) =~= wire::bytes64(file_id));
        assert(e.subrange(68, 94) =~= directory::short_name_fields(info.name@));
    } else if class == 0x03 {
        assert(e.subrange(68, 94) =~= directory::short_name_fields(info.name@));
    } else if class == 0x26 || class == 0x4e || class == 0x3c {
        assert(e.subrange(72, 80) =~= wire::bytes64(file_id));
    } else if class == 0x4f {
        assert(e.subrange(72, 80) =~= wire::bytes64(file_id));
        assert(e.subrange(80, 106) =~= directory::short_name_fields(info.name@));
    } else if class == 0x50 {
        assert(e.subrange(72, 80) =~= wire::bytes64(file_id));
        assert(e.subrange(80, 88) =~= wire::bytes64(file_id));
    } else if class == 0x51 {
        assert(e.subrange(72, 80) =~= wire::bytes64(file_id));
        assert(e.subrange(80, 88) =~= wire::bytes64(file_id));
        assert(e.subrange(96, 122) =~= directory::short_name_fields(info.name@));
    }
}

/// An entry of the class of names is the index and the name; classes that are none of listings
/// have no entries.
pub proof fn other_entries_lie_in_place(
    class: u8,
    info: FileInfo,
    index: u32,
    file_id: u64,
    posix: Option<PosixMetadata>,
)
    requires
        name_place(class) is None,
        text::utf16le(info.name@).len() <= u32::MAX,
    ensures
        ({
            let e = directory::dir_entry(class, info, index, file_id, posix);
            let name = text::utf16le(info.name@);
            &&& class == 0x0c ==> e == wire::bytes32(0) + wire::bytes32(index) + wire::bytes32(
                name.len() as u32,
            ) + name
            &&& class == 0x64 ==> e.len() == 148 + name.len() && e.subrange(8, 144)
                == info_class::posix_information(info, file_id, posix, 1) && e.subrange(4, 8)
                == wire::bytes32(index) && e.subrange(144, 148) == wire::bytes32(name.len() as u32)
                && e.subrange(148, 148int + name.len()) == name
            &&& class != 0x0c && class != 0x64 ==> e.len() == 0
        }),
{
    let e = directory::dir_entry(class, info, index, file_id, posix);
    let name = text::utf16le(info.name@);
    let q = info_class::posix_information(info, file_id, posix, 1);
    if class == 0x64 {
        assert(q.len() == 136);
        assert(e.subrange(8, 144) =~= q);
        assert(e.subrange(4, 8) =~= wire::bytes32(index));
        assert(e.subrange(144, 148) =~= wire::bytes32(name.len() as u32));
        assert(e.subrange(148, 148int + name.len()) =~= name);
    }
}

} // verus!
