//! Entries of directory listings.

use crate::backend::{DirEntry, FileInfo};
use crate::info_class;
use crate::info_class::encode_file_posix_information;
use crate::info_class::short_name;
use crate::info_class::short_name::make_short_name;
use crate::info_class::{
    PosixMetadata, FILE_BOTH_DIRECTORY_INFORMATION, FILE_DIRECTORY_INFORMATION,
    FILE_FULL_DIRECTORY_INFORMATION, FILE_ID_64_EXTD_BOTH_DIRECTORY_INFORMATION,
    FILE_ID_64_EXTD_DIRECTORY_INFORMATION, FILE_ID_ALL_EXTD_BOTH_DIRECTORY_INFORMATION,
    FILE_ID_ALL_EXTD_DIRECTORY_INFORMATION, FILE_ID_BOTH_DIRECTORY_INFORMATION,
    FILE_ID_EXTD_DIRECTORY_INFORMATION, FILE_ID_FULL_DIRECTORY_INFORMATION, FILE_NAMES_INFORMATION,
    FILE_POSIX_INFORMATION,
};
use crate::text;
use crate::text::{encode_utf16le, str_equal};
use crate::wire;
use vstd::prelude::*;

verus! {

/// What most entries start with: no next entry, the index in the directory, times,
/// sizes, attributes and the length of the name.
#[verifier::opaque]
pub open spec fn entry_prefix(info: FileInfo, index: u32, name_len: int) -> Seq<u8> {
    wire::bytes32(0) + wire::bytes32(index) + info_class::times_bytes(info) + wire::bytes64(
        info.end_of_file,
    ) + wire::bytes64(info.allocation_size) + wire::bytes32(info.file_attributes) + wire::bytes32(
        name_len as u32,
    )
}

/// The least of a length and 24.
pub open spec fn short_len(n: int) -> int {
    if n < 24 {
        n
    } else {
        24
    }
}

/// The short name of an entry: its length, a reserved byte and 24 bytes of text. The two
/// dot names have none.
#[verifier::opaque]
pub open spec fn short_name_fields(name: Seq<char>) -> Seq<u8> {
    if name == seq!['.'] || name == seq!['.', '.'] {
        wire::zeros(26)
    } else {
        let short = text::utf16le(short_name::short_name(name));
        let len = short_len(short.len() as int);
        seq![len as u8, 0] + short.take(len) + wire::zeros(24 - len)
    }
}

/// The fields between the prefix and the name of an entry, by class; `None` where the
/// class has another layout.
pub open spec fn entry_fields(class: u8, name: Seq<char>, file_id: u64) -> Option<Seq<u8>> {
    let id = wire::bytes64(file_id);
    if class == FILE_DIRECTORY_INFORMATION {
        Some(Seq::empty())
    } else if class == FILE_FULL_DIRECTORY_INFORMATION {
        Some(wire::zeros(4))
    } else if class == FILE_BOTH_DIRECTORY_INFORMATION {
        Some(wire::zeros(4) + short_name_fields(name))
    } else if class == FILE_ID_BOTH_DIRECTORY_INFORMATION {
        Some(wire::zeros(4) + short_name_fields(name) + wire::zeros(2) + id)
    } else if class == FILE_ID_FULL_DIRECTORY_INFORMATION || class
        == FILE_ID_64_EXTD_DIRECTORY_INFORMATION {
        Some(wire::zeros(8) + id)
    } else if class == FILE_ID_EXTD_DIRECTORY_INFORMATION {
        Some(wire::zeros(8) + id + wire::zeros(8))
    } else if class == FILE_ID_64_EXTD_BOTH_DIRECTORY_INFORMATION {
        Some(wire::zeros(8) + id + short_name_fields(name))
    } else if class == FILE_ID_ALL_EXTD_DIRECTORY_INFORMATION {
        Some(wire::zeros(8) + id + id + wire::zeros(8))
    } else if class == FILE_ID_ALL_EXTD_BOTH_DIRECTORY_INFORMATION {
        Some(wire::zeros(8) + id + id + wire::zeros(8) + short_name_fields(name))
    } else {
        None
    }
}

/// An entry of a directory listing; nothing for a class that has no entries.
pub open spec fn dir_entry(
    class: u8,
    info: FileInfo,
    index: u32,
    file_id: u64,
    posix: Option<PosixMetadata>,
) -> Seq<u8> {
    let name = text::utf16le(info.name@);
    match entry_fields(class, info.name@, file_id) {
        Some(fields) => entry_prefix(info, index, name.len() as int) + fields + name,
        None => if class == FILE_NAMES_INFORMATION {
            wire::bytes32(0) + wire::bytes32(index) + wire::bytes32(name.len() as u32) + name
        } else if class == FILE_POSIX_INFORMATION {
            wire::bytes32(0) + wire::bytes32(index) + info_class::posix_information(
                info,
                file_id,
                posix,
                1,
            ) + wire::bytes32(name.len() as u32) + name
        } else {
            Seq::empty()
        },
    }
}

fn write_dir_entry_prefix(
    out: &mut Vec<u8>,
    info: &FileInfo,
    directory_index: u32,
    name_len: usize,
)
    ensures
        final(out)@ == old(out)@ + entry_prefix(*info, directory_index, name_len as int),
{
    wire::put_u32(out, 0);
    wire::put_u32(out, directory_index);
    wire::put_u64(out, info.creation_time);
    wire::put_u64(out, info.last_access_time);
    wire::put_u64(out, info.last_write_time);
    wire::put_u64(out, info.change_time);
    wire::put_u64(out, info.end_of_file);
    wire::put_u64(out, info.allocation_size);
    wire::put_u32(out, info.attributes());
    wire::put_u32(out, name_len as u32);
    proof {
        reveal(entry_prefix);
        assert(out@ =~= old(out)@ + entry_prefix(*info, directory_index, name_len as int));
    }
}

fn write_short_name_fields(out: &mut Vec<u8>, name: &str)
    ensures
        final(out)@ == old(out)@ + short_name_fields(name@),
{
    proof {
        reveal(short_name_fields);
        reveal_strlit(".");
        reveal_strlit("..");
        assert("."@ =~= seq!['.']);
        assert(".."@ =~= seq!['.', '.']);
    }
    if str_equal(name, ".") || str_equal(name, "..") {
        wire::put_zeros(out, 26);
        return;
    }
    let short_name: String = make_short_name(name);
    let short: Vec<u8> = encode_utf16le(short_name.as_str());
    let len: usize = if short.len() < 24 {
        short.len()
    } else {
        24
    };
    out.push(len as u8);
    out.push(0);
    wire::put_bytes(out, vstd::slice::slice_subrange(short.as_slice(), 0, len));
    wire::put_zeros(out, 24 - len);
    assert(short@.subrange(0, len as int) =~= short@.take(len as int));
    assert(out@ =~= old(out)@ + short_name_fields(name@));
}

/// Encodes an entry of a directory listing.
pub fn encode_dir_entry_with_index(
    class: u8,
    entry: &DirEntry,
    directory_index: u32,
    file_id: u64,
) -> (r: Vec<u8>)
    ensures
        r@ == dir_entry(class, entry.info, directory_index, file_id, None),
{
    encode_dir_entry_with_index_and_posix(class, entry, directory_index, file_id, None)
}

fn encode_fields(class: u8, name: &str, file_id: u64) -> (r: Option<Vec<u8>>)
    ensures
        match r {
            None => entry_fields(class, name@, file_id) is None,
            Some(v) => entry_fields(class, name@, file_id) == Some(v@),
        },
{
    let mut out: Vec<u8> = Vec::new();
    if class == FILE_DIRECTORY_INFORMATION {
    } else if class == FILE_FULL_DIRECTORY_INFORMATION {
        wire::put_zeros(&mut out, 4);
    } else if class == FILE_BOTH_DIRECTORY_INFORMATION {
        wire::put_zeros(&mut out, 4);
        write_short_name_fields(&mut out, name);
    } else if class == FILE_ID_BOTH_DIRECTORY_INFORMATION {
        wire::put_zeros(&mut out, 4);
        write_short_name_fields(&mut out, name);
        wire::put_zeros(&mut out, 2);
        wire::put_u64(&mut out, file_id);
    } else if class == FILE_ID_FULL_DIRECTORY_INFORMATION || class
        == FILE_ID_64_EXTD_DIRECTORY_INFORMATION {
        wire::put_zeros(&mut out, 8);
        wire::put_u64(&mut out, file_id);
    } else if class == FILE_ID_EXTD_DIRECTORY_INFORMATION {
        wire::put_zeros(&mut out, 8);
        wire::put_u64(&mut out, file_id);
        wire::put_zeros(&mut out, 8);
    } else if class == FILE_ID_64_EXTD_BOTH_DIRECTORY_INFORMATION {
        wire::put_zeros(&mut out, 8);
        wire::put_u64(&mut out, file_id);
        write_short_name_fields(&mut out, name);
    } else if class == FILE_ID_ALL_EXTD_DIRECTORY_INFORMATION {
        wire::put_zeros(&mut out, 8);
        wire::put_u64(&mut out, file_id);
        wire::put_u64(&mut out, file_id);
        wire::put_zeros(&mut out, 8);
    } else if class == FILE_ID_ALL_EXTD_BOTH_DIRECTORY_INFORMATION {
        wire::put_zeros(&mut out, 8);
        wire::put_u64(&mut out, file_id);
        wire::put_u64(&mut out, file_id);
        wire::put_zeros(&mut out, 8);
        write_short_name_fields(&mut out, name);
    } else {
        return None;
    }
    assert(out@ =~= entry_fields(class, name@, file_id)->0);
    Some(out)
}

/// Encodes an entry of a directory listing, with what is known of its POSIX owner.
pub fn encode_dir_entry_with_index_and_posix(
    class: u8,
    entry: &DirEntry,
    directory_index: u32,
    file_id: u64,
    posix: Option<PosixMetadata>,
) -> (r: Vec<u8>)
    ensures
        r@ == dir_entry(class, entry.info, directory_index, file_id, posix),
{
    let info: &FileInfo = &entry.info;
    let name: Vec<u8> = encode_utf16le(info.name.as_str());
    let mut out: Vec<u8> = Vec::new();
    match encode_fields(class, info.name.as_str(), file_id) {
        Some(fields) => {
            write_dir_entry_prefix(&mut out, info, directory_index, name.len());
            wire::put_bytes(&mut out, fields.as_slice());
            wire::put_bytes(&mut out, name.as_slice());
        },
        None => {
            if class == FILE_NAMES_INFORMATION {
                wire::put_u32(&mut out, 0);
                wire::put_u32(&mut out, directory_index);
                wire::put_u32(&mut out, name.len() as u32);
                wire::put_bytes(&mut out, name.as_slice());
            } else if class == FILE_POSIX_INFORMATION {
                wire::put_u32(&mut out, 0);
                wire::put_u32(&mut out, directory_index);
                let posix_info: Vec<u8> = encode_file_posix_information(info, file_id, posix);
                wire::put_bytes(&mut out, posix_info.as_slice());
                wire::put_u32(&mut out, name.len() as u32);
                wire::put_bytes(&mut out, name.as_slice());
            }
        },
    }
    assert(out@ =~= dir_entry(class, *info, directory_index, file_id, posix));
    out
}

} // verus!
