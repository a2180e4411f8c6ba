//! Where the fields of information on volumes, streams and owners lie, counted in bytes.

use crate::backend::FileInfo;
use crate::info_class;
use crate::info_class::{PosixMetadata, StreamModel};
use crate::proto::messages::layout;
use crate::text;
use crate::wire;
use vstd::prelude::*;

verus! {

/// A volume has its time, its serial number, the length of its label, two zero bytes and the label.
pub proof fn volume_information_lies_in_place(creation_time: u64, serial: u32, label: Seq<char>)
    requires
        text::utf16le(label).len() <= u32::MAX,
    ensures
        ({
            let b = info_class::fs_volume_information(creation_time, serial, label);
            &&& layout::number(b, 0, 8) == creation_time
            &&& layout::number(b, 8, 4) == serial
            &&& layout::number(b, 12, 4) == text::utf16le(label).len()
            &&& b[16] == 0 && b[17] == 0
            &&& b.skip(18) == text::utf16le(label)
        }),
{
    let b = info_class::fs_volume_information(creation_time, serial, label);
    let n = text::utf16le(label).len();
    layout::numbers_are_little_endian(b);
    assert(b.len() == 18 + n);
    assert(layout::number(b, 0, 8) == creation_time) by {
        assert(b.subrange(0, 8) =~= wire::bytes64(creation_time));
        wire::le64_of_bytes64(b, 0, creation_time);
    }
    assert(layout::number(b, 8, 4) == serial) by {
        assert(b.subrange(8, 12) =~= wire::bytes32(serial));
        wire::le32_of_bytes32(b, 8, serial);
    }
    assert(layout::number(b, 12, 4) == n) by {
        assert(b.subrange(12, 16) =~= wire::bytes32(n as u32));
        wire::le32_of_bytes32(b, 12, n as u32);
    }
    assert(b.skip(18) =~= text::utf16le(label));
}

/// The size of a volume is told in units, in sectors of a unit and in bytes of a sector.
pub proof fn size_information_lies_in_place(
    total: u64,
    available: u64,
    actual: u64,
    sectors: u32,
    bytes: u32,
)
    ensures
        ({
            let b = info_class::fs_size_information(total, available, sectors, bytes);
            &&& b.len() == 24
            &&& layout::number(b, 0, 8) == total
            &&& layout::number(b, 8, 8) == available
            &&& layout::number(b, 16, 4) == sectors
            &&& layout::number(b, 20, 4) == bytes
        }),
        ({
            let b = info_class::fs_full_size_information(
                total,
                available,
                actual,
                sectors,
                bytes,
            );
            &&& b.len() == 32
            &&& layout::number(b, 0, 8) == total
            &&& layout::number(b, 8, 8) == available
            &&& layout::number(b, 16, 8) == actual
            &&& layout::number(b, 24, 4) == sectors
            &&& layout::number(b, 28, 4) == bytes
        }),
        ({
            let b = info_class::fs_quota_information(total, available);
            &&& b.len() == 48
            &&& layout::number(b, 0, 8) == total
            &&& layout::number(b, 8, 8) == available
            &&& forall|i: int| 16 <= i < 48 ==> #[trigger] b[i] == 0
        }),
{
    let b = info_class::fs_size_information(total, available, sectors, bytes);
    layout::numbers_are_little_endian(b);
    assert(layout::number(b, 0, 8) == total) by {
        assert(b.subrange(0, 8) =~= wire::bytes64(total));
        wire::le64_of_bytes64(b, 0, total);
    }
    assert(layout::number(b, 8, 8) == available) by {
        assert(b.subrange(8, 16) =~= wire::bytes64(available));
        wire::le64_of_bytes64(b, 8, available);
    }
    assert(layout::number(b, 16, 4) == sectors) by {
        assert(b.subrange(16, 20) =~= wire::bytes32(sectors));
        wire::le32_of_bytes32(b, 16, sectors);
    }
    assert(layout::number(b, 20, 4) == bytes) by {
        assert(b.subrange(20, 24) =~= wire::bytes32(bytes));
        wire::le32_of_bytes32(b, 20, bytes);
    }
    let c = info_class::fs_full_size_information(total, available, actual, sectors, bytes);
    layout::numbers_are_little_endian(c);
    assert(layout::number(c, 0, 8) == total) by {
        assert(c.subrange(0, 8) =~= wire::bytes64(total));
        wire::le64_of_bytes64(c, 0, total);
    }
    assert(layout::number(c, 8, 8) == available) by {
        assert(c.subrange(8, 16) =~= wire::bytes64(available));
        wire::le64_of_bytes64(c, 8, available);
    }
    assert(layout::number(c, 16, 8) == actual) by {
        assert(c.subrange(16, 24) =~= wire::bytes64(actual));
        wire::le64_of_bytes64(c, 16, actual);
    }
    assert(layout::number(c, 24, 4) == sectors) by {
        assert(c.subrange(24, 28) =~= wire::bytes32(sectors));
        wire::le32_of_bytes32(c, 24, sectors);
    }
    assert(layout::number(c, 28, 4) == bytes) by {
        assert(c.subrange(28, 32) =~= wire::bytes32(bytes));
        wire::le32_of_bytes32(c, 28, bytes);
    }
    let q = info_class::fs_quota_information(total, available);
    layout::numbers_are_little_endian(q);
    assert(layout::number(q, 0, 8) == total) by {
        assert(q.subrange(0, 8) =~= wire::bytes64(total));
        wire::le64_of_bytes64(q, 0, total);
    }
    assert(layout::number(q, 8, 8) == available) by {
        assert(q.subrange(8, 16) =~= wire::bytes64(available));
        wire::le64_of_bytes64(q, 8, available);
    }
}

/// Devices have type and characteristics, file systems attributes, the length of a component and
/// a name behind its length; a file has its id in the last eight bytes behind that of the volume.
pub proof fn device_and_name_information_lie_in_place(
    x: u32,
    y: u32,
    name: Seq<char>,
    volume_id: u64,
    file_id: u64,
)
    requires
        text::utf16le(name).len() <= u32::MAX,
    ensures
        ({
            let b = info_class::fs_device_information(x, y);
            b.len() == 8 && layout::number(b, 0, 4) == x && layout::number(b, 4, 4) == y
        }),
        ({
            let b = info_class::fs_attribute_information(x, y, name);
            &&& layout::number(b, 0, 4) == x
            &&& layout::number(b, 4, 4) == y
            &&& layout::number(b, 8, 4) == text::utf16le(name).len()
            &&& b.skip(12) == text::utf16le(name)
        }),
        ({
            let b = info_class::counted_name(name);
            layout::number(b, 0, 4) == text::utf16le(name).len() && b.skip(4) == text::utf16le(name)
        }),
        ({
            let b = info_class::file_id_information(volume_id, file_id);
            &&& b.len() == 24
            &&& layout::number(b, 0, 8) == volume_id
            &&& layout::number(b, 8, 8) == 0
            &&& layout::number(b, 16, 8) == file_id
        }),
{
    let n = text::utf16le(name).len();
    let b = info_class::fs_device_information(x, y);
    layout::numbers_are_little_endian(b);
    assert(layout::number(b, 0, 4) == x) by {
        assert(b.subrange(0, 4) =~= wire::bytes32(x));
        wire::le32_of_bytes32(b, 0, x);
    }
    assert(layout::number(b, 4, 4) == y) by {
        assert(b.subrange(4, 8) =~= wire::bytes32(y));
        wire::le32_of_bytes32(b, 4, y);
    }
    let c = info_class::fs_attribute_information(x, y, name);
    layout::numbers_are_little_endian(c);
    assert(c.len() == 12 + n);
    assert(layout::number(c, 0, 4) == x) by {
        assert(c.subrange(0, 4) =~= wire::bytes32(x));
        wire::le32_of_bytes32(c, 0, x);
    }
    assert(layout::number(c, 4, 4) == y) by {
        assert(c.subrange(4, 8) =~= wire::bytes32(y));
        wire::le32_of_bytes32(c, 4, y);
    }
    assert(layout::number(c, 8, 4) == n) by {
        assert(c.subrange(8, 12) =~= wire::bytes32(n as u32));
        wire::le32_of_bytes32(c, 8, n as u32);
    }
    assert(c.skip(12) =~= text::utf16le(name));
    let d = info_class::counted_name(name);
    layout::numbers_are_little_endian(d);
    assert(layout::number(d, 0, 4) == n) by {
        assert(d.subrange(0, 4) =~= wire::bytes32(n as u32));
        wire::le32_of_bytes32(d, 0, n as u32);
    }
    assert(d.skip(4) =~= text::utf16le(name));
    let f = info_class::file_id_information(volume_id, file_id);
    layout::numbers_are_little_endian(f);
    assert(layout::number(f, 0, 8) == volume_id) by {
        assert(f.subrange(0, 8) =~= wire::bytes64(volume_id));
        wire::le64_of_bytes64(f, 0, volume_id);
    }
    assert(layout::number(f, 8, 8) == 0) by {
        assert(f.subrange(8, 16) =~= wire::bytes64(0));
        wire::le64_of_bytes64(f, 8, 0);
    }
    assert(layout::number(f, 16, 8) == file_id) by {
        assert(f.subrange(16, 24) =~= wire::bytes64(file_id));
        wire::le64_of_bytes64(f, 16, file_id);
    }
}

/// Streams are written one behind the other; each but the last names the distance to the next, a
/// multiple of eight, and the last names none. A file without named streams has the unnamed one
/// of its own size, a directory has none.
pub proof fn streams_are_chained(info: FileInfo, streams: Seq<StreamModel>, n: int)
    requires
        0 < n <= streams.len(),
    ensures
        info_class::stream_records(streams, n) == info_class::stream_records(streams, n - 1)
            + info_class::stream_record(
            streams[n - 1],
            if n < streams.len() {
                info_class::stream_record_len(streams[n - 1]) as u32
            } else {
                0
            },
        ),
        info_class::stream_record_len(streams[n - 1]) % 8 == 0,
        24int + text::utf16le(streams[n - 1].name).len() <= info_class::stream_record_len(
            streams[n - 1],
        ) < 32int + text::utf16le(streams[n - 1].name).len(),
        info_class::reported_streams(info, streams) == streams,
        info.is_directory ==> info_class::reported_streams(info, Seq::empty()).len() == 0,
        !info.is_directory ==> info_class::reported_streams(info, Seq::empty()).len() == 1
            && info_class::reported_streams(info, Seq::empty())[0].size == info.end_of_file
            && info_class::reported_streams(info, Seq::empty())[0].allocation
            == info.allocation_size,
{
}

/// What was set for owner and mode is told; otherwise root owns the file, and all may read it.
pub proof fn owners_are_told_or_implied(info: FileInfo, set: PosixMetadata)
    ensures
        info_class::posix_or_implied(info, Some(set)) == set,
        info_class::posix_or_implied(info, None).uid == 0,
        info_class::posix_or_implied(info, None).gid == 0,
        info_class::posix_or_implied(info, None).mode == if info.is_directory {
            493u32
        } else {
            420u32
        },
{
}

} // verus!
