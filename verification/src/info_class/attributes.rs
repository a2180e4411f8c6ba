//! How extended attributes are chained, counted in bytes.

use crate::info_class::ea;
use crate::info_class::ea::EaModel;
use crate::proto::messages::layout;
use crate::wire;
use vstd::prelude::*;

verus! {

/// An attribute is written as the distance to the next, its flags, the lengths of name and value,
/// the name with a zero behind it and the value, filled up with zeros to a multiple of four.
pub proof fn attributes_are_written_in_place(e: EaModel, next: u32)
    requires
        ea::writable(e),
    ensures
        ({
            let b = ea::record_bytes(e, next);
            let n = ea::name_bytes(e).len();
            &&& layout::number(b, 0, 4) == next
            &&& b[4] == e.flags
            &&& b[5] == n
            &&& layout::number(b, 6, 2) == e.value.len()
            &&& b.subrange(8, 8int + n) == vstd::utf8::encode_utf8(e.name)
            &&& b[8int + n] == 0
            &&& b.subrange(9int + n, 9int + n + e.value.len()) == e.value
            &&& b.len() % 4 == 0
            &&& 9int + n + e.value.len() <= b.len() < 13int + n + e.value.len()
            &&& forall|i: int| 9int + n + e.value.len() <= i < b.len() ==> #[trigger] b[i] == 0
        }),
{
    reveal(ea::record_bytes);
    let b = ea::record_bytes(e, next);
    let n = ea::name_bytes(e).len() as int;
    assert(b.len() == ea::padded_len(e));
    layout::numbers_are_little_endian(b);
    assert(layout::number(b, 0, 4) == next) by {
        assert(b.subrange(0, 4) =~= wire::bytes32(next));
        wire::le32_of_bytes32(b, 0, next);
    }
    assert(layout::number(b, 6, 2) == e.value.len()) by {
        assert(b.subrange(6, 8) =~= wire::bytes16(e.value.len() as u16));
        wire::le16_of_bytes16(b, 6, e.value.len() as u16);
    }
    assert(b.subrange(8, 8 + n) =~= ea::name_bytes(e));
    assert(b.subrange(9 + n, 9 + n + e.value.len()) =~= e.value);
}

/// A chain of attributes names the distance to the next one in all but the last.
pub proof fn attributes_are_written_in_a_row(list: Seq<EaModel>, i: int)
    requires
        0 <= i < list.len(),
        ea::writable(list[i]),
    ensures
        ({
            let last = i + 1 == list.len();
            let all = ea::records(list, i);
            let next = layout::number(all, 0, 4);
            &&& last ==> next == 0 && all == ea::record_bytes(list[i], 0)
            &&& !last ==> next == ea::record_bytes(list[i], next as u32).len() && all
                == ea::record_bytes(list[i], next as u32) + ea::records(list, i + 1)
        }),
        ea::full_ea(list) == ea::records(list, 0),
{
    let last = i + 1 == list.len();
    let all = ea::records(list, i);
    let n = if last {
        0u32
    } else {
        ea::padded_len(list[i]) as u32
    };
    let rec = ea::record_bytes(list[i], n);
    assert(rec.len() == ea::padded_len(list[i]) && rec.subrange(0, 4) == wire::bytes32(n)) by {
        reveal(ea::record_bytes);
        assert(rec.subrange(0, 4) =~= wire::bytes32(n));
    }
    assert(all == rec + ea::records(list, i + 1));
    assert(layout::number(all, 0, 4) == n) by {
        assert(all.subrange(0, 4) =~= rec.subrange(0, 4));
        wire::le32_of_bytes32(all, 0, n);
        layout::numbers_are_little_endian(all);
    }
    assert(ea::padded_len(list[i]) <= 0xffff_ffff);
    if last {
        assert(ea::records(list, i + 1) =~= Seq::<u8>::empty());
        assert(all =~= rec);
    }
}

/// An attribute is read as it is written: flags, a name of as many bytes as its sixth byte says,
/// and behind a zero a value of as many bytes as the two bytes behind that say.
pub proof fn attributes_are_read_in_place(data: Seq<u8>, at: int)
    ensures
        ({
            let e = ea::record_model(data, at);
            let n = data[at + 5] as int;
            let len = layout::number(data, at + 6, 2);
            &&& e.flags == data[at + 4]
            &&& e.name == vstd::utf8::decode_utf8(data.subrange(at + 8, at + 8 + n))
            &&& e.value == data.subrange(at + 9 + n, at + 9 + n + len)
            &&& ea::record_whole(data, at) <==> (at + 8 <= data.len() && n != 0 && at + 9 + n + len
                <= data.len() && data[at + 8 + n] == 0 && vstd::utf8::valid_utf8(
                data.subrange(at + 8, at + 8 + n),
            ))
        }),
{
    layout::numbers_are_little_endian(data);
    assert(wire::le16(data, at + 6) == layout::number(data, at + 6, 2));
}

/// A chain goes on where the record says: behind the record, at a multiple of four, in the data.
pub proof fn attributes_are_read_in_a_row(data: Seq<u8>, at: int)
    requires
        0 <= at,
        ea::record_whole(data, at),
    ensures
        ({
            let next = layout::number(data, at, 4);
            let n = data[at + 5] as int;
            let len = layout::number(data, at + 6, 2);
            let there = next >= 9 + n + len && next % 4 == 0 && at + next < data.len();
            let list = ea::chain_attributes(data, at);
            &&& list[0] == ea::record_model(data, at)
            &&& next == 0 ==> ea::chain_whole(data, at) && list.len() == 1
            &&& next != 0 ==> (ea::chain_whole(data, at) <==> there && ea::chain_whole(
                data,
                at + next,
            ))
            &&& next != 0 && there ==> list.skip(1) == ea::chain_attributes(data, at + next)
        }),
{
    layout::numbers_are_little_endian(data);
    assert(wire::le32(data, at) == layout::number(data, at, 4));
    assert(wire::le16(data, at + 6) == layout::number(data, at + 6, 2));
    let next = wire::le32(data, at);
    if ea::has_next(data, at) && ea::next_fits(data, at) {
        assert(ea::chain_attributes(data, at).skip(1) =~= ea::chain_attributes(data, at + next));
    }
}

} // verus!
