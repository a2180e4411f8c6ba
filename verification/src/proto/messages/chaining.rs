//! How create contexts and negotiate contexts are chained, counted in bytes.

use crate::proto::messages::create_context;
use crate::proto::messages::layout;
use crate::proto::messages::negotiate_context;
use crate::wire;
use vstd::prelude::*;

verus! {

/// A create context is written as the distance to the next, the place and length of the name, two
/// zero bytes, the place and length of the data, the name, and the data at the next multiple of
/// eight.
pub proof fn create_contexts_are_written_in_place(c: create_context::ContextModel, next: u32)
    requires
        create_context::context_fits(c),
    ensures
        ({
            let b = create_context::record_bytes(c, next);
            let data_at = layout::number(b, 10, 2);
            &&& layout::number(b, 0, 4) == next
            &&& layout::number(b, 4, 2) == 16
            &&& layout::number(b, 6, 2) == c.name.len()
            &&& layout::number(b, 8, 2) == 0
            &&& layout::number(b, 12, 4) == c.data.len()
            &&& b.subrange(16, 16int + c.name.len()) == c.name
            &&& data_at % 8 == 0
            &&& 16int + c.name.len() <= data_at < 24int + c.name.len()
            &&& b.len() == data_at + c.data.len()
            &&& b.subrange(data_at, data_at + c.data.len()) == c.data
            &&& forall|i: int| 16int + c.name.len() <= i < data_at ==> #[trigger] b[i] == 0
        }),
{
    reveal(create_context::record_bytes);
    let b = create_context::record_bytes(c, next);
    let n = c.name.len() as int;
    let d = create_context::round8(n);
    assert(b.len() == 16 + d + c.data.len());
    layout::numbers_are_little_endian(b);
    assert(layout::number(b, 0, 4) == next) by {
        assert(b.subrange(0, 4) =~= wire::bytes32(next));
        wire::le32_of_bytes32(b, 0, next);
    }
    assert(layout::number(b, 4, 2) == 16) by {
        assert(b.subrange(4, 6) =~= wire::bytes16(16));
        wire::le16_of_bytes16(b, 4, 16);
    }
    assert(layout::number(b, 6, 2) == n) by {
        assert(b.subrange(6, 8) =~= wire::bytes16(n as u16));
        wire::le16_of_bytes16(b, 6, n as u16);
    }
    assert(layout::number(b, 8, 2) == 0) by {
        assert(b.subrange(8, 10) =~= wire::bytes16(0));
        wire::le16_of_bytes16(b, 8, 0);
    }
    assert(layout::number(b, 10, 2) == 16 + d) by {
        assert(b.subrange(10, 12) =~= wire::bytes16((16 + d) as u16));
        wire::le16_of_bytes16(b, 10, (16 + d) as u16);
    }
    assert(layout::number(b, 12, 4) == c.data.len()) by {
        assert(b.subrange(12, 16) =~= wire::bytes32(c.data.len() as u32));
        wire::le32_of_bytes32(b, 12, c.data.len() as u32);
    }
    assert(b.subrange(16, 16 + n) =~= c.name);
    assert(b.subrange(16 + d, 16 + d + c.data.len()) =~= c.data);
}

/// A create context is read from where its record says that its name and its data lie, counted
/// from the record's start; without a length there is no data.
pub proof fn create_contexts_are_read_in_place(chain: Seq<u8>, at: int)
    ensures
        ({
            let c = create_context::record_model(chain, at);
            let name_at = at + layout::number(chain, at + 4, 2);
            let data_at = at + layout::number(chain, at + 10, 2);
            let data_len = layout::number(chain, at + 12, 4);
            &&& c.name == chain.subrange(name_at, name_at + layout::number(chain, at + 6, 2))
            &&& data_len == 0 ==> c.data == Seq::<u8>::empty()
            &&& data_len != 0 ==> c.data == chain.subrange(data_at, data_at + data_len)
        }),
{
    layout::numbers_are_little_endian(chain);
    assert(wire::le16(chain, at + 4) == layout::number(chain, at + 4, 2));
    assert(wire::le16(chain, at + 6) == layout::number(chain, at + 6, 2));
    assert(wire::le16(chain, at + 10) == layout::number(chain, at + 10, 2));
    assert(wire::le32(chain, at + 12) == layout::number(chain, at + 12, 4));
}

/// A record is accepted exactly where its name has at least four bytes, its name and its data lie
/// behind its head at multiples of eight and before its end, and the next record lies at a
/// multiple of eight behind its head in the chain.
pub proof fn create_contexts_are_accepted_whole(chain: Seq<u8>, at: int)
    requires
        0 <= at,
        chain.len() <= usize::MAX,
    ensures
        create_context::record_error(chain, at) is None <==> ({
            let next = layout::number(chain, at, 4);
            let end = if next == 0 {
                chain.len() as int
            } else {
                at + next
            };
            let name_at = layout::number(chain, at + 4, 2);
            let name_len = layout::number(chain, at + 6, 2);
            let data_at = layout::number(chain, at + 10, 2);
            let data_len = layout::number(chain, at + 12, 4);
            &&& at + 16 <= chain.len()
            &&& next != 0 ==> next >= 16 && next % 8 == 0 && end <= chain.len()
            &&& name_len >= 4
            &&& name_at >= 16 && name_at % 8 == 0
            &&& at + name_at + name_len <= end
            &&& data_len != 0 ==> data_at >= 16 && data_at % 8 == 0 && at + data_at + data_len
                <= end
        }),
{
    layout::numbers_are_little_endian(chain);
    assert(wire::le32(chain, at) == layout::number(chain, at, 4));
    assert(wire::le16(chain, at + 4) == layout::number(chain, at + 4, 2));
    assert(wire::le16(chain, at + 6) == layout::number(chain, at + 6, 2));
    assert(wire::le16(chain, at + 10) == layout::number(chain, at + 10, 2));
    assert(wire::le32(chain, at + 12) == layout::number(chain, at + 12, 4));
}

/// A chain goes on where its record says, and ends with the record that names no distance.
pub proof fn create_contexts_follow_each_other(chain: Seq<u8>, at: int)
    requires
        0 <= at,
        create_context::record_error(chain, at) is None,
    ensures
        ({
            let next = layout::number(chain, at, 4);
            &&& create_context::chain_models_from(chain, at)[0] == create_context::record_model(
                chain,
                at,
            )
            &&& next == 0 ==> create_context::chain_models_from(chain, at).len() == 1
                && create_context::chain_error_from(chain, at) is None
            &&& next != 0 ==> create_context::chain_models_from(chain, at).skip(1)
                == create_context::chain_models_from(chain, at + next)
                && create_context::chain_error_from(chain, at) == create_context::chain_error_from(
                chain,
                at + next,
            )
        }),
{
    layout::numbers_are_little_endian(chain);
    assert(wire::le32(chain, at) == layout::number(chain, at, 4));
    let next = wire::le32(chain, at);
    if next != 0 {
        assert(create_context::chain_models_from(chain, at).skip(1)
            =~= create_context::chain_models_from(chain, at + next));
    }
}

/// A negotiate context is written as its type, the length of its data, four bytes, and the data.
pub proof fn negotiate_contexts_are_written_in_place(c: negotiate_context::ContextModel)
    ensures
        ({
            let b = negotiate_context::context_bytes(c);
            &&& layout::number(b, 0, 2) == c.context_type
            &&& layout::number(b, 2, 2) == c.data_length
            &&& layout::number(b, 4, 4) == c.reserved
            &&& b.len() == 8 + c.data.len()
            &&& b.skip(8) == c.data
        }),
{
    reveal(negotiate_context::context_bytes);
    let b = negotiate_context::context_bytes(c);
    assert(b.len() == 8 + c.data.len());
    layout::numbers_are_little_endian(b);
    assert(layout::number(b, 0, 2) == c.context_type) by {
        assert(b.subrange(0, 2) =~= wire::bytes16(c.context_type));
        wire::le16_of_bytes16(b, 0, c.context_type);
    }
    assert(layout::number(b, 2, 2) == c.data_length) by {
        assert(b.subrange(2, 4) =~= wire::bytes16(c.data_length));
        wire::le16_of_bytes16(b, 2, c.data_length);
    }
    assert(layout::number(b, 4, 4) == c.reserved) by {
        assert(b.subrange(4, 8) =~= wire::bytes32(c.reserved));
        wire::le32_of_bytes32(b, 4, c.reserved);
    }
    assert(b.skip(8) =~= c.data);
}

/// A list of negotiate contexts is written one behind the other, each at a multiple of eight with
/// fewer than eight zeros in front.
pub proof fn negotiate_contexts_are_written_in_a_row(
    list: Seq<negotiate_context::ContextModel>,
    at: int,
)
    requires
        0 <= at,
        list.len() > 0,
    ensures
        exists|pad: int|
            0 <= pad < 8 && (at + pad) % 8 == 0 && negotiate_context::list_bytes(list, at)
                == #[trigger] wire::zeros(pad) + negotiate_context::context_bytes(list[0])
                + negotiate_context::list_bytes(
                list.skip(1),
                at + pad + 8 + list[0].data.len(),
            ),
{
    let pad = negotiate_context::padding8(at);
    negotiate_contexts_are_written_in_place(list[0]);
    assert((at + pad) % 8 == 0);
    assert(negotiate_context::list_bytes(list, at) == wire::zeros(pad)
        + negotiate_context::context_bytes(list[0]) + negotiate_context::list_bytes(
        list.skip(1),
        at + pad + 8 + list[0].data.len(),
    ));
}

/// A list of negotiate contexts is read from the next multiple of eight on: type, length, four
/// bytes and as many bytes of data as the length says, and the next one from there on.
pub proof fn negotiate_contexts_are_read_in_a_row(buf: Seq<u8>, at: int, pad: int, count: int)
    requires
        0 <= at,
        0 <= pad < 8,
        (at + pad) % 8 == 0,
        count > 0,
    ensures
        ({
            let start = at + pad;
            let len = layout::number(buf, start + 2, 2);
            let list = negotiate_context::list_models(buf, at, count);
            &&& list[0].context_type == layout::number(buf, start, 2)
            &&& list[0].data_length == len
            &&& list[0].reserved == layout::number(buf, start + 4, 4)
            &&& list[0].data == buf.subrange(start + 8, start + 8 + len)
            &&& list.skip(1) == negotiate_context::list_models(buf, start + 8 + len, count - 1)
            &&& buf.len() <= usize::MAX ==> (negotiate_context::list_error(buf, at, count) is None
                <==> (start + 8 + len <= buf.len() && start + 8 <= buf.len()
                && negotiate_context::list_error(buf, start + 8 + len, count - 1) is None))
        }),
{
    layout::numbers_are_little_endian(buf);
    let start = at + pad;
    assert(negotiate_context::padding8(at) == pad);
    assert(wire::le16(buf, start) == layout::number(buf, start, 2));
    assert(wire::le16(buf, start + 2) == layout::number(buf, start + 2, 2));
    assert(wire::le32(buf, start + 4) == layout::number(buf, start + 4, 4));
    let len = wire::le16(buf, start + 2);
    let list = negotiate_context::list_models(buf, at, count);
    assert(list.skip(1) =~= negotiate_context::list_models(buf, start + 8 + len, count - 1));
}

/// Lists of numbers of two bytes lie one behind the other.
pub proof fn lists_of_numbers_lie_in_a_row(b: Seq<u8>, at: int, s: Seq<u16>, n: int, i: int)
    requires
        0 <= i,
    ensures
        i < n ==> crate::proto::messages::le16_list(b, at, n)[i] == layout::number(
            b,
            at + 2 * i,
            2,
        ),
        n >= 0 ==> crate::proto::messages::le16_list(b, at, n).len() == n,
        i < s.len() ==> layout::number(crate::proto::messages::bytes16_list(s), 2 * i, 2) == s[i],
        crate::proto::messages::bytes16_list(s).len() == 2 * s.len(),
{
    layout::numbers_are_little_endian(b);
    assert(wire::le16(b, at + 2 * i) == layout::number(b, at + 2 * i, 2));
    if i < s.len() {
        let w = crate::proto::messages::bytes16_list(s);
        assert(w.subrange(2 * i, 2 * i + 2) =~= wire::bytes16(s[i]));
        wire::le16_of_bytes16(w, 2 * i, s[i]);
        layout::numbers_are_little_endian(w);
        assert(wire::le16(w, 2 * i) == layout::number(w, 2 * i, 2));
    }
}

} // verus!
