//! Create contexts: a chain of named records behind a CREATE request or response.
//!
//! Each record starts with the distance to the next one, zero for the last, and
//! gives its name and its data by offsets from its own start. Records and data are
//! aligned to eight bytes.

use crate::proto::error::{ProtoError, ProtoResult};
use crate::wire;
use vstd::prelude::*;

verus! {

/// A create context: its name and its data.
#[derive(Debug, Clone, PartialEq, Eq)]
pub struct CreateContext {
    pub name: Vec<u8>,
    pub data: Vec<u8>,
}

/// What a create context holds.
#[verifier::ext_equal]
pub struct ContextModel {
    pub name: Seq<u8>,
    pub data: Seq<u8>,
}

impl View for CreateContext {
    type V = ContextModel;

    open spec fn view(&self) -> ContextModel {
        ContextModel { name: self.name@, data: self.data@ }
    }
}

impl Default for CreateContext {
    fn default() -> (r: Self)
        ensures
            r@ == (ContextModel { name: Seq::empty(), data: Seq::empty() }),
    {
        let r = Self { name: Vec::new(), data: Vec::new() };
        assert(r@ =~= ContextModel { name: Seq::empty(), data: Seq::empty() });
        r
    }
}

/// What the contexts of a list hold.
pub open spec fn models(list: Seq<CreateContext>) -> Seq<ContextModel> {
    list.map_values(|c: CreateContext| c@)
}

/// `n` rounded up to a multiple of eight.
pub open spec fn round8(n: int) -> int {
    (n + 7) / 8 * 8
}

/// Where the record at `at` ends.
pub open spec fn record_end(chain: Seq<u8>, at: int) -> int {
    if wire::le32(chain, at) == 0 { chain.len() as int } else { at + wire::le32(chain, at) }
}

/// Why the record at `at` is refused.
pub open spec fn record_error(chain: Seq<u8>, at: int) -> Option<ProtoError> {
    if at >= chain.len() {
        Some(ProtoError::Malformed("create context out of range"))
    } else if at + 16 > chain.len() {
        Some(ProtoError::Malformed("create context too short"))
    } else if wire::le32(chain, at) != 0 && (wire::le32(chain, at) < 16 || wire::le32(chain, at) % 8
        != 0) {
        Some(ProtoError::Malformed("create context invalid next"))
    } else if record_end(chain, at) > usize::MAX {
        Some(ProtoError::Malformed("create context next overflow"))
    } else if record_end(chain, at) > chain.len() {
        Some(ProtoError::Malformed("create context next out of range"))
    } else if wire::le16(chain, at + 6) < 4 || wire::le16(chain, at + 4) < 16 || wire::le16(
        chain,
        at + 4,
    ) % 8 != 0 {
        Some(ProtoError::Malformed("create context invalid name range"))
    } else if at + wire::le16(chain, at + 4) + wire::le16(chain, at + 6) > record_end(chain, at) {
        Some(ProtoError::Malformed("create context name out of range"))
    } else if wire::le32(chain, at + 12) != 0 && (wire::le16(chain, at + 10) < 16 || wire::le16(
        chain,
        at + 10,
    ) % 8 != 0) {
        Some(ProtoError::Malformed("create context invalid data range"))
    } else if wire::le32(chain, at + 12) != 0 && at + wire::le16(chain, at + 10) + wire::le32(
        chain,
        at + 12,
    ) > record_end(chain, at) {
        Some(ProtoError::Malformed("create context data out of range"))
    } else {
        None
    }
}

/// The context of the record at `at`.
pub open spec fn record_model(chain: Seq<u8>, at: int) -> ContextModel {
    let name_at = at + wire::le16(chain, at + 4);
    let data_at = at + wire::le16(chain, at + 10);
    ContextModel {
        name: chain.subrange(name_at, name_at + wire::le16(chain, at + 6)),
        data: if wire::le32(chain, at + 12) == 0 {
            Seq::empty()
        } else {
            chain.subrange(data_at, data_at + wire::le32(chain, at + 12))
        },
    }
}

/// Why a chain is refused, from the record at `at` on.
pub open spec fn chain_error_from(chain: Seq<u8>, at: int) -> Option<ProtoError>
    decreases chain.len() - at,
{
    match record_error(chain, at) {
        Some(e) => Some(e),
        None => if wire::le32(chain, at) == 0 {
            None
        } else {
            chain_error_from(chain, record_end(chain, at))
        },
    }
}

/// The contexts of a chain, from the record at `at` on.
pub open spec fn chain_models_from(chain: Seq<u8>, at: int) -> Seq<ContextModel>
    decreases chain.len() - at,
{
    if record_error(chain, at) is Some {
        Seq::empty()
    } else if wire::le32(chain, at) == 0 {
        seq![record_model(chain, at)]
    } else {
        seq![record_model(chain, at)] + chain_models_from(chain, record_end(chain, at))
    }
}

/// Why a chain is refused; no bytes are a chain of no contexts.
pub open spec fn chain_error(chain: Seq<u8>) -> Option<ProtoError> {
    if chain.len() == 0 { None } else { chain_error_from(chain, 0) }
}

/// The contexts of a chain.
pub open spec fn chain_models(chain: Seq<u8>) -> Seq<ContextModel> {
    if chain.len() == 0 { Seq::empty() } else { chain_models_from(chain, 0) }
}

/// The bytes of a record up to the end of its data.
#[verifier::opaque]
pub open spec fn record_bytes(c: ContextModel, next: u32) -> Seq<u8> {
    wire::bytes32(next) + wire::bytes16(16) + wire::bytes16(c.name.len() as u16) + wire::bytes16(0)
        + wire::bytes16((16 + round8(c.name.len() as int)) as u16) + wire::bytes32(
        c.data.len() as u32,
    ) + c.name + wire::zeros(round8(c.name.len() as int) - c.name.len()) + c.data
}

/// How long a record is with the padding that another one needs behind it.
pub open spec fn padded_record_len(c: ContextModel) -> int {
    round8(16 + round8(c.name.len() as int) + c.data.len())
}

/// The bytes of a chain.
pub open spec fn chain_bytes(list: Seq<ContextModel>) -> Seq<u8>
    decreases list.len(),
{
    if list.len() == 0 {
        Seq::empty()
    } else if list.len() == 1 {
        record_bytes(list[0], 0)
    } else {
        record_bytes(list[0], padded_record_len(list[0]) as u32) + wire::zeros(
            padded_record_len(list[0]) - (16 + round8(list[0].name.len() as int)
                + list[0].data.len()),
        ) + chain_bytes(list.skip(1))
    }
}

/// Whether a context fits in a record: its name has at least four bytes and the
/// lengths fit in their fields.
pub open spec fn context_fits(c: ContextModel) -> bool {
    &&& 4 <= c.name.len()
    &&& 16 + round8(c.name.len() as int) <= 0xffff
    &&& padded_record_len(c) <= 0xffff_ffff
}

/// Whether each context of a list fits in a record.
pub open spec fn all_fit(list: Seq<ContextModel>) -> bool {
    forall|i: int| 0 <= i < list.len() ==> context_fits(#[trigger] list[i])
}

impl CreateContext {
    pub const NAME_EXTA: [u8; 4] = [0x45, 0x78, 0x74, 0x41];

    pub const NAME_SECD: [u8; 4] = [0x53, 0x65, 0x63, 0x44];

    pub const NAME_DHNQ: [u8; 4] = [0x44, 0x48, 0x6E, 0x51];

    pub const NAME_DHNC: [u8; 4] = [0x44, 0x48, 0x6E, 0x43];

    pub const NAME_ALSI: [u8; 4] = [0x41, 0x6C, 0x53, 0x69];

    pub const NAME_MXAC: [u8; 4] = [0x4D, 0x78, 0x41, 0x63];

    pub const NAME_TWRP: [u8; 4] = [0x54, 0x57, 0x72, 0x70];

    pub const NAME_QFID: [u8; 4] = [0x51, 0x46, 0x69, 0x64];

    pub const NAME_RQLS: [u8; 4] = [0x52, 0x71, 0x4C, 0x73];

    pub const NAME_DH2Q: [u8; 4] = [0x44, 0x48, 0x32, 0x51];

    pub const NAME_DH2C: [u8; 4] = [0x44, 0x48, 0x32, 0x43];

    pub const NAME_AAPL: [u8; 4] = [0x41, 0x41, 0x50, 0x4C];

    pub const NAME_APP_INSTANCE_ID: [u8; 16] = [
        0x45, 0xBC, 0xA6, 0x6A, 0xEF, 0xA7, 0xF7, 0x4A, 0x90, 0x08, 0xFA, 0x46, 0x2E, 0x14, 0x4D,
        0x74,
    ];

    pub const NAME_APP_INSTANCE_VERSION: [u8; 16] = [
        0xB9, 0x82, 0xD0, 0xB7, 0x3B, 0x56, 0x07, 0x4F, 0xA0, 0x7B, 0x52, 0x4A, 0x81, 0x16, 0xA0,
        0x10,
    ];

    pub const NAME_POSIX: [u8; 16] = [
        0x93, 0xAD, 0x25, 0x50, 0x9C, 0xB4, 0x11, 0xE7, 0xB4, 0x23, 0x83, 0xDE, 0x96, 0x8B, 0xCD,
        0x7C,
    ];

    /// Reads the record at `at`: its context and where the next record starts, if
    /// one follows.
    fn parse_record(chain: &[u8], at: usize) -> (r: ProtoResult<(CreateContext, Option<usize>)>)
        ensures
            match r {
                Ok((c, next)) => record_error(chain@, at as int) is None && c@ == record_model(
                    chain@,
                    at as int,
                ) && match next {
                    None => wire::le32(chain@, at as int) == 0,
                    Some(n) => wire::le32(chain@, at as int) != 0 && n == record_end(
                        chain@,
                        at as int,
                    ) && at + 16 <= n <= chain@.len(),
                },
                Err(e) => record_error(chain@, at as int) == Some(e),
            },
    {
        let len: usize = chain.len();
        if at >= len {
            return Err(ProtoError::Malformed("create context out of range"));
        }
        if len - at < 16 {
            return Err(ProtoError::Malformed("create context too short"));
        }
        let next: usize = wire::read_u32(chain, at) as usize;
        let end: usize = if next == 0 {
            len
        } else {
            if next < 16 || next % 8 != 0 {
                return Err(ProtoError::Malformed("create context invalid next"));
            }
            match at.checked_add(next) {
                Some(end) => end,
                None => {
                    return Err(ProtoError::Malformed("create context next overflow"));
                },
            }
        };
        if end > len {
            return Err(ProtoError::Malformed("create context next out of range"));
        }
        let name_offset: usize = wire::read_u16(chain, at + 4) as usize;
        let name_length: usize = wire::read_u16(chain, at + 6) as usize;
        let data_offset: usize = wire::read_u16(chain, at + 10) as usize;
        let data_length: usize = wire::read_u32(chain, at + 12) as usize;
        if name_length < 4 || name_offset < 16 || name_offset % 8 != 0 {
            return Err(ProtoError::Malformed("create context invalid name range"));
        }
        if name_offset > end - at || name_length > end - at - name_offset {
            return Err(ProtoError::Malformed("create context name out of range"));
        }
        let name: Vec<u8> = wire::copy_range(
            chain,
            at + name_offset,
            at + name_offset + name_length,
        );
        let data: Vec<u8> = if data_length == 0 {
            Vec::new()
        } else {
            if data_offset < 16 || data_offset % 8 != 0 {
                return Err(ProtoError::Malformed("create context invalid data range"));
            }
            if data_offset > end - at || data_length > end - at - data_offset {
                return Err(ProtoError::Malformed("create context data out of range"));
            }
            wire::copy_range(chain, at + data_offset, at + data_offset + data_length)
        };
        let c = CreateContext { name, data };
        assert(c@ =~= record_model(chain@, at as int));
        Ok((c, if next == 0 { None } else { Some(end) }))
    }

    /// Reads a chain of contexts. A chain that was written is read back as it was.
    pub fn parse_chain(chain: &[u8]) -> (r: ProtoResult<Vec<CreateContext>>)
        ensures
            match r {
                Ok(list) => chain_error(chain@) is None && models(list@) == chain_models(chain@),
                Err(e) => chain_error(chain@) == Some(e),
            },
            forall|list: Seq<ContextModel>|
                all_fit(list) && chain@ == #[trigger] chain_bytes(list) ==> (r matches Ok(got)
                    && models(got@) == list),
    {
        proof {
            assert forall|list: Seq<ContextModel>|
                all_fit(list) && chain@ == #[trigger] chain_bytes(list) implies chain_error(
                chain@,
            ) is None && chain_models(chain@) == list by {
                assert(chain@.len() == chain.len());
                chain_round_trips(list);
            }
        }
        let mut out: Vec<CreateContext> = Vec::new();
        if chain.len() == 0 {
            assert(models(out@) =~= chain_models(chain@));
            return Ok(out);
        }
        let mut at: usize = 0;
        assert(models(out@) + chain_models_from(chain@, 0) =~= chain_models(chain@));
        loop
            invariant
                at <= chain@.len(),
                chain@.len() > 0,
                chain_error(chain@) == chain_error_from(chain@, at as int),
                chain_models(chain@) == models(out@) + chain_models_from(chain@, at as int),
                forall|list: Seq<ContextModel>|
                    all_fit(list) && chain@ == #[trigger] chain_bytes(list) ==> chain_error(
                        chain@,
                    ) is None && chain_models(chain@) == list,
            decreases chain@.len() - at,
        {
            let (c, next): (CreateContext, Option<usize>) = match Self::parse_record(chain, at) {
                Ok(parsed) => parsed,
                Err(e) => {
                    return Err(e);
                },
            };
            let ghost before = out@;
            out.push(c);
            assert(models(out@) =~= models(before) + seq![c@]);
            match next {
                None => {
                    return Ok(out);
                },
                Some(n) => {
                    assert(models(before) + chain_models_from(chain@, at as int) =~= models(out@)
                        + chain_models_from(chain@, n as int));
                    at = n;
                },
            }
        }
    }

    /// Appends a record.
    fn encode_record(&self, next: u32, out: &mut Vec<u8>)
        ensures
            final(out)@ == old(out)@ + record_bytes(self@, next),
    {
        proof {
            reveal(record_bytes);
        }
        let padded: u128 = (self.name.len() as u128 + 7) / 8 * 8;
        wire::put_u32(out, next);
        wire::put_u16(out, 16);
        wire::put_u16(out, self.name.len() as u16);
        wire::put_u16(out, 0);
        wire::put_u16(out, (16 + padded) as u16);
        wire::put_u32(out, self.data.len() as u32);
        wire::put_bytes(out, self.name.as_slice());
        wire::put_zeros(out, (padded - self.name.len() as u128) as usize);
        wire::put_bytes(out, self.data.as_slice());
        assert(out@ =~= old(out)@ + record_bytes(self@, next));
    }

    /// Appends a chain of contexts.
    pub fn encode_chain(list: &[CreateContext], out: &mut Vec<u8>) -> (r: ProtoResult<()>)
        ensures
            r is Ok,
            final(out)@ == old(out)@ + chain_bytes(models(list@)),
    {
        let ghost all = models(list@);
        let ghost emitted = Seq::<u8>::empty();
        let mut i: usize = 0;
        proof {
            assert(all.skip(0) =~= all);
            assert(emitted + chain_bytes(all.skip(0)) =~= chain_bytes(all));
            assert(out@ =~= old(out)@ + emitted);
        }
        while i < list.len()
            invariant
                i <= list@.len(),
                all == models(list@),
                out@ == old(out)@ + emitted,
                emitted + chain_bytes(all.skip(i as int)) == chain_bytes(all),
            decreases list@.len() - i,
        {
            let c = &list[i];
            let ghost rest = all.skip(i as int);
            let ghost before = emitted;
            assert(rest[0] == c@);
            assert(rest.skip(1) =~= all.skip(i + 1));
            if i + 1 == list.len() {
                c.encode_record(0, out);
                proof {
                    emitted = before + record_bytes(c@, 0);
                    assert(all.skip(i + 1) =~= Seq::<ContextModel>::empty());
                    assert(emitted + chain_bytes(all.skip(i + 1)) =~= before + chain_bytes(rest));
                    assert(out@ =~= old(out)@ + emitted);
                }
            } else {
                let end: u128 = 16 + (c.name.len() as u128 + 7) / 8 * 8 + c.data.len() as u128;
                let padding: usize = ((8 - end % 8) % 8) as usize;
                let ghost next = padded_record_len(c@) as u32;
                assert(end + padding == padded_record_len(c@));
                let distance: u32 = (end + padding as u128) as u32;
                assert(distance == next);
                c.encode_record(distance, out);
                wire::put_zeros(out, padding);
                proof {
                    let piece = record_bytes(c@, next) + wire::zeros(padding as int);
                    emitted = before + piece;
                    assert(chain_bytes(rest) =~= piece + chain_bytes(rest.skip(1)));
                    assert(emitted + chain_bytes(all.skip(i + 1)) =~= before + chain_bytes(rest));
                    assert(out@ =~= old(out)@ + emitted);
                }
            }
            i += 1;
        }
        assert(all.skip(i as int) =~= Seq::<ContextModel>::empty());
        assert(emitted =~= chain_bytes(all));
        Ok(())
    }
}

/// The fields of a record that is written behind other bytes.
proof fn lemma_record_fields(pre: Seq<u8>, c: ContextModel, next: u32, post: Seq<u8>)
    requires
        context_fits(c),
    ensures
        ({
            let b = pre + record_bytes(c, next) + post;
            let at = pre.len() as int;
            &&& record_bytes(c, next).len() == 16 + round8(c.name.len() as int) + c.data.len()
            &&& wire::le32(b, at) == next
            &&& wire::le16(b, at + 4) == 16
            &&& wire::le16(b, at + 6) == c.name.len()
            &&& wire::le16(b, at + 10) == 16 + round8(c.name.len() as int)
            &&& wire::le32(b, at + 12) == c.data.len()
            &&& b.subrange(at + 16, at + 16 + c.name.len()) == c.name
            &&& b.subrange(
                at + 16 + round8(c.name.len() as int),
                at + 16 + round8(c.name.len() as int) + c.data.len(),
            ) == c.data
        }),
{
    reveal(record_bytes);
    let b = pre + record_bytes(c, next) + post;
    let at = pre.len() as int;
    let name_len = c.name.len() as u16;
    let data_at = (16 + round8(c.name.len() as int)) as u16;
    let data_len = c.data.len() as u32;
    let padding = wire::zeros(round8(c.name.len() as int) - c.name.len());
    assert(padding.len() == round8(c.name.len() as int) - c.name.len());
    assert(b.subrange(at, at + 4) =~= wire::bytes32(next));
    wire::le32_of_bytes32(b, at, next);
    assert(b.subrange(at + 4, at + 6) =~= wire::bytes16(16));
    wire::le16_of_bytes16(b, at + 4, 16);
    assert(b.subrange(at + 6, at + 8) =~= wire::bytes16(name_len));
    wire::le16_of_bytes16(b, at + 6, name_len);
    assert(b.subrange(at + 10, at + 12) =~= wire::bytes16(data_at));
    wire::le16_of_bytes16(b, at + 10, data_at);
    assert(b.subrange(at + 12, at + 16) =~= wire::bytes32(data_len));
    wire::le32_of_bytes32(b, at + 12, data_len);
    assert(b.subrange(at + 16, at + 16 + c.name.len()) =~= c.name);
    assert(b.subrange(at + data_at, at + data_at + c.data.len()) =~= c.data);
}

/// A record that is written behind other bytes is read back as it was.
proof fn lemma_record_read(pre: Seq<u8>, c: ContextModel, next: u32, post: Seq<u8>)
    requires
        context_fits(c),
        pre.len() + record_bytes(c, next).len() + post.len() <= usize::MAX,
        next == 0 || next == padded_record_len(c),
        next != 0 ==> padded_record_len(c) <= record_bytes(c, next).len() + post.len(),
        next == 0 ==> post.len() == 0,
    ensures
        ({
            let b = pre + record_bytes(c, next) + post;
            let at = pre.len() as int;
            &&& record_error(b, at) is None
            &&& record_model(b, at) == c
            &&& wire::le32(b, at) == next
        }),
{
    let b = pre + record_bytes(c, next) + post;
    let at = pre.len() as int;
    lemma_record_fields(pre, c, next, post);
    assert(c.data.len() == 0 ==> c.data =~= Seq::<u8>::empty());
    assert(record_model(b, at) =~= c);
}

proof fn lemma_chain_read(pre: Seq<u8>, list: Seq<ContextModel>)
    requires
        list.len() > 0,
        forall|i: int| 0 <= i < list.len() ==> context_fits(#[trigger] list[i]),
        pre.len() + chain_bytes(list).len() <= usize::MAX,
    ensures
        chain_error_from(pre + chain_bytes(list), pre.len() as int) is None,
        chain_models_from(pre + chain_bytes(list), pre.len() as int) == list,
    decreases list.len(),
{
    let b = pre + chain_bytes(list);
    let at = pre.len() as int;
    let c = list[0];
    assert(context_fits(c));
    if list.len() == 1 {
        let post = Seq::<u8>::empty();
        assert(b =~= pre + record_bytes(c, 0) + post);
        lemma_record_read(pre, c, 0, post);
        assert(chain_models_from(b, at) == seq![c]);
        assert(seq![c] =~= list);
    } else {
        let next = padded_record_len(c) as u32;
        let record = record_bytes(c, next);
        lemma_record_fields(pre, c, next, Seq::empty());
        let padding = wire::zeros(next - record.len());
        let rest = list.skip(1);
        let post = padding + chain_bytes(rest);
        assert(chain_bytes(list) =~= record + post);
        assert(b =~= pre + record + post);
        lemma_record_read(pre, c, next, post);
        let pre2 = pre + record + padding;
        assert(b =~= pre2 + chain_bytes(rest));
        assert(pre2.len() == at + next);
        assert forall|i: int| 0 <= i < rest.len() implies context_fits(#[trigger] rest[i]) by {
            assert(rest[i] == list[i + 1]);
        }
        lemma_chain_read(pre2, rest);
        assert(record_end(b, at) == pre2.len());
        assert(chain_models_from(b, at) == seq![c] + rest);
        assert(seq![c] + rest =~= list);
    }
}

/// A chain that is written is read back as it was.
pub proof fn chain_round_trips(list: Seq<ContextModel>)
    requires
        all_fit(list),
        chain_bytes(list).len() <= usize::MAX,
    ensures
        chain_error(chain_bytes(list)) is None,
        chain_models(chain_bytes(list)) == list,
{
    if list.len() == 0 {
        assert(list =~= Seq::<ContextModel>::empty());
    } else {
        assert(Seq::<u8>::empty() + chain_bytes(list) =~= chain_bytes(list));
        lemma_chain_read(Seq::empty(), list);
    }
}

} // verus!
