//! Negotiate contexts: a list of typed records, each at a multiple of eight bytes.

use crate::proto::error::{ProtoError, ProtoResult};
use crate::proto::messages::{put_u16_list, read_u16_list};
use crate::wire;
use vstd::prelude::*;

verus! {

/// A negotiate context: its type and its data.
#[derive(Debug, Clone, PartialEq, Eq)]
pub struct NegotiateContext {
    pub context_type: u16,
    pub data_length: u16,
    pub reserved: u32,
    pub data: Vec<u8>,
}

/// What a negotiate context holds.
#[verifier::ext_equal]
pub struct ContextModel {
    pub context_type: u16,
    pub data_length: u16,
    pub reserved: u32,
    pub data: Seq<u8>,
}

impl View for NegotiateContext {
    type V = ContextModel;

    open spec fn view(&self) -> ContextModel {
        ContextModel {
            context_type: self.context_type,
            data_length: self.data_length,
            reserved: self.reserved,
            data: self.data@,
        }
    }
}

/// What the contexts of a list hold.
pub open spec fn models(list: Seq<NegotiateContext>) -> Seq<ContextModel> {
    list.map_values(|c: NegotiateContext| c@)
}

/// How many bytes there are from `at` to the next multiple of eight.
pub open spec fn padding8(at: int) -> int {
    (8 - at % 8) % 8
}

/// Why a list of `count` contexts is refused, from `at` on.
pub open spec fn list_error(buf: Seq<u8>, at: int, count: int) -> Option<ProtoError>
    decreases count,
{
    let start = at + padding8(at);
    if count <= 0 {
        None
    } else if start > usize::MAX {
        Some(ProtoError::Malformed("negotiate context alignment overflow"))
    } else if start + 8 > buf.len() {
        Some(ProtoError::Malformed("negotiate context too short"))
    } else if start + 8 + wire::le16(buf, start + 2) > usize::MAX {
        Some(ProtoError::Malformed("negotiate context data overflow"))
    } else if start + 8 + wire::le16(buf, start + 2) > buf.len() {
        Some(ProtoError::Malformed("negotiate context data truncated"))
    } else {
        list_error(buf, start + 8 + wire::le16(buf, start + 2), count - 1)
    }
}

/// The context at `start`.
pub open spec fn context_model(buf: Seq<u8>, start: int) -> ContextModel {
    ContextModel {
        context_type: wire::le16(buf, start) as u16,
        data_length: wire::le16(buf, start + 2) as u16,
        reserved: wire::le32(buf, start + 4) as u32,
        data: buf.subrange(start + 8, start + 8 + wire::le16(buf, start + 2)),
    }
}

/// The `count` contexts from `at` on, each at the next multiple of eight.
pub open spec fn list_models(buf: Seq<u8>, at: int, count: int) -> Seq<ContextModel>
    decreases count,
{
    let start = at + padding8(at);
    if count <= 0 {
        Seq::empty()
    } else {
        seq![context_model(buf, start)] + list_models(
            buf,
            start + 8 + wire::le16(buf, start + 2),
            count - 1,
        )
    }
}

/// The bytes of a context.
#[verifier::opaque]
pub open spec fn context_bytes(c: ContextModel) -> Seq<u8> {
    wire::bytes16(c.context_type) + wire::bytes16(c.data_length) + wire::bytes32(c.reserved)
        + c.data
}

/// The bytes of a list of contexts that goes on behind `at` bytes of it.
pub open spec fn list_bytes(list: Seq<ContextModel>, at: int) -> Seq<u8>
    decreases list.len(),
{
    if list.len() == 0 {
        Seq::empty()
    } else {
        let piece = wire::zeros(padding8(at)) + context_bytes(list[0]);
        piece + list_bytes(list.skip(1), at + piece.len())
    }
}

impl NegotiateContext {
    pub const TYPE_PREAUTH_INTEGRITY: u16 = 0x0001;

    pub const TYPE_ENCRYPTION: u16 = 0x0002;

    pub const TYPE_COMPRESSION: u16 = 0x0003;

    pub const TYPE_NETNAME_NEGOTIATE: u16 = 0x0005;

    pub const TYPE_TRANSPORT_CAPS: u16 = 0x0006;

    pub const TYPE_RDMA_TRANSFORM: u16 = 0x0007;

    pub const TYPE_SIGNING: u16 = 0x0008;

    pub const TYPE_POSIX: u16 = 0x0100;

    pub const TRANSPORT_CAP_ACCEPT_TRANSPORT_SECURITY: u32 = 0x0000_0001;

    pub const POSIX_EXTENSIONS_GUID: [u8; 16] = [
        0x93, 0xAD, 0x25, 0x50, 0x9C, 0xB4, 0x11, 0xE7, 0xB4, 0x23, 0x83, 0xDE, 0x96, 0x8B, 0xCD,
        0x7C,
    ];

    /// Reads a list of `count` contexts.
    pub fn parse_list(buf: &[u8], count: u16) -> (r: ProtoResult<Vec<NegotiateContext>>)
        ensures
            match r {
                Ok(list) => list_error(buf@, 0, count as int) is None && models(list@)
                    == list_models(buf@, 0, count as int),
                Err(e) => list_error(buf@, 0, count as int) == Some(e),
            },
    {
        let mut out: Vec<NegotiateContext> = Vec::new();
        let mut at: usize = 0;
        let mut left: u16 = count;
        assert(models(out@) + list_models(buf@, 0, count as int) =~= list_models(
            buf@,
            0,
            count as int,
        ));
        while left > 0
            invariant
                at <= buf@.len(),
                list_error(buf@, 0, count as int) == list_error(buf@, at as int, left as int),
                list_models(buf@, 0, count as int) == models(out@) + list_models(
                    buf@,
                    at as int,
                    left as int,
                ),
            decreases left,
        {
            let padding: usize = (8 - at % 8) % 8;
            let start: usize = match at.checked_add(padding) {
                Some(start) => start,
                None => {
                    return Err(ProtoError::Malformed("negotiate context alignment overflow"));
                },
            };
            if start > buf.len() || buf.len() - start < 8 {
                return Err(ProtoError::Malformed("negotiate context too short"));
            }
            let data_length: u16 = wire::read_u16(buf, start + 2);
            let end: usize = match (start + 8).checked_add(data_length as usize) {
                Some(end) => end,
                None => {
                    return Err(ProtoError::Malformed("negotiate context data overflow"));
                },
            };
            if end > buf.len() {
                return Err(ProtoError::Malformed("negotiate context data truncated"));
            }
            let c = NegotiateContext {
                context_type: wire::read_u16(buf, start),
                data_length,
                reserved: wire::read_u32(buf, start + 4),
                data: wire::copy_range(buf, start + 8, end),
            };
            let ghost before = out@;
            assert(c@ =~= context_model(buf@, start as int));
            out.push(c);
            assert(models(out@) =~= models(before) + seq![c@]);
            assert(models(before) + list_models(buf@, at as int, left as int) =~= models(out@)
                + list_models(buf@, end as int, left - 1));
            at = end;
            left -= 1;
        }
        assert(models(out@) + Seq::<ContextModel>::empty() =~= models(out@));
        Ok(out)
    }

    /// Appends a list of contexts, each but the first at a multiple of eight from the
    /// start of the list.
    pub fn encode_list(list: &[NegotiateContext], out: &mut Vec<u8>) -> (r: ProtoResult<()>)
        ensures
            r is Ok,
            final(out)@ == old(out)@ + list_bytes(models(list@), 0),
    {
        let ghost all = models(list@);
        let ghost emitted = Seq::<u8>::empty();
        let start: usize = out.len();
        let mut i: usize = 0;
        proof {
            assert(all.skip(0) =~= all);
            assert(emitted + list_bytes(all.skip(0), 0) =~= list_bytes(all, 0));
            assert(out@ =~= old(out)@ + emitted);
        }
        while i < list.len()
            invariant
                i <= list@.len(),
                all == models(list@),
                start == old(out)@.len(),
                out@ == old(out)@ + emitted,
                emitted + list_bytes(all.skip(i as int), emitted.len() as int) == list_bytes(
                    all,
                    0,
                ),
            decreases list@.len() - i,
        {
            let c = &list[i];
            let ghost rest = all.skip(i as int);
            let ghost before = emitted;
            assert(rest[0] == c@);
            assert(rest.skip(1) =~= all.skip(i + 1));
            let padding: usize = (8 - (out.len() - start) % 8) % 8;
            wire::put_zeros(out, padding);
            wire::put_u16(out, c.context_type);
            wire::put_u16(out, c.data_length);
            wire::put_u32(out, c.reserved);
            wire::put_bytes(out, c.data.as_slice());
            proof {
                let piece = wire::zeros(padding as int) + context_bytes(c@);
                emitted = before + piece;
                assert(out@ =~= old(out)@ + emitted) by {
                    reveal(context_bytes);
                }
                assert(emitted + list_bytes(all.skip(i + 1), emitted.len() as int) =~= before
                    + list_bytes(rest, before.len() as int));
            }
            i += 1;
        }
        assert(all.skip(i as int) =~= Seq::<ContextModel>::empty());
        assert(emitted =~= list_bytes(all, 0));
        Ok(())
    }
}

proof fn lemma_context_read(pre: Seq<u8>, c: ContextModel, post: Seq<u8>)
    requires
        c.data_length == c.data.len(),
    ensures
        context_bytes(c).len() == 8 + c.data.len(),
        context_model(pre + context_bytes(c) + post, pre.len() as int) == c,
        wire::le16(pre + context_bytes(c) + post, pre.len() + 2int) == c.data.len(),
{
    reveal(context_bytes);
    let b = pre + context_bytes(c) + post;
    let at = pre.len() as int;
    assert(b.subrange(at, at + 2) =~= wire::bytes16(c.context_type));
    wire::le16_of_bytes16(b, at, c.context_type);
    assert(b.subrange(at + 2, at + 4) =~= wire::bytes16(c.data_length));
    wire::le16_of_bytes16(b, at + 2, c.data_length);
    assert(b.subrange(at + 4, at + 8) =~= wire::bytes32(c.reserved));
    wire::le32_of_bytes32(b, at + 4, c.reserved);
    assert(b.subrange(at + 8, at + 8 + c.data.len()) =~= c.data);
    assert(context_model(b, at) =~= c);
}

proof fn lemma_list_read(pre: Seq<u8>, list: Seq<ContextModel>)
    requires
        forall|i: int| 0 <= i < list.len()
            ==> (#[trigger] list[i]).data_length == list[i].data.len(),
        pre.len() + list_bytes(list, pre.len() as int).len() <= usize::MAX,
    ensures
        list_error(
            pre + list_bytes(list, pre.len() as int),
            pre.len() as int,
            list.len() as int,
        ) is None,
        list_models(pre + list_bytes(list, pre.len() as int), pre.len() as int, list.len() as int)
            == list,
    decreases list.len(),
{
    let at = pre.len() as int;
    let b = pre + list_bytes(list, at);
    if list.len() == 0 {
        assert(list =~= Seq::<ContextModel>::empty());
    } else {
        let c = list[0];
        let rest = list.skip(1);
        let padding = wire::zeros(padding8(at));
        let piece = padding + context_bytes(c);
        let post = list_bytes(rest, at + piece.len());
        let start = pre + padding;
        assert(b =~= start + context_bytes(c) + post);
        lemma_context_read(start, c, post);
        let pre2 = pre + piece;
        assert(b =~= pre2 + post);
        assert forall|i: int| 0 <= i < rest.len() implies (#[trigger] rest[i]).data_length
            == rest[i].data.len() by {
            assert(rest[i] == list[i + 1]);
        }
        lemma_list_read(pre2, rest);
        assert(seq![c] + rest =~= list);
    }
}

/// A list that is written is read back as it was.
pub proof fn negotiate_contexts_round_trip(list: Seq<ContextModel>)
    requires
        forall|i: int| 0 <= i < list.len()
            ==> (#[trigger] list[i]).data_length == list[i].data.len(),
        list_bytes(list, 0).len() <= usize::MAX,
    ensures
        list_error(list_bytes(list, 0), 0, list.len() as int) is None,
        list_models(list_bytes(list, 0), 0, list.len() as int) == list,
{
    assert(Seq::<u8>::empty() + list_bytes(list, 0) =~= list_bytes(list, 0));
    lemma_list_read(Seq::empty(), list);
}

/// The data of a context, by its type.
#[derive(Debug, Clone, PartialEq, Eq)]
pub enum NegotiateContextData {
    PreauthIntegrity(PreauthIntegrityCapabilities),
    Encryption(EncryptionCapabilities),
    Compression(CompressionCapabilities),
    RdmaTransform(RdmaTransformCapabilities),
    Signing(SigningCapabilities),
    /// Any other context, with its bytes.
    Other { context_type: u16, data: Vec<u8> },
}

/// Hash algorithms for pre-authentication integrity.
#[derive(Debug, Clone, PartialEq, Eq)]
pub struct PreauthIntegrityCapabilities {
    pub hash_algorithm_count: u16,
    pub salt_length: u16,
    pub hash_algorithms: Vec<u16>,
    pub salt: Vec<u8>,
}

impl PreauthIntegrityCapabilities {
    pub const HASH_SHA512: u16 = 0x0001;

    /// The error that the data of a context is refused with.
    pub open spec fn parse_error(buf: Seq<u8>) -> Option<ProtoError> {
        if buf.len() < 4 || buf.len() < 4 + 2 * wire::le16(buf, 0) + wire::le16(buf, 2) {
            Some(ProtoError::Truncated)
        } else {
            None
        }
    }

    /// Whether the fields are what the data of a context holds.
    pub open spec fn decodes(&self, buf: Seq<u8>) -> bool {
        &&& self.hash_algorithm_count == wire::le16(buf, 0)
        &&& self.salt_length == wire::le16(buf, 2)
        &&& self.hash_algorithms@ == crate::proto::messages::le16_list(buf, 4, wire::le16(buf, 0))
        &&& self.salt@
            == buf.subrange(4 + 2 * wire::le16(buf, 0), 4 + 2 * wire::le16(buf, 0)
            + wire::le16(buf, 2))
    }

    /// The bytes of the data.
    pub open spec fn encoding(&self) -> Seq<u8> {
        wire::bytes16(self.hash_algorithm_count) + wire::bytes16(self.salt_length)
            + crate::proto::messages::bytes16_list(self.hash_algorithms@) + self.salt@
    }

    /// Whether the counts are those of the lists.
    pub open spec fn canonical(&self) -> bool {
        &&& self.hash_algorithm_count == self.hash_algorithms@.len()
        &&& self.salt_length == self.salt@.len()
    }

    /// Reads the data of a context.
    pub fn parse(buf: &[u8]) -> (r: ProtoResult<Self>)
        ensures
            match r {
                Ok(m) => Self::parse_error(buf@) is None && m.decodes(buf@),
                Err(e) => Self::parse_error(buf@) == Some(e),
            },
    {
        if buf.len() < 4 {
            return Err(ProtoError::Truncated);
        }
        let hash_algorithms_len: usize = wire::read_u16(buf, 0) as usize;
        let salt_len: usize = wire::read_u16(buf, 2) as usize;
        if buf.len() < 4 + 2 * hash_algorithms_len + salt_len {
            return Err(ProtoError::Truncated);
        }
        Ok(
            Self {
                hash_algorithm_count: wire::read_u16(buf, 0),
                salt_length: wire::read_u16(buf, 2),
                hash_algorithms: read_u16_list(buf, 4, hash_algorithms_len),
                salt: wire::copy_range(buf, 4 + 2 * hash_algorithms_len, 4 + 2 * hash_algorithms_len
                    + salt_len),
            },
        )
    }

    /// Appends the bytes of the data.
    pub fn write_to(&self, out: &mut Vec<u8>) -> (r: ProtoResult<()>)
        ensures
            r is Ok,
            final(out)@ == old(out)@ + self.encoding(),
    {
        wire::put_u16(out, self.hash_algorithm_count);
        wire::put_u16(out, self.salt_length);
        put_u16_list(out, self.hash_algorithms.as_slice());
        wire::put_bytes(out, self.salt.as_slice());
        assert(out@ =~= old(out)@ + self.encoding());
        Ok(())
    }
}

/// Data that is written is read back as it was.
pub proof fn preauth_integrity_capabilities_round_trips(m: PreauthIntegrityCapabilities)
    requires
        m.canonical(),
    ensures
        PreauthIntegrityCapabilities::parse_error(m.encoding()) is None,
        m.decodes(m.encoding()),
{
    let b = m.encoding();
    assert(b.subrange(0, 2) =~= wire::bytes16(m.hash_algorithm_count));
    wire::le16_of_bytes16(b, 0, m.hash_algorithm_count);
    assert(b.subrange(2, 4) =~= wire::bytes16(m.salt_length));
    wire::le16_of_bytes16(b, 2, m.salt_length);
    assert(b.subrange(4int, 4int + 2 * m.hash_algorithms@.len())
        =~= crate::proto::messages::bytes16_list(m.hash_algorithms@));
    crate::proto::messages::le16_list_of_bytes16_list(b, 4int, m.hash_algorithms@);
    assert(b.subrange(4int + 2 * m.hash_algorithms@.len(), 4int + 2 * m.hash_algorithms@.len() + m.salt@.len())
        =~= m.salt@);
}

/// Ciphers.
#[derive(Debug, Clone, PartialEq, Eq)]
pub struct EncryptionCapabilities {
    pub cipher_count: u16,
    pub ciphers: Vec<u16>,
}

impl EncryptionCapabilities {
    pub const CIPHER_AES_128_CCM: u16 = 0x0001;

    pub const CIPHER_AES_128_GCM: u16 = 0x0002;

    pub const CIPHER_AES_256_CCM: u16 = 0x0003;

    pub const CIPHER_AES_256_GCM: u16 = 0x0004;

    /// The error that the data of a context is refused with.
    pub open spec fn parse_error(buf: Seq<u8>) -> Option<ProtoError> {
        if buf.len() < 2 || buf.len() < 2 + 2 * wire::le16(buf, 0) {
            Some(ProtoError::Truncated)
        } else {
            None
        }
    }

    /// Whether the fields are what the data of a context holds.
    pub open spec fn decodes(&self, buf: Seq<u8>) -> bool {
        &&& self.cipher_count == wire::le16(buf, 0)
        &&& self.ciphers@ == crate::proto::messages::le16_list(buf, 2, wire::le16(buf, 0))
    }

    /// The bytes of the data.
    pub open spec fn encoding(&self) -> Seq<u8> {
        wire::bytes16(self.cipher_count) + crate::proto::messages::bytes16_list(self.ciphers@)
    }

    /// Whether the counts are those of the lists.
    pub open spec fn canonical(&self) -> bool {
        &&& self.cipher_count == self.ciphers@.len()
    }

    /// Reads the data of a context.
    pub fn parse(buf: &[u8]) -> (r: ProtoResult<Self>)
        ensures
            match r {
                Ok(m) => Self::parse_error(buf@) is None && m.decodes(buf@),
                Err(e) => Self::parse_error(buf@) == Some(e),
            },
    {
        if buf.len() < 2 {
            return Err(ProtoError::Truncated);
        }
        let ciphers_len: usize = wire::read_u16(buf, 0) as usize;
        if buf.len() < 2 + 2 * ciphers_len {
            return Err(ProtoError::Truncated);
        }
        Ok(
            Self {
                cipher_count: wire::read_u16(buf, 0),
                ciphers: read_u16_list(buf, 2, ciphers_len),
            },
        )
    }

    /// Appends the bytes of the data.
    pub fn write_to(&self, out: &mut Vec<u8>) -> (r: ProtoResult<()>)
        ensures
            r is Ok,
            final(out)@ == old(out)@ + self.encoding(),
    {
        wire::put_u16(out, self.cipher_count);
        put_u16_list(out, self.ciphers.as_slice());
        assert(out@ =~= old(out)@ + self.encoding());
        Ok(())
    }
}

/// Data that is written is read back as it was.
pub proof fn encryption_capabilities_round_trips(m: EncryptionCapabilities)
    requires
        m.canonical(),
    ensures
        EncryptionCapabilities::parse_error(m.encoding()) is None,
        m.decodes(m.encoding()),
{
    let b = m.encoding();
    assert(b.subrange(0, 2) =~= wire::bytes16(m.cipher_count));
    wire::le16_of_bytes16(b, 0, m.cipher_count);
    assert(b.subrange(2int, 2int + 2 * m.ciphers@.len())
        =~= crate::proto::messages::bytes16_list(m.ciphers@));
    crate::proto::messages::le16_list_of_bytes16_list(b, 2int, m.ciphers@);
}

/// Compression algorithms.
#[derive(Debug, Clone, PartialEq, Eq)]
pub struct CompressionCapabilities {
    pub compression_algorithm_count: u16,
    pub padding: u16,
    pub flags: u32,
    pub compression_algorithms: Vec<u16>,
}

impl CompressionCapabilities {
    pub const FLAG_CHAINED: u32 = 0x0000_0001;

    pub const ALGORITHM_NONE: u16 = 0x0000;

    pub const ALGORITHM_LZNT1: u16 = 0x0001;

    pub const ALGORITHM_LZ77: u16 = 0x0002;

    pub const ALGORITHM_LZ77_HUFFMAN: u16 = 0x0003;

    pub const ALGORITHM_PATTERN_V1: u16 = 0x0004;

    pub const ALGORITHM_LZ4: u16 = 0x0005;

    /// The error that the data of a context is refused with.
    pub open spec fn parse_error(buf: Seq<u8>) -> Option<ProtoError> {
        if buf.len() < 8 || buf.len() < 8 + 2 * wire::le16(buf, 0) {
            Some(ProtoError::Truncated)
        } else {
            None
        }
    }

    /// Whether the fields are what the data of a context holds.
    pub open spec fn decodes(&self, buf: Seq<u8>) -> bool {
        &&& self.compression_algorithm_count == wire::le16(buf, 0)
        &&& self.padding == wire::le16(buf, 2)
        &&& self.flags == wire::le32(buf, 4)
        &&& self.compression_algorithms@
            == crate::proto::messages::le16_list(buf, 8, wire::le16(buf, 0))
    }

    /// The bytes of the data.
    pub open spec fn encoding(&self) -> Seq<u8> {
        wire::bytes16(self.compression_algorithm_count) + wire::bytes16(self.padding)
            + wire::bytes32(self.flags)
            + crate::proto::messages::bytes16_list(self.compression_algorithms@)
    }

    /// Whether the counts are those of the lists.
    pub open spec fn canonical(&self) -> bool {
        &&& self.compression_algorithm_count == self.compression_algorithms@.len()
    }

    /// Reads the data of a context.
    pub fn parse(buf: &[u8]) -> (r: ProtoResult<Self>)
        ensures
            match r {
                Ok(m) => Self::parse_error(buf@) is None && m.decodes(buf@),
                Err(e) => Self::parse_error(buf@) == Some(e),
            },
    {
        if buf.len() < 8 {
            return Err(ProtoError::Truncated);
        }
        let compression_algorithms_len: usize = wire::read_u16(buf, 0) as usize;
        if buf.len() < 8 + 2 * compression_algorithms_len {
            return Err(ProtoError::Truncated);
        }
        Ok(
            Self {
                compression_algorithm_count: wire::read_u16(buf, 0),
                padding: wire::read_u16(buf, 2),
                flags: wire::read_u32(buf, 4),
                compression_algorithms: read_u16_list(buf, 8, compression_algorithms_len),
            },
        )
    }

    /// Appends the bytes of the data.
    pub fn write_to(&self, out: &mut Vec<u8>) -> (r: ProtoResult<()>)
        ensures
            r is Ok,
            final(out)@ == old(out)@ + self.encoding(),
    {
        wire::put_u16(out, self.compression_algorithm_count);
        wire::put_u16(out, self.padding);
        wire::put_u32(out, self.flags);
        put_u16_list(out, self.compression_algorithms.as_slice());
        assert(out@ =~= old(out)@ + self.encoding());
        Ok(())
    }
}

/// Data that is written is read back as it was.
pub proof fn compression_capabilities_round_trips(m: CompressionCapabilities)
    requires
        m.canonical(),
    ensures
        CompressionCapabilities::parse_error(m.encoding()) is None,
        m.decodes(m.encoding()),
{
    let b = m.encoding();
    assert(b.subrange(0, 2) =~= wire::bytes16(m.compression_algorithm_count));
    wire::le16_of_bytes16(b, 0, m.compression_algorithm_count);
    assert(b.subrange(2, 4) =~= wire::bytes16(m.padding));
    wire::le16_of_bytes16(b, 2, m.padding);
    assert(b.subrange(4, 8) =~= wire::bytes32(m.flags));
    wire::le32_of_bytes32(b, 4, m.flags);
    assert(b.subrange(8int, 8int + 2 * m.compression_algorithms@.len())
        =~= crate::proto::messages::bytes16_list(m.compression_algorithms@));
    crate::proto::messages::le16_list_of_bytes16_list(b, 8int, m.compression_algorithms@);
}

/// Transforms over RDMA.
#[derive(Debug, Clone, PartialEq, Eq)]
pub struct RdmaTransformCapabilities {
    pub transform_count: u16,
    pub reserved1: u16,
    pub reserved2: u32,
    pub rdma_transform_ids: Vec<u16>,
}

impl RdmaTransformCapabilities {
    pub const TRANSFORM_NONE: u16 = 0x0000;

    pub const TRANSFORM_ENCRYPTION: u16 = 0x0001;

    pub const TRANSFORM_SIGNING: u16 = 0x0002;

    /// The error that the data of a context is refused with.
    pub open spec fn parse_error(buf: Seq<u8>) -> Option<ProtoError> {
        if buf.len() < 8 || buf.len() < 8 + 2 * wire::le16(buf, 0) {
            Some(ProtoError::Truncated)
        } else {
            None
        }
    }

    /// Whether the fields are what the data of a context holds.
    pub open spec fn decodes(&self, buf: Seq<u8>) -> bool {
        &&& self.transform_count == wire::le16(buf, 0)
        &&& self.reserved1 == wire::le16(buf, 2)
        &&& self.reserved2 == wire::le32(buf, 4)
        &&& self.rdma_transform_ids@
            == crate::proto::messages::le16_list(buf, 8, wire::le16(buf, 0))
    }

    /// The bytes of the data.
    pub open spec fn encoding(&self) -> Seq<u8> {
        wire::bytes16(self.transform_count) + wire::bytes16(self.reserved1)
            + wire::bytes32(self.reserved2)
            + crate::proto::messages::bytes16_list(self.rdma_transform_ids@)
    }

    /// Whether the counts are those of the lists.
    pub open spec fn canonical(&self) -> bool {
        &&& self.transform_count == self.rdma_transform_ids@.len()
    }

    /// Reads the data of a context.
    pub fn parse(buf: &[u8]) -> (r: ProtoResult<Self>)
        ensures
            match r {
                Ok(m) => Self::parse_error(buf@) is None && m.decodes(buf@),
                Err(e) => Self::parse_error(buf@) == Some(e),
            },
    {
        if buf.len() < 8 {
            return Err(ProtoError::Truncated);
        }
        let rdma_transform_ids_len: usize = wire::read_u16(buf, 0) as usize;
        if buf.len() < 8 + 2 * rdma_transform_ids_len {
            return Err(ProtoError::Truncated);
        }
        Ok(
            Self {
                transform_count: wire::read_u16(buf, 0),
                reserved1: wire::read_u16(buf, 2),
                reserved2: wire::read_u32(buf, 4),
                rdma_transform_ids: read_u16_list(buf, 8, rdma_transform_ids_len),
            },
        )
    }

    /// Appends the bytes of the data.
    pub fn write_to(&self, out: &mut Vec<u8>) -> (r: ProtoResult<()>)
        ensures
            r is Ok,
            final(out)@ == old(out)@ + self.encoding(),
    {
        wire::put_u16(out, self.transform_count);
        wire::put_u16(out, self.reserved1);
        wire::put_u32(out, self.reserved2);
        put_u16_list(out, self.rdma_transform_ids.as_slice());
        assert(out@ =~= old(out)@ + self.encoding());
        Ok(())
    }
}

/// Data that is written is read back as it was.
pub proof fn rdma_transform_capabilities_round_trips(m: RdmaTransformCapabilities)
    requires
        m.canonical(),
    ensures
        RdmaTransformCapabilities::parse_error(m.encoding()) is None,
        m.decodes(m.encoding()),
{
    let b = m.encoding();
    assert(b.subrange(0, 2) =~= wire::bytes16(m.transform_count));
    wire::le16_of_bytes16(b, 0, m.transform_count);
    assert(b.subrange(2, 4) =~= wire::bytes16(m.reserved1));
    wire::le16_of_bytes16(b, 2, m.reserved1);
    assert(b.subrange(4, 8) =~= wire::bytes32(m.reserved2));
    wire::le32_of_bytes32(b, 4, m.reserved2);
    assert(b.subrange(8int, 8int + 2 * m.rdma_transform_ids@.len())
        =~= crate::proto::messages::bytes16_list(m.rdma_transform_ids@));
    crate::proto::messages::le16_list_of_bytes16_list(b, 8int, m.rdma_transform_ids@);
}

/// Signing algorithms.
#[derive(Debug, Clone, PartialEq, Eq)]
pub struct SigningCapabilities {
    pub signing_algorithm_count: u16,
    pub signing_algorithms: Vec<u16>,
}

impl SigningCapabilities {
    pub const ALGORITHM_HMAC_SHA256: u16 = 0x0000;

    pub const ALGORITHM_AES_CMAC: u16 = 0x0001;

    pub const ALGORITHM_AES_GMAC: u16 = 0x0002;

    /// The error that the data of a context is refused with.
    pub open spec fn parse_error(buf: Seq<u8>) -> Option<ProtoError> {
        if buf.len() < 2 || buf.len() < 2 + 2 * wire::le16(buf, 0) {
            Some(ProtoError::Truncated)
        } else {
            None
        }
    }

    /// Whether the fields are what the data of a context holds.
    pub open spec fn decodes(&self, buf: Seq<u8>) -> bool {
        &&& self.signing_algorithm_count == wire::le16(buf, 0)
        &&& self.signing_algorithms@
            == crate::proto::messages::le16_list(buf, 2, wire::le16(buf, 0))
    }

    /// The bytes of the data.
    pub open spec fn encoding(&self) -> Seq<u8> {
        wire::bytes16(self.signing_algorithm_count)
            + crate::proto::messages::bytes16_list(self.signing_algorithms@)
    }

    /// Whether the counts are those of the lists.
    pub open spec fn canonical(&self) -> bool {
        &&& self.signing_algorithm_count == self.signing_algorithms@.len()
    }

    /// Reads the data of a context.
    pub fn parse(buf: &[u8]) -> (r: ProtoResult<Self>)
        ensures
            match r {
                Ok(m) => Self::parse_error(buf@) is None && m.decodes(buf@),
                Err(e) => Self::parse_error(buf@) == Some(e),
            },
    {
        if buf.len() < 2 {
            return Err(ProtoError::Truncated);
        }
        let signing_algorithms_len: usize = wire::read_u16(buf, 0) as usize;
        if buf.len() < 2 + 2 * signing_algorithms_len {
            return Err(ProtoError::Truncated);
        }
        Ok(
            Self {
                signing_algorithm_count: wire::read_u16(buf, 0),
                signing_algorithms: read_u16_list(buf, 2, signing_algorithms_len),
            },
        )
    }

    /// Appends the bytes of the data.
    pub fn write_to(&self, out: &mut Vec<u8>) -> (r: ProtoResult<()>)
        ensures
            r is Ok,
            final(out)@ == old(out)@ + self.encoding(),
    {
        wire::put_u16(out, self.signing_algorithm_count);
        put_u16_list(out, self.signing_algorithms.as_slice());
        assert(out@ =~= old(out)@ + self.encoding());
        Ok(())
    }
}

/// Data that is written is read back as it was.
pub proof fn signing_capabilities_round_trips(m: SigningCapabilities)
    requires
        m.canonical(),
    ensures
        SigningCapabilities::parse_error(m.encoding()) is None,
        m.decodes(m.encoding()),
{
    let b = m.encoding();
    assert(b.subrange(0, 2) =~= wire::bytes16(m.signing_algorithm_count));
    wire::le16_of_bytes16(b, 0, m.signing_algorithm_count);
    assert(b.subrange(2int, 2int + 2 * m.signing_algorithms@.len())
        =~= crate::proto::messages::bytes16_list(m.signing_algorithms@));
    crate::proto::messages::le16_list_of_bytes16_list(b, 2int, m.signing_algorithms@);
}

} // verus!
