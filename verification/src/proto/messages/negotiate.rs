//! NEGOTIATE request and response, and the dialects.

use crate::proto::error::{ProtoError, ProtoResult};
use crate::proto::messages::negotiate_context;
use crate::proto::messages::negotiate_context::NegotiateContext;
use crate::proto::messages::{locate_buffer, put_u16_list, read_u16_list};
use crate::wire;
use vstd::prelude::*;
use vstd::slice::slice_subrange;

verus! {

/// Dialects of the protocol.
#[derive(Debug, Clone, Copy, PartialEq, Eq, Hash, Structural)]
pub enum Dialect {
    Smb202,
    Smb210,
    Smb300,
    Smb302,
    Smb311,
    /// Sent through SMB1 negotiation by clients that know several dialects.
    Smb2Wildcard,
}

impl Dialect {
    /// The code on the wire.
    pub open spec fn code(self) -> u16 {
        match self {
            Self::Smb202 => 0x0202,
            Self::Smb210 => 0x0210,
            Self::Smb300 => 0x0300,
            Self::Smb302 => 0x0302,
            Self::Smb311 => 0x0311,
            Self::Smb2Wildcard => 0x02FF,
        }
    }

    /// The value of a code, `None` where the code has none.
    pub open spec fn of_code(v: u16) -> Option<Self> {
        if v == 0x0202 {
            Some(Self::Smb202)
        } else if v == 0x0210 {
            Some(Self::Smb210)
        } else if v == 0x0300 {
            Some(Self::Smb300)
        } else if v == 0x0302 {
            Some(Self::Smb302)
        } else if v == 0x0311 {
            Some(Self::Smb311)
        } else if v == 0x02FF {
            Some(Self::Smb2Wildcard)
        } else {
            None
        }
    }

    /// The dialect of a revision code.
    pub fn from_u16(v: u16) -> (r: Option<Self>)
        ensures
            r == Self::of_code(v),
    {
        match v {
            0x0202 => Some(Self::Smb202),
            0x0210 => Some(Self::Smb210),
            0x0300 => Some(Self::Smb300),
            0x0302 => Some(Self::Smb302),
            0x0311 => Some(Self::Smb311),
            0x02FF => Some(Self::Smb2Wildcard),
            _ => None,
        }
    }

    /// The code on the wire.
    pub fn as_u16(self) -> (r: u16)
        ensures
            r == self.code(),
    {
        match self {
            Self::Smb202 => 0x0202,
            Self::Smb210 => 0x0210,
            Self::Smb300 => 0x0300,
            Self::Smb302 => 0x0302,
            Self::Smb311 => 0x0311,
            Self::Smb2Wildcard => 0x02FF,
        }
    }
}

/// A value is found again by its code, and only by it.
pub proof fn dialect_codes_round_trip(x: Dialect, v: u16)
    ensures
        Dialect::of_code(x.code()) == Some(x),
        Dialect::of_code(v) == Some(x) ==> x.code() == v,
{
}

/// NEGOTIATE request. Contexts, if any, follow the dialects.
#[derive(Debug, Clone, PartialEq, Eq)]
pub struct NegotiateRequest {
    pub structure_size: u16,
    pub dialect_count: u16,
    pub security_mode: u16,
    pub reserved: u16,
    pub capabilities: u32,
    pub client_guid: [u8; 16],
    /// Where the contexts start and how many there are, in SMB 3.1.1.
    pub negotiate_context_offset_or_client_start_time: u64,
    /// Dialect revision codes.
    pub dialects: Vec<u16>,
}

impl NegotiateRequest {
    /// The error that a body is refused with.
    pub open spec fn parse_error(buf: Seq<u8>) -> Option<ProtoError> {
        if buf.len() < 36 {
            Some(ProtoError::Malformed("negotiate request too short"))
        } else if wire::le16(buf, 0) != 36 {
            Some(ProtoError::Malformed("negotiate request structure_size != 36"))
        } else if 36 + 2 * wire::le16(buf, 2) > buf.len() {
            Some(ProtoError::Malformed("negotiate request dialects truncated"))
        } else {
            Self::context_error(buf)
        }
    }

    /// Whether the fields are what a body holds.
    pub open spec fn decodes(&self, buf: Seq<u8>) -> bool {
        &&& self.structure_size == wire::le16(buf, 0)
        &&& self.dialect_count == wire::le16(buf, 2)
        &&& self.security_mode == wire::le16(buf, 4)
        &&& self.reserved == wire::le16(buf, 6)
        &&& self.capabilities == wire::le32(buf, 8)
        &&& self.client_guid@ == buf.subrange(12, 28)
        &&& self.negotiate_context_offset_or_client_start_time == wire::le64(buf, 28)
        &&& self.dialects@ == crate::proto::messages::le16_list(buf, 36, self.dialect_count as int)
    }

    /// The bytes of the body.
    pub open spec fn encoding(&self) -> Seq<u8> {
        wire::bytes16(self.structure_size) + wire::bytes16(self.dialect_count) + wire::bytes16(
            self.security_mode,
        ) + wire::bytes16(self.reserved) + wire::bytes32(self.capabilities) + self.client_guid@
            + wire::bytes64(self.negotiate_context_offset_or_client_start_time)
            + crate::proto::messages::bytes16_list(self.dialects@)
    }

    /// Whether the dialects have the number that the count gives.
    pub open spec fn canonical(&self) -> bool {
        &&& self.structure_size == 36
        &&& self.dialect_count == self.dialects@.len()
    }

    /// Why the contexts behind a body are refused.
    pub open spec fn context_error(buf: Seq<u8>) -> Option<ProtoError> {
        let count = wire::le16(buf, 32);
        let offset = wire::le32(buf, 28);
        if count == 0 {
            None
        } else if offset < 64 {
            Some(ProtoError::Malformed("negotiate request context offset before SMB2 body"))
        } else if offset - 64 < 36 || offset - 64 > buf.len() {
            Some(ProtoError::Malformed("negotiate request context offset out of range"))
        } else {
            negotiate_context::list_error(
                buf.subrange(offset - 64, buf.len() as int),
                0,
                count,
            )
        }
    }

    /// Checks the contexts behind a body.
    fn check_contexts(buf: &[u8]) -> (r: ProtoResult<()>)
        requires
            buf@.len() >= 36,
        ensures
            match r {
                Ok(_) => Self::context_error(buf@) is None,
                Err(e) => Self::context_error(buf@) == Some(e),
            },
    {
        let count: u16 = wire::read_u16(buf, 32);
        let offset: usize = wire::read_u32(buf, 28) as usize;
        if count == 0 {
            return Ok(());
        }
        if offset < 64 {
            return Err(ProtoError::Malformed("negotiate request context offset before SMB2 body"));
        }
        let start: usize = offset - 64;
        if start < 36 || start > buf.len() {
            return Err(ProtoError::Malformed("negotiate request context offset out of range"));
        }
        match NegotiateContext::parse_list(slice_subrange(buf, start, buf.len()), count) {
            Ok(_) => Ok(()),
            Err(e) => Err(e),
        }
    }

    /// Reads a body.
    pub fn parse(buf: &[u8]) -> (r: ProtoResult<Self>)
        ensures
            match r {
                Ok(m) => Self::parse_error(buf@) is None && m.decodes(buf@),
                Err(e) => Self::parse_error(buf@) == Some(e),
            },
    {
        if buf.len() < 36 {
            return Err(ProtoError::Malformed("negotiate request too short"));
        }
        if wire::read_u16(buf, 0) != 36 {
            return Err(ProtoError::Malformed("negotiate request structure_size != 36"));
        }
        let dialect_count: u16 = wire::read_u16(buf, 2);
        if 36 + 2 * (dialect_count as usize) > buf.len() {
            return Err(ProtoError::Malformed("negotiate request dialects truncated"));
        }
        match Self::check_contexts(buf) {
            Ok(_) => {},
            Err(e) => {
                return Err(e);
            },
        }
        Ok(
            Self {
                structure_size: wire::read_u16(buf, 0),
                dialect_count,
                security_mode: wire::read_u16(buf, 4),
                reserved: wire::read_u16(buf, 6),
                capabilities: wire::read_u32(buf, 8),
                client_guid: wire::read_array16(buf, 12),
                negotiate_context_offset_or_client_start_time: wire::read_u64(buf, 28),
                dialects: read_u16_list(buf, 36, dialect_count as usize),
            },
        )
    }

    /// Appends the bytes of the body.
    pub fn write_to(&self, out: &mut Vec<u8>) -> (r: ProtoResult<()>)
        ensures
            r is Ok,
            final(out)@ == old(out)@ + self.encoding(),
    {
        wire::put_u16(out, self.structure_size);
        wire::put_u16(out, self.dialect_count);
        wire::put_u16(out, self.security_mode);
        wire::put_u16(out, self.reserved);
        wire::put_u32(out, self.capabilities);
        wire::put_bytes(out, self.client_guid.as_slice());
        wire::put_u64(out, self.negotiate_context_offset_or_client_start_time);
        put_u16_list(out, self.dialects.as_slice());
        assert(out@ =~= old(out)@ + self.encoding());
        Ok(())
    }
}

/// A body that is written in its canonical layout is read back as it was, whatever
/// contexts follow it; only those can be refused.
pub proof fn negotiate_request_round_trips(m: NegotiateRequest, tail: Seq<u8>)
    requires
        m.canonical(),
    ensures
        NegotiateRequest::parse_error(m.encoding() + tail) == NegotiateRequest::context_error(
            m.encoding() + tail,
        ),
        m.decodes(m.encoding() + tail),
{
    let b = m.encoding() + tail;
    assert(m.encoding().len() == 36 + 2 * m.dialects@.len());
    assert(b.subrange(0, 2) =~= wire::bytes16(m.structure_size));
    wire::le16_of_bytes16(b, 0, m.structure_size);
    assert(b.subrange(2, 4) =~= wire::bytes16(m.dialect_count));
    wire::le16_of_bytes16(b, 2, m.dialect_count);
    assert(b.subrange(4, 6) =~= wire::bytes16(m.security_mode));
    wire::le16_of_bytes16(b, 4, m.security_mode);
    assert(b.subrange(6, 8) =~= wire::bytes16(m.reserved));
    wire::le16_of_bytes16(b, 6, m.reserved);
    assert(b.subrange(8, 12) =~= wire::bytes32(m.capabilities));
    wire::le32_of_bytes32(b, 8, m.capabilities);
    assert(b.subrange(12, 28) =~= m.client_guid@);
    assert(b.subrange(28, 36) =~= wire::bytes64(m.negotiate_context_offset_or_client_start_time));
    wire::le64_of_bytes64(b, 28, m.negotiate_context_offset_or_client_start_time);
    assert(b.subrange(36, 36int + 2 * m.dialects@.len()) =~= crate::proto::messages::bytes16_list(
        m.dialects@,
    ));
    crate::proto::messages::le16_list_of_bytes16_list(b, 36, m.dialects@);
}

/// NEGOTIATE response. Contexts, if any, follow the security buffer.
#[derive(Debug, Clone, PartialEq, Eq)]
pub struct NegotiateResponse {
    pub structure_size: u16,
    pub security_mode: u16,
    pub dialect_revision: u16,
    /// Number of contexts, in SMB 3.1.1.
    pub negotiate_context_count_or_reserved: u16,
    pub server_guid: [u8; 16],
    pub capabilities: u32,
    pub max_transact_size: u32,
    pub max_read_size: u32,
    pub max_write_size: u32,
    /// Ticks of 100 ns since 1601.
    pub system_time: u64,
    pub server_start_time: u64,
    pub security_buffer_offset: u16,
    pub security_buffer_length: u16,
    /// Where the contexts start, in SMB 3.1.1.
    pub negotiate_context_offset_or_reserved2: u32,
    pub security_buffer: Vec<u8>,
}

impl NegotiateResponse {
    /// The error that a body is refused with.
    pub open spec fn parse_error(buf: Seq<u8>) -> Option<ProtoError> {
        if buf.len() < 64 {
            Some(ProtoError::Malformed("negotiate response too short"))
        } else if wire::le16(buf, 0) != 65 {
            Some(ProtoError::Malformed("negotiate response structure_size != 65"))
        } else if wire::le16(buf, 58) != 0
            && crate::proto::messages::buffer_error(buf.len() as int, wire::le16(buf, 56) as int,
            wire::le16(buf, 58) as int, 64,
            "negotiate response security buffer offset before SMB2 body",
            "negotiate response security buffer range overflow",
            "negotiate response security buffer out of range") is Some {
            crate::proto::messages::buffer_error(buf.len() as int, wire::le16(buf, 56) as int,
                wire::le16(buf, 58) as int, 64,
                "negotiate response security buffer offset before SMB2 body",
                "negotiate response security buffer range overflow",
                "negotiate response security buffer out of range")
        } else if Self::context_error(buf) is Some {
            Self::context_error(buf)
        } else {
            None
        }
    }

    /// Whether the fields are what a body holds.
    pub open spec fn decodes(&self, buf: Seq<u8>) -> bool {
        &&& self.structure_size == wire::le16(buf, 0)
        &&& self.security_mode == wire::le16(buf, 2)
        &&& self.dialect_revision == wire::le16(buf, 4)
        &&& self.negotiate_context_count_or_reserved == wire::le16(buf, 6)
        &&& self.server_guid@ == buf.subrange(8, 24)
        &&& self.capabilities == wire::le32(buf, 24)
        &&& self.max_transact_size == wire::le32(buf, 28)
        &&& self.max_read_size == wire::le32(buf, 32)
        &&& self.max_write_size == wire::le32(buf, 36)
        &&& self.system_time == wire::le64(buf, 40)
        &&& self.server_start_time == wire::le64(buf, 48)
        &&& self.security_buffer_offset == wire::le16(buf, 56)
        &&& self.security_buffer_length == wire::le16(buf, 58)
        &&& self.negotiate_context_offset_or_reserved2 == wire::le32(buf, 60)
        &&& self.security_buffer@ == if self.security_buffer_length == 0 {
            Seq::empty()
        } else {
            buf.subrange(self.security_buffer_offset - 64, self.security_buffer_offset - 64
                + self.security_buffer_length)
        }
    }

    /// The bytes of the body.
    pub open spec fn encoding(&self) -> Seq<u8> {
        wire::bytes16(self.structure_size) + wire::bytes16(self.security_mode)
            + wire::bytes16(self.dialect_revision)
            + wire::bytes16(self.negotiate_context_count_or_reserved) + self.server_guid@
            + wire::bytes32(self.capabilities) + wire::bytes32(self.max_transact_size)
            + wire::bytes32(self.max_read_size) + wire::bytes32(self.max_write_size)
            + wire::bytes64(self.system_time) + wire::bytes64(self.server_start_time)
            + wire::bytes16(self.security_buffer_offset)
            + wire::bytes16(self.security_buffer_length)
            + wire::bytes32(self.negotiate_context_offset_or_reserved2) + self.security_buffer@
    }

    /// Whether the counted parts follow the fixed part and have the lengths that
    /// the fields give.
    pub open spec fn canonical(&self) -> bool {
        &&& self.structure_size == 65
        &&& self.security_buffer_length == self.security_buffer@.len()
        &&& self.security_buffer_length != 0 ==> self.security_buffer_offset == 128
    }

    /// Reads a body.
    pub fn parse(buf: &[u8]) -> (r: ProtoResult<Self>)
        ensures
            match r {
                Ok(m) => Self::parse_error(buf@) is None && m.decodes(buf@),
                Err(e) => Self::parse_error(buf@) == Some(e),
            },
    {
        if buf.len() < 64 {
            return Err(ProtoError::Malformed("negotiate response too short"));
        }
        if wire::read_u16(buf, 0) != 65 {
            return Err(ProtoError::Malformed("negotiate response structure_size != 65"));
        }
        let security_buffer: Vec<u8> = if wire::read_u16(buf, 58) == 0 {
            Vec::new()
        } else {
            match locate_buffer(buf.len(), wire::read_u16(buf, 56) as usize,
                wire::read_u16(buf, 58) as usize, 64,
                "negotiate response security buffer offset before SMB2 body",
                "negotiate response security buffer range overflow",
                "negotiate response security buffer out of range") {
                Ok((start, end)) => wire::copy_range(buf, start, end),
                Err(e) => {
                    return Err(e);
                },
            }
        };
        match Self::check_contexts(buf) {
            Ok(_) => {},
            Err(e) => {
                return Err(e);
            },
        }
        Ok(
            Self {
                structure_size: wire::read_u16(buf, 0),
                security_mode: wire::read_u16(buf, 2),
                dialect_revision: wire::read_u16(buf, 4),
                negotiate_context_count_or_reserved: wire::read_u16(buf, 6),
                server_guid: wire::read_array16(buf, 8),
                capabilities: wire::read_u32(buf, 24),
                max_transact_size: wire::read_u32(buf, 28),
                max_read_size: wire::read_u32(buf, 32),
                max_write_size: wire::read_u32(buf, 36),
                system_time: wire::read_u64(buf, 40),
                server_start_time: wire::read_u64(buf, 48),
                security_buffer_offset: wire::read_u16(buf, 56),
                security_buffer_length: wire::read_u16(buf, 58),
                negotiate_context_offset_or_reserved2: wire::read_u32(buf, 60),
                security_buffer,
            },
        )
    }

    /// Appends the bytes of the body.
    pub fn write_to(&self, out: &mut Vec<u8>) -> (r: ProtoResult<()>)
        ensures
            r is Ok,
            final(out)@ == old(out)@ + self.encoding(),
    {
        wire::put_u16(out, self.structure_size);
        wire::put_u16(out, self.security_mode);
        wire::put_u16(out, self.dialect_revision);
        wire::put_u16(out, self.negotiate_context_count_or_reserved);
        wire::put_bytes(out, self.server_guid.as_slice());
        wire::put_u32(out, self.capabilities);
        wire::put_u32(out, self.max_transact_size);
        wire::put_u32(out, self.max_read_size);
        wire::put_u32(out, self.max_write_size);
        wire::put_u64(out, self.system_time);
        wire::put_u64(out, self.server_start_time);
        wire::put_u16(out, self.security_buffer_offset);
        wire::put_u16(out, self.security_buffer_length);
        wire::put_u32(out, self.negotiate_context_offset_or_reserved2);
        wire::put_bytes(out, self.security_buffer.as_slice());
        assert(out@ =~= old(out)@ + self.encoding());
        Ok(())
    }

    /// Why the contexts behind a body are refused.
    pub open spec fn context_error(buf: Seq<u8>) -> Option<ProtoError> {
        let count = wire::le16(buf, 6);
        let offset = wire::le32(buf, 60);
        if count == 0 {
            None
        } else if offset < 64 {
            Some(ProtoError::Malformed("negotiate response context offset before SMB2 body"))
        } else if offset - 64 < 64 || offset - 64 > buf.len() {
            Some(ProtoError::Malformed("negotiate response context offset out of range"))
        } else {
            negotiate_context::list_error(
                buf.subrange(offset - 64, buf.len() as int),
                0,
                count,
            )
        }
    }

    /// Checks the contexts behind a body.
    fn check_contexts(buf: &[u8]) -> (r: ProtoResult<()>)
        requires
            buf@.len() >= 64,
        ensures
            match r {
                Ok(_) => Self::context_error(buf@) is None,
                Err(e) => Self::context_error(buf@) == Some(e),
            },
    {
        let count: u16 = wire::read_u16(buf, 6);
        let offset: usize = wire::read_u32(buf, 60) as usize;
        if count == 0 {
            return Ok(());
        }
        if offset < 64 {
            return Err(ProtoError::Malformed("negotiate response context offset before SMB2 body"));
        }
        let start: usize = offset - 64;
        if start < 64 || start > buf.len() {
            return Err(ProtoError::Malformed("negotiate response context offset out of range"));
        }
        match NegotiateContext::parse_list(slice_subrange(buf, start, buf.len()), count) {
            Ok(_) => Ok(()),
            Err(e) => Err(e),
        }
    }
}

/// A body that is written in its canonical layout is read back as it was, whatever
/// contexts follow it; only those can be refused.
#[verifier::rlimit(60)]
#[verifier::spinoff_prover]
pub proof fn negotiate_response_round_trips(m: NegotiateResponse, tail: Seq<u8>)
    requires
        m.canonical(),
        (m.encoding() + tail).len() <= usize::MAX,
    ensures
        NegotiateResponse::parse_error(m.encoding() + tail)
            == NegotiateResponse::context_error(m.encoding() + tail),
        m.decodes(m.encoding() + tail),
{
    let b = m.encoding() + tail;
    assert(m.encoding().len() == 64 + m.security_buffer@.len());
    assert(b.subrange(0, 2) =~= wire::bytes16(m.structure_size));
    wire::le16_of_bytes16(b, 0, m.structure_size);
    assert(b.subrange(2, 4) =~= wire::bytes16(m.security_mode));
    wire::le16_of_bytes16(b, 2, m.security_mode);
    assert(b.subrange(4, 6) =~= wire::bytes16(m.dialect_revision));
    wire::le16_of_bytes16(b, 4, m.dialect_revision);
    assert(b.subrange(6, 8) =~= wire::bytes16(m.negotiate_context_count_or_reserved));
    wire::le16_of_bytes16(b, 6, m.negotiate_context_count_or_reserved);
    assert(b.subrange(8, 24) =~= m.server_guid@);
    assert(b.subrange(24, 28) =~= wire::bytes32(m.capabilities));
    wire::le32_of_bytes32(b, 24, m.capabilities);
    assert(b.subrange(28, 32) =~= wire::bytes32(m.max_transact_size));
    wire::le32_of_bytes32(b, 28, m.max_transact_size);
    assert(b.subrange(32, 36) =~= wire::bytes32(m.max_read_size));
    wire::le32_of_bytes32(b, 32, m.max_read_size);
    assert(b.subrange(36, 40) =~= wire::bytes32(m.max_write_size));
    wire::le32_of_bytes32(b, 36, m.max_write_size);
    assert(b.subrange(40, 48) =~= wire::bytes64(m.system_time));
    wire::le64_of_bytes64(b, 40, m.system_time);
    assert(b.subrange(48, 56) =~= wire::bytes64(m.server_start_time));
    wire::le64_of_bytes64(b, 48, m.server_start_time);
    assert(b.subrange(56, 58) =~= wire::bytes16(m.security_buffer_offset));
    wire::le16_of_bytes16(b, 56, m.security_buffer_offset);
    assert(b.subrange(58, 60) =~= wire::bytes16(m.security_buffer_length));
    wire::le16_of_bytes16(b, 58, m.security_buffer_length);
    assert(b.subrange(60, 64) =~= wire::bytes32(m.negotiate_context_offset_or_reserved2));
    wire::le32_of_bytes32(b, 60, m.negotiate_context_offset_or_reserved2);
    assert(b.subrange(64int, 64int + m.security_buffer@.len()) =~= m.security_buffer@);
    assert(m.security_buffer_length == 0 ==> m.security_buffer@ =~= Seq::<u8>::empty());
}

} // verus!
