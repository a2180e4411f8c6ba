//! SESSION_SETUP request and response.

use crate::proto::error::{ProtoError, ProtoResult};
use crate::proto::messages::locate_buffer;
use crate::wire;
use vstd::prelude::*;

verus! {

/// SESSION_SETUP request; the security buffer is opaque here.
#[derive(Debug, Clone, PartialEq, Eq)]
pub struct SessionSetupRequest {
    pub structure_size: u16,
    pub flags: u8,
    pub security_mode: u8,
    pub capabilities: u32,
    pub channel: u32,
    pub security_buffer_offset: u16,
    pub security_buffer_length: u16,
    pub previous_session_id: u64,
    pub security_buffer: Vec<u8>,
}

impl SessionSetupRequest {
    /// Flag: bind the connection to an existing session.
    pub const FLAG_BINDING: u8 = 0x01;

    /// The error that a body is refused with.
    pub open spec fn parse_error(buf: Seq<u8>) -> Option<ProtoError> {
        if buf.len() < 24 {
            Some(ProtoError::Malformed("session setup request too short"))
        } else if wire::le16(buf, 0) != 25 {
            Some(ProtoError::Malformed("session setup request structure_size != 25"))
        } else if crate::proto::messages::buffer_error(buf.len() as int, wire::le16(buf, 12) as int,
            wire::le16(buf, 14) as int, 24,
            "session setup request security buffer offset before SMB2 body",
            "session setup request security buffer range overflow",
            "session setup request security buffer out of range") is Some {
            crate::proto::messages::buffer_error(buf.len() as int, wire::le16(buf, 12) as int,
                wire::le16(buf, 14) as int, 24,
                "session setup request security buffer offset before SMB2 body",
                "session setup request security buffer range overflow",
                "session setup request security buffer out of range")
        } else {
            None
        }
    }

    /// Whether the fields are what a body holds.
    pub open spec fn decodes(&self, buf: Seq<u8>) -> bool {
        &&& self.structure_size == wire::le16(buf, 0)
        &&& self.flags == buf[2]
        &&& self.security_mode == buf[3]
        &&& self.capabilities == wire::le32(buf, 4)
        &&& self.channel == wire::le32(buf, 8)
        &&& self.security_buffer_offset == wire::le16(buf, 12)
        &&& self.security_buffer_length == wire::le16(buf, 14)
        &&& self.previous_session_id == wire::le64(buf, 16)
        &&& self.security_buffer@
            == buf.subrange(self.security_buffer_offset - 64, self.security_buffer_offset - 64
            + self.security_buffer_length)
    }

    /// The bytes of the body.
    pub open spec fn encoding(&self) -> Seq<u8> {
        wire::bytes16(self.structure_size) + seq![self.flags] + seq![self.security_mode]
            + wire::bytes32(self.capabilities) + wire::bytes32(self.channel)
            + wire::bytes16(self.security_buffer_offset)
            + wire::bytes16(self.security_buffer_length) + wire::bytes64(self.previous_session_id)
            + self.security_buffer@
    }

    /// Whether the counted parts follow the fixed part and have the lengths that
    /// the fields give.
    pub open spec fn canonical(&self) -> bool {
        &&& self.structure_size == 25
        &&& self.security_buffer_length == self.security_buffer@.len()
        &&& self.security_buffer_offset == 88
    }

    /// Reads a body.
    pub fn parse(buf: &[u8]) -> (r: ProtoResult<Self>)
        ensures
            match r {
                Ok(m) => Self::parse_error(buf@) is None && m.decodes(buf@),
                Err(e) => Self::parse_error(buf@) == Some(e),
            },
    {
        if buf.len() < 24 {
            return Err(ProtoError::Malformed("session setup request too short"));
        }
        if wire::read_u16(buf, 0) != 25 {
            return Err(ProtoError::Malformed("session setup request structure_size != 25"));
        }
        let security_buffer: Vec<u8> = match locate_buffer(buf.len(),
            wire::read_u16(buf, 12) as usize, wire::read_u16(buf, 14) as usize, 24,
            "session setup request security buffer offset before SMB2 body",
            "session setup request security buffer range overflow",
            "session setup request security buffer out of range") {
            Ok((start, end)) => wire::copy_range(buf, start, end),
            Err(e) => {
                return Err(e);
            },
        };
        Ok(
            Self {
                structure_size: wire::read_u16(buf, 0),
                flags: buf[2],
                security_mode: buf[3],
                capabilities: wire::read_u32(buf, 4),
                channel: wire::read_u32(buf, 8),
                security_buffer_offset: wire::read_u16(buf, 12),
                security_buffer_length: wire::read_u16(buf, 14),
                previous_session_id: wire::read_u64(buf, 16),
                security_buffer,
            },
        )
    }

    /// Appends the bytes of the body.
    pub fn write_to(&self, out: &mut Vec<u8>) -> (r: ProtoResult<()>)
        ensures
            r is Ok,
            final(out)@ == old(out)@ + self.encoding(),
    {
        wire::put_u16(out, self.structure_size);
        out.push(self.flags);
        out.push(self.security_mode);
        wire::put_u32(out, self.capabilities);
        wire::put_u32(out, self.channel);
        wire::put_u16(out, self.security_buffer_offset);
        wire::put_u16(out, self.security_buffer_length);
        wire::put_u64(out, self.previous_session_id);
        wire::put_bytes(out, self.security_buffer.as_slice());
        assert(out@ =~= old(out)@ + self.encoding());
        Ok(())
    }
}

/// A body that is written in its canonical layout is read back as it was.
pub proof fn session_setup_request_round_trips(m: SessionSetupRequest)
    requires
        m.canonical(),
        (m.encoding()).len() <= usize::MAX,
    ensures
        SessionSetupRequest::parse_error(m.encoding()) is None,
        m.decodes(m.encoding()),
{
    let b = m.encoding();
    assert(m.encoding().len() == 24 + m.security_buffer@.len());
    assert(b.subrange(0, 2) =~= wire::bytes16(m.structure_size));
    wire::le16_of_bytes16(b, 0, m.structure_size);
    assert(b[2] == m.flags);
    assert(b[3] == m.security_mode);
    assert(b.subrange(4, 8) =~= wire::bytes32(m.capabilities));
    wire::le32_of_bytes32(b, 4, m.capabilities);
    assert(b.subrange(8, 12) =~= wire::bytes32(m.channel));
    wire::le32_of_bytes32(b, 8, m.channel);
    assert(b.subrange(12, 14) =~= wire::bytes16(m.security_buffer_offset));
    wire::le16_of_bytes16(b, 12, m.security_buffer_offset);
    assert(b.subrange(14, 16) =~= wire::bytes16(m.security_buffer_length));
    wire::le16_of_bytes16(b, 14, m.security_buffer_length);
    assert(b.subrange(16, 24) =~= wire::bytes64(m.previous_session_id));
    wire::le64_of_bytes64(b, 16, m.previous_session_id);
    assert(b.subrange(24int, 24int + m.security_buffer@.len()) =~= m.security_buffer@);
}

/// SESSION_SETUP response.
#[derive(Debug, Clone, PartialEq, Eq)]
pub struct SessionSetupResponse {
    pub structure_size: u16,
    pub session_flags: u16,
    pub security_buffer_offset: u16,
    pub security_buffer_length: u16,
    pub security_buffer: Vec<u8>,
}

impl SessionSetupResponse {
    /// Session flag: guest.
    pub const FLAG_IS_GUEST: u16 = 0x0001;

    /// Session flag: anonymous.
    pub const FLAG_IS_NULL: u16 = 0x0002;

    /// Session flag: the session is encrypted.
    pub const FLAG_ENCRYPT_DATA: u16 = 0x0004;

    /// The error that a body is refused with.
    pub open spec fn parse_error(buf: Seq<u8>) -> Option<ProtoError> {
        if buf.len() < 8 {
            Some(ProtoError::Malformed("session setup response too short"))
        } else if wire::le16(buf, 0) != 9 {
            Some(ProtoError::Malformed("session setup response structure_size != 9"))
        } else if crate::proto::messages::buffer_error(buf.len() as int, wire::le16(buf, 4) as int,
            wire::le16(buf, 6) as int, 8,
            "session setup response security buffer offset before SMB2 body",
            "session setup response security buffer range overflow",
            "session setup response security buffer out of range") is Some {
            crate::proto::messages::buffer_error(buf.len() as int, wire::le16(buf, 4) as int,
                wire::le16(buf, 6) as int, 8,
                "session setup response security buffer offset before SMB2 body",
                "session setup response security buffer range overflow",
                "session setup response security buffer out of range")
        } else {
            None
        }
    }

    /// Whether the fields are what a body holds.
    pub open spec fn decodes(&self, buf: Seq<u8>) -> bool {
        &&& self.structure_size == wire::le16(buf, 0)
        &&& self.session_flags == wire::le16(buf, 2)
        &&& self.security_buffer_offset == wire::le16(buf, 4)
        &&& self.security_buffer_length == wire::le16(buf, 6)
        &&& self.security_buffer@
            == buf.subrange(self.security_buffer_offset - 64, self.security_buffer_offset - 64
            + self.security_buffer_length)
    }

    /// The bytes of the body.
    pub open spec fn encoding(&self) -> Seq<u8> {
        wire::bytes16(self.structure_size) + wire::bytes16(self.session_flags)
            + wire::bytes16(self.security_buffer_offset)
            + wire::bytes16(self.security_buffer_length) + self.security_buffer@
    }

    /// Whether the counted parts follow the fixed part and have the lengths that
    /// the fields give.
    pub open spec fn canonical(&self) -> bool {
        &&& self.structure_size == 9
        &&& self.security_buffer_length == self.security_buffer@.len()
        &&& self.security_buffer_offset == 72
    }

    /// Reads a body.
    pub fn parse(buf: &[u8]) -> (r: ProtoResult<Self>)
        ensures
            match r {
                Ok(m) => Self::parse_error(buf@) is None && m.decodes(buf@),
                Err(e) => Self::parse_error(buf@) == Some(e),
            },
    {
        if buf.len() < 8 {
            return Err(ProtoError::Malformed("session setup response too short"));
        }
        if wire::read_u16(buf, 0) != 9 {
            return Err(ProtoError::Malformed("session setup response structure_size != 9"));
        }
        let security_buffer: Vec<u8> = match locate_buffer(buf.len(),
            wire::read_u16(buf, 4) as usize, wire::read_u16(buf, 6) as usize, 8,
            "session setup response security buffer offset before SMB2 body",
            "session setup response security buffer range overflow",
            "session setup response security buffer out of range") {
            Ok((start, end)) => wire::copy_range(buf, start, end),
            Err(e) => {
                return Err(e);
            },
        };
        Ok(
            Self {
                structure_size: wire::read_u16(buf, 0),
                session_flags: wire::read_u16(buf, 2),
                security_buffer_offset: wire::read_u16(buf, 4),
                security_buffer_length: wire::read_u16(buf, 6),
                security_buffer,
            },
        )
    }

    /// Appends the bytes of the body.
    pub fn write_to(&self, out: &mut Vec<u8>) -> (r: ProtoResult<()>)
        ensures
            r is Ok,
            final(out)@ == old(out)@ + self.encoding(),
    {
        wire::put_u16(out, self.structure_size);
        wire::put_u16(out, self.session_flags);
        wire::put_u16(out, self.security_buffer_offset);
        wire::put_u16(out, self.security_buffer_length);
        wire::put_bytes(out, self.security_buffer.as_slice());
        assert(out@ =~= old(out)@ + self.encoding());
        Ok(())
    }
}

/// A body that is written in its canonical layout is read back as it was.
pub proof fn session_setup_response_round_trips(m: SessionSetupResponse)
    requires
        m.canonical(),
        (m.encoding()).len() <= usize::MAX,
    ensures
        SessionSetupResponse::parse_error(m.encoding()) is None,
        m.decodes(m.encoding()),
{
    let b = m.encoding();
    assert(m.encoding().len() == 8 + m.security_buffer@.len());
    assert(b.subrange(0, 2) =~= wire::bytes16(m.structure_size));
    wire::le16_of_bytes16(b, 0, m.structure_size);
    assert(b.subrange(2, 4) =~= wire::bytes16(m.session_flags));
    wire::le16_of_bytes16(b, 2, m.session_flags);
    assert(b.subrange(4, 6) =~= wire::bytes16(m.security_buffer_offset));
    wire::le16_of_bytes16(b, 4, m.security_buffer_offset);
    assert(b.subrange(6, 8) =~= wire::bytes16(m.security_buffer_length));
    wire::le16_of_bytes16(b, 6, m.security_buffer_length);
    assert(b.subrange(8int, 8int + m.security_buffer@.len()) =~= m.security_buffer@);
}

} // verus!
