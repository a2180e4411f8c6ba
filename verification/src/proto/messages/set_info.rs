//! SET_INFO request and response.

use crate::proto::error::{ProtoError, ProtoResult};
use crate::proto::messages::create::FileId;
use crate::proto::messages::locate_buffer;
use crate::wire;
use vstd::prelude::*;

verus! {

/// SET_INFO request.
#[derive(Debug, Clone, PartialEq, Eq)]
pub struct SetInfoRequest {
    pub structure_size: u16,
    pub info_type: u8,
    pub file_information_class: u8,
    pub buffer_length: u32,
    pub buffer_offset: u16,
    pub reserved: u16,
    pub additional_information: u32,
    pub file_id: FileId,
    pub buffer: Vec<u8>,
}

impl SetInfoRequest {
    /// The error that a body is refused with.
    pub open spec fn parse_error(buf: Seq<u8>) -> Option<ProtoError> {
        if buf.len() < 32 {
            Some(ProtoError::Malformed("set info request too short"))
        } else if wire::le16(buf, 0) != 33 {
            Some(ProtoError::Malformed("set info request structure_size != 33"))
        } else if wire::le32(buf, 4) != 0
            && crate::proto::messages::buffer_error(buf.len() as int, wire::le16(buf, 8) as int,
            wire::le32(buf, 4) as int, 32, "set info buffer offset before SMB2 body",
            "set info buffer overflow", "set info buffer out of range") is Some {
            crate::proto::messages::buffer_error(buf.len() as int, wire::le16(buf, 8) as int,
                wire::le32(buf, 4) as int, 32, "set info buffer offset before SMB2 body",
                "set info buffer overflow", "set info buffer out of range")
        } else {
            None
        }
    }

    /// Whether the fields are what a body holds.
    pub open spec fn decodes(&self, buf: Seq<u8>) -> bool {
        &&& self.structure_size == wire::le16(buf, 0)
        &&& self.info_type == buf[2]
        &&& self.file_information_class == buf[3]
        &&& self.buffer_length == wire::le32(buf, 4)
        &&& self.buffer_offset == wire::le16(buf, 8)
        &&& self.reserved == wire::le16(buf, 10)
        &&& self.additional_information == wire::le32(buf, 12)
        &&& self.file_id.persistent == wire::le64(buf, 16)
        &&& self.file_id.volatile == wire::le64(buf, 24)
        &&& self.buffer@ == if self.buffer_length == 0 {
            Seq::empty()
        } else {
            buf.subrange(self.buffer_offset - 64, self.buffer_offset - 64 + self.buffer_length)
        }
    }

    /// The bytes of the body.
    pub open spec fn encoding(&self) -> Seq<u8> {
        wire::bytes16(self.structure_size) + seq![self.info_type]
            + seq![self.file_information_class] + wire::bytes32(self.buffer_length)
            + wire::bytes16(self.buffer_offset) + wire::bytes16(self.reserved)
            + wire::bytes32(self.additional_information) + wire::bytes64(self.file_id.persistent)
            + wire::bytes64(self.file_id.volatile) + self.buffer@
    }

    /// Whether the counted parts follow the fixed part and have the lengths that
    /// the fields give.
    pub open spec fn canonical(&self) -> bool {
        &&& self.structure_size == 33
        &&& self.buffer_length == self.buffer@.len()
        &&& self.buffer_length != 0 ==> self.buffer_offset == 96
    }

    /// Reads a body.
    pub fn parse(buf: &[u8]) -> (r: ProtoResult<Self>)
        ensures
            match r {
                Ok(m) => Self::parse_error(buf@) is None && m.decodes(buf@),
                Err(e) => Self::parse_error(buf@) == Some(e),
            },
    {
        if buf.len() < 32 {
            return Err(ProtoError::Malformed("set info request too short"));
        }
        if wire::read_u16(buf, 0) != 33 {
            return Err(ProtoError::Malformed("set info request structure_size != 33"));
        }
        let buffer: Vec<u8> = if wire::read_u32(buf, 4) == 0 {
            Vec::new()
        } else {
            match locate_buffer(buf.len(), wire::read_u16(buf, 8) as usize,
                wire::read_u32(buf, 4) as usize, 32, "set info buffer offset before SMB2 body",
                "set info buffer overflow", "set info buffer out of range") {
                Ok((start, end)) => wire::copy_range(buf, start, end),
                Err(e) => {
                    return Err(e);
                },
            }
        };
        Ok(
            Self {
                structure_size: wire::read_u16(buf, 0),
                info_type: buf[2],
                file_information_class: buf[3],
                buffer_length: wire::read_u32(buf, 4),
                buffer_offset: wire::read_u16(buf, 8),
                reserved: wire::read_u16(buf, 10),
                additional_information: wire::read_u32(buf, 12),
                file_id: FileId { persistent: wire::read_u64(buf, 16),
                    volatile: wire::read_u64(buf, 24) },
                buffer,
            },
        )
    }

    /// Appends the bytes of the body.
    pub fn write_to(&self, out: &mut Vec<u8>) -> (r: ProtoResult<()>)
        ensures
            r is Ok,
            final(out)@ == old(out)@ + self.encoding(),
    {
        wire::put_u16(out, self.structure_size);
        out.push(self.info_type);
        out.push(self.file_information_class);
        wire::put_u32(out, self.buffer_length);
        wire::put_u16(out, self.buffer_offset);
        wire::put_u16(out, self.reserved);
        wire::put_u32(out, self.additional_information);
        wire::put_u64(out, self.file_id.persistent);
        wire::put_u64(out, self.file_id.volatile);
        wire::put_bytes(out, self.buffer.as_slice());
        assert(out@ =~= old(out)@ + self.encoding());
        Ok(())
    }
}

/// A body that is written in its canonical layout is read back as it was.
#[verifier::rlimit(50)]
pub proof fn set_info_request_round_trips(m: SetInfoRequest)
    requires
        m.canonical(),
        (m.encoding()).len() <= usize::MAX,
    ensures
        SetInfoRequest::parse_error(m.encoding()) is None,
        m.decodes(m.encoding()),
{
    let b = m.encoding();
    assert(m.encoding().len() == 32 + m.buffer@.len());
    assert(b.subrange(0, 2) =~= wire::bytes16(m.structure_size));
    wire::le16_of_bytes16(b, 0, m.structure_size);
    assert(b[2] == m.info_type);
    assert(b[3] == m.file_information_class);
    assert(b.subrange(4, 8) =~= wire::bytes32(m.buffer_length));
    wire::le32_of_bytes32(b, 4, m.buffer_length);
    assert(b.subrange(8, 10) =~= wire::bytes16(m.buffer_offset));
    wire::le16_of_bytes16(b, 8, m.buffer_offset);
    assert(b.subrange(10, 12) =~= wire::bytes16(m.reserved));
    wire::le16_of_bytes16(b, 10, m.reserved);
    assert(b.subrange(12, 16) =~= wire::bytes32(m.additional_information));
    wire::le32_of_bytes32(b, 12, m.additional_information);
    assert(b.subrange(16, 24) =~= wire::bytes64(m.file_id.persistent));
    wire::le64_of_bytes64(b, 16, m.file_id.persistent);
    assert(b.subrange(24, 32) =~= wire::bytes64(m.file_id.volatile));
    wire::le64_of_bytes64(b, 24, m.file_id.volatile);
    assert(b.subrange(32int, 32int + m.buffer@.len()) =~= m.buffer@);
    assert(m.buffer_length == 0 ==> m.buffer@ =~= Seq::<u8>::empty());
}

/// SET_INFO response.
#[derive(Debug, Clone, PartialEq, Eq)]
pub struct SetInfoResponse {
    pub structure_size: u16,
}

impl Default for SetInfoResponse {
    fn default() -> (r: Self)
        ensures
            r == (Self { structure_size: 2 }),
    {
        Self { structure_size: 2 }
    }
}

impl SetInfoResponse {
    /// The error that a body is refused with.
    pub open spec fn parse_error(buf: Seq<u8>) -> Option<ProtoError> {
        if buf.len() < 2 {
            Some(ProtoError::Truncated)
        } else if wire::le16(buf, 0) != 2 {
            Some(ProtoError::Malformed("set info response structure_size != 2"))
        } else {
            None
        }
    }

    /// Whether the fields are what a body holds.
    pub open spec fn decodes(&self, buf: Seq<u8>) -> bool {
        &&& self.structure_size == wire::le16(buf, 0)
    }

    /// The bytes of the body.
    pub open spec fn encoding(&self) -> Seq<u8> {
        wire::bytes16(self.structure_size)
    }

    /// Whether the counted parts follow the fixed part and have the lengths that
    /// the fields give.
    pub open spec fn canonical(&self) -> bool {
        &&& self.structure_size == 2
    }

    /// Reads a body.
    pub fn parse(buf: &[u8]) -> (r: ProtoResult<Self>)
        ensures
            match r {
                Ok(m) => Self::parse_error(buf@) is None && m.decodes(buf@),
                Err(e) => Self::parse_error(buf@) == Some(e),
            },
    {
        if buf.len() < 2 {
            return Err(ProtoError::Truncated);
        }
        if wire::read_u16(buf, 0) != 2 {
            return Err(ProtoError::Malformed("set info response structure_size != 2"));
        }
        Ok(
            Self {
                structure_size: wire::read_u16(buf, 0),
            },
        )
    }

    /// Appends the bytes of the body.
    pub fn write_to(&self, out: &mut Vec<u8>) -> (r: ProtoResult<()>)
        ensures
            r is Ok,
            final(out)@ == old(out)@ + self.encoding(),
    {
        wire::put_u16(out, self.structure_size);
        assert(out@ =~= old(out)@ + self.encoding());
        Ok(())
    }
}

/// A body that is written in its canonical layout is read back as it was.
pub proof fn set_info_response_round_trips(m: SetInfoResponse)
    requires
        m.canonical(),
    ensures
        SetInfoResponse::parse_error(m.encoding()) is None,
        m.decodes(m.encoding()),
{
    let b = m.encoding();
    assert(m.encoding().len() == 2);
    assert(b.subrange(0, 2) =~= wire::bytes16(m.structure_size));
    wire::le16_of_bytes16(b, 0, m.structure_size);
}

} // verus!
