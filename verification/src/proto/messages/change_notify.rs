//! CHANGE_NOTIFY request and response.

use crate::proto::error::{ProtoError, ProtoResult};
use crate::proto::messages::create::FileId;
use crate::proto::messages::locate_buffer;
use crate::wire;
use vstd::prelude::*;

verus! {

/// CHANGE_NOTIFY request.
#[derive(Debug, Clone, PartialEq, Eq)]
pub struct ChangeNotifyRequest {
    pub structure_size: u16,
    pub flags: u16,
    pub output_buffer_length: u32,
    pub file_id: FileId,
    pub completion_filter: u32,
    pub reserved: u32,
}

impl ChangeNotifyRequest {
    /// Flag: watch the whole tree below the directory.
    pub const FLAG_WATCH_TREE: u16 = 0x0001;

    /// The error that a body is refused with.
    pub open spec fn parse_error(buf: Seq<u8>) -> Option<ProtoError> {
        if buf.len() < 32 {
            Some(ProtoError::Malformed("change notify request too short"))
        } else if wire::le16(buf, 0) != 32 {
            Some(ProtoError::Malformed("change notify request structure_size != 32"))
        } else {
            None
        }
    }

    /// Whether the fields are what a body holds.
    pub open spec fn decodes(&self, buf: Seq<u8>) -> bool {
        &&& self.structure_size == wire::le16(buf, 0)
        &&& self.flags == wire::le16(buf, 2)
        &&& self.output_buffer_length == wire::le32(buf, 4)
        &&& self.file_id.persistent == wire::le64(buf, 8)
        &&& self.file_id.volatile == wire::le64(buf, 16)
        &&& self.completion_filter == wire::le32(buf, 24)
        &&& self.reserved == wire::le32(buf, 28)
    }

    /// The bytes of the body.
    pub open spec fn encoding(&self) -> Seq<u8> {
        wire::bytes16(self.structure_size) + wire::bytes16(self.flags)
            + wire::bytes32(self.output_buffer_length) + wire::bytes64(self.file_id.persistent)
            + wire::bytes64(self.file_id.volatile) + wire::bytes32(self.completion_filter)
            + wire::bytes32(self.reserved)
    }

    /// Whether the counted parts follow the fixed part and have the lengths that
    /// the fields give.
    pub open spec fn canonical(&self) -> bool {
        &&& self.structure_size == 32
    }

    /// Reads a body.
    pub fn parse(buf: &[u8]) -> (r: ProtoResult<Self>)
        ensures
            match r {
                Ok(m) => Self::parse_error(buf@) is None && m.decodes(buf@),
                Err(e) => Self::parse_error(buf@) == Some(e),
            },
    {
        if buf.len() < 32 {
            return Err(ProtoError::Malformed("change notify request too short"));
        }
        if wire::read_u16(buf, 0) != 32 {
            return Err(ProtoError::Malformed("change notify request structure_size != 32"));
        }
        Ok(
            Self {
                structure_size: wire::read_u16(buf, 0),
                flags: wire::read_u16(buf, 2),
                output_buffer_length: wire::read_u32(buf, 4),
                file_id: FileId { persistent: wire::read_u64(buf, 8),
                    volatile: wire::read_u64(buf, 16) },
                completion_filter: wire::read_u32(buf, 24),
                reserved: wire::read_u32(buf, 28),
            },
        )
    }

    /// Appends the bytes of the body.
    pub fn write_to(&self, out: &mut Vec<u8>) -> (r: ProtoResult<()>)
        ensures
            r is Ok,
            final(out)@ == old(out)@ + self.encoding(),
    {
        wire::put_u16(out, self.structure_size);
        wire::put_u16(out, self.flags);
        wire::put_u32(out, self.output_buffer_length);
        wire::put_u64(out, self.file_id.persistent);
        wire::put_u64(out, self.file_id.volatile);
        wire::put_u32(out, self.completion_filter);
        wire::put_u32(out, self.reserved);
        assert(out@ =~= old(out)@ + self.encoding());
        Ok(())
    }
}

/// A body that is written in its canonical layout is read back as it was.
pub proof fn change_notify_request_round_trips(m: ChangeNotifyRequest)
    requires
        m.canonical(),
    ensures
        ChangeNotifyRequest::parse_error(m.encoding()) is None,
        m.decodes(m.encoding()),
{
    let b = m.encoding();
    assert(m.encoding().len() == 32);
    assert(b.subrange(0, 2) =~= wire::bytes16(m.structure_size));
    wire::le16_of_bytes16(b, 0, m.structure_size);
    assert(b.subrange(2, 4) =~= wire::bytes16(m.flags));
    wire::le16_of_bytes16(b, 2, m.flags);
    assert(b.subrange(4, 8) =~= wire::bytes32(m.output_buffer_length));
    wire::le32_of_bytes32(b, 4, m.output_buffer_length);
    assert(b.subrange(8, 16) =~= wire::bytes64(m.file_id.persistent));
    wire::le64_of_bytes64(b, 8, m.file_id.persistent);
    assert(b.subrange(16, 24) =~= wire::bytes64(m.file_id.volatile));
    wire::le64_of_bytes64(b, 16, m.file_id.volatile);
    assert(b.subrange(24, 28) =~= wire::bytes32(m.completion_filter));
    wire::le32_of_bytes32(b, 24, m.completion_filter);
    assert(b.subrange(28, 32) =~= wire::bytes32(m.reserved));
    wire::le32_of_bytes32(b, 28, m.reserved);
}

/// CHANGE_NOTIFY response.
#[derive(Debug, Clone, PartialEq, Eq)]
pub struct ChangeNotifyResponse {
    pub structure_size: u16,
    pub output_buffer_offset: u16,
    pub output_buffer_length: u32,
    pub buffer: Vec<u8>,
}

impl ChangeNotifyResponse {
    /// The error that a body is refused with.
    pub open spec fn parse_error(buf: Seq<u8>) -> Option<ProtoError> {
        if buf.len() < 8 {
            Some(ProtoError::Malformed("change notify response too short"))
        } else if wire::le16(buf, 0) != 9 {
            Some(ProtoError::Malformed("change notify response structure_size != 9"))
        } else if wire::le32(buf, 4) != 0
            && crate::proto::messages::buffer_error(buf.len() as int, wire::le16(buf, 2) as int,
            wire::le32(buf, 4) as int, 8, "change notify buffer offset before SMB2 body",
            "change notify buffer overflow", "change notify buffer out of range") is Some {
            crate::proto::messages::buffer_error(buf.len() as int, wire::le16(buf, 2) as int,
                wire::le32(buf, 4) as int, 8, "change notify buffer offset before SMB2 body",
                "change notify buffer overflow", "change notify buffer out of range")
        } else {
            None
        }
    }

    /// Whether the fields are what a body holds.
    pub open spec fn decodes(&self, buf: Seq<u8>) -> bool {
        &&& self.structure_size == wire::le16(buf, 0)
        &&& self.output_buffer_offset == wire::le16(buf, 2)
        &&& self.output_buffer_length == wire::le32(buf, 4)
        &&& self.buffer@ == if self.output_buffer_length == 0 {
            Seq::empty()
        } else {
            buf.subrange(self.output_buffer_offset - 64, self.output_buffer_offset - 64
                + self.output_buffer_length)
        }
    }

    /// The bytes of the body.
    pub open spec fn encoding(&self) -> Seq<u8> {
        wire::bytes16(self.structure_size) + wire::bytes16(self.output_buffer_offset)
            + wire::bytes32(self.output_buffer_length) + self.buffer@
    }

    /// Whether the counted parts follow the fixed part and have the lengths that
    /// the fields give.
    pub open spec fn canonical(&self) -> bool {
        &&& self.structure_size == 9
        &&& self.output_buffer_length == self.buffer@.len()
        &&& self.output_buffer_length != 0 ==> self.output_buffer_offset == 72
    }

    /// Reads a body.
    pub fn parse(buf: &[u8]) -> (r: ProtoResult<Self>)
        ensures
            match r {
                Ok(m) => Self::parse_error(buf@) is None && m.decodes(buf@),
                Err(e) => Self::parse_error(buf@) == Some(e),
            },
    {
        if buf.len() < 8 {
            return Err(ProtoError::Malformed("change notify response too short"));
        }
        if wire::read_u16(buf, 0) != 9 {
            return Err(ProtoError::Malformed("change notify response structure_size != 9"));
        }
        let buffer: Vec<u8> = if wire::read_u32(buf, 4) == 0 {
            Vec::new()
        } else {
            match locate_buffer(buf.len(), wire::read_u16(buf, 2) as usize,
                wire::read_u32(buf, 4) as usize, 8, "change notify buffer offset before SMB2 body",
                "change notify buffer overflow", "change notify buffer out of range") {
                Ok((start, end)) => wire::copy_range(buf, start, end),
                Err(e) => {
                    return Err(e);
                },
            }
        };
        Ok(
            Self {
                structure_size: wire::read_u16(buf, 0),
                output_buffer_offset: wire::read_u16(buf, 2),
                output_buffer_length: wire::read_u32(buf, 4),
                buffer,
            },
        )
    }

    /// Appends the bytes of the body.
    pub fn write_to(&self, out: &mut Vec<u8>) -> (r: ProtoResult<()>)
        ensures
            r is Ok,
            final(out)@ == old(out)@ + self.encoding(),
    {
        wire::put_u16(out, self.structure_size);
        wire::put_u16(out, self.output_buffer_offset);
        wire::put_u32(out, self.output_buffer_length);
        wire::put_bytes(out, self.buffer.as_slice());
        assert(out@ =~= old(out)@ + self.encoding());
        Ok(())
    }
}

/// A body that is written in its canonical layout is read back as it was.
pub proof fn change_notify_response_round_trips(m: ChangeNotifyResponse)
    requires
        m.canonical(),
        (m.encoding()).len() <= usize::MAX,
    ensures
        ChangeNotifyResponse::parse_error(m.encoding()) is None,
        m.decodes(m.encoding()),
{
    let b = m.encoding();
    assert(m.encoding().len() == 8 + m.buffer@.len());
    assert(b.subrange(0, 2) =~= wire::bytes16(m.structure_size));
    wire::le16_of_bytes16(b, 0, m.structure_size);
    assert(b.subrange(2, 4) =~= wire::bytes16(m.output_buffer_offset));
    wire::le16_of_bytes16(b, 2, m.output_buffer_offset);
    assert(b.subrange(4, 8) =~= wire::bytes32(m.output_buffer_length));
    wire::le32_of_bytes32(b, 4, m.output_buffer_length);
    assert(b.subrange(8int, 8int + m.buffer@.len()) =~= m.buffer@);
    assert(m.output_buffer_length == 0 ==> m.buffer@ =~= Seq::<u8>::empty());
}

} // verus!
