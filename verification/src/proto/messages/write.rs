//! WRITE request and response. Data offsets count from the start of the SMB2 header.

use crate::proto::error::{ProtoError, ProtoResult};
use crate::proto::messages::create::FileId;
use crate::proto::messages::locate_buffer;
use crate::wire;
use vstd::prelude::*;

verus! {

/// WRITE request.
#[derive(Debug, Clone, PartialEq, Eq)]
pub struct WriteRequest {
    pub structure_size: u16,
    pub data_offset: u16,
    pub length: u32,
    pub offset: u64,
    pub file_id: FileId,
    pub channel: u32,
    pub remaining_bytes: u32,
    pub write_channel_info_offset: u16,
    pub write_channel_info_length: u16,
    pub flags: u32,
    pub data: Vec<u8>,
}

impl WriteRequest {
    /// `data_offset` of data that follows the fixed part directly.
    pub const STANDARD_DATA_OFFSET: u16 = 0x70;

    /// Flag: write through to storage.
    pub const FLAG_WRITE_THROUGH: u32 = 0x0000_0001;

    /// Flag: write without buffering.
    pub const FLAG_WRITE_UNBUFFERED: u32 = 0x0000_0002;

    /// The error that a body is refused with.
    pub open spec fn parse_error(buf: Seq<u8>) -> Option<ProtoError> {
        if buf.len() < 48 {
            Some(ProtoError::Malformed("write request too short"))
        } else if wire::le16(buf, 0) != 49 {
            Some(ProtoError::Malformed("write request structure_size != 49"))
        } else if crate::proto::messages::buffer_error(buf.len() as int, wire::le16(buf, 2) as int,
            wire::le32(buf, 4) as int, 48, "write data offset before SMB2 body",
            "write data overflow", "write data out of range") is Some {
            crate::proto::messages::buffer_error(buf.len() as int, wire::le16(buf, 2) as int,
                wire::le32(buf, 4) as int, 48, "write data offset before SMB2 body",
                "write data overflow", "write data out of range")
        } else {
            None
        }
    }

    /// Whether the fields are what a body holds.
    pub open spec fn decodes(&self, buf: Seq<u8>) -> bool {
        &&& self.structure_size == wire::le16(buf, 0)
        &&& self.data_offset == wire::le16(buf, 2)
        &&& self.length == wire::le32(buf, 4)
        &&& self.offset == wire::le64(buf, 8)
        &&& self.file_id.persistent == wire::le64(buf, 16)
        &&& self.file_id.volatile == wire::le64(buf, 24)
        &&& self.channel == wire::le32(buf, 32)
        &&& self.remaining_bytes == wire::le32(buf, 36)
        &&& self.write_channel_info_offset == wire::le16(buf, 40)
        &&& self.write_channel_info_length == wire::le16(buf, 42)
        &&& self.flags == wire::le32(buf, 44)
        &&& self.data@ == buf.subrange(self.data_offset - 64, self.data_offset - 64 + self.length)
    }

    /// The bytes of the body.
    pub open spec fn encoding(&self) -> Seq<u8> {
        wire::bytes16(self.structure_size) + wire::bytes16(self.data_offset)
            + wire::bytes32(self.length) + wire::bytes64(self.offset)
            + wire::bytes64(self.file_id.persistent) + wire::bytes64(self.file_id.volatile)
            + wire::bytes32(self.channel) + wire::bytes32(self.remaining_bytes)
            + wire::bytes16(self.write_channel_info_offset)
            + wire::bytes16(self.write_channel_info_length) + wire::bytes32(self.flags) + self.data@
    }

    /// Whether the counted parts follow the fixed part and have the lengths that
    /// the fields give.
    pub open spec fn canonical(&self) -> bool {
        &&& self.structure_size == 49
        &&& self.length == self.data@.len()
        &&& self.data_offset == 112
    }

    /// Reads a body.
    pub fn parse(buf: &[u8]) -> (r: ProtoResult<Self>)
        ensures
            match r {
                Ok(m) => Self::parse_error(buf@) is None && m.decodes(buf@),
                Err(e) => Self::parse_error(buf@) == Some(e),
            },
    {
        if buf.len() < 48 {
            return Err(ProtoError::Malformed("write request too short"));
        }
        if wire::read_u16(buf, 0) != 49 {
            return Err(ProtoError::Malformed("write request structure_size != 49"));
        }
        let data: Vec<u8> = match locate_buffer(buf.len(), wire::read_u16(buf, 2) as usize,
            wire::read_u32(buf, 4) as usize, 48, "write data offset before SMB2 body",
            "write data overflow", "write data out of range") {
            Ok((start, end)) => wire::copy_range(buf, start, end),
            Err(e) => {
                return Err(e);
            },
        };
        Ok(
            Self {
                structure_size: wire::read_u16(buf, 0),
                data_offset: wire::read_u16(buf, 2),
                length: wire::read_u32(buf, 4),
                offset: wire::read_u64(buf, 8),
                file_id: FileId { persistent: wire::read_u64(buf, 16),
                    volatile: wire::read_u64(buf, 24) },
                channel: wire::read_u32(buf, 32),
                remaining_bytes: wire::read_u32(buf, 36),
                write_channel_info_offset: wire::read_u16(buf, 40),
                write_channel_info_length: wire::read_u16(buf, 42),
                flags: wire::read_u32(buf, 44),
                data,
            },
        )
    }

    /// Appends the bytes of the body.
    pub fn write_to(&self, out: &mut Vec<u8>) -> (r: ProtoResult<()>)
        ensures
            r is Ok,
            final(out)@ == old(out)@ + self.encoding(),
    {
        wire::put_u16(out, self.structure_size);
        wire::put_u16(out, self.data_offset);
        wire::put_u32(out, self.length);
        wire::put_u64(out, self.offset);
        wire::put_u64(out, self.file_id.persistent);
        wire::put_u64(out, self.file_id.volatile);
        wire::put_u32(out, self.channel);
        wire::put_u32(out, self.remaining_bytes);
        wire::put_u16(out, self.write_channel_info_offset);
        wire::put_u16(out, self.write_channel_info_length);
        wire::put_u32(out, self.flags);
        wire::put_bytes(out, self.data.as_slice());
        assert(out@ =~= old(out)@ + self.encoding());
        Ok(())
    }
}

/// A body that is written in its canonical layout is read back as it was.
#[verifier::rlimit(50)]
pub proof fn write_request_round_trips(m: WriteRequest)
    requires
        m.canonical(),
        (m.encoding()).len() <= usize::MAX,
    ensures
        WriteRequest::parse_error(m.encoding()) is None,
        m.decodes(m.encoding()),
{
    let b = m.encoding();
    assert(m.encoding().len() == 48 + m.data@.len());
    assert(b.subrange(0, 2) =~= wire::bytes16(m.structure_size));
    wire::le16_of_bytes16(b, 0, m.structure_size);
    assert(b.subrange(2, 4) =~= wire::bytes16(m.data_offset));
    wire::le16_of_bytes16(b, 2, m.data_offset);
    assert(b.subrange(4, 8) =~= wire::bytes32(m.length));
    wire::le32_of_bytes32(b, 4, m.length);
    assert(b.subrange(8, 16) =~= wire::bytes64(m.offset));
    wire::le64_of_bytes64(b, 8, m.offset);
    assert(b.subrange(16, 24) =~= wire::bytes64(m.file_id.persistent));
    wire::le64_of_bytes64(b, 16, m.file_id.persistent);
    assert(b.subrange(24, 32) =~= wire::bytes64(m.file_id.volatile));
    wire::le64_of_bytes64(b, 24, m.file_id.volatile);
    assert(b.subrange(32, 36) =~= wire::bytes32(m.channel));
    wire::le32_of_bytes32(b, 32, m.channel);
    assert(b.subrange(36, 40) =~= wire::bytes32(m.remaining_bytes));
    wire::le32_of_bytes32(b, 36, m.remaining_bytes);
    assert(b.subrange(40, 42) =~= wire::bytes16(m.write_channel_info_offset));
    wire::le16_of_bytes16(b, 40, m.write_channel_info_offset);
    assert(b.subrange(42, 44) =~= wire::bytes16(m.write_channel_info_length));
    wire::le16_of_bytes16(b, 42, m.write_channel_info_length);
    assert(b.subrange(44, 48) =~= wire::bytes32(m.flags));
    wire::le32_of_bytes32(b, 44, m.flags);
    assert(b.subrange(48int, 48int + m.data@.len()) =~= m.data@);
}

/// WRITE response.
#[derive(Debug, Clone, PartialEq, Eq)]
pub struct WriteResponse {
    pub structure_size: u16,
    pub reserved: u16,
    pub count: u32,
    pub remaining: u32,
    pub write_channel_info_offset: u16,
    pub write_channel_info_length: u16,
}

impl Default for WriteResponse {
    fn default() -> (r: Self)
        ensures
            r == (Self { structure_size: 0, reserved: 0, count: 0, remaining: 0,
                write_channel_info_offset: 0, write_channel_info_length: 0 }),
    {
        Self { structure_size: 0, reserved: 0, count: 0, remaining: 0, write_channel_info_offset: 0,
            write_channel_info_length: 0 }
    }
}

impl WriteResponse {
    /// The response to a write of `count` bytes.
    pub fn new(count: u32) -> (r: Self)
        ensures
            r == (Self {
                structure_size: 17,
                reserved: 0,
                count,
                remaining: 0,
                write_channel_info_offset: 0,
                write_channel_info_length: 0,
            }),
    {
        Self {
            structure_size: 17,
            reserved: 0,
            count,
            remaining: 0,
            write_channel_info_offset: 0,
            write_channel_info_length: 0,
        }
    }

    /// The error that a body is refused with.
    pub open spec fn parse_error(buf: Seq<u8>) -> Option<ProtoError> {
        if buf.len() < 16 {
            Some(ProtoError::Truncated)
        } else if wire::le16(buf, 0) != 17 {
            Some(ProtoError::Malformed("write response structure_size != 17"))
        } else {
            None
        }
    }

    /// Whether the fields are what a body holds.
    pub open spec fn decodes(&self, buf: Seq<u8>) -> bool {
        &&& self.structure_size == wire::le16(buf, 0)
        &&& self.reserved == wire::le16(buf, 2)
        &&& self.count == wire::le32(buf, 4)
        &&& self.remaining == wire::le32(buf, 8)
        &&& self.write_channel_info_offset == wire::le16(buf, 12)
        &&& self.write_channel_info_length == wire::le16(buf, 14)
    }

    /// The bytes of the body.
    pub open spec fn encoding(&self) -> Seq<u8> {
        wire::bytes16(self.structure_size) + wire::bytes16(self.reserved)
            + wire::bytes32(self.count) + wire::bytes32(self.remaining)
            + wire::bytes16(self.write_channel_info_offset)
            + wire::bytes16(self.write_channel_info_length)
    }

    /// Whether the counted parts follow the fixed part and have the lengths that
    /// the fields give.
    pub open spec fn canonical(&self) -> bool {
        &&& self.structure_size == 17
    }

    /// Reads a body.
    pub fn parse(buf: &[u8]) -> (r: ProtoResult<Self>)
        ensures
            match r {
                Ok(m) => Self::parse_error(buf@) is None && m.decodes(buf@),
                Err(e) => Self::parse_error(buf@) == Some(e),
            },
    {
        if buf.len() < 16 {
            return Err(ProtoError::Truncated);
        }
        if wire::read_u16(buf, 0) != 17 {
            return Err(ProtoError::Malformed("write response structure_size != 17"));
        }
        Ok(
            Self {
                structure_size: wire::read_u16(buf, 0),
                reserved: wire::read_u16(buf, 2),
                count: wire::read_u32(buf, 4),
                remaining: wire::read_u32(buf, 8),
                write_channel_info_offset: wire::read_u16(buf, 12),
                write_channel_info_length: wire::read_u16(buf, 14),
            },
        )
    }

    /// Appends the bytes of the body.
    pub fn write_to(&self, out: &mut Vec<u8>) -> (r: ProtoResult<()>)
        ensures
            r is Ok,
            final(out)@ == old(out)@ + self.encoding(),
    {
        wire::put_u16(out, self.structure_size);
        wire::put_u16(out, self.reserved);
        wire::put_u32(out, self.count);
        wire::put_u32(out, self.remaining);
        wire::put_u16(out, self.write_channel_info_offset);
        wire::put_u16(out, self.write_channel_info_length);
        assert(out@ =~= old(out)@ + self.encoding());
        Ok(())
    }
}

/// A body that is written in its canonical layout is read back as it was.
pub proof fn write_response_round_trips(m: WriteResponse)
    requires
        m.canonical(),
    ensures
        WriteResponse::parse_error(m.encoding()) is None,
        m.decodes(m.encoding()),
{
    let b = m.encoding();
    assert(m.encoding().len() == 16);
    assert(b.subrange(0, 2) =~= wire::bytes16(m.structure_size));
    wire::le16_of_bytes16(b, 0, m.structure_size);
    assert(b.subrange(2, 4) =~= wire::bytes16(m.reserved));
    wire::le16_of_bytes16(b, 2, m.reserved);
    assert(b.subrange(4, 8) =~= wire::bytes32(m.count));
    wire::le32_of_bytes32(b, 4, m.count);
    assert(b.subrange(8, 12) =~= wire::bytes32(m.remaining));
    wire::le32_of_bytes32(b, 8, m.remaining);
    assert(b.subrange(12, 14) =~= wire::bytes16(m.write_channel_info_offset));
    wire::le16_of_bytes16(b, 12, m.write_channel_info_offset);
    assert(b.subrange(14, 16) =~= wire::bytes16(m.write_channel_info_length));
    wire::le16_of_bytes16(b, 14, m.write_channel_info_length);
}

} // verus!
