//! READ request and response. Data offsets count from the start of the SMB2 header.

use crate::proto::error::{ProtoError, ProtoResult};
use crate::proto::messages::create::FileId;
use crate::proto::messages::locate_buffer;
use crate::wire;
use vstd::prelude::*;

verus! {

/// READ request.
#[derive(Debug, Clone, PartialEq, Eq)]
pub struct ReadRequest {
    pub structure_size: u16,
    pub padding: u8,
    pub flags: u8,
    pub length: u32,
    pub offset: u64,
    pub file_id: FileId,
    pub minimum_count: u32,
    pub channel: u32,
    pub remaining_bytes: u32,
    pub read_channel_info_offset: u16,
    pub read_channel_info_length: u16,
    /// What follows the fixed part: channel information or a padding byte.
    pub buffer: Vec<u8>,
}

impl ReadRequest {
    /// Flag: read without buffering.
    pub const FLAG_READ_UNBUFFERED: u8 = 0x01;

    /// Flag: the response may be compressed.
    pub const FLAG_REQUEST_COMPRESSED: u8 = 0x02;

    /// The error that a body is refused with.
    pub open spec fn parse_error(buf: Seq<u8>) -> Option<ProtoError> {
        if buf.len() < 48 {
            Some(ProtoError::Malformed("read request too short"))
        } else if wire::le16(buf, 0) != 49 {
            Some(ProtoError::Malformed("read request structure_size != 49"))
        } else {
            None
        }
    }

    /// Whether the fields are what a body holds.
    pub open spec fn decodes(&self, buf: Seq<u8>) -> bool {
        &&& self.structure_size == wire::le16(buf, 0)
        &&& self.padding == buf[2]
        &&& self.flags == buf[3]
        &&& self.length == wire::le32(buf, 4)
        &&& self.offset == wire::le64(buf, 8)
        &&& self.file_id.persistent == wire::le64(buf, 16)
        &&& self.file_id.volatile == wire::le64(buf, 24)
        &&& self.minimum_count == wire::le32(buf, 32)
        &&& self.channel == wire::le32(buf, 36)
        &&& self.remaining_bytes == wire::le32(buf, 40)
        &&& self.read_channel_info_offset == wire::le16(buf, 44)
        &&& self.read_channel_info_length == wire::le16(buf, 46)
        &&& self.buffer@ == buf.subrange(48, buf.len() as int)
    }

    /// The bytes of the body.
    pub open spec fn encoding(&self) -> Seq<u8> {
        wire::bytes16(self.structure_size) + seq![self.padding] + seq![self.flags]
            + wire::bytes32(self.length) + wire::bytes64(self.offset)
            + wire::bytes64(self.file_id.persistent) + wire::bytes64(self.file_id.volatile)
            + wire::bytes32(self.minimum_count) + wire::bytes32(self.channel)
            + wire::bytes32(self.remaining_bytes) + wire::bytes16(self.read_channel_info_offset)
            + wire::bytes16(self.read_channel_info_length) + self.buffer@
    }

    /// Whether the counted parts follow the fixed part and have the lengths that
    /// the fields give.
    pub open spec fn canonical(&self) -> bool {
        &&& self.structure_size == 49
    }

    /// Reads a body.
    pub fn parse(buf: &[u8]) -> (r: ProtoResult<Self>)
        ensures
            match r {
                Ok(m) => Self::parse_error(buf@) is None && m.decodes(buf@),
                Err(e) => Self::parse_error(buf@) == Some(e),
            },
    {
        if buf.len() < 48 {
            return Err(ProtoError::Malformed("read request too short"));
        }
        if wire::read_u16(buf, 0) != 49 {
            return Err(ProtoError::Malformed("read request structure_size != 49"));
        }
        let buffer: Vec<u8> = wire::copy_range(buf, 48, buf.len());
        Ok(
            Self {
                structure_size: wire::read_u16(buf, 0),
                padding: buf[2],
                flags: buf[3],
                length: wire::read_u32(buf, 4),
                offset: wire::read_u64(buf, 8),
                file_id: FileId { persistent: wire::read_u64(buf, 16),
                    volatile: wire::read_u64(buf, 24) },
                minimum_count: wire::read_u32(buf, 32),
                channel: wire::read_u32(buf, 36),
                remaining_bytes: wire::read_u32(buf, 40),
                read_channel_info_offset: wire::read_u16(buf, 44),
                read_channel_info_length: wire::read_u16(buf, 46),
                buffer,
            },
        )
    }

    /// Appends the bytes of the body.
    pub fn write_to(&self, out: &mut Vec<u8>) -> (r: ProtoResult<()>)
        ensures
            r is Ok,
            final(out)@ == old(out)@ + self.encoding(),
    {
        wire::put_u16(out, self.structure_size);
        out.push(self.padding);
        out.push(self.flags);
        wire::put_u32(out, self.length);
        wire::put_u64(out, self.offset);
        wire::put_u64(out, self.file_id.persistent);
        wire::put_u64(out, self.file_id.volatile);
        wire::put_u32(out, self.minimum_count);
        wire::put_u32(out, self.channel);
        wire::put_u32(out, self.remaining_bytes);
        wire::put_u16(out, self.read_channel_info_offset);
        wire::put_u16(out, self.read_channel_info_length);
        wire::put_bytes(out, self.buffer.as_slice());
        assert(out@ =~= old(out)@ + self.encoding());
        Ok(())
    }
}

/// A body that is written in its canonical layout is read back as it was.
#[verifier::rlimit(50)]
pub proof fn read_request_round_trips(m: ReadRequest)
    requires
        m.canonical(),
    ensures
        ReadRequest::parse_error(m.encoding()) is None,
        m.decodes(m.encoding()),
{
    let b = m.encoding();
    assert(m.encoding().len() == 48 + m.buffer@.len());
    assert(b.subrange(0, 2) =~= wire::bytes16(m.structure_size));
    wire::le16_of_bytes16(b, 0, m.structure_size);
    assert(b[2] == m.padding);
    assert(b[3] == m.flags);
    assert(b.subrange(4, 8) =~= wire::bytes32(m.length));
    wire::le32_of_bytes32(b, 4, m.length);
    assert(b.subrange(8, 16) =~= wire::bytes64(m.offset));
    wire::le64_of_bytes64(b, 8, m.offset);
    assert(b.subrange(16, 24) =~= wire::bytes64(m.file_id.persistent));
    wire::le64_of_bytes64(b, 16, m.file_id.persistent);
    assert(b.subrange(24, 32) =~= wire::bytes64(m.file_id.volatile));
    wire::le64_of_bytes64(b, 24, m.file_id.volatile);
    assert(b.subrange(32, 36) =~= wire::bytes32(m.minimum_count));
    wire::le32_of_bytes32(b, 32, m.minimum_count);
    assert(b.subrange(36, 40) =~= wire::bytes32(m.channel));
    wire::le32_of_bytes32(b, 36, m.channel);
    assert(b.subrange(40, 44) =~= wire::bytes32(m.remaining_bytes));
    wire::le32_of_bytes32(b, 40, m.remaining_bytes);
    assert(b.subrange(44, 46) =~= wire::bytes16(m.read_channel_info_offset));
    wire::le16_of_bytes16(b, 44, m.read_channel_info_offset);
    assert(b.subrange(46, 48) =~= wire::bytes16(m.read_channel_info_length));
    wire::le16_of_bytes16(b, 46, m.read_channel_info_length);
    assert(b.subrange(48int, 48int + m.buffer@.len()) =~= m.buffer@);
}

/// READ response.
#[derive(Debug, Clone, PartialEq, Eq)]
pub struct ReadResponse {
    pub structure_size: u16,
    pub data_offset: u8,
    pub reserved: u8,
    pub data_length: u32,
    pub data_remaining: u32,
    pub flags: u32,
    pub data: Vec<u8>,
}

impl ReadResponse {
    /// `data_offset` of data that follows the fixed part directly.
    pub const STANDARD_DATA_OFFSET: u8 = 0x50;

    /// `data_offset` of data that follows the fixed part directly.
    pub fn standard_data_offset() -> (r: u8)
        ensures
            r == 64 + 16,
    {
        Self::STANDARD_DATA_OFFSET
    }

    /// The error that a body is refused with.
    pub open spec fn parse_error(buf: Seq<u8>) -> Option<ProtoError> {
        if buf.len() < 16 {
            Some(ProtoError::Malformed("read response too short"))
        } else if wire::le16(buf, 0) != 17 {
            Some(ProtoError::Malformed("read response structure_size != 17"))
        } else if wire::le32(buf, 4) != 0
            && crate::proto::messages::buffer_error(buf.len() as int, buf[2] as int,
            wire::le32(buf, 4) as int, 16, "read data offset before SMB2 body",
            "read data overflow", "read data out of range") is Some {
            crate::proto::messages::buffer_error(buf.len() as int, buf[2] as int,
                wire::le32(buf, 4) as int, 16, "read data offset before SMB2 body",
                "read data overflow", "read data out of range")
        } else {
            None
        }
    }

    /// Whether the fields are what a body holds.
    pub open spec fn decodes(&self, buf: Seq<u8>) -> bool {
        &&& self.structure_size == wire::le16(buf, 0)
        &&& self.data_offset == buf[2]
        &&& self.reserved == buf[3]
        &&& self.data_length == wire::le32(buf, 4)
        &&& self.data_remaining == wire::le32(buf, 8)
        &&& self.flags == wire::le32(buf, 12)
        &&& self.data@ == if self.data_length == 0 {
            Seq::empty()
        } else {
            buf.subrange(self.data_offset - 64, self.data_offset - 64 + self.data_length)
        }
    }

    /// The bytes of the body.
    pub open spec fn encoding(&self) -> Seq<u8> {
        wire::bytes16(self.structure_size) + seq![self.data_offset] + seq![self.reserved]
            + wire::bytes32(self.data_length) + wire::bytes32(self.data_remaining)
            + wire::bytes32(self.flags) + self.data@
    }

    /// Whether the counted parts follow the fixed part and have the lengths that
    /// the fields give.
    pub open spec fn canonical(&self) -> bool {
        &&& self.structure_size == 17
        &&& self.data_length == self.data@.len()
        &&& self.data_length != 0 ==> self.data_offset == 80
    }

    /// Reads a body.
    pub fn parse(buf: &[u8]) -> (r: ProtoResult<Self>)
        ensures
            match r {
                Ok(m) => Self::parse_error(buf@) is None && m.decodes(buf@),
                Err(e) => Self::parse_error(buf@) == Some(e),
            },
    {
        if buf.len() < 16 {
            return Err(ProtoError::Malformed("read response too short"));
        }
        if wire::read_u16(buf, 0) != 17 {
            return Err(ProtoError::Malformed("read response structure_size != 17"));
        }
        let data: Vec<u8> = if wire::read_u32(buf, 4) == 0 {
            Vec::new()
        } else {
            match locate_buffer(buf.len(), buf[2] as usize, wire::read_u32(buf, 4) as usize, 16,
                "read data offset before SMB2 body", "read data overflow",
                "read data out of range") {
                Ok((start, end)) => wire::copy_range(buf, start, end),
                Err(e) => {
                    return Err(e);
                },
            }
        };
        Ok(
            Self {
                structure_size: wire::read_u16(buf, 0),
                data_offset: buf[2],
                reserved: buf[3],
                data_length: wire::read_u32(buf, 4),
                data_remaining: wire::read_u32(buf, 8),
                flags: wire::read_u32(buf, 12),
                data,
            },
        )
    }

    /// Appends the bytes of the body.
    pub fn write_to(&self, out: &mut Vec<u8>) -> (r: ProtoResult<()>)
        ensures
            r is Ok,
            final(out)@ == old(out)@ + self.encoding(),
    {
        wire::put_u16(out, self.structure_size);
        out.push(self.data_offset);
        out.push(self.reserved);
        wire::put_u32(out, self.data_length);
        wire::put_u32(out, self.data_remaining);
        wire::put_u32(out, self.flags);
        wire::put_bytes(out, self.data.as_slice());
        assert(out@ =~= old(out)@ + self.encoding());
        Ok(())
    }
}

/// A body that is written in its canonical layout is read back as it was.
pub proof fn read_response_round_trips(m: ReadResponse)
    requires
        m.canonical(),
        (m.encoding()).len() <= usize::MAX,
    ensures
        ReadResponse::parse_error(m.encoding()) is None,
        m.decodes(m.encoding()),
{
    let b = m.encoding();
    assert(m.encoding().len() == 16 + m.data@.len());
    assert(b.subrange(0, 2) =~= wire::bytes16(m.structure_size));
    wire::le16_of_bytes16(b, 0, m.structure_size);
    assert(b[2] == m.data_offset);
    assert(b[3] == m.reserved);
    assert(b.subrange(4, 8) =~= wire::bytes32(m.data_length));
    wire::le32_of_bytes32(b, 4, m.data_length);
    assert(b.subrange(8, 12) =~= wire::bytes32(m.data_remaining));
    wire::le32_of_bytes32(b, 8, m.data_remaining);
    assert(b.subrange(12, 16) =~= wire::bytes32(m.flags));
    wire::le32_of_bytes32(b, 12, m.flags);
    assert(b.subrange(16int, 16int + m.data@.len()) =~= m.data@);
    assert(m.data_length == 0 ==> m.data@ =~= Seq::<u8>::empty());
}

} // verus!
