//! QUERY_INFO request and response, and the kinds of information.

use crate::proto::error::{ProtoError, ProtoResult};
use crate::proto::messages::create::FileId;
use crate::proto::messages::locate_buffer;
use crate::wire;
use vstd::prelude::*;

verus! {

/// Kinds of information.
#[derive(Debug, Clone, Copy, PartialEq, Eq, Structural)]
pub enum InfoType {
    File,
    FileSystem,
    Security,
    Quota,
}

impl InfoType {
    /// The code on the wire.
    pub open spec fn code(self) -> u8 {
        match self {
            Self::File => 0x01,
            Self::FileSystem => 0x02,
            Self::Security => 0x03,
            Self::Quota => 0x04,
        }
    }

    /// The value of a code, `None` where the code has none.
    pub open spec fn of_code(v: u8) -> Option<Self> {
        if v == 0x01 {
            Some(Self::File)
        } else if v == 0x02 {
            Some(Self::FileSystem)
        } else if v == 0x03 {
            Some(Self::Security)
        } else if v == 0x04 {
            Some(Self::Quota)
        } else {
            None
        }
    }

    /// The kind of a code.
    pub fn from_u8(v: u8) -> (r: Option<Self>)
        ensures
            r == Self::of_code(v),
    {
        match v {
            0x01 => Some(Self::File),
            0x02 => Some(Self::FileSystem),
            0x03 => Some(Self::Security),
            0x04 => Some(Self::Quota),
            _ => None,
        }
    }

    /// The code on the wire.
    pub fn as_u8(self) -> (r: u8)
        ensures
            r == self.code(),
    {
        match self {
            Self::File => 0x01,
            Self::FileSystem => 0x02,
            Self::Security => 0x03,
            Self::Quota => 0x04,
        }
    }
}

/// A value is found again by its code, and only by it.
pub proof fn info_type_codes_round_trip(x: InfoType, v: u8)
    ensures
        InfoType::of_code(x.code()) == Some(x),
        InfoType::of_code(v) == Some(x) ==> x.code() == v,
{
}

/// QUERY_INFO request.
#[derive(Debug, Clone, PartialEq, Eq)]
pub struct QueryInfoRequest {
    pub structure_size: u16,
    pub info_type: u8,
    pub file_information_class: u8,
    pub output_buffer_length: u32,
    pub input_buffer_offset: u16,
    pub reserved: u16,
    pub input_buffer_length: u32,
    /// Which parts of a security descriptor are asked for.
    pub additional_information: u32,
    pub flags: u32,
    pub file_id: FileId,
    /// Input of the information classes that take one.
    pub input_buffer: Vec<u8>,
}

impl QueryInfoRequest {
    /// Flag: start the scan again.
    pub const FLAG_RESTART_SCAN: u32 = 0x0000_0001;

    /// Flag: return one entry only.
    pub const FLAG_RETURN_SINGLE_ENTRY: u32 = 0x0000_0002;

    /// Flag: start at a given index.
    pub const FLAG_INDEX_SPECIFIED: u32 = 0x0000_0004;

    /// The error that a body is refused with.
    pub open spec fn parse_error(buf: Seq<u8>) -> Option<ProtoError> {
        if buf.len() < 40 {
            Some(ProtoError::Malformed("query info request too short"))
        } else if wire::le16(buf, 0) != 41 {
            Some(ProtoError::Malformed("query info request structure_size != 41"))
        } else if wire::le32(buf, 12) != 0
            && crate::proto::messages::buffer_error(buf.len() as int, wire::le16(buf, 8) as int,
            wire::le32(buf, 12) as int, 40, "query info input buffer offset before SMB2 body",
            "query info input buffer overflow", "query info input buffer out of range") is Some {
            crate::proto::messages::buffer_error(buf.len() as int, wire::le16(buf, 8) as int,
                wire::le32(buf, 12) as int, 40, "query info input buffer offset before SMB2 body",
                "query info input buffer overflow", "query info input buffer out of range")
        } else {
            None
        }
    }

    /// Whether the fields are what a body holds.
    pub open spec fn decodes(&self, buf: Seq<u8>) -> bool {
        &&& self.structure_size == wire::le16(buf, 0)
        &&& self.info_type == buf[2]
        &&& self.file_information_class == buf[3]
        &&& self.output_buffer_length == wire::le32(buf, 4)
        &&& self.input_buffer_offset == wire::le16(buf, 8)
        &&& self.reserved == wire::le16(buf, 10)
        &&& self.input_buffer_length == wire::le32(buf, 12)
        &&& self.additional_information == wire::le32(buf, 16)
        &&& self.flags == wire::le32(buf, 20)
        &&& self.file_id.persistent == wire::le64(buf, 24)
        &&& self.file_id.volatile == wire::le64(buf, 32)
        &&& self.input_buffer@ == if self.input_buffer_length == 0 {
            Seq::empty()
        } else {
            buf.subrange(self.input_buffer_offset - 64, self.input_buffer_offset - 64
                + self.input_buffer_length)
        }
    }

    /// The bytes of the body.
    pub open spec fn encoding(&self) -> Seq<u8> {
        wire::bytes16(self.structure_size) + seq![self.info_type]
            + seq![self.file_information_class] + wire::bytes32(self.output_buffer_length)
            + wire::bytes16(self.input_buffer_offset) + wire::bytes16(self.reserved)
            + wire::bytes32(self.input_buffer_length) + wire::bytes32(self.additional_information)
            + wire::bytes32(self.flags) + wire::bytes64(self.file_id.persistent)
            + wire::bytes64(self.file_id.volatile) + self.input_buffer@
    }

    /// Whether the counted parts follow the fixed part and have the lengths that
    /// the fields give.
    pub open spec fn canonical(&self) -> bool {
        &&& self.structure_size == 41
        &&& self.input_buffer_length == self.input_buffer@.len()
        &&& self.input_buffer_length != 0 ==> self.input_buffer_offset == 104
    }

    /// Reads a body.
    pub fn parse(buf: &[u8]) -> (r: ProtoResult<Self>)
        ensures
            match r {
                Ok(m) => Self::parse_error(buf@) is None && m.decodes(buf@),
                Err(e) => Self::parse_error(buf@) == Some(e),
            },
    {
        if buf.len() < 40 {
            return Err(ProtoError::Malformed("query info request too short"));
        }
        if wire::read_u16(buf, 0) != 41 {
            return Err(ProtoError::Malformed("query info request structure_size != 41"));
        }
        let input_buffer: Vec<u8> = if wire::read_u32(buf, 12) == 0 {
            Vec::new()
        } else {
            match locate_buffer(buf.len(), wire::read_u16(buf, 8) as usize,
                wire::read_u32(buf, 12) as usize, 40,
                "query info input buffer offset before SMB2 body",
                "query info input buffer overflow", "query info input buffer out of range") {
                Ok((start, end)) => wire::copy_range(buf, start, end),
                Err(e) => {
                    return Err(e);
                },
            }
        };
        Ok(
            Self {
                structure_size: wire::read_u16(buf, 0),
                info_type: buf[2],
                file_information_class: buf[3],
                output_buffer_length: wire::read_u32(buf, 4),
                input_buffer_offset: wire::read_u16(buf, 8),
                reserved: wire::read_u16(buf, 10),
                input_buffer_length: wire::read_u32(buf, 12),
                additional_information: wire::read_u32(buf, 16),
                flags: wire::read_u32(buf, 20),
                file_id: FileId { persistent: wire::read_u64(buf, 24),
                    volatile: wire::read_u64(buf, 32) },
                input_buffer,
            },
        )
    }

    /// Appends the bytes of the body.
    pub fn write_to(&self, out: &mut Vec<u8>) -> (r: ProtoResult<()>)
        ensures
            r is Ok,
            final(out)@ == old(out)@ + self.encoding(),
    {
        wire::put_u16(out, self.structure_size);
        out.push(self.info_type);
        out.push(self.file_information_class);
        wire::put_u32(out, self.output_buffer_length);
        wire::put_u16(out, self.input_buffer_offset);
        wire::put_u16(out, self.reserved);
        wire::put_u32(out, self.input_buffer_length);
        wire::put_u32(out, self.additional_information);
        wire::put_u32(out, self.flags);
        wire::put_u64(out, self.file_id.persistent);
        wire::put_u64(out, self.file_id.volatile);
        wire::put_bytes(out, self.input_buffer.as_slice());
        assert(out@ =~= old(out)@ + self.encoding());
        Ok(())
    }

    /// The kind of information that is asked for.
    pub fn info_type_enum(&self) -> (r: Option<InfoType>)
        ensures
            r == InfoType::of_code(self.info_type),
    {
        InfoType::from_u8(self.info_type)
    }
}

/// A body that is written in its canonical layout is read back as it was.
#[verifier::rlimit(50)]
pub proof fn query_info_request_round_trips(m: QueryInfoRequest)
    requires
        m.canonical(),
        (m.encoding()).len() <= usize::MAX,
    ensures
        QueryInfoRequest::parse_error(m.encoding()) is None,
        m.decodes(m.encoding()),
{
    let b = m.encoding();
    assert(m.encoding().len() == 40 + m.input_buffer@.len());
    assert(b.subrange(0, 2) =~= wire::bytes16(m.structure_size));
    wire::le16_of_bytes16(b, 0, m.structure_size);
    assert(b[2] == m.info_type);
    assert(b[3] == m.file_information_class);
    assert(b.subrange(4, 8) =~= wire::bytes32(m.output_buffer_length));
    wire::le32_of_bytes32(b, 4, m.output_buffer_length);
    assert(b.subrange(8, 10) =~= wire::bytes16(m.input_buffer_offset));
    wire::le16_of_bytes16(b, 8, m.input_buffer_offset);
    assert(b.subrange(10, 12) =~= wire::bytes16(m.reserved));
    wire::le16_of_bytes16(b, 10, m.reserved);
    assert(b.subrange(12, 16) =~= wire::bytes32(m.input_buffer_length));
    wire::le32_of_bytes32(b, 12, m.input_buffer_length);
    assert(b.subrange(16, 20) =~= wire::bytes32(m.additional_information));
    wire::le32_of_bytes32(b, 16, m.additional_information);
    assert(b.subrange(20, 24) =~= wire::bytes32(m.flags));
    wire::le32_of_bytes32(b, 20, m.flags);
    assert(b.subrange(24, 32) =~= wire::bytes64(m.file_id.persistent));
    wire::le64_of_bytes64(b, 24, m.file_id.persistent);
    assert(b.subrange(32, 40) =~= wire::bytes64(m.file_id.volatile));
    wire::le64_of_bytes64(b, 32, m.file_id.volatile);
    assert(b.subrange(40int, 40int + m.input_buffer@.len()) =~= m.input_buffer@);
    assert(m.input_buffer_length == 0 ==> m.input_buffer@ =~= Seq::<u8>::empty());
}

/// QUERY_INFO response.
#[derive(Debug, Clone, PartialEq, Eq)]
pub struct QueryInfoResponse {
    pub structure_size: u16,
    pub output_buffer_offset: u16,
    pub output_buffer_length: u32,
    pub buffer: Vec<u8>,
}

impl QueryInfoResponse {
    /// The error that a body is refused with.
    pub open spec fn parse_error(buf: Seq<u8>) -> Option<ProtoError> {
        if buf.len() < 8 {
            Some(ProtoError::Truncated)
        } else if buf.len() - 8 < wire::le32(buf, 4) {
            Some(ProtoError::Truncated)
        } else if wire::le16(buf, 0) != 9 {
            Some(ProtoError::Malformed("query info response structure_size != 9"))
        } else {
            None
        }
    }

    /// Whether the fields are what a body holds.
    pub open spec fn decodes(&self, buf: Seq<u8>) -> bool {
        &&& self.structure_size == wire::le16(buf, 0)
        &&& self.output_buffer_offset == wire::le16(buf, 2)
        &&& self.output_buffer_length == wire::le32(buf, 4)
        &&& self.buffer@ == buf.subrange(8, 8 + self.output_buffer_length)
    }

    /// The bytes of the body.
    pub open spec fn encoding(&self) -> Seq<u8> {
        wire::bytes16(self.structure_size) + wire::bytes16(self.output_buffer_offset)
            + wire::bytes32(self.output_buffer_length) + self.buffer@
    }

    /// Whether the counted parts follow the fixed part and have the lengths that
    /// the fields give.
    pub open spec fn canonical(&self) -> bool {
        &&& self.structure_size == 9
        &&& self.output_buffer_length == self.buffer@.len()
    }

    /// Reads a body.
    pub fn parse(buf: &[u8]) -> (r: ProtoResult<Self>)
        ensures
            match r {
                Ok(m) => Self::parse_error(buf@) is None && m.decodes(buf@),
                Err(e) => Self::parse_error(buf@) == Some(e),
            },
    {
        if buf.len() < 8 {
            return Err(ProtoError::Truncated);
        }
        if buf.len() - 8 < wire::read_u32(buf, 4) as usize {
            return Err(ProtoError::Truncated);
        }
        if wire::read_u16(buf, 0) != 9 {
            return Err(ProtoError::Malformed("query info response structure_size != 9"));
        }
        let buffer: Vec<u8> = wire::copy_range(buf, 8, 8 + wire::read_u32(buf, 4) as usize);
        Ok(
            Self {
                structure_size: wire::read_u16(buf, 0),
                output_buffer_offset: wire::read_u16(buf, 2),
                output_buffer_length: wire::read_u32(buf, 4),
                buffer,
            },
        )
    }

    /// Appends the bytes of the body.
    pub fn write_to(&self, out: &mut Vec<u8>) -> (r: ProtoResult<()>)
        ensures
            r is Ok,
            final(out)@ == old(out)@ + self.encoding(),
    {
        wire::put_u16(out, self.structure_size);
        wire::put_u16(out, self.output_buffer_offset);
        wire::put_u32(out, self.output_buffer_length);
        wire::put_bytes(out, self.buffer.as_slice());
        assert(out@ =~= old(out)@ + self.encoding());
        Ok(())
    }
}

/// A body that is written in its canonical layout is read back as it was.
pub proof fn query_info_response_round_trips(m: QueryInfoResponse)
    requires
        m.canonical(),
    ensures
        QueryInfoResponse::parse_error(m.encoding()) is None,
        m.decodes(m.encoding()),
{
    let b = m.encoding();
    assert(m.encoding().len() == 8 + m.buffer@.len());
    assert(b.subrange(0, 2) =~= wire::bytes16(m.structure_size));
    wire::le16_of_bytes16(b, 0, m.structure_size);
    assert(b.subrange(2, 4) =~= wire::bytes16(m.output_buffer_offset));
    wire::le16_of_bytes16(b, 2, m.output_buffer_offset);
    assert(b.subrange(4, 8) =~= wire::bytes32(m.output_buffer_length));
    wire::le32_of_bytes32(b, 4, m.output_buffer_length);
    assert(b.subrange(8int, 8int + m.buffer@.len()) =~= m.buffer@);
}

} // verus!
