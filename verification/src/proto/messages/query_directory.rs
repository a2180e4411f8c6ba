//! QUERY_DIRECTORY request and response, and the information classes.

use crate::proto::error::{ProtoError, ProtoResult};
use crate::proto::messages::create::FileId;
use crate::proto::messages::locate_buffer;
use crate::wire;
use vstd::prelude::*;

verus! {

/// Information classes of directory entries.
#[derive(Debug, Clone, Copy, PartialEq, Eq, Structural)]
pub enum FileInfoClass {
    FileDirectoryInformation,
    FileFullDirectoryInformation,
    FileBothDirectoryInformation,
    FileNamesInformation,
    FileIdBothDirectoryInformation,
    FileIdFullDirectoryInformation,
    FileIdExtdDirectoryInformation,
    FileId64ExtdDirectoryInformation,
    FileId64ExtdBothDirectoryInformation,
    FileIdAllExtdDirectoryInformation,
    FileIdAllExtdBothDirectoryInformation,
    FilePosixInformation,
}

impl FileInfoClass {
    /// The code on the wire.
    pub open spec fn code(self) -> u8 {
        match self {
            Self::FileDirectoryInformation => 0x01,
            Self::FileFullDirectoryInformation => 0x02,
            Self::FileBothDirectoryInformation => 0x03,
            Self::FileNamesInformation => 0x0C,
            Self::FileIdBothDirectoryInformation => 0x25,
            Self::FileIdFullDirectoryInformation => 0x26,
            Self::FileIdExtdDirectoryInformation => 0x3C,
            Self::FileId64ExtdDirectoryInformation => 0x4E,
            Self::FileId64ExtdBothDirectoryInformation => 0x4F,
            Self::FileIdAllExtdDirectoryInformation => 0x50,
            Self::FileIdAllExtdBothDirectoryInformation => 0x51,
            Self::FilePosixInformation => 0x64,
        }
    }

    /// The value of a code, `None` where the code has none.
    pub open spec fn of_code(v: u8) -> Option<Self> {
        if v == 0x01 {
            Some(Self::FileDirectoryInformation)
        } else if v == 0x02 {
            Some(Self::FileFullDirectoryInformation)
        } else if v == 0x03 {
            Some(Self::FileBothDirectoryInformation)
        } else if v == 0x0C {
            Some(Self::FileNamesInformation)
        } else if v == 0x25 {
            Some(Self::FileIdBothDirectoryInformation)
        } else if v == 0x26 {
            Some(Self::FileIdFullDirectoryInformation)
        } else if v == 0x3C {
            Some(Self::FileIdExtdDirectoryInformation)
        } else if v == 0x4E {
            Some(Self::FileId64ExtdDirectoryInformation)
        } else if v == 0x4F {
            Some(Self::FileId64ExtdBothDirectoryInformation)
        } else if v == 0x50 {
            Some(Self::FileIdAllExtdDirectoryInformation)
        } else if v == 0x51 {
            Some(Self::FileIdAllExtdBothDirectoryInformation)
        } else if v == 0x64 {
            Some(Self::FilePosixInformation)
        } else {
            None
        }
    }

    /// The class of a code.
    pub fn from_u8(v: u8) -> (r: Option<Self>)
        ensures
            r == Self::of_code(v),
    {
        match v {
            0x01 => Some(Self::FileDirectoryInformation),
            0x02 => Some(Self::FileFullDirectoryInformation),
            0x03 => Some(Self::FileBothDirectoryInformation),
            0x0C => Some(Self::FileNamesInformation),
            0x25 => Some(Self::FileIdBothDirectoryInformation),
            0x26 => Some(Self::FileIdFullDirectoryInformation),
            0x3C => Some(Self::FileIdExtdDirectoryInformation),
            0x4E => Some(Self::FileId64ExtdDirectoryInformation),
            0x4F => Some(Self::FileId64ExtdBothDirectoryInformation),
            0x50 => Some(Self::FileIdAllExtdDirectoryInformation),
            0x51 => Some(Self::FileIdAllExtdBothDirectoryInformation),
            0x64 => Some(Self::FilePosixInformation),
            _ => None,
        }
    }

    /// The code on the wire.
    pub fn as_u8(self) -> (r: u8)
        ensures
            r == self.code(),
    {
        match self {
            Self::FileDirectoryInformation => 0x01,
            Self::FileFullDirectoryInformation => 0x02,
            Self::FileBothDirectoryInformation => 0x03,
            Self::FileNamesInformation => 0x0C,
            Self::FileIdBothDirectoryInformation => 0x25,
            Self::FileIdFullDirectoryInformation => 0x26,
            Self::FileIdExtdDirectoryInformation => 0x3C,
            Self::FileId64ExtdDirectoryInformation => 0x4E,
            Self::FileId64ExtdBothDirectoryInformation => 0x4F,
            Self::FileIdAllExtdDirectoryInformation => 0x50,
            Self::FileIdAllExtdBothDirectoryInformation => 0x51,
            Self::FilePosixInformation => 0x64,
        }
    }
}

/// A value is found again by its code, and only by it.
pub proof fn file_info_class_codes_round_trip(x: FileInfoClass, v: u8)
    ensures
        FileInfoClass::of_code(x.code()) == Some(x),
        FileInfoClass::of_code(v) == Some(x) ==> x.code() == v,
{
}

/// QUERY_DIRECTORY request.
#[derive(Debug, Clone, PartialEq, Eq)]
pub struct QueryDirectoryRequest {
    pub structure_size: u16,
    pub file_information_class: u8,
    pub flags: u8,
    pub file_index: u32,
    pub file_id: FileId,
    pub file_name_offset: u16,
    pub file_name_length: u16,
    pub output_buffer_length: u32,
    /// Search pattern, UTF-16LE.
    pub file_name: Vec<u8>,
}

impl QueryDirectoryRequest {
    pub const FLAG_RESTART_SCANS: u8 = 0x01;

    pub const FLAG_RETURN_SINGLE_ENTRY: u8 = 0x02;

    pub const FLAG_INDEX_SPECIFIED: u8 = 0x04;

    pub const FLAG_REOPEN: u8 = 0x10;

    /// The error that a body is refused with.
    pub open spec fn parse_error(buf: Seq<u8>) -> Option<ProtoError> {
        if buf.len() < 32 {
            Some(ProtoError::Malformed("query directory request too short"))
        } else if wire::le16(buf, 0) != 33 {
            Some(ProtoError::Malformed("query directory request structure_size != 33"))
        } else if wire::le16(buf, 26) % 2 != 0 {
            Some(ProtoError::Malformed("query directory file name length is not UTF-16 aligned"))
        } else if wire::le16(buf, 26) != 0
            && crate::proto::messages::buffer_error(buf.len() as int, wire::le16(buf, 24) as int,
            wire::le16(buf, 26) as int, 32, "query directory file name offset before SMB2 body",
            "query directory file name overflow",
            "query directory file name out of range") is Some {
            crate::proto::messages::buffer_error(buf.len() as int, wire::le16(buf, 24) as int,
                wire::le16(buf, 26) as int, 32, "query directory file name offset before SMB2 body",
                "query directory file name overflow", "query directory file name out of range")
        } else {
            None
        }
    }

    /// Whether the fields are what a body holds.
    pub open spec fn decodes(&self, buf: Seq<u8>) -> bool {
        &&& self.structure_size == wire::le16(buf, 0)
        &&& self.file_information_class == buf[2]
        &&& self.flags == buf[3]
        &&& self.file_index == wire::le32(buf, 4)
        &&& self.file_id.persistent == wire::le64(buf, 8)
        &&& self.file_id.volatile == wire::le64(buf, 16)
        &&& self.file_name_offset == wire::le16(buf, 24)
        &&& self.file_name_length == wire::le16(buf, 26)
        &&& self.output_buffer_length == wire::le32(buf, 28)
        &&& self.file_name@ == if self.file_name_length == 0 {
            Seq::empty()
        } else {
            buf.subrange(self.file_name_offset - 64, self.file_name_offset - 64
                + self.file_name_length)
        }
    }

    /// The bytes of the body.
    pub open spec fn encoding(&self) -> Seq<u8> {
        wire::bytes16(self.structure_size) + seq![self.file_information_class] + seq![self.flags]
            + wire::bytes32(self.file_index) + wire::bytes64(self.file_id.persistent)
            + wire::bytes64(self.file_id.volatile) + wire::bytes16(self.file_name_offset)
            + wire::bytes16(self.file_name_length) + wire::bytes32(self.output_buffer_length)
            + self.file_name@
    }

    /// Whether the counted parts follow the fixed part and have the lengths that
    /// the fields give.
    pub open spec fn canonical(&self) -> bool {
        &&& self.structure_size == 33
        &&& self.file_name_length == self.file_name@.len()
        &&& self.file_name_length % 2 == 0
        &&& self.file_name_length != 0 ==> self.file_name_offset == 96
    }

    /// Reads a body.
    pub fn parse(buf: &[u8]) -> (r: ProtoResult<Self>)
        ensures
            match r {
                Ok(m) => Self::parse_error(buf@) is None && m.decodes(buf@),
                Err(e) => Self::parse_error(buf@) == Some(e),
            },
    {
        if buf.len() < 32 {
            return Err(ProtoError::Malformed("query directory request too short"));
        }
        if wire::read_u16(buf, 0) != 33 {
            return Err(ProtoError::Malformed("query directory request structure_size != 33"));
        }
        if wire::read_u16(buf, 26) % 2 != 0 {
            return Err(ProtoError::Malformed("query directory file name length is not UTF-16 aligned"));
        }
        let file_name: Vec<u8> = if wire::read_u16(buf, 26) == 0 {
            Vec::new()
        } else {
            match locate_buffer(buf.len(), wire::read_u16(buf, 24) as usize,
                wire::read_u16(buf, 26) as usize, 32,
                "query directory file name offset before SMB2 body",
                "query directory file name overflow", "query directory file name out of range") {
                Ok((start, end)) => wire::copy_range(buf, start, end),
                Err(e) => {
                    return Err(e);
                },
            }
        };
        Ok(
            Self {
                structure_size: wire::read_u16(buf, 0),
                file_information_class: buf[2],
                flags: buf[3],
                file_index: wire::read_u32(buf, 4),
                file_id: FileId { persistent: wire::read_u64(buf, 8),
                    volatile: wire::read_u64(buf, 16) },
                file_name_offset: wire::read_u16(buf, 24),
                file_name_length: wire::read_u16(buf, 26),
                output_buffer_length: wire::read_u32(buf, 28),
                file_name,
            },
        )
    }

    /// Appends the bytes of the body.
    pub fn write_to(&self, out: &mut Vec<u8>) -> (r: ProtoResult<()>)
        ensures
            r is Ok,
            final(out)@ == old(out)@ + self.encoding(),
    {
        wire::put_u16(out, self.structure_size);
        out.push(self.file_information_class);
        out.push(self.flags);
        wire::put_u32(out, self.file_index);
        wire::put_u64(out, self.file_id.persistent);
        wire::put_u64(out, self.file_id.volatile);
        wire::put_u16(out, self.file_name_offset);
        wire::put_u16(out, self.file_name_length);
        wire::put_u32(out, self.output_buffer_length);
        wire::put_bytes(out, self.file_name.as_slice());
        assert(out@ =~= old(out)@ + self.encoding());
        Ok(())
    }
}

/// A body that is written in its canonical layout is read back as it was.
#[verifier::rlimit(50)]
pub proof fn query_directory_request_round_trips(m: QueryDirectoryRequest)
    requires
        m.canonical(),
        (m.encoding()).len() <= usize::MAX,
    ensures
        QueryDirectoryRequest::parse_error(m.encoding()) is None,
        m.decodes(m.encoding()),
{
    let b = m.encoding();
    assert(m.encoding().len() == 32 + m.file_name@.len());
    assert(b.subrange(0, 2) =~= wire::bytes16(m.structure_size));
    wire::le16_of_bytes16(b, 0, m.structure_size);
    assert(b[2] == m.file_information_class);
    assert(b[3] == m.flags);
    assert(b.subrange(4, 8) =~= wire::bytes32(m.file_index));
    wire::le32_of_bytes32(b, 4, m.file_index);
    assert(b.subrange(8, 16) =~= wire::bytes64(m.file_id.persistent));
    wire::le64_of_bytes64(b, 8, m.file_id.persistent);
    assert(b.subrange(16, 24) =~= wire::bytes64(m.file_id.volatile));
    wire::le64_of_bytes64(b, 16, m.file_id.volatile);
    assert(b.subrange(24, 26) =~= wire::bytes16(m.file_name_offset));
    wire::le16_of_bytes16(b, 24, m.file_name_offset);
    assert(b.subrange(26, 28) =~= wire::bytes16(m.file_name_length));
    wire::le16_of_bytes16(b, 26, m.file_name_length);
    assert(b.subrange(28, 32) =~= wire::bytes32(m.output_buffer_length));
    wire::le32_of_bytes32(b, 28, m.output_buffer_length);
    assert(b.subrange(32int, 32int + m.file_name@.len()) =~= m.file_name@);
    assert(m.file_name_length == 0 ==> m.file_name@ =~= Seq::<u8>::empty());
}

/// QUERY_DIRECTORY response.
#[derive(Debug, Clone, PartialEq, Eq)]
pub struct QueryDirectoryResponse {
    pub structure_size: u16,
    pub output_buffer_offset: u16,
    pub output_buffer_length: u32,
    pub buffer: Vec<u8>,
}

impl QueryDirectoryResponse {
    /// The error that a body is refused with.
    pub open spec fn parse_error(buf: Seq<u8>) -> Option<ProtoError> {
        if buf.len() < 8 {
            Some(ProtoError::Truncated)
        } else if buf.len() - 8 < wire::le32(buf, 4) {
            Some(ProtoError::Truncated)
        } else if wire::le16(buf, 0) != 9 {
            Some(ProtoError::Malformed("query directory response structure_size != 9"))
        } else {
            None
        }
    }

    /// Whether the fields are what a body holds.
    pub open spec fn decodes(&self, buf: Seq<u8>) -> bool {
        &&& self.structure_size == wire::le16(buf, 0)
        &&& self.output_buffer_offset == wire::le16(buf, 2)
        &&& self.output_buffer_length == wire::le32(buf, 4)
        &&& self.buffer@ == buf.subrange(8, 8 + self.output_buffer_length)
    }

    /// The bytes of the body.
    pub open spec fn encoding(&self) -> Seq<u8> {
        wire::bytes16(self.structure_size) + wire::bytes16(self.output_buffer_offset)
            + wire::bytes32(self.output_buffer_length) + self.buffer@
    }

    /// Whether the counted parts follow the fixed part and have the lengths that
    /// the fields give.
    pub open spec fn canonical(&self) -> bool {
        &&& self.structure_size == 9
        &&& self.output_buffer_length == self.buffer@.len()
    }

    /// Reads a body.
    pub fn parse(buf: &[u8]) -> (r: ProtoResult<Self>)
        ensures
            match r {
                Ok(m) => Self::parse_error(buf@) is None && m.decodes(buf@),
                Err(e) => Self::parse_error(buf@) == Some(e),
            },
    {
        if buf.len() < 8 {
            return Err(ProtoError::Truncated);
        }
        if buf.len() - 8 < wire::read_u32(buf, 4) as usize {
            return Err(ProtoError::Truncated);
        }
        if wire::read_u16(buf, 0) != 9 {
            return Err(ProtoError::Malformed("query directory response structure_size != 9"));
        }
        let buffer: Vec<u8> = wire::copy_range(buf, 8, 8 + wire::read_u32(buf, 4) as usize);
        Ok(
            Self {
                structure_size: wire::read_u16(buf, 0),
                output_buffer_offset: wire::read_u16(buf, 2),
                output_buffer_length: wire::read_u32(buf, 4),
                buffer,
            },
        )
    }

    /// Appends the bytes of the body.
    pub fn write_to(&self, out: &mut Vec<u8>) -> (r: ProtoResult<()>)
        ensures
            r is Ok,
            final(out)@ == old(out)@ + self.encoding(),
    {
        wire::put_u16(out, self.structure_size);
        wire::put_u16(out, self.output_buffer_offset);
        wire::put_u32(out, self.output_buffer_length);
        wire::put_bytes(out, self.buffer.as_slice());
        assert(out@ =~= old(out)@ + self.encoding());
        Ok(())
    }
}

/// A body that is written in its canonical layout is read back as it was.
pub proof fn query_directory_response_round_trips(m: QueryDirectoryResponse)
    requires
        m.canonical(),
    ensures
        QueryDirectoryResponse::parse_error(m.encoding()) is None,
        m.decodes(m.encoding()),
{
    let b = m.encoding();
    assert(m.encoding().len() == 8 + m.buffer@.len());
    assert(b.subrange(0, 2) =~= wire::bytes16(m.structure_size));
    wire::le16_of_bytes16(b, 0, m.structure_size);
    assert(b.subrange(2, 4) =~= wire::bytes16(m.output_buffer_offset));
    wire::le16_of_bytes16(b, 2, m.output_buffer_offset);
    assert(b.subrange(4, 8) =~= wire::bytes32(m.output_buffer_length));
    wire::le32_of_bytes32(b, 4, m.output_buffer_length);
    assert(b.subrange(8int, 8int + m.buffer@.len()) =~= m.buffer@);
}

} // verus!
