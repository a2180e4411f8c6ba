//! CREATE request and response, file ids, oplock and impersonation levels.

use crate::proto::error::{ProtoError, ProtoResult};
use crate::proto::messages::create_context;
use crate::proto::messages::create_context::CreateContext;
use crate::proto::messages::locate_buffer;
use crate::text;
use crate::wire;
use vstd::prelude::*;

verus! {

/// File id: two halves that a client treats as opaque.
#[derive(Debug, Clone, Copy, PartialEq, Eq, Hash, Structural)]
pub struct FileId {
    pub persistent: u64,
    pub volatile: u64,
}

impl Default for FileId {
    fn default() -> (r: Self)
        ensures
            r == (FileId { persistent: 0, volatile: 0 }),
    {
        FileId { persistent: 0, volatile: 0 }
    }
}

impl FileId {
    /// The id of two halves.
    pub fn new(persistent: u64, volatile: u64) -> (r: Self)
        ensures
            r == (FileId { persistent, volatile }),
    {
        FileId { persistent, volatile }
    }

    /// The id that stands for any file.
    pub fn any() -> (r: Self)
        ensures
            r == (FileId { persistent: u64::MAX, volatile: u64::MAX }),
    {
        FileId { persistent: u64::MAX, volatile: u64::MAX }
    }
}

/// CREATE request.
#[derive(Debug, Clone, PartialEq, Eq)]
pub struct CreateRequest {
    pub structure_size: u16,
    pub security_flags: u8,
    pub requested_oplock_level: u8,
    pub impersonation_level: u32,
    pub smb_create_flags: u64,
    pub reserved: u64,
    pub desired_access: u32,
    pub file_attributes: u32,
    pub share_access: u32,
    pub create_disposition: u32,
    pub create_options: u32,
    pub name_offset: u16,
    pub name_length: u16,
    pub create_contexts_offset: u32,
    pub create_contexts_length: u32,
    /// File name, UTF-16LE.
    pub name: Vec<u8>,
    /// Chain of create contexts.
    pub create_contexts: Vec<u8>,
}

impl CreateRequest {
    /// The error that a body is refused with.
    pub open spec fn parse_error(buf: Seq<u8>) -> Option<ProtoError> {
        if buf.len() < 56 {
            Some(ProtoError::Malformed("create request too short"))
        } else if wire::le16(buf, 0) != 57 {
            Some(ProtoError::Malformed("create request structure_size != 57"))
        } else if wire::le16(buf, 46) % 2 != 0 {
            Some(ProtoError::Malformed("create request name length is odd"))
        } else if crate::proto::messages::buffer_error(buf.len() as int, wire::le16(buf, 44) as int,
            wire::le16(buf, 46) as int, 56, "create request name offset before SMB2 body",
            "create request name range overflow", "create request name out of range") is Some {
            crate::proto::messages::buffer_error(buf.len() as int, wire::le16(buf, 44) as int,
                wire::le16(buf, 46) as int, 56, "create request name offset before SMB2 body",
                "create request name range overflow", "create request name out of range")
        } else if wire::le32(buf, 52) != 0
            && crate::proto::messages::buffer_error(buf.len() as int, wire::le32(buf, 48) as int,
            wire::le32(buf, 52) as int, 56, "create request context offset before SMB2 body",
            "create request context range overflow",
            "create request context out of range") is Some {
            crate::proto::messages::buffer_error(buf.len() as int, wire::le32(buf, 48) as int,
                wire::le32(buf, 52) as int, 56, "create request context offset before SMB2 body",
                "create request context range overflow", "create request context out of range")
        } else if wire::le32(buf, 52) != 0
            && create_context::chain_error(buf.subrange(wire::le32(buf, 48) - 64,
            wire::le32(buf, 48) - 64 + wire::le32(buf, 52))) is Some {
            create_context::chain_error(buf.subrange(wire::le32(buf, 48) - 64,
                wire::le32(buf, 48) - 64 + wire::le32(buf, 52)))
        } else {
            None
        }
    }

    /// Whether the fields are what a body holds.
    pub open spec fn decodes(&self, buf: Seq<u8>) -> bool {
        &&& self.structure_size == wire::le16(buf, 0)
        &&& self.security_flags == buf[2]
        &&& self.requested_oplock_level == buf[3]
        &&& self.impersonation_level == wire::le32(buf, 4)
        &&& self.smb_create_flags == wire::le64(buf, 8)
        &&& self.reserved == wire::le64(buf, 16)
        &&& self.desired_access == wire::le32(buf, 24)
        &&& self.file_attributes == wire::le32(buf, 28)
        &&& self.share_access == wire::le32(buf, 32)
        &&& self.create_disposition == wire::le32(buf, 36)
        &&& self.create_options == wire::le32(buf, 40)
        &&& self.name_offset == wire::le16(buf, 44)
        &&& self.name_length == wire::le16(buf, 46)
        &&& self.create_contexts_offset == wire::le32(buf, 48)
        &&& self.create_contexts_length == wire::le32(buf, 52)
        &&& self.name@
            == buf.subrange(self.name_offset - 64, self.name_offset - 64 + self.name_length)
        &&& self.create_contexts@ == if self.create_contexts_length == 0 {
            Seq::empty()
        } else {
            buf.subrange(self.create_contexts_offset - 64, self.create_contexts_offset - 64
                + self.create_contexts_length)
        }
    }

    /// The bytes of the body.
    pub open spec fn encoding(&self) -> Seq<u8> {
        wire::bytes16(self.structure_size) + seq![self.security_flags]
            + seq![self.requested_oplock_level] + wire::bytes32(self.impersonation_level)
            + wire::bytes64(self.smb_create_flags) + wire::bytes64(self.reserved)
            + wire::bytes32(self.desired_access) + wire::bytes32(self.file_attributes)
            + wire::bytes32(self.share_access) + wire::bytes32(self.create_disposition)
            + wire::bytes32(self.create_options) + wire::bytes16(self.name_offset)
            + wire::bytes16(self.name_length) + wire::bytes32(self.create_contexts_offset)
            + wire::bytes32(self.create_contexts_length) + self.name@ + self.create_contexts@
    }

    /// Whether the counted parts follow the fixed part and have the lengths that
    /// the fields give.
    pub open spec fn canonical(&self) -> bool {
        &&& self.structure_size == 57
        &&& self.name_length == self.name@.len()
        &&& self.name_length % 2 == 0
        &&& self.name_offset == 120
        &&& self.create_contexts_length == self.create_contexts@.len()
        &&& self.create_contexts_length != 0 ==> self.create_contexts_offset == 120
            + self.name@.len()
        &&& create_context::chain_error(self.create_contexts@) is None
    }

    /// Reads a body.
    pub fn parse(buf: &[u8]) -> (r: ProtoResult<Self>)
        ensures
            match r {
                Ok(m) => Self::parse_error(buf@) is None && m.decodes(buf@),
                Err(e) => Self::parse_error(buf@) == Some(e),
            },
    {
        if buf.len() < 56 {
            return Err(ProtoError::Malformed("create request too short"));
        }
        if wire::read_u16(buf, 0) != 57 {
            return Err(ProtoError::Malformed("create request structure_size != 57"));
        }
        if wire::read_u16(buf, 46) % 2 != 0 {
            return Err(ProtoError::Malformed("create request name length is odd"));
        }
        let name: Vec<u8> = match locate_buffer(buf.len(), wire::read_u16(buf, 44) as usize,
            wire::read_u16(buf, 46) as usize, 56, "create request name offset before SMB2 body",
            "create request name range overflow", "create request name out of range") {
            Ok((start, end)) => wire::copy_range(buf, start, end),
            Err(e) => {
                return Err(e);
            },
        };
        let create_contexts: Vec<u8> = if wire::read_u32(buf, 52) == 0 {
            Vec::new()
        } else {
            match locate_buffer(buf.len(), wire::read_u32(buf, 48) as usize,
                wire::read_u32(buf, 52) as usize, 56,
                "create request context offset before SMB2 body",
                "create request context range overflow", "create request context out of range") {
                Ok((start, end)) => wire::copy_range(buf, start, end),
                Err(e) => {
                    return Err(e);
                },
            }
        };
        match CreateContext::parse_chain(create_contexts.as_slice()) {
            Ok(_) => {},
            Err(e) => {
                return Err(e);
            },
        }
        Ok(
            Self {
                structure_size: wire::read_u16(buf, 0),
                security_flags: buf[2],
                requested_oplock_level: buf[3],
                impersonation_level: wire::read_u32(buf, 4),
                smb_create_flags: wire::read_u64(buf, 8),
                reserved: wire::read_u64(buf, 16),
                desired_access: wire::read_u32(buf, 24),
                file_attributes: wire::read_u32(buf, 28),
                share_access: wire::read_u32(buf, 32),
                create_disposition: wire::read_u32(buf, 36),
                create_options: wire::read_u32(buf, 40),
                name_offset: wire::read_u16(buf, 44),
                name_length: wire::read_u16(buf, 46),
                create_contexts_offset: wire::read_u32(buf, 48),
                create_contexts_length: wire::read_u32(buf, 52),
                name,
                create_contexts,
            },
        )
    }

    /// Appends the bytes of the body.
    pub fn write_to(&self, out: &mut Vec<u8>) -> (r: ProtoResult<()>)
        ensures
            r is Ok,
            final(out)@ == old(out)@ + self.encoding(),
    {
        wire::put_u16(out, self.structure_size);
        out.push(self.security_flags);
        out.push(self.requested_oplock_level);
        wire::put_u32(out, self.impersonation_level);
        wire::put_u64(out, self.smb_create_flags);
        wire::put_u64(out, self.reserved);
        wire::put_u32(out, self.desired_access);
        wire::put_u32(out, self.file_attributes);
        wire::put_u32(out, self.share_access);
        wire::put_u32(out, self.create_disposition);
        wire::put_u32(out, self.create_options);
        wire::put_u16(out, self.name_offset);
        wire::put_u16(out, self.name_length);
        wire::put_u32(out, self.create_contexts_offset);
        wire::put_u32(out, self.create_contexts_length);
        wire::put_bytes(out, self.name.as_slice());
        wire::put_bytes(out, self.create_contexts.as_slice());
        assert(out@ =~= old(out)@ + self.encoding());
        Ok(())
    }

    /// The file name as text, `None` where it has an odd number of bytes.
    pub fn name_str(&self) -> (r: Option<String>)
        ensures
            match r {
                Some(s) => self.name@.len() % 2 == 0 && s@ == text::utf16_chars(
                    text::utf16_units(self.name@),
                ),
                None => self.name@.len() % 2 != 0,
            },
    {
        text::decode_utf16le(self.name.as_slice())
    }
}

/// A body that is written in its canonical layout is read back as it was.
#[verifier::rlimit(60)]
#[verifier::spinoff_prover]
pub proof fn create_request_round_trips(m: CreateRequest)
    requires
        m.canonical(),
        (m.encoding()).len() <= usize::MAX,
    ensures
        CreateRequest::parse_error(m.encoding()) is None,
        m.decodes(m.encoding()),
{
    let b = m.encoding();
    assert(m.encoding().len() == 56 + m.name@.len() + m.create_contexts@.len());
    assert(b.subrange(0, 2) =~= wire::bytes16(m.structure_size));
    wire::le16_of_bytes16(b, 0, m.structure_size);
    assert(b[2] == m.security_flags);
    assert(b[3] == m.requested_oplock_level);
    assert(b.subrange(4, 8) =~= wire::bytes32(m.impersonation_level));
    wire::le32_of_bytes32(b, 4, m.impersonation_level);
    assert(b.subrange(8, 16) =~= wire::bytes64(m.smb_create_flags));
    wire::le64_of_bytes64(b, 8, m.smb_create_flags);
    assert(b.subrange(16, 24) =~= wire::bytes64(m.reserved));
    wire::le64_of_bytes64(b, 16, m.reserved);
    assert(b.subrange(24, 28) =~= wire::bytes32(m.desired_access));
    wire::le32_of_bytes32(b, 24, m.desired_access);
    assert(b.subrange(28, 32) =~= wire::bytes32(m.file_attributes));
    wire::le32_of_bytes32(b, 28, m.file_attributes);
    assert(b.subrange(32, 36) =~= wire::bytes32(m.share_access));
    wire::le32_of_bytes32(b, 32, m.share_access);
    assert(b.subrange(36, 40) =~= wire::bytes32(m.create_disposition));
    wire::le32_of_bytes32(b, 36, m.create_disposition);
    assert(b.subrange(40, 44) =~= wire::bytes32(m.create_options));
    wire::le32_of_bytes32(b, 40, m.create_options);
    assert(b.subrange(44, 46) =~= wire::bytes16(m.name_offset));
    wire::le16_of_bytes16(b, 44, m.name_offset);
    assert(b.subrange(46, 48) =~= wire::bytes16(m.name_length));
    wire::le16_of_bytes16(b, 46, m.name_length);
    assert(b.subrange(48, 52) =~= wire::bytes32(m.create_contexts_offset));
    wire::le32_of_bytes32(b, 48, m.create_contexts_offset);
    assert(b.subrange(52, 56) =~= wire::bytes32(m.create_contexts_length));
    wire::le32_of_bytes32(b, 52, m.create_contexts_length);
    assert(b.subrange(56int, 56int + m.name@.len()) =~= m.name@);
    assert(b.subrange(56int + m.name@.len(), 56int + m.name@.len() + m.create_contexts@.len())
        =~= m.create_contexts@);
    assert(m.create_contexts_length == 0 ==> m.create_contexts@ =~= Seq::<u8>::empty());
}

/// CREATE response.
#[derive(Debug, Clone, PartialEq, Eq)]
pub struct CreateResponse {
    pub structure_size: u16,
    pub oplock_level: u8,
    pub flags: u8,
    pub create_action: u32,
    pub creation_time: u64,
    pub last_access_time: u64,
    pub last_write_time: u64,
    pub change_time: u64,
    pub allocation_size: u64,
    pub end_of_file: u64,
    pub file_attributes: u32,
    pub reserved2: u32,
    pub file_id: FileId,
    pub create_contexts_offset: u32,
    pub create_contexts_length: u32,
    /// Chain of create contexts.
    pub create_contexts: Vec<u8>,
}

impl CreateResponse {
    /// The error that a body is refused with.
    pub open spec fn parse_error(buf: Seq<u8>) -> Option<ProtoError> {
        if buf.len() < 88 {
            Some(ProtoError::Malformed("create response too short"))
        } else if wire::le16(buf, 0) != 89 {
            Some(ProtoError::Malformed("create response structure_size != 89"))
        } else if wire::le32(buf, 84) != 0
            && crate::proto::messages::buffer_error(buf.len() as int, wire::le32(buf, 80) as int,
            wire::le32(buf, 84) as int, 88, "create response context offset before SMB2 body",
            "create response context range overflow",
            "create response context out of range") is Some {
            crate::proto::messages::buffer_error(buf.len() as int, wire::le32(buf, 80) as int,
                wire::le32(buf, 84) as int, 88, "create response context offset before SMB2 body",
                "create response context range overflow", "create response context out of range")
        } else if wire::le32(buf, 84) != 0
            && create_context::chain_error(buf.subrange(wire::le32(buf, 80) - 64,
            wire::le32(buf, 80) - 64 + wire::le32(buf, 84))) is Some {
            create_context::chain_error(buf.subrange(wire::le32(buf, 80) - 64,
                wire::le32(buf, 80) - 64 + wire::le32(buf, 84)))
        } else {
            None
        }
    }

    /// Whether the fields are what a body holds.
    pub open spec fn decodes(&self, buf: Seq<u8>) -> bool {
        &&& self.structure_size == wire::le16(buf, 0)
        &&& self.oplock_level == buf[2]
        &&& self.flags == buf[3]
        &&& self.create_action == wire::le32(buf, 4)
        &&& self.creation_time == wire::le64(buf, 8)
        &&& self.last_access_time == wire::le64(buf, 16)
        &&& self.last_write_time == wire::le64(buf, 24)
        &&& self.change_time == wire::le64(buf, 32)
        &&& self.allocation_size == wire::le64(buf, 40)
        &&& self.end_of_file == wire::le64(buf, 48)
        &&& self.file_attributes == wire::le32(buf, 56)
        &&& self.reserved2 == wire::le32(buf, 60)
        &&& self.file_id.persistent == wire::le64(buf, 64)
        &&& self.file_id.volatile == wire::le64(buf, 72)
        &&& self.create_contexts_offset == wire::le32(buf, 80)
        &&& self.create_contexts_length == wire::le32(buf, 84)
        &&& self.create_contexts@ == if self.create_contexts_length == 0 {
            Seq::empty()
        } else {
            buf.subrange(self.create_contexts_offset - 64, self.create_contexts_offset - 64
                + self.create_contexts_length)
        }
    }

    /// The bytes of the body.
    pub open spec fn encoding(&self) -> Seq<u8> {
        wire::bytes16(self.structure_size) + seq![self.oplock_level] + seq![self.flags]
            + wire::bytes32(self.create_action) + wire::bytes64(self.creation_time)
            + wire::bytes64(self.last_access_time) + wire::bytes64(self.last_write_time)
            + wire::bytes64(self.change_time) + wire::bytes64(self.allocation_size)
            + wire::bytes64(self.end_of_file) + wire::bytes32(self.file_attributes)
            + wire::bytes32(self.reserved2) + wire::bytes64(self.file_id.persistent)
            + wire::bytes64(self.file_id.volatile) + wire::bytes32(self.create_contexts_offset)
            + wire::bytes32(self.create_contexts_length) + self.create_contexts@
    }

    /// Whether the counted parts follow the fixed part and have the lengths that
    /// the fields give.
    pub open spec fn canonical(&self) -> bool {
        &&& self.structure_size == 89
        &&& self.create_contexts_length == self.create_contexts@.len()
        &&& self.create_contexts_length != 0 ==> self.create_contexts_offset == 152
        &&& create_context::chain_error(self.create_contexts@) is None
    }

    /// Reads a body.
    pub fn parse(buf: &[u8]) -> (r: ProtoResult<Self>)
        ensures
            match r {
                Ok(m) => Self::parse_error(buf@) is None && m.decodes(buf@),
                Err(e) => Self::parse_error(buf@) == Some(e),
            },
    {
        if buf.len() < 88 {
            return Err(ProtoError::Malformed("create response too short"));
        }
        if wire::read_u16(buf, 0) != 89 {
            return Err(ProtoError::Malformed("create response structure_size != 89"));
        }
        let create_contexts: Vec<u8> = if wire::read_u32(buf, 84) == 0 {
            Vec::new()
        } else {
            match locate_buffer(buf.len(), wire::read_u32(buf, 80) as usize,
                wire::read_u32(buf, 84) as usize, 88,
                "create response context offset before SMB2 body",
                "create response context range overflow", "create response context out of range") {
                Ok((start, end)) => wire::copy_range(buf, start, end),
                Err(e) => {
                    return Err(e);
                },
            }
        };
        match CreateContext::parse_chain(create_contexts.as_slice()) {
            Ok(_) => {},
            Err(e) => {
                return Err(e);
            },
        }
        Ok(
            Self {
                structure_size: wire::read_u16(buf, 0),
                oplock_level: buf[2],
                flags: buf[3],
                create_action: wire::read_u32(buf, 4),
                creation_time: wire::read_u64(buf, 8),
                last_access_time: wire::read_u64(buf, 16),
                last_write_time: wire::read_u64(buf, 24),
                change_time: wire::read_u64(buf, 32),
                allocation_size: wire::read_u64(buf, 40),
                end_of_file: wire::read_u64(buf, 48),
                file_attributes: wire::read_u32(buf, 56),
                reserved2: wire::read_u32(buf, 60),
                file_id: FileId { persistent: wire::read_u64(buf, 64),
                    volatile: wire::read_u64(buf, 72) },
                create_contexts_offset: wire::read_u32(buf, 80),
                create_contexts_length: wire::read_u32(buf, 84),
                create_contexts,
            },
        )
    }

    /// Appends the bytes of the body.
    pub fn write_to(&self, out: &mut Vec<u8>) -> (r: ProtoResult<()>)
        ensures
            r is Ok,
            final(out)@ == old(out)@ + self.encoding(),
    {
        wire::put_u16(out, self.structure_size);
        out.push(self.oplock_level);
        out.push(self.flags);
        wire::put_u32(out, self.create_action);
        wire::put_u64(out, self.creation_time);
        wire::put_u64(out, self.last_access_time);
        wire::put_u64(out, self.last_write_time);
        wire::put_u64(out, self.change_time);
        wire::put_u64(out, self.allocation_size);
        wire::put_u64(out, self.end_of_file);
        wire::put_u32(out, self.file_attributes);
        wire::put_u32(out, self.reserved2);
        wire::put_u64(out, self.file_id.persistent);
        wire::put_u64(out, self.file_id.volatile);
        wire::put_u32(out, self.create_contexts_offset);
        wire::put_u32(out, self.create_contexts_length);
        wire::put_bytes(out, self.create_contexts.as_slice());
        assert(out@ =~= old(out)@ + self.encoding());
        Ok(())
    }
}

/// A body that is written in its canonical layout is read back as it was.
#[verifier::rlimit(60)]
#[verifier::spinoff_prover]
pub proof fn create_response_round_trips(m: CreateResponse)
    requires
        m.canonical(),
        (m.encoding()).len() <= usize::MAX,
    ensures
        CreateResponse::parse_error(m.encoding()) is None,
        m.decodes(m.encoding()),
{
    let b = m.encoding();
    assert(m.encoding().len() == 88 + m.create_contexts@.len());
    assert(b.subrange(0, 2) =~= wire::bytes16(m.structure_size));
    wire::le16_of_bytes16(b, 0, m.structure_size);
    assert(b[2] == m.oplock_level);
    assert(b[3] == m.flags);
    assert(b.subrange(4, 8) =~= wire::bytes32(m.create_action));
    wire::le32_of_bytes32(b, 4, m.create_action);
    assert(b.subrange(8, 16) =~= wire::bytes64(m.creation_time));
    wire::le64_of_bytes64(b, 8, m.creation_time);
    assert(b.subrange(16, 24) =~= wire::bytes64(m.last_access_time));
    wire::le64_of_bytes64(b, 16, m.last_access_time);
    assert(b.subrange(24, 32) =~= wire::bytes64(m.last_write_time));
    wire::le64_of_bytes64(b, 24, m.last_write_time);
    assert(b.subrange(32, 40) =~= wire::bytes64(m.change_time));
    wire::le64_of_bytes64(b, 32, m.change_time);
    assert(b.subrange(40, 48) =~= wire::bytes64(m.allocation_size));
    wire::le64_of_bytes64(b, 40, m.allocation_size);
    assert(b.subrange(48, 56) =~= wire::bytes64(m.end_of_file));
    wire::le64_of_bytes64(b, 48, m.end_of_file);
    assert(b.subrange(56, 60) =~= wire::bytes32(m.file_attributes));
    wire::le32_of_bytes32(b, 56, m.file_attributes);
    assert(b.subrange(60, 64) =~= wire::bytes32(m.reserved2));
    wire::le32_of_bytes32(b, 60, m.reserved2);
    assert(b.subrange(64, 72) =~= wire::bytes64(m.file_id.persistent));
    wire::le64_of_bytes64(b, 64, m.file_id.persistent);
    assert(b.subrange(72, 80) =~= wire::bytes64(m.file_id.volatile));
    wire::le64_of_bytes64(b, 72, m.file_id.volatile);
    assert(b.subrange(80, 84) =~= wire::bytes32(m.create_contexts_offset));
    wire::le32_of_bytes32(b, 80, m.create_contexts_offset);
    assert(b.subrange(84, 88) =~= wire::bytes32(m.create_contexts_length));
    wire::le32_of_bytes32(b, 84, m.create_contexts_length);
    assert(b.subrange(88int, 88int + m.create_contexts@.len()) =~= m.create_contexts@);
    assert(m.create_contexts_length == 0 ==> m.create_contexts@ =~= Seq::<u8>::empty());
}

/// Oplock levels.
#[derive(Debug, Clone, Copy, PartialEq, Eq, Structural)]
pub enum OplockLevel {
    NoOplock,
    Ii,
    Exclusive,
    Batch,
    Lease,
}

impl OplockLevel {
    /// The code on the wire.
    pub open spec fn code(self) -> u8 {
        match self {
            Self::NoOplock => 0x00,
            Self::Ii => 0x01,
            Self::Exclusive => 0x08,
            Self::Batch => 0x09,
            Self::Lease => 0xFF,
        }
    }

    /// The value of a code, `None` where the code has none.
    pub open spec fn of_code(v: u8) -> Option<Self> {
        if v == 0x00 {
            Some(Self::NoOplock)
        } else if v == 0x01 {
            Some(Self::Ii)
        } else if v == 0x08 {
            Some(Self::Exclusive)
        } else if v == 0x09 {
            Some(Self::Batch)
        } else if v == 0xFF {
            Some(Self::Lease)
        } else {
            None
        }
    }

    /// The level of a code.
    pub fn from_u8(v: u8) -> (r: Option<Self>)
        ensures
            r == Self::of_code(v),
    {
        match v {
            0x00 => Some(Self::NoOplock),
            0x01 => Some(Self::Ii),
            0x08 => Some(Self::Exclusive),
            0x09 => Some(Self::Batch),
            0xFF => Some(Self::Lease),
            _ => None,
        }
    }

    /// The code on the wire.
    pub fn as_u8(self) -> (r: u8)
        ensures
            r == self.code(),
    {
        match self {
            Self::NoOplock => 0x00,
            Self::Ii => 0x01,
            Self::Exclusive => 0x08,
            Self::Batch => 0x09,
            Self::Lease => 0xFF,
        }
    }
}

/// A value is found again by its code, and only by it.
pub proof fn oplock_level_codes_round_trip(x: OplockLevel, v: u8)
    ensures
        OplockLevel::of_code(x.code()) == Some(x),
        OplockLevel::of_code(v) == Some(x) ==> x.code() == v,
{
}

/// Impersonation levels.
#[derive(Debug, Clone, Copy, PartialEq, Eq, Structural)]
pub enum ImpersonationLevel {
    Anonymous,
    Identification,
    Impersonation,
    Delegate,
}

impl ImpersonationLevel {
    /// The code on the wire.
    pub open spec fn code(self) -> u32 {
        match self {
            Self::Anonymous => 0,
            Self::Identification => 1,
            Self::Impersonation => 2,
            Self::Delegate => 3,
        }
    }

    /// The code on the wire.
    pub fn as_u32(self) -> (r: u32)
        ensures
            r == self.code(),
    {
        match self {
            Self::Anonymous => 0,
            Self::Identification => 1,
            Self::Impersonation => 2,
            Self::Delegate => 3,
        }
    }
}

} // verus!
