//! FLUSH request and response.

use crate::proto::error::{ProtoError, ProtoResult};
use crate::wire;
use vstd::prelude::*;

verus! {

/// FLUSH request.
#[derive(Debug, Clone, PartialEq, Eq)]
pub struct FlushRequest {
    pub structure_size: u16,
    pub reserved1: u16,
    pub reserved2: u32,
    /// Persistent half of the file id.
    pub file_id_persistent: u64,
    /// Volatile half of the file id.
    pub file_id_volatile: u64,
}

impl FlushRequest {
    /// A request for the file of the given id.
    pub fn new(persistent: u64, volatile: u64) -> (r: Self)
        ensures
            r == (Self {
                structure_size: 24,
                reserved1: 0,
                reserved2: 0,
                file_id_persistent: persistent,
                file_id_volatile: volatile,
            }),
    {
        Self {
            structure_size: 24,
            reserved1: 0,
            reserved2: 0,
            file_id_persistent: persistent,
            file_id_volatile: volatile,
        }
    }

    /// The error that a body is refused with.
    pub open spec fn parse_error(buf: Seq<u8>) -> Option<ProtoError> {
        if buf.len() < 24 {
            Some(ProtoError::Malformed("flush request too short"))
        } else if wire::le16(buf, 0) != 24 {
            Some(ProtoError::Malformed("flush request structure_size != 24"))
        } else {
            None
        }
    }

    /// Whether the fields are what a body holds.
    pub open spec fn decodes(&self, buf: Seq<u8>) -> bool {
        &&& self.structure_size == wire::le16(buf, 0)
        &&& self.reserved1 == wire::le16(buf, 2)
        &&& self.reserved2 == wire::le32(buf, 4)
        &&& self.file_id_persistent == wire::le64(buf, 8)
        &&& self.file_id_volatile == wire::le64(buf, 16)
    }

    /// The bytes of the body.
    pub open spec fn encoding(&self) -> Seq<u8> {
        wire::bytes16(self.structure_size) + wire::bytes16(self.reserved1)
            + wire::bytes32(self.reserved2) + wire::bytes64(self.file_id_persistent)
            + wire::bytes64(self.file_id_volatile)
    }

    /// Whether the counted parts follow the fixed part and have the lengths that
    /// the fields give.
    pub open spec fn canonical(&self) -> bool {
        &&& self.structure_size == 24
    }

    /// Reads a body.
    pub fn parse(buf: &[u8]) -> (r: ProtoResult<Self>)
        ensures
            match r {
                Ok(m) => Self::parse_error(buf@) is None && m.decodes(buf@),
                Err(e) => Self::parse_error(buf@) == Some(e),
            },
    {
        if buf.len() < 24 {
            return Err(ProtoError::Malformed("flush request too short"));
        }
        if wire::read_u16(buf, 0) != 24 {
            return Err(ProtoError::Malformed("flush request structure_size != 24"));
        }
        Ok(
            Self {
                structure_size: wire::read_u16(buf, 0),
                reserved1: wire::read_u16(buf, 2),
                reserved2: wire::read_u32(buf, 4),
                file_id_persistent: wire::read_u64(buf, 8),
                file_id_volatile: wire::read_u64(buf, 16),
            },
        )
    }

    /// Appends the bytes of the body.
    pub fn write_to(&self, out: &mut Vec<u8>) -> (r: ProtoResult<()>)
        ensures
            r is Ok,
            final(out)@ == old(out)@ + self.encoding(),
    {
        wire::put_u16(out, self.structure_size);
        wire::put_u16(out, self.reserved1);
        wire::put_u32(out, self.reserved2);
        wire::put_u64(out, self.file_id_persistent);
        wire::put_u64(out, self.file_id_volatile);
        assert(out@ =~= old(out)@ + self.encoding());
        Ok(())
    }
}

/// A body that is written in its canonical layout is read back as it was.
pub proof fn flush_request_round_trips(m: FlushRequest)
    requires
        m.canonical(),
    ensures
        FlushRequest::parse_error(m.encoding()) is None,
        m.decodes(m.encoding()),
{
    let b = m.encoding();
    assert(m.encoding().len() == 24);
    assert(b.subrange(0, 2) =~= wire::bytes16(m.structure_size));
    wire::le16_of_bytes16(b, 0, m.structure_size);
    assert(b.subrange(2, 4) =~= wire::bytes16(m.reserved1));
    wire::le16_of_bytes16(b, 2, m.reserved1);
    assert(b.subrange(4, 8) =~= wire::bytes32(m.reserved2));
    wire::le32_of_bytes32(b, 4, m.reserved2);
    assert(b.subrange(8, 16) =~= wire::bytes64(m.file_id_persistent));
    wire::le64_of_bytes64(b, 8, m.file_id_persistent);
    assert(b.subrange(16, 24) =~= wire::bytes64(m.file_id_volatile));
    wire::le64_of_bytes64(b, 16, m.file_id_volatile);
}

/// FLUSH response.
#[derive(Debug, Clone, PartialEq, Eq)]
pub struct FlushResponse {
    pub structure_size: u16,
    pub reserved: u16,
}

impl Default for FlushResponse {
    fn default() -> (r: Self)
        ensures
            r == (Self { structure_size: 4, reserved: 0 }),
    {
        Self { structure_size: 4, reserved: 0 }
    }
}

impl FlushResponse {
    /// The error that a body is refused with.
    pub open spec fn parse_error(buf: Seq<u8>) -> Option<ProtoError> {
        if buf.len() < 4 {
            Some(ProtoError::Malformed("flush response too short"))
        } else if wire::le16(buf, 0) != 4 {
            Some(ProtoError::Malformed("flush response structure_size != 4"))
        } else {
            None
        }
    }

    /// Whether the fields are what a body holds.
    pub open spec fn decodes(&self, buf: Seq<u8>) -> bool {
        &&& self.structure_size == wire::le16(buf, 0)
        &&& self.reserved == wire::le16(buf, 2)
    }

    /// The bytes of the body.
    pub open spec fn encoding(&self) -> Seq<u8> {
        wire::bytes16(self.structure_size) + wire::bytes16(self.reserved)
    }

    /// Whether the counted parts follow the fixed part and have the lengths that
    /// the fields give.
    pub open spec fn canonical(&self) -> bool {
        &&& self.structure_size == 4
    }

    /// Reads a body.
    pub fn parse(buf: &[u8]) -> (r: ProtoResult<Self>)
        ensures
            match r {
                Ok(m) => Self::parse_error(buf@) is None && m.decodes(buf@),
                Err(e) => Self::parse_error(buf@) == Some(e),
            },
    {
        if buf.len() < 4 {
            return Err(ProtoError::Malformed("flush response too short"));
        }
        if wire::read_u16(buf, 0) != 4 {
            return Err(ProtoError::Malformed("flush response structure_size != 4"));
        }
        Ok(
            Self {
                structure_size: wire::read_u16(buf, 0),
                reserved: wire::read_u16(buf, 2),
            },
        )
    }

    /// Appends the bytes of the body.
    pub fn write_to(&self, out: &mut Vec<u8>) -> (r: ProtoResult<()>)
        ensures
            r is Ok,
            final(out)@ == old(out)@ + self.encoding(),
    {
        wire::put_u16(out, self.structure_size);
        wire::put_u16(out, self.reserved);
        assert(out@ =~= old(out)@ + self.encoding());
        Ok(())
    }
}

/// A body that is written in its canonical layout is read back as it was.
pub proof fn flush_response_round_trips(m: FlushResponse)
    requires
        m.canonical(),
    ensures
        FlushResponse::parse_error(m.encoding()) is None,
        m.decodes(m.encoding()),
{
    let b = m.encoding();
    assert(m.encoding().len() == 4);
    assert(b.subrange(0, 2) =~= wire::bytes16(m.structure_size));
    wire::le16_of_bytes16(b, 0, m.structure_size);
    assert(b.subrange(2, 4) =~= wire::bytes16(m.reserved));
    wire::le16_of_bytes16(b, 2, m.reserved);
}

} // verus!
