//! CANCEL request. It has no response.

use crate::proto::error::{ProtoError, ProtoResult};
use crate::wire;
use vstd::prelude::*;

verus! {

/// CANCEL request.
#[derive(Debug, Clone, PartialEq, Eq)]
pub struct CancelRequest {
    pub structure_size: u16,
    pub reserved: u16,
}

impl Default for CancelRequest {
    fn default() -> (r: Self)
        ensures
            r == (Self { structure_size: 4, reserved: 0 }),
    {
        Self { structure_size: 4, reserved: 0 }
    }
}

impl CancelRequest {
    /// The error that a body is refused with.
    pub open spec fn parse_error(buf: Seq<u8>) -> Option<ProtoError> {
        if buf.len() < 4 {
            Some(ProtoError::Truncated)
        } else if wire::le16(buf, 0) != 4 {
            Some(ProtoError::Malformed("cancel request structure_size != 4"))
        } else {
            None
        }
    }

    /// Whether the fields are what a body holds.
    pub open spec fn decodes(&self, buf: Seq<u8>) -> bool {
        &&& self.structure_size == wire::le16(buf, 0)
        &&& self.reserved == wire::le16(buf, 2)
    }

    /// The bytes of the body.
    pub open spec fn encoding(&self) -> Seq<u8> {
        wire::bytes16(self.structure_size) + wire::bytes16(self.reserved)
    }

    /// Whether the counted parts follow the fixed part and have the lengths that
    /// the fields give.
    pub open spec fn canonical(&self) -> bool {
        &&& self.structure_size == 4
    }

    /// Reads a body.
    pub fn parse(buf: &[u8]) -> (r: ProtoResult<Self>)
        ensures
            match r {
                Ok(m) => Self::parse_error(buf@) is None && m.decodes(buf@),
                Err(e) => Self::parse_error(buf@) == Some(e),
            },
    {
        if buf.len() < 4 {
            return Err(ProtoError::Truncated);
        }
        if wire::read_u16(buf, 0) != 4 {
            return Err(ProtoError::Malformed("cancel request structure_size != 4"));
        }
        Ok(
            Self {
                structure_size: wire::read_u16(buf, 0),
                reserved: wire::read_u16(buf, 2),
            },
        )
    }

    /// Appends the bytes of the body.
    pub fn write_to(&self, out: &mut Vec<u8>) -> (r: ProtoResult<()>)
        ensures
            r is Ok,
            final(out)@ == old(out)@ + self.encoding(),
    {
        wire::put_u16(out, self.structure_size);
        wire::put_u16(out, self.reserved);
        assert(out@ =~= old(out)@ + self.encoding());
        Ok(())
    }
}

/// A body that is written in its canonical layout is read back as it was.
pub proof fn cancel_request_round_trips(m: CancelRequest)
    requires
        m.canonical(),
    ensures
        CancelRequest::parse_error(m.encoding()) is None,
        m.decodes(m.encoding()),
{
    let b = m.encoding();
    assert(m.encoding().len() == 4);
    assert(b.subrange(0, 2) =~= wire::bytes16(m.structure_size));
    wire::le16_of_bytes16(b, 0, m.structure_size);
    assert(b.subrange(2, 4) =~= wire::bytes16(m.reserved));
    wire::le16_of_bytes16(b, 2, m.reserved);
}

} // verus!
