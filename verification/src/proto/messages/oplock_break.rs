//! Oplock and lease breaks: notifications and acknowledgements.

use crate::proto::error::{ProtoError, ProtoResult};
use crate::proto::messages::create::FileId;
use crate::wire;
use vstd::prelude::*;

verus! {

/// Notification that an oplock is broken to a lower level.
#[derive(Debug, Clone, Copy, PartialEq, Eq)]
pub struct OplockBreakNotification {
    pub structure_size: u16,
    pub oplock_level: u8,
    pub reserved: u8,
    pub reserved2: u32,
    pub file_id: FileId,
}

impl OplockBreakNotification {
    /// The error that a body is refused with.
    pub open spec fn parse_error(buf: Seq<u8>) -> Option<ProtoError> {
        if buf.len() < 24 {
            Some(ProtoError::Truncated)
        } else if wire::le16(buf, 0) != 24 {
            Some(ProtoError::Malformed("oplock break structure_size != 24"))
        } else {
            None
        }
    }

    /// Whether the fields are what a body holds.
    pub open spec fn decodes(&self, buf: Seq<u8>) -> bool {
        &&& self.structure_size == wire::le16(buf, 0)
        &&& self.oplock_level == buf[2]
        &&& self.reserved == buf[3]
        &&& self.reserved2 == wire::le32(buf, 4)
        &&& self.file_id.persistent == wire::le64(buf, 8)
        &&& self.file_id.volatile == wire::le64(buf, 16)
    }

    /// The bytes of the body.
    pub open spec fn encoding(&self) -> Seq<u8> {
        wire::bytes16(self.structure_size) + seq![self.oplock_level] + seq![self.reserved]
            + wire::bytes32(self.reserved2) + wire::bytes64(self.file_id.persistent)
            + wire::bytes64(self.file_id.volatile)
    }

    /// Whether the counted parts follow the fixed part and have the lengths that
    /// the fields give.
    pub open spec fn canonical(&self) -> bool {
        &&& self.structure_size == 24
    }

    /// Reads a body.
    pub fn parse(buf: &[u8]) -> (r: ProtoResult<Self>)
        ensures
            match r {
                Ok(m) => Self::parse_error(buf@) is None && m.decodes(buf@),
                Err(e) => Self::parse_error(buf@) == Some(e),
            },
    {
        if buf.len() < 24 {
            return Err(ProtoError::Truncated);
        }
        if wire::read_u16(buf, 0) != 24 {
            return Err(ProtoError::Malformed("oplock break structure_size != 24"));
        }
        Ok(
            Self {
                structure_size: wire::read_u16(buf, 0),
                oplock_level: buf[2],
                reserved: buf[3],
                reserved2: wire::read_u32(buf, 4),
                file_id: FileId { persistent: wire::read_u64(buf, 8),
                    volatile: wire::read_u64(buf, 16) },
            },
        )
    }

    /// Appends the bytes of the body.
    pub fn write_to(&self, out: &mut Vec<u8>) -> (r: ProtoResult<()>)
        ensures
            r is Ok,
            final(out)@ == old(out)@ + self.encoding(),
    {
        wire::put_u16(out, self.structure_size);
        out.push(self.oplock_level);
        out.push(self.reserved);
        wire::put_u32(out, self.reserved2);
        wire::put_u64(out, self.file_id.persistent);
        wire::put_u64(out, self.file_id.volatile);
        assert(out@ =~= old(out)@ + self.encoding());
        Ok(())
    }
}

/// A body that is written in its canonical layout is read back as it was.
pub proof fn oplock_break_notification_round_trips(m: OplockBreakNotification)
    requires
        m.canonical(),
    ensures
        OplockBreakNotification::parse_error(m.encoding()) is None,
        m.decodes(m.encoding()),
{
    let b = m.encoding();
    assert(m.encoding().len() == 24);
    assert(b.subrange(0, 2) =~= wire::bytes16(m.structure_size));
    wire::le16_of_bytes16(b, 0, m.structure_size);
    assert(b[2] == m.oplock_level);
    assert(b[3] == m.reserved);
    assert(b.subrange(4, 8) =~= wire::bytes32(m.reserved2));
    wire::le32_of_bytes32(b, 4, m.reserved2);
    assert(b.subrange(8, 16) =~= wire::bytes64(m.file_id.persistent));
    wire::le64_of_bytes64(b, 8, m.file_id.persistent);
    assert(b.subrange(16, 24) =~= wire::bytes64(m.file_id.volatile));
    wire::le64_of_bytes64(b, 16, m.file_id.volatile);
}

/// Acknowledgement of an oplock break; it has the layout of the notification.
pub type OplockBreakAck = OplockBreakNotification;

/// Acknowledgement of a lease break.
#[derive(Debug, Clone, PartialEq, Eq)]
pub struct LeaseBreakAck {
    pub structure_size: u16,
    pub reserved: u16,
    pub flags: u32,
    pub lease_key: [u8; 16],
    pub lease_state: u32,
    pub lease_duration: u64,
}

impl LeaseBreakAck {
    /// The error that a body is refused with.
    pub open spec fn parse_error(buf: Seq<u8>) -> Option<ProtoError> {
        if buf.len() < 36 {
            Some(ProtoError::Truncated)
        } else if wire::le16(buf, 0) != 36 {
            Some(ProtoError::Malformed("lease break ack structure_size != 36"))
        } else {
            None
        }
    }

    /// Whether the fields are what a body holds.
    pub open spec fn decodes(&self, buf: Seq<u8>) -> bool {
        &&& self.structure_size == wire::le16(buf, 0)
        &&& self.reserved == wire::le16(buf, 2)
        &&& self.flags == wire::le32(buf, 4)
        &&& self.lease_key@ == buf.subrange(8, 24)
        &&& self.lease_state == wire::le32(buf, 24)
        &&& self.lease_duration == wire::le64(buf, 28)
    }

    /// The bytes of the body.
    pub open spec fn encoding(&self) -> Seq<u8> {
        wire::bytes16(self.structure_size) + wire::bytes16(self.reserved)
            + wire::bytes32(self.flags) + self.lease_key@ + wire::bytes32(self.lease_state)
            + wire::bytes64(self.lease_duration)
    }

    /// Whether the counted parts follow the fixed part and have the lengths that
    /// the fields give.
    pub open spec fn canonical(&self) -> bool {
        &&& self.structure_size == 36
    }

    /// Reads a body.
    pub fn parse(buf: &[u8]) -> (r: ProtoResult<Self>)
        ensures
            match r {
                Ok(m) => Self::parse_error(buf@) is None && m.decodes(buf@),
                Err(e) => Self::parse_error(buf@) == Some(e),
            },
    {
        if buf.len() < 36 {
            return Err(ProtoError::Truncated);
        }
        if wire::read_u16(buf, 0) != 36 {
            return Err(ProtoError::Malformed("lease break ack structure_size != 36"));
        }
        Ok(
            Self {
                structure_size: wire::read_u16(buf, 0),
                reserved: wire::read_u16(buf, 2),
                flags: wire::read_u32(buf, 4),
                lease_key: wire::read_array16(buf, 8),
                lease_state: wire::read_u32(buf, 24),
                lease_duration: wire::read_u64(buf, 28),
            },
        )
    }

    /// Appends the bytes of the body.
    pub fn write_to(&self, out: &mut Vec<u8>) -> (r: ProtoResult<()>)
        ensures
            r is Ok,
            final(out)@ == old(out)@ + self.encoding(),
    {
        wire::put_u16(out, self.structure_size);
        wire::put_u16(out, self.reserved);
        wire::put_u32(out, self.flags);
        wire::put_bytes(out, self.lease_key.as_slice());
        wire::put_u32(out, self.lease_state);
        wire::put_u64(out, self.lease_duration);
        assert(out@ =~= old(out)@ + self.encoding());
        Ok(())
    }
}

/// A body that is written in its canonical layout is read back as it was.
pub proof fn lease_break_ack_round_trips(m: LeaseBreakAck)
    requires
        m.canonical(),
    ensures
        LeaseBreakAck::parse_error(m.encoding()) is None,
        m.decodes(m.encoding()),
{
    let b = m.encoding();
    assert(m.encoding().len() == 36);
    assert(b.subrange(0, 2) =~= wire::bytes16(m.structure_size));
    wire::le16_of_bytes16(b, 0, m.structure_size);
    assert(b.subrange(2, 4) =~= wire::bytes16(m.reserved));
    wire::le16_of_bytes16(b, 2, m.reserved);
    assert(b.subrange(4, 8) =~= wire::bytes32(m.flags));
    wire::le32_of_bytes32(b, 4, m.flags);
    assert(b.subrange(8, 24) =~= m.lease_key@);
    assert(b.subrange(24, 28) =~= wire::bytes32(m.lease_state));
    wire::le32_of_bytes32(b, 24, m.lease_state);
    assert(b.subrange(28, 36) =~= wire::bytes64(m.lease_duration));
    wire::le64_of_bytes64(b, 28, m.lease_duration);
}

/// Response to a lease break acknowledgement, with the state that was accepted.
pub type LeaseBreakResponse = LeaseBreakAck;

/// Notification that a lease is broken to a lower state.
#[derive(Debug, Clone, Copy, PartialEq, Eq)]
pub struct LeaseBreakNotification {
    pub structure_size: u16,
    pub new_epoch: u16,
    pub flags: u32,
    pub lease_key: [u8; 16],
    pub current_lease_state: u32,
    pub new_lease_state: u32,
    pub break_reason: u32,
    pub access_mask_hint: u32,
    pub share_mask_hint: u32,
}

impl LeaseBreakNotification {
    /// The error that a body is refused with.
    pub open spec fn parse_error(buf: Seq<u8>) -> Option<ProtoError> {
        if buf.len() < 44 {
            Some(ProtoError::Truncated)
        } else if wire::le16(buf, 0) != 44 {
            Some(ProtoError::Malformed("lease break notification structure_size != 44"))
        } else {
            None
        }
    }

    /// Whether the fields are what a body holds.
    pub open spec fn decodes(&self, buf: Seq<u8>) -> bool {
        &&& self.structure_size == wire::le16(buf, 0)
        &&& self.new_epoch == wire::le16(buf, 2)
        &&& self.flags == wire::le32(buf, 4)
        &&& self.lease_key@ == buf.subrange(8, 24)
        &&& self.current_lease_state == wire::le32(buf, 24)
        &&& self.new_lease_state == wire::le32(buf, 28)
        &&& self.break_reason == wire::le32(buf, 32)
        &&& self.access_mask_hint == wire::le32(buf, 36)
        &&& self.share_mask_hint == wire::le32(buf, 40)
    }

    /// The bytes of the body.
    pub open spec fn encoding(&self) -> Seq<u8> {
        wire::bytes16(self.structure_size) + wire::bytes16(self.new_epoch)
            + wire::bytes32(self.flags) + self.lease_key@ + wire::bytes32(self.current_lease_state)
            + wire::bytes32(self.new_lease_state) + wire::bytes32(self.break_reason)
            + wire::bytes32(self.access_mask_hint) + wire::bytes32(self.share_mask_hint)
    }

    /// Whether the counted parts follow the fixed part and have the lengths that
    /// the fields give.
    pub open spec fn canonical(&self) -> bool {
        &&& self.structure_size == 44
    }

    /// Reads a body.
    pub fn parse(buf: &[u8]) -> (r: ProtoResult<Self>)
        ensures
            match r {
                Ok(m) => Self::parse_error(buf@) is None && m.decodes(buf@),
                Err(e) => Self::parse_error(buf@) == Some(e),
            },
    {
        if buf.len() < 44 {
            return Err(ProtoError::Truncated);
        }
        if wire::read_u16(buf, 0) != 44 {
            return Err(ProtoError::Malformed("lease break notification structure_size != 44"));
        }
        Ok(
            Self {
                structure_size: wire::read_u16(buf, 0),
                new_epoch: wire::read_u16(buf, 2),
                flags: wire::read_u32(buf, 4),
                lease_key: wire::read_array16(buf, 8),
                current_lease_state: wire::read_u32(buf, 24),
                new_lease_state: wire::read_u32(buf, 28),
                break_reason: wire::read_u32(buf, 32),
                access_mask_hint: wire::read_u32(buf, 36),
                share_mask_hint: wire::read_u32(buf, 40),
            },
        )
    }

    /// Appends the bytes of the body.
    pub fn write_to(&self, out: &mut Vec<u8>) -> (r: ProtoResult<()>)
        ensures
            r is Ok,
            final(out)@ == old(out)@ + self.encoding(),
    {
        wire::put_u16(out, self.structure_size);
        wire::put_u16(out, self.new_epoch);
        wire::put_u32(out, self.flags);
        wire::put_bytes(out, self.lease_key.as_slice());
        wire::put_u32(out, self.current_lease_state);
        wire::put_u32(out, self.new_lease_state);
        wire::put_u32(out, self.break_reason);
        wire::put_u32(out, self.access_mask_hint);
        wire::put_u32(out, self.share_mask_hint);
        assert(out@ =~= old(out)@ + self.encoding());
        Ok(())
    }
}

/// A body that is written in its canonical layout is read back as it was.
#[verifier::rlimit(50)]
pub proof fn lease_break_notification_round_trips(m: LeaseBreakNotification)
    requires
        m.canonical(),
    ensures
        LeaseBreakNotification::parse_error(m.encoding()) is None,
        m.decodes(m.encoding()),
{
    let b = m.encoding();
    assert(m.encoding().len() == 44);
    assert(b.subrange(0, 2) =~= wire::bytes16(m.structure_size));
    wire::le16_of_bytes16(b, 0, m.structure_size);
    assert(b.subrange(2, 4) =~= wire::bytes16(m.new_epoch));
    wire::le16_of_bytes16(b, 2, m.new_epoch);
    assert(b.subrange(4, 8) =~= wire::bytes32(m.flags));
    wire::le32_of_bytes32(b, 4, m.flags);
    assert(b.subrange(8, 24) =~= m.lease_key@);
    assert(b.subrange(24, 28) =~= wire::bytes32(m.current_lease_state));
    wire::le32_of_bytes32(b, 24, m.current_lease_state);
    assert(b.subrange(28, 32) =~= wire::bytes32(m.new_lease_state));
    wire::le32_of_bytes32(b, 28, m.new_lease_state);
    assert(b.subrange(32, 36) =~= wire::bytes32(m.break_reason));
    wire::le32_of_bytes32(b, 32, m.break_reason);
    assert(b.subrange(36, 40) =~= wire::bytes32(m.access_mask_hint));
    wire::le32_of_bytes32(b, 36, m.access_mask_hint);
    assert(b.subrange(40, 44) =~= wire::bytes32(m.share_mask_hint));
    wire::le32_of_bytes32(b, 40, m.share_mask_hint);
}

} // verus!
