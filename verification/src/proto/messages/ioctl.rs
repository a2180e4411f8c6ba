//! IOCTL request and response, and the control codes.

use crate::proto::error::{ProtoError, ProtoResult};
use crate::proto::messages::create::FileId;
use crate::proto::messages::locate_buffer;
use crate::wire;
use vstd::prelude::*;

verus! {

/// File-system control codes; a code without a name of its own is kept as it is.
#[derive(Debug, Clone, Copy, PartialEq, Eq, Structural)]
pub enum Fsctl {
    /// `FSCTL_VALIDATE_NEGOTIATE_INFO`.
    ValidateNegotiateInfo,
    /// `FSCTL_DFS_GET_REFERRALS`.
    DfsGetReferrals,
    /// `FSCTL_DFS_GET_REFERRALS_EX`.
    DfsGetReferralsEx,
    /// `FSCTL_PIPE_TRANSCEIVE`.
    PipeTranscede,
    /// `FSCTL_PIPE_PEEK`.
    PipePeek,
    /// `FSCTL_PIPE_WAIT`.
    PipeWait,
    /// `FSCTL_CREATE_OR_GET_OBJECT_ID`.
    CreateOrGetObjectId,
    /// `FSCTL_LMR_REQUEST_RESILIENCY`.
    LmrRequestResiliency,
    /// `FSCTL_QUERY_NETWORK_INTERFACE_INFO`.
    QueryNetworkInterfaceInfo,
    /// Private control of smbtorture: let a cache break time out unacknowledged.
    SmbTortureForceUnackedTimeout,
    /// Any other code.
    Other(u32),
}

impl Fsctl {
    pub const VALIDATE_NEGOTIATE_INFO: u32 = 0x0014_0204;

    pub const DFS_GET_REFERRALS: u32 = 0x0006_0194;

    pub const DFS_GET_REFERRALS_EX: u32 = 0x0006_0198;

    pub const PIPE_TRANSCEIVE: u32 = 0x0011_C017;

    pub const PIPE_PEEK: u32 = 0x0011_400C;

    pub const PIPE_WAIT: u32 = 0x0011_C018;

    pub const CREATE_OR_GET_OBJECT_ID: u32 = 0x0009_00C0;

    pub const LMR_REQUEST_RESILIENCY: u32 = 0x0014_01D4;

    pub const QUERY_NETWORK_INTERFACE_INFO: u32 = 0x0014_01FC;

    pub const SMBTORTURE_FORCE_UNACKED_TIMEOUT: u32 = 0x8384_8003;

    /// The code on the wire.
    pub open spec fn code(self) -> u32 {
        match self {
            Self::ValidateNegotiateInfo => 0x0014_0204,
            Self::DfsGetReferrals => 0x0006_0194,
            Self::DfsGetReferralsEx => 0x0006_0198,
            Self::PipeTranscede => 0x0011_C017,
            Self::PipePeek => 0x0011_400C,
            Self::PipeWait => 0x0011_C018,
            Self::CreateOrGetObjectId => 0x0009_00C0,
            Self::LmrRequestResiliency => 0x0014_01D4,
            Self::QueryNetworkInterfaceInfo => 0x0014_01FC,
            Self::SmbTortureForceUnackedTimeout => 0x8384_8003,
            Self::Other(c) => c,
        }
    }

    /// Whether the code stands under its name where it has one.
    pub open spec fn recognised(self) -> bool {
        self matches Fsctl::Other(c)
            ==> c != 0x0014_0204 && c != 0x0006_0194 && c != 0x0006_0198 && c != 0x0011_C017
            && c != 0x0011_400C && c != 0x0011_C018 && c != 0x0009_00C0 && c != 0x0014_01D4
            && c != 0x0014_01FC && c != 0x8384_8003
    }

    /// The control of a code.
    pub fn from_u32(code: u32) -> (r: Self)
        ensures
            r.code() == code,
            r.recognised(),
    {
        match code {
            0x0014_0204 => Self::ValidateNegotiateInfo,
            0x0006_0194 => Self::DfsGetReferrals,
            0x0006_0198 => Self::DfsGetReferralsEx,
            0x0011_C017 => Self::PipeTranscede,
            0x0011_400C => Self::PipePeek,
            0x0011_C018 => Self::PipeWait,
            0x0009_00C0 => Self::CreateOrGetObjectId,
            0x0014_01D4 => Self::LmrRequestResiliency,
            0x0014_01FC => Self::QueryNetworkInterfaceInfo,
            0x8384_8003 => Self::SmbTortureForceUnackedTimeout,
            other => Self::Other(other),
        }
    }

    /// The code on the wire.
    pub fn as_u32(self) -> (r: u32)
        ensures
            r == self.code(),
    {
        match self {
            Self::ValidateNegotiateInfo => Self::VALIDATE_NEGOTIATE_INFO,
            Self::DfsGetReferrals => Self::DFS_GET_REFERRALS,
            Self::DfsGetReferralsEx => Self::DFS_GET_REFERRALS_EX,
            Self::PipeTranscede => Self::PIPE_TRANSCEIVE,
            Self::PipePeek => Self::PIPE_PEEK,
            Self::PipeWait => Self::PIPE_WAIT,
            Self::CreateOrGetObjectId => Self::CREATE_OR_GET_OBJECT_ID,
            Self::LmrRequestResiliency => Self::LMR_REQUEST_RESILIENCY,
            Self::QueryNetworkInterfaceInfo => Self::QUERY_NETWORK_INTERFACE_INFO,
            Self::SmbTortureForceUnackedTimeout => Self::SMBTORTURE_FORCE_UNACKED_TIMEOUT,
            Self::Other(c) => c,
        }
    }
}

/// Two controls that stand under their names are equal where their codes are.
pub proof fn fsctl_codes_round_trip(a: Fsctl, b: Fsctl)
    requires
        a.recognised(),
        b.recognised(),
        a.code() == b.code(),
    ensures
        a == b,
{
}

/// IOCTL request. Offsets count from the start of the SMB2 header.
#[derive(Debug, Clone, PartialEq, Eq)]
pub struct IoctlRequest {
    pub structure_size: u16,
    pub reserved: u16,
    pub ctl_code: u32,
    pub file_id: FileId,
    pub input_offset: u32,
    pub input_count: u32,
    pub max_input_response: u32,
    pub output_offset: u32,
    pub output_count: u32,
    pub max_output_response: u32,
    pub flags: u32,
    pub reserved2: u32,
    pub input: Vec<u8>,
}

impl IoctlRequest {
    /// Flag: the control code is a file-system control.
    pub const FLAG_IS_FSCTL: u32 = 0x0000_0001;

    /// The error that a body is refused with.
    pub open spec fn parse_error(buf: Seq<u8>) -> Option<ProtoError> {
        if buf.len() < 56 {
            Some(ProtoError::Malformed("ioctl request too short"))
        } else if wire::le16(buf, 0) != 57 {
            Some(ProtoError::Malformed("ioctl request structure_size != 57"))
        } else if wire::le32(buf, 28) != 0
            && crate::proto::messages::buffer_error(buf.len() as int, wire::le32(buf, 24) as int,
            wire::le32(buf, 28) as int, 56, "ioctl request input offset before SMB2 body",
            "ioctl request input range overflow", "ioctl request input out of range") is Some {
            crate::proto::messages::buffer_error(buf.len() as int, wire::le32(buf, 24) as int,
                wire::le32(buf, 28) as int, 56, "ioctl request input offset before SMB2 body",
                "ioctl request input range overflow", "ioctl request input out of range")
        } else {
            None
        }
    }

    /// Whether the fields are what a body holds.
    pub open spec fn decodes(&self, buf: Seq<u8>) -> bool {
        &&& self.structure_size == wire::le16(buf, 0)
        &&& self.reserved == wire::le16(buf, 2)
        &&& self.ctl_code == wire::le32(buf, 4)
        &&& self.file_id.persistent == wire::le64(buf, 8)
        &&& self.file_id.volatile == wire::le64(buf, 16)
        &&& self.input_offset == wire::le32(buf, 24)
        &&& self.input_count == wire::le32(buf, 28)
        &&& self.max_input_response == wire::le32(buf, 32)
        &&& self.output_offset == wire::le32(buf, 36)
        &&& self.output_count == wire::le32(buf, 40)
        &&& self.max_output_response == wire::le32(buf, 44)
        &&& self.flags == wire::le32(buf, 48)
        &&& self.reserved2 == wire::le32(buf, 52)
        &&& self.input@ == if self.input_count == 0 {
            Seq::empty()
        } else {
            buf.subrange(self.input_offset - 64, self.input_offset - 64 + self.input_count)
        }
    }

    /// The bytes of the body.
    pub open spec fn encoding(&self) -> Seq<u8> {
        wire::bytes16(self.structure_size) + wire::bytes16(self.reserved)
            + wire::bytes32(self.ctl_code) + wire::bytes64(self.file_id.persistent)
            + wire::bytes64(self.file_id.volatile) + wire::bytes32(self.input_offset)
            + wire::bytes32(self.input_count) + wire::bytes32(self.max_input_response)
            + wire::bytes32(self.output_offset) + wire::bytes32(self.output_count)
            + wire::bytes32(self.max_output_response) + wire::bytes32(self.flags)
            + wire::bytes32(self.reserved2) + self.input@
    }

    /// Whether the counted parts follow the fixed part and have the lengths that
    /// the fields give.
    pub open spec fn canonical(&self) -> bool {
        &&& self.structure_size == 57
        &&& self.input_count == self.input@.len()
        &&& self.input_count != 0 ==> self.input_offset == 120
    }

    /// Reads a body.
    pub fn parse(buf: &[u8]) -> (r: ProtoResult<Self>)
        ensures
            match r {
                Ok(m) => Self::parse_error(buf@) is None && m.decodes(buf@),
                Err(e) => Self::parse_error(buf@) == Some(e),
            },
    {
        if buf.len() < 56 {
            return Err(ProtoError::Malformed("ioctl request too short"));
        }
        if wire::read_u16(buf, 0) != 57 {
            return Err(ProtoError::Malformed("ioctl request structure_size != 57"));
        }
        let input: Vec<u8> = if wire::read_u32(buf, 28) == 0 {
            Vec::new()
        } else {
            match locate_buffer(buf.len(), wire::read_u32(buf, 24) as usize,
                wire::read_u32(buf, 28) as usize, 56, "ioctl request input offset before SMB2 body",
                "ioctl request input range overflow", "ioctl request input out of range") {
                Ok((start, end)) => wire::copy_range(buf, start, end),
                Err(e) => {
                    return Err(e);
                },
            }
        };
        Ok(
            Self {
                structure_size: wire::read_u16(buf, 0),
                reserved: wire::read_u16(buf, 2),
                ctl_code: wire::read_u32(buf, 4),
                file_id: FileId { persistent: wire::read_u64(buf, 8),
                    volatile: wire::read_u64(buf, 16) },
                input_offset: wire::read_u32(buf, 24),
                input_count: wire::read_u32(buf, 28),
                max_input_response: wire::read_u32(buf, 32),
                output_offset: wire::read_u32(buf, 36),
                output_count: wire::read_u32(buf, 40),
                max_output_response: wire::read_u32(buf, 44),
                flags: wire::read_u32(buf, 48),
                reserved2: wire::read_u32(buf, 52),
                input,
            },
        )
    }

    /// Appends the bytes of the body.
    pub fn write_to(&self, out: &mut Vec<u8>) -> (r: ProtoResult<()>)
        ensures
            r is Ok,
            final(out)@ == old(out)@ + self.encoding(),
    {
        wire::put_u16(out, self.structure_size);
        wire::put_u16(out, self.reserved);
        wire::put_u32(out, self.ctl_code);
        wire::put_u64(out, self.file_id.persistent);
        wire::put_u64(out, self.file_id.volatile);
        wire::put_u32(out, self.input_offset);
        wire::put_u32(out, self.input_count);
        wire::put_u32(out, self.max_input_response);
        wire::put_u32(out, self.output_offset);
        wire::put_u32(out, self.output_count);
        wire::put_u32(out, self.max_output_response);
        wire::put_u32(out, self.flags);
        wire::put_u32(out, self.reserved2);
        wire::put_bytes(out, self.input.as_slice());
        assert(out@ =~= old(out)@ + self.encoding());
        Ok(())
    }

    /// The control code of the request.
    pub fn fsctl(&self) -> (r: Fsctl)
        ensures
            r.code() == self.ctl_code,
            r.recognised(),
    {
        Fsctl::from_u32(self.ctl_code)
    }
}

/// A body that is written in its canonical layout is read back as it was.
#[verifier::rlimit(50)]
pub proof fn ioctl_request_round_trips(m: IoctlRequest)
    requires
        m.canonical(),
        (m.encoding()).len() <= usize::MAX,
    ensures
        IoctlRequest::parse_error(m.encoding()) is None,
        m.decodes(m.encoding()),
{
    let b = m.encoding();
    assert(m.encoding().len() == 56 + m.input@.len());
    assert(b.subrange(0, 2) =~= wire::bytes16(m.structure_size));
    wire::le16_of_bytes16(b, 0, m.structure_size);
    assert(b.subrange(2, 4) =~= wire::bytes16(m.reserved));
    wire::le16_of_bytes16(b, 2, m.reserved);
    assert(b.subrange(4, 8) =~= wire::bytes32(m.ctl_code));
    wire::le32_of_bytes32(b, 4, m.ctl_code);
    assert(b.subrange(8, 16) =~= wire::bytes64(m.file_id.persistent));
    wire::le64_of_bytes64(b, 8, m.file_id.persistent);
    assert(b.subrange(16, 24) =~= wire::bytes64(m.file_id.volatile));
    wire::le64_of_bytes64(b, 16, m.file_id.volatile);
    assert(b.subrange(24, 28) =~= wire::bytes32(m.input_offset));
    wire::le32_of_bytes32(b, 24, m.input_offset);
    assert(b.subrange(28, 32) =~= wire::bytes32(m.input_count));
    wire::le32_of_bytes32(b, 28, m.input_count);
    assert(b.subrange(32, 36) =~= wire::bytes32(m.max_input_response));
    wire::le32_of_bytes32(b, 32, m.max_input_response);
    assert(b.subrange(36, 40) =~= wire::bytes32(m.output_offset));
    wire::le32_of_bytes32(b, 36, m.output_offset);
    assert(b.subrange(40, 44) =~= wire::bytes32(m.output_count));
    wire::le32_of_bytes32(b, 40, m.output_count);
    assert(b.subrange(44, 48) =~= wire::bytes32(m.max_output_response));
    wire::le32_of_bytes32(b, 44, m.max_output_response);
    assert(b.subrange(48, 52) =~= wire::bytes32(m.flags));
    wire::le32_of_bytes32(b, 48, m.flags);
    assert(b.subrange(52, 56) =~= wire::bytes32(m.reserved2));
    wire::le32_of_bytes32(b, 52, m.reserved2);
    assert(b.subrange(56int, 56int + m.input@.len()) =~= m.input@);
    assert(m.input_count == 0 ==> m.input@ =~= Seq::<u8>::empty());
}

/// IOCTL response.
#[derive(Debug, Clone, PartialEq, Eq)]
pub struct IoctlResponse {
    pub structure_size: u16,
    pub reserved: u16,
    pub ctl_code: u32,
    pub file_id: FileId,
    pub input_offset: u32,
    pub input_count: u32,
    pub output_offset: u32,
    pub output_count: u32,
    pub flags: u32,
    pub reserved2: u32,
    pub output: Vec<u8>,
}

impl IoctlResponse {
    /// The error that a body is refused with.
    pub open spec fn parse_error(buf: Seq<u8>) -> Option<ProtoError> {
        if buf.len() < 48 {
            Some(ProtoError::Malformed("ioctl response too short"))
        } else if wire::le16(buf, 0) != 49 {
            Some(ProtoError::Malformed("ioctl response structure_size != 49"))
        } else if wire::le32(buf, 36) != 0
            && crate::proto::messages::buffer_error(buf.len() as int, wire::le32(buf, 32) as int,
            wire::le32(buf, 36) as int, 48, "ioctl response output offset before SMB2 body",
            "ioctl response output range overflow", "ioctl response output out of range") is Some {
            crate::proto::messages::buffer_error(buf.len() as int, wire::le32(buf, 32) as int,
                wire::le32(buf, 36) as int, 48, "ioctl response output offset before SMB2 body",
                "ioctl response output range overflow", "ioctl response output out of range")
        } else {
            None
        }
    }

    /// Whether the fields are what a body holds.
    pub open spec fn decodes(&self, buf: Seq<u8>) -> bool {
        &&& self.structure_size == wire::le16(buf, 0)
        &&& self.reserved == wire::le16(buf, 2)
        &&& self.ctl_code == wire::le32(buf, 4)
        &&& self.file_id.persistent == wire::le64(buf, 8)
        &&& self.file_id.volatile == wire::le64(buf, 16)
        &&& self.input_offset == wire::le32(buf, 24)
        &&& self.input_count == wire::le32(buf, 28)
        &&& self.output_offset == wire::le32(buf, 32)
        &&& self.output_count == wire::le32(buf, 36)
        &&& self.flags == wire::le32(buf, 40)
        &&& self.reserved2 == wire::le32(buf, 44)
        &&& self.output@ == if self.output_count == 0 {
            Seq::empty()
        } else {
            buf.subrange(self.output_offset - 64, self.output_offset - 64 + self.output_count)
        }
    }

    /// The bytes of the body.
    pub open spec fn encoding(&self) -> Seq<u8> {
        wire::bytes16(self.structure_size) + wire::bytes16(self.reserved)
            + wire::bytes32(self.ctl_code) + wire::bytes64(self.file_id.persistent)
            + wire::bytes64(self.file_id.volatile) + wire::bytes32(self.input_offset)
            + wire::bytes32(self.input_count) + wire::bytes32(self.output_offset)
            + wire::bytes32(self.output_count) + wire::bytes32(self.flags)
            + wire::bytes32(self.reserved2) + self.output@
    }

    /// Whether the counted parts follow the fixed part and have the lengths that
    /// the fields give.
    pub open spec fn canonical(&self) -> bool {
        &&& self.structure_size == 49
        &&& self.output_count == self.output@.len()
        &&& self.output_count != 0 ==> self.output_offset == 112
    }

    /// Reads a body.
    pub fn parse(buf: &[u8]) -> (r: ProtoResult<Self>)
        ensures
            match r {
                Ok(m) => Self::parse_error(buf@) is None && m.decodes(buf@),
                Err(e) => Self::parse_error(buf@) == Some(e),
            },
    {
        if buf.len() < 48 {
            return Err(ProtoError::Malformed("ioctl response too short"));
        }
        if wire::read_u16(buf, 0) != 49 {
            return Err(ProtoError::Malformed("ioctl response structure_size != 49"));
        }
        let output: Vec<u8> = if wire::read_u32(buf, 36) == 0 {
            Vec::new()
        } else {
            match locate_buffer(buf.len(), wire::read_u32(buf, 32) as usize,
                wire::read_u32(buf, 36) as usize, 48,
                "ioctl response output offset before SMB2 body",
                "ioctl response output range overflow", "ioctl response output out of range") {
                Ok((start, end)) => wire::copy_range(buf, start, end),
                Err(e) => {
                    return Err(e);
                },
            }
        };
        Ok(
            Self {
                structure_size: wire::read_u16(buf, 0),
                reserved: wire::read_u16(buf, 2),
                ctl_code: wire::read_u32(buf, 4),
                file_id: FileId { persistent: wire::read_u64(buf, 8),
                    volatile: wire::read_u64(buf, 16) },
                input_offset: wire::read_u32(buf, 24),
                input_count: wire::read_u32(buf, 28),
                output_offset: wire::read_u32(buf, 32),
                output_count: wire::read_u32(buf, 36),
                flags: wire::read_u32(buf, 40),
                reserved2: wire::read_u32(buf, 44),
                output,
            },
        )
    }

    /// Appends the bytes of the body.
    pub fn write_to(&self, out: &mut Vec<u8>) -> (r: ProtoResult<()>)
        ensures
            r is Ok,
            final(out)@ == old(out)@ + self.encoding(),
    {
        wire::put_u16(out, self.structure_size);
        wire::put_u16(out, self.reserved);
        wire::put_u32(out, self.ctl_code);
        wire::put_u64(out, self.file_id.persistent);
        wire::put_u64(out, self.file_id.volatile);
        wire::put_u32(out, self.input_offset);
        wire::put_u32(out, self.input_count);
        wire::put_u32(out, self.output_offset);
        wire::put_u32(out, self.output_count);
        wire::put_u32(out, self.flags);
        wire::put_u32(out, self.reserved2);
        wire::put_bytes(out, self.output.as_slice());
        assert(out@ =~= old(out)@ + self.encoding());
        Ok(())
    }
}

/// A body that is written in its canonical layout is read back as it was.
#[verifier::rlimit(50)]
pub proof fn ioctl_response_round_trips(m: IoctlResponse)
    requires
        m.canonical(),
        (m.encoding()).len() <= usize::MAX,
    ensures
        IoctlResponse::parse_error(m.encoding()) is None,
        m.decodes(m.encoding()),
{
    let b = m.encoding();
    assert(m.encoding().len() == 48 + m.output@.len());
    assert(b.subrange(0, 2) =~= wire::bytes16(m.structure_size));
    wire::le16_of_bytes16(b, 0, m.structure_size);
    assert(b.subrange(2, 4) =~= wire::bytes16(m.reserved));
    wire::le16_of_bytes16(b, 2, m.reserved);
    assert(b.subrange(4, 8) =~= wire::bytes32(m.ctl_code));
    wire::le32_of_bytes32(b, 4, m.ctl_code);
    assert(b.subrange(8, 16) =~= wire::bytes64(m.file_id.persistent));
    wire::le64_of_bytes64(b, 8, m.file_id.persistent);
    assert(b.subrange(16, 24) =~= wire::bytes64(m.file_id.volatile));
    wire::le64_of_bytes64(b, 16, m.file_id.volatile);
    assert(b.subrange(24, 28) =~= wire::bytes32(m.input_offset));
    wire::le32_of_bytes32(b, 24, m.input_offset);
    assert(b.subrange(28, 32) =~= wire::bytes32(m.input_count));
    wire::le32_of_bytes32(b, 28, m.input_count);
    assert(b.subrange(32, 36) =~= wire::bytes32(m.output_offset));
    wire::le32_of_bytes32(b, 32, m.output_offset);
    assert(b.subrange(36, 40) =~= wire::bytes32(m.output_count));
    wire::le32_of_bytes32(b, 36, m.output_count);
    assert(b.subrange(40, 44) =~= wire::bytes32(m.flags));
    wire::le32_of_bytes32(b, 40, m.flags);
    assert(b.subrange(44, 48) =~= wire::bytes32(m.reserved2));
    wire::le32_of_bytes32(b, 44, m.reserved2);
    assert(b.subrange(48int, 48int + m.output@.len()) =~= m.output@);
    assert(m.output_count == 0 ==> m.output@ =~= Seq::<u8>::empty());
}

} // verus!
