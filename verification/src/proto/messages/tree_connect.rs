//! TREE_CONNECT request and response.

use crate::proto::error::{ProtoError, ProtoResult};
use crate::proto::messages::locate_buffer;
use crate::text;
use crate::wire;
use vstd::prelude::*;

verus! {

/// TREE_CONNECT request.
#[derive(Debug, Clone, PartialEq, Eq)]
pub struct TreeConnectRequest {
    pub structure_size: u16,
    pub flags: u16,
    pub path_offset: u16,
    pub path_length: u16,
    /// Share path, UTF-16LE.
    pub path: Vec<u8>,
}

impl TreeConnectRequest {
    /// Flag: reconnect to a cluster.
    pub const FLAG_CLUSTER_RECONNECT: u16 = 0x0001;

    /// Flag: redirect to the owner of the share.
    pub const FLAG_REDIRECT_TO_OWNER: u16 = 0x0002;

    /// Flag: an extension is present.
    pub const FLAG_EXTENSION_PRESENT: u16 = 0x0004;

    /// The error that a body is refused with.
    pub open spec fn parse_error(buf: Seq<u8>) -> Option<ProtoError> {
        if buf.len() < 8 {
            Some(ProtoError::Malformed("tree connect request too short"))
        } else if wire::le16(buf, 0) != 9 {
            Some(ProtoError::Malformed("tree connect request structure_size != 9"))
        } else if wire::le16(buf, 6) % 2 != 0 {
            Some(ProtoError::Malformed("tree connect request path length is not UTF-16 aligned"))
        } else if crate::proto::messages::buffer_error(buf.len() as int, wire::le16(buf, 4) as int,
            wire::le16(buf, 6) as int, 8, "tree connect path offset before SMB2 body",
            "tree connect path range overflow", "tree connect path out of range") is Some {
            crate::proto::messages::buffer_error(buf.len() as int, wire::le16(buf, 4) as int,
                wire::le16(buf, 6) as int, 8, "tree connect path offset before SMB2 body",
                "tree connect path range overflow", "tree connect path out of range")
        } else {
            None
        }
    }

    /// Whether the fields are what a body holds.
    pub open spec fn decodes(&self, buf: Seq<u8>) -> bool {
        &&& self.structure_size == wire::le16(buf, 0)
        &&& self.flags == wire::le16(buf, 2)
        &&& self.path_offset == wire::le16(buf, 4)
        &&& self.path_length == wire::le16(buf, 6)
        &&& self.path@
            == buf.subrange(self.path_offset - 64, self.path_offset - 64 + self.path_length)
    }

    /// The bytes of the body.
    pub open spec fn encoding(&self) -> Seq<u8> {
        wire::bytes16(self.structure_size) + wire::bytes16(self.flags)
            + wire::bytes16(self.path_offset) + wire::bytes16(self.path_length) + self.path@
    }

    /// Whether the counted parts follow the fixed part and have the lengths that
    /// the fields give.
    pub open spec fn canonical(&self) -> bool {
        &&& self.structure_size == 9
        &&& self.path_length == self.path@.len()
        &&& self.path_length % 2 == 0
        &&& self.path_offset == 72
    }

    /// Reads a body.
    pub fn parse(buf: &[u8]) -> (r: ProtoResult<Self>)
        ensures
            match r {
                Ok(m) => Self::parse_error(buf@) is None && m.decodes(buf@),
                Err(e) => Self::parse_error(buf@) == Some(e),
            },
    {
        if buf.len() < 8 {
            return Err(ProtoError::Malformed("tree connect request too short"));
        }
        if wire::read_u16(buf, 0) != 9 {
            return Err(ProtoError::Malformed("tree connect request structure_size != 9"));
        }
        if wire::read_u16(buf, 6) % 2 != 0 {
            return Err(ProtoError::Malformed("tree connect request path length is not UTF-16 aligned"));
        }
        let path: Vec<u8> = match locate_buffer(buf.len(), wire::read_u16(buf, 4) as usize,
            wire::read_u16(buf, 6) as usize, 8, "tree connect path offset before SMB2 body",
            "tree connect path range overflow", "tree connect path out of range") {
            Ok((start, end)) => wire::copy_range(buf, start, end),
            Err(e) => {
                return Err(e);
            },
        };
        Ok(
            Self {
                structure_size: wire::read_u16(buf, 0),
                flags: wire::read_u16(buf, 2),
                path_offset: wire::read_u16(buf, 4),
                path_length: wire::read_u16(buf, 6),
                path,
            },
        )
    }

    /// Appends the bytes of the body.
    pub fn write_to(&self, out: &mut Vec<u8>) -> (r: ProtoResult<()>)
        ensures
            r is Ok,
            final(out)@ == old(out)@ + self.encoding(),
    {
        wire::put_u16(out, self.structure_size);
        wire::put_u16(out, self.flags);
        wire::put_u16(out, self.path_offset);
        wire::put_u16(out, self.path_length);
        wire::put_bytes(out, self.path.as_slice());
        assert(out@ =~= old(out)@ + self.encoding());
        Ok(())
    }

    /// The share path as text, `None` where it has an odd number of bytes.
    pub fn path_str(&self) -> (r: Option<String>)
        ensures
            match r {
                Some(s) => self.path@.len() % 2 == 0
                    && s@ == text::utf16_chars(text::utf16_units(self.path@)),
                None => self.path@.len() % 2 != 0,
            },
    {
        text::decode_utf16le(self.path.as_slice())
    }
}

/// A body that is written in its canonical layout is read back as it was.
pub proof fn tree_connect_request_round_trips(m: TreeConnectRequest)
    requires
        m.canonical(),
        (m.encoding()).len() <= usize::MAX,
    ensures
        TreeConnectRequest::parse_error(m.encoding()) is None,
        m.decodes(m.encoding()),
{
    let b = m.encoding();
    assert(m.encoding().len() == 8 + m.path@.len());
    assert(b.subrange(0, 2) =~= wire::bytes16(m.structure_size));
    wire::le16_of_bytes16(b, 0, m.structure_size);
    assert(b.subrange(2, 4) =~= wire::bytes16(m.flags));
    wire::le16_of_bytes16(b, 2, m.flags);
    assert(b.subrange(4, 6) =~= wire::bytes16(m.path_offset));
    wire::le16_of_bytes16(b, 4, m.path_offset);
    assert(b.subrange(6, 8) =~= wire::bytes16(m.path_length));
    wire::le16_of_bytes16(b, 6, m.path_length);
    assert(b.subrange(8int, 8int + m.path@.len()) =~= m.path@);
}

/// TREE_CONNECT response.
#[derive(Debug, Clone, PartialEq, Eq)]
pub struct TreeConnectResponse {
    pub structure_size: u16,
    pub share_type: u8,
    pub reserved: u8,
    pub share_flags: u32,
    pub capabilities: u32,
    pub maximal_access: u32,
}

impl TreeConnectResponse {
    /// Share type: disk.
    pub const SHARE_TYPE_DISK: u8 = 0x01;

    pub const SHARE_TYPE_PIPE: u8 = 0x02;

    pub const SHARE_TYPE_PRINT: u8 = 0x03;

    pub const SHARE_FLAG_MANUAL_CACHING: u32 = 0x0000_0000;

    pub const SHARE_FLAG_NO_CACHING: u32 = 0x0000_0030;

    pub const SHARE_FLAG_ENCRYPT_DATA: u32 = 0x0000_8000;

    pub const SHARE_FLAG_COMPRESS_DATA: u32 = 0x0010_0000;

    pub const SHARE_FLAG_ISOLATED_TRANSPORT: u32 = 0x0020_0000;

    /// The error that a body is refused with.
    pub open spec fn parse_error(buf: Seq<u8>) -> Option<ProtoError> {
        if buf.len() < 16 {
            Some(ProtoError::Malformed("tree connect response too short"))
        } else if wire::le16(buf, 0) != 16 {
            Some(ProtoError::Malformed("tree connect response structure_size != 16"))
        } else {
            None
        }
    }

    /// Whether the fields are what a body holds.
    pub open spec fn decodes(&self, buf: Seq<u8>) -> bool {
        &&& self.structure_size == wire::le16(buf, 0)
        &&& self.share_type == buf[2]
        &&& self.reserved == buf[3]
        &&& self.share_flags == wire::le32(buf, 4)
        &&& self.capabilities == wire::le32(buf, 8)
        &&& self.maximal_access == wire::le32(buf, 12)
    }

    /// The bytes of the body.
    pub open spec fn encoding(&self) -> Seq<u8> {
        wire::bytes16(self.structure_size) + seq![self.share_type] + seq![self.reserved]
            + wire::bytes32(self.share_flags) + wire::bytes32(self.capabilities)
            + wire::bytes32(self.maximal_access)
    }

    /// Whether the counted parts follow the fixed part and have the lengths that
    /// the fields give.
    pub open spec fn canonical(&self) -> bool {
        &&& self.structure_size == 16
    }

    /// Reads a body.
    pub fn parse(buf: &[u8]) -> (r: ProtoResult<Self>)
        ensures
            match r {
                Ok(m) => Self::parse_error(buf@) is None && m.decodes(buf@),
                Err(e) => Self::parse_error(buf@) == Some(e),
            },
    {
        if buf.len() < 16 {
            return Err(ProtoError::Malformed("tree connect response too short"));
        }
        if wire::read_u16(buf, 0) != 16 {
            return Err(ProtoError::Malformed("tree connect response structure_size != 16"));
        }
        Ok(
            Self {
                structure_size: wire::read_u16(buf, 0),
                share_type: buf[2],
                reserved: buf[3],
                share_flags: wire::read_u32(buf, 4),
                capabilities: wire::read_u32(buf, 8),
                maximal_access: wire::read_u32(buf, 12),
            },
        )
    }

    /// Appends the bytes of the body.
    pub fn write_to(&self, out: &mut Vec<u8>) -> (r: ProtoResult<()>)
        ensures
            r is Ok,
            final(out)@ == old(out)@ + self.encoding(),
    {
        wire::put_u16(out, self.structure_size);
        out.push(self.share_type);
        out.push(self.reserved);
        wire::put_u32(out, self.share_flags);
        wire::put_u32(out, self.capabilities);
        wire::put_u32(out, self.maximal_access);
        assert(out@ =~= old(out)@ + self.encoding());
        Ok(())
    }
}

/// A body that is written in its canonical layout is read back as it was.
pub proof fn tree_connect_response_round_trips(m: TreeConnectResponse)
    requires
        m.canonical(),
    ensures
        TreeConnectResponse::parse_error(m.encoding()) is None,
        m.decodes(m.encoding()),
{
    let b = m.encoding();
    assert(m.encoding().len() == 16);
    assert(b.subrange(0, 2) =~= wire::bytes16(m.structure_size));
    wire::le16_of_bytes16(b, 0, m.structure_size);
    assert(b[2] == m.share_type);
    assert(b[3] == m.reserved);
    assert(b.subrange(4, 8) =~= wire::bytes32(m.share_flags));
    wire::le32_of_bytes32(b, 4, m.share_flags);
    assert(b.subrange(8, 12) =~= wire::bytes32(m.capabilities));
    wire::le32_of_bytes32(b, 8, m.capabilities);
    assert(b.subrange(12, 16) =~= wire::bytes32(m.maximal_access));
    wire::le32_of_bytes32(b, 12, m.maximal_access);
}

} // verus!
