//! Message bodies: requests and responses as they stand behind the SMB2 header.
//!
//! Each body says when bytes are refused and why (`parse_error`), what its fields
//! hold of the bytes (`decodes`), and which bytes it is written as (`encoding`).

pub mod cancel;
pub mod chaining;
pub mod change_notify;
pub mod codes;
pub mod create;
pub mod create_context;
pub mod echo;
pub mod flush;
pub mod ioctl;
pub mod layout;
pub mod lock;
pub mod negotiate;
pub mod negotiate_context;
pub mod oplock_break;
pub mod query_directory;
pub mod query_info;
pub mod read;
pub mod reading;
pub mod session_setup;
pub mod set_info;
pub mod tree_connect;
pub mod write;

use crate::proto::error::{ProtoError, ProtoResult};
use crate::proto::header::SMB2_HEADER_LEN;
use crate::wire;
use vstd::prelude::*;

pub use cancel::CancelRequest;
pub use change_notify::{ChangeNotifyRequest, ChangeNotifyResponse};
pub use create::{CreateRequest, CreateResponse, FileId, ImpersonationLevel, OplockLevel};
pub use create_context::CreateContext;
pub use echo::{EchoRequest, EchoResponse};
pub use flush::{FlushRequest, FlushResponse};
pub use ioctl::{Fsctl, IoctlRequest, IoctlResponse};
pub use lock::{LockElement, LockRequest, LockResponse};
pub use negotiate::{Dialect, NegotiateRequest, NegotiateResponse};
pub use negotiate_context::{
    CompressionCapabilities, EncryptionCapabilities, NegotiateContext, NegotiateContextData,
    PreauthIntegrityCapabilities, RdmaTransformCapabilities, SigningCapabilities,
};
pub use oplock_break::{
    LeaseBreakAck, LeaseBreakNotification, LeaseBreakResponse, OplockBreakAck,
    OplockBreakNotification,
};
pub use query_directory::{FileInfoClass, QueryDirectoryRequest, QueryDirectoryResponse};
pub use query_info::{InfoType, QueryInfoRequest, QueryInfoResponse};
pub use read::{ReadRequest, ReadResponse};
pub use session_setup::{SessionSetupRequest, SessionSetupResponse};
pub use set_info::{SetInfoRequest, SetInfoResponse};
pub use tree_connect::{TreeConnectRequest, TreeConnectResponse};
pub use write::{WriteRequest, WriteResponse};

verus! {

/// Why a counted part of `length` bytes at `offset` from the start of the header is
/// refused in a body of `len` bytes whose fixed part is `fixed` bytes long.
pub open spec fn buffer_error(
    len: int,
    offset: int,
    length: int,
    fixed: int,
    before: &'static str,
    overflow: &'static str,
    range: &'static str,
) -> Option<ProtoError> {
    if offset < SMB2_HEADER_LEN {
        Some(ProtoError::Malformed(before))
    } else if offset - SMB2_HEADER_LEN + length > usize::MAX {
        Some(ProtoError::Malformed(overflow))
    } else if offset - SMB2_HEADER_LEN < fixed || offset - SMB2_HEADER_LEN + length > len {
        Some(ProtoError::Malformed(range))
    } else {
        None
    }
}

/// Finds where a counted part starts and ends in a body.
pub(crate) fn locate_buffer(
    len: usize,
    offset: usize,
    length: usize,
    fixed: usize,
    before: &'static str,
    overflow: &'static str,
    range: &'static str,
) -> (r: ProtoResult<(usize, usize)>)
    ensures
        match r {
            Ok((start, end)) => start + SMB2_HEADER_LEN == offset && end == start + length && end
                <= len && buffer_error(
                len as int,
                offset as int,
                length as int,
                fixed as int,
                before,
                overflow,
                range,
            ) is None,
            Err(e) => buffer_error(
                len as int,
                offset as int,
                length as int,
                fixed as int,
                before,
                overflow,
                range,
            ) == Some(e),
        },
{
    if offset < SMB2_HEADER_LEN {
        return Err(ProtoError::Malformed(before));
    }
    let start: usize = offset - SMB2_HEADER_LEN;
    match start.checked_add(length) {
        None => Err(ProtoError::Malformed(overflow)),
        Some(end) => if start < fixed || end > len {
            Err(ProtoError::Malformed(range))
        } else {
            Ok((start, end))
        },
    }
}

/// The 16-bit integers of `n` fields from `at` on.
pub open spec fn le16_list(b: Seq<u8>, at: int, n: int) -> Seq<u16> {
    Seq::new(n as nat, |i: int| wire::le16(b, at + 2 * i) as u16)
}

/// The bytes of a list of 16-bit integers.
pub open spec fn bytes16_list(s: Seq<u16>) -> Seq<u8> {
    Seq::new(2 * s.len(), |i: int| wire::bytes16(s[i / 2])[i % 2])
}

/// Reads `n` 16-bit integers from `at` on.
pub(crate) fn read_u16_list(b: &[u8], at: usize, n: usize) -> (r: Vec<u16>)
    requires
        at + 2 * n <= b@.len(),
    ensures
        r@ == le16_list(b@, at as int, n as int),
{
    let len: usize = b.len();
    let mut r: Vec<u16> = Vec::new();
    let mut i: usize = 0;
    while i < n
        invariant
            i <= n,
            at + 2 * n <= len,
            len == b@.len(),
            r@ == le16_list(b@, at as int, i as int),
        decreases n - i,
    {
        r.push(wire::read_u16(b, at + 2 * i));
        i += 1;
        assert(r@ =~= le16_list(b@, at as int, i as int));
    }
    r
}

/// Appends a list of 16-bit integers.
pub(crate) fn put_u16_list(out: &mut Vec<u8>, s: &[u16])
    ensures
        final(out)@ == old(out)@ + bytes16_list(s@),
{
    let mut i: usize = 0;
    while i < s.len()
        invariant
            i <= s@.len(),
            out@ == old(out)@ + bytes16_list(s@.take(i as int)),
        decreases s@.len() - i,
    {
        wire::put_u16(out, s[i]);
        i += 1;
        assert(out@ =~= old(out)@ + bytes16_list(s@.take(i as int)));
    }
    assert(s@.take(i as int) =~= s@);
}

/// A list of 16-bit integers that is written is read back as it was.
pub proof fn le16_list_of_bytes16_list(b: Seq<u8>, at: int, s: Seq<u16>)
    requires
        0 <= at,
        at + 2 * s.len() <= b.len(),
        b.subrange(at, at + 2 * s.len()) == bytes16_list(s),
    ensures
        le16_list(b, at, s.len() as int) == s,
{
    let part = b.subrange(at, at + 2 * s.len());
    assert forall|i: int| 0 <= i < s.len() implies wire::le16(b, at + 2 * i) == s[i] by {
        assert(part[2 * i] == wire::bytes16(s[i])[0]);
        assert(part[2 * i + 1] == wire::bytes16(s[i])[1]);
        assert(b[at + 2 * i] == part[2 * i]);
        assert(b[at + 2 * i + 1] == part[2 * i + 1]);
    }
    assert(le16_list(b, at, s.len() as int) =~= s);
}

/// A counted part is accepted exactly where it starts behind the fixed part and ends in the body;
/// offsets count from the start of a header of 64 bytes.
pub proof fn counted_parts_lie_behind_the_fixed_part(
    len: int,
    offset: int,
    length: int,
    fixed: int,
    before: &'static str,
    overflow: &'static str,
    range: &'static str,
)
    requires
        0 <= len <= usize::MAX,
        0 <= fixed,
        0 <= length,
    ensures
        buffer_error(len, offset, length, fixed, before, overflow, range) is None <==> 64 + fixed
            <= offset && offset + length <= 64 + len,
        offset < 64 ==> buffer_error(len, offset, length, fixed, before, overflow, range) == Some(
            ProtoError::Malformed(before),
        ),
{
}

} // verus!
