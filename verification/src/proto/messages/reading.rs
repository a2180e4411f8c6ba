//! From which bytes the fields of message bodies are read, and which bodies are accepted.

use crate::proto::messages::create_context;
use crate::proto::messages::layout;
use crate::proto::messages::negotiate_context;
use crate::proto::messages::negotiate_context::{
    CompressionCapabilities, EncryptionCapabilities, PreauthIntegrityCapabilities,
    RdmaTransformCapabilities, SigningCapabilities,
};
use crate::proto::messages::{
    CancelRequest, ChangeNotifyRequest, ChangeNotifyResponse, CreateRequest, CreateResponse,
    EchoRequest, EchoResponse, FlushRequest, FlushResponse, IoctlRequest, IoctlResponse,
    LeaseBreakAck, LeaseBreakNotification, LockRequest, LockResponse, NegotiateRequest,
    NegotiateResponse, OplockBreakNotification, QueryDirectoryRequest,
    QueryDirectoryResponse, QueryInfoRequest, QueryInfoResponse, ReadRequest, ReadResponse,
    SessionSetupRequest, SessionSetupResponse, SetInfoRequest, SetInfoResponse,
    TreeConnectRequest, TreeConnectResponse, WriteRequest, WriteResponse,
};
use vstd::prelude::*;

verus! {

/// A cancel request body is read field by field from these places, and from no other.
pub proof fn cancel_request_is_read_in_place(buf: Seq<u8>, m: CancelRequest)
    requires
        CancelRequest::parse_error(buf) is None,
        m.decodes(buf),
    ensures
        m.structure_size == layout::number(buf, 0, 2),
        m.reserved == layout::number(buf, 2, 2),
{
    layout::numbers_are_little_endian(buf);
}

/// A cancel request body is accepted where it has its size and its parts lie within it.
pub proof fn cancel_request_is_accepted_whole(buf: Seq<u8>)
    requires
        buf.len() <= usize::MAX,
    ensures
        CancelRequest::parse_error(buf) is None <==> {
            &&& buf.len() >= 4
            &&& layout::number(buf, 0, 2) == 4
        },
{
    layout::numbers_are_little_endian(buf);
}

/// A change notify request body is read field by field from these places, and from no other.
pub proof fn change_notify_request_is_read_in_place(buf: Seq<u8>, m: ChangeNotifyRequest)
    requires
        ChangeNotifyRequest::parse_error(buf) is None,
        m.decodes(buf),
    ensures
        m.structure_size == layout::number(buf, 0, 2),
        m.flags == layout::number(buf, 2, 2),
        m.output_buffer_length == layout::number(buf, 4, 4),
        m.file_id.persistent == layout::number(buf, 8, 8),
        m.file_id.volatile == layout::number(buf, 16, 8),
        m.completion_filter == layout::number(buf, 24, 4),
        m.reserved == layout::number(buf, 28, 4),
{
    layout::numbers_are_little_endian(buf);
}

/// A change notify request body is accepted where it has its size and its parts lie within it.
pub proof fn change_notify_request_is_accepted_whole(buf: Seq<u8>)
    requires
        buf.len() <= usize::MAX,
    ensures
        ChangeNotifyRequest::parse_error(buf) is None <==> {
            &&& buf.len() >= 32
            &&& layout::number(buf, 0, 2) == 32
        },
{
    layout::numbers_are_little_endian(buf);
}

/// A change notify response body is read field by field from these places, and from no other.
pub proof fn change_notify_response_is_read_in_place(buf: Seq<u8>, m: ChangeNotifyResponse)
    requires
        ChangeNotifyResponse::parse_error(buf) is None,
        m.decodes(buf),
    ensures
        m.structure_size == layout::number(buf, 0, 2),
        m.output_buffer_offset == layout::number(buf, 2, 2),
        m.output_buffer_length == layout::number(buf, 4, 4),
        m.buffer@.len() == layout::number(buf, 4, 4),
        layout::number(buf, 4, 4) != 0 ==> m.buffer@ == buf.subrange(
            layout::number(buf, 2, 2) - 64,
            layout::number(buf, 2, 2) - 64 + layout::number(buf, 4, 4),
        ),
{
    layout::numbers_are_little_endian(buf);
}

/// A change notify response body is accepted where it has its size and its parts lie within it.
pub proof fn change_notify_response_is_accepted_whole(buf: Seq<u8>)
    requires
        buf.len() <= usize::MAX,
    ensures
        ChangeNotifyResponse::parse_error(buf) is None <==> {
            &&& buf.len() >= 8
            &&& layout::number(buf, 0, 2) == 9
            &&& layout::number(buf, 4, 4) != 0
                ==> 72 <= layout::number(buf, 2, 2)
                && layout::number(buf, 2, 2) - 64 + layout::number(buf, 4, 4) <= buf.len()
        },
{
    layout::numbers_are_little_endian(buf);
}

/// A create request body is read field by field from these places, and from no other.
pub proof fn create_request_is_read_in_place(buf: Seq<u8>, m: CreateRequest)
    requires
        CreateRequest::parse_error(buf) is None,
        m.decodes(buf),
    ensures
        m.structure_size == layout::number(buf, 0, 2),
        m.security_flags == buf[2],
        m.requested_oplock_level == buf[3],
        m.impersonation_level == layout::number(buf, 4, 4),
        m.smb_create_flags == layout::number(buf, 8, 8),
        m.reserved == layout::number(buf, 16, 8),
        m.desired_access == layout::number(buf, 24, 4),
        m.file_attributes == layout::number(buf, 28, 4),
        m.share_access == layout::number(buf, 32, 4),
        m.create_disposition == layout::number(buf, 36, 4),
        m.create_options == layout::number(buf, 40, 4),
        m.name_offset == layout::number(buf, 44, 2),
        m.name_length == layout::number(buf, 46, 2),
        m.create_contexts_offset == layout::number(buf, 48, 4),
        m.create_contexts_length == layout::number(buf, 52, 4),
        m.name@ == buf.subrange(
            layout::number(buf, 44, 2) - 64,
            layout::number(buf, 44, 2) - 64 + layout::number(buf, 46, 2),
        ),
        m.create_contexts@.len() == layout::number(buf, 52, 4),
        layout::number(buf, 52, 4) != 0 ==> m.create_contexts@ == buf.subrange(
            layout::number(buf, 48, 4) - 64,
            layout::number(buf, 48, 4) - 64 + layout::number(buf, 52, 4),
        ),
{
    layout::numbers_are_little_endian(buf);
}

/// A create request body is accepted where it has its size and its parts lie within it.
pub proof fn create_request_is_accepted_whole(buf: Seq<u8>)
    requires
        buf.len() <= usize::MAX,
    ensures
        CreateRequest::parse_error(buf) is None <==> {
            &&& buf.len() >= 56
            &&& layout::number(buf, 0, 2) == 57
            &&& layout::number(buf, 46, 2) % 2 == 0
            &&& 120 <= layout::number(buf, 44, 2)
                && layout::number(buf, 44, 2) - 64 + layout::number(buf, 46, 2) <= buf.len()
            &&& layout::number(buf, 52, 4) != 0
                ==> 120 <= layout::number(buf, 48, 4)
                && layout::number(buf, 48, 4) - 64 + layout::number(buf, 52, 4) <= buf.len()
            &&& layout::number(buf, 52, 4) != 0
                ==> create_context::chain_error(buf.subrange(layout::number(buf, 48, 4) - 64,
                layout::number(buf, 48, 4) - 64 + layout::number(buf, 52, 4))) is None
        },
{
    layout::numbers_are_little_endian(buf);
}

/// A create response body is read field by field from these places, and from no other.
pub proof fn create_response_is_read_in_place(buf: Seq<u8>, m: CreateResponse)
    requires
        CreateResponse::parse_error(buf) is None,
        m.decodes(buf),
    ensures
        m.structure_size == layout::number(buf, 0, 2),
        m.oplock_level == buf[2],
        m.flags == buf[3],
        m.create_action == layout::number(buf, 4, 4),
        m.creation_time == layout::number(buf, 8, 8),
        m.last_access_time == layout::number(buf, 16, 8),
        m.last_write_time == layout::number(buf, 24, 8),
        m.change_time == layout::number(buf, 32, 8),
        m.allocation_size == layout::number(buf, 40, 8),
        m.end_of_file == layout::number(buf, 48, 8),
        m.file_attributes == layout::number(buf, 56, 4),
        m.reserved2 == layout::number(buf, 60, 4),
        m.file_id.persistent == layout::number(buf, 64, 8),
        m.file_id.volatile == layout::number(buf, 72, 8),
        m.create_contexts_offset == layout::number(buf, 80, 4),
        m.create_contexts_length == layout::number(buf, 84, 4),
        m.create_contexts@.len() == layout::number(buf, 84, 4),
        layout::number(buf, 84, 4) != 0 ==> m.create_contexts@ == buf.subrange(
            layout::number(buf, 80, 4) - 64,
            layout::number(buf, 80, 4) - 64 + layout::number(buf, 84, 4),
        ),
{
    layout::numbers_are_little_endian(buf);
}

/// A create response body is accepted where it has its size and its parts lie within it.
pub proof fn create_response_is_accepted_whole(buf: Seq<u8>)
    requires
        buf.len() <= usize::MAX,
    ensures
        CreateResponse::parse_error(buf) is None <==> {
            &&& buf.len() >= 88
            &&& layout::number(buf, 0, 2) == 89
            &&& layout::number(buf, 84, 4) != 0
                ==> 152 <= layout::number(buf, 80, 4)
                && layout::number(buf, 80, 4) - 64 + layout::number(buf, 84, 4) <= buf.len()
            &&& layout::number(buf, 84, 4) != 0
                ==> create_context::chain_error(buf.subrange(layout::number(buf, 80, 4) - 64,
                layout::number(buf, 80, 4) - 64 + layout::number(buf, 84, 4))) is None
        },
{
    layout::numbers_are_little_endian(buf);
}

/// A echo request body is read field by field from these places, and from no other.
pub proof fn echo_request_is_read_in_place(buf: Seq<u8>, m: EchoRequest)
    requires
        EchoRequest::parse_error(buf) is None,
        m.decodes(buf),
    ensures
        m.structure_size == layout::number(buf, 0, 2),
        m.reserved == layout::number(buf, 2, 2),
{
    layout::numbers_are_little_endian(buf);
}

/// A echo request body is accepted where it has its size and its parts lie within it.
pub proof fn echo_request_is_accepted_whole(buf: Seq<u8>)
    requires
        buf.len() <= usize::MAX,
    ensures
        EchoRequest::parse_error(buf) is None <==> {
            &&& buf.len() >= 4
            &&& layout::number(buf, 0, 2) == 4
        },
{
    layout::numbers_are_little_endian(buf);
}

/// A echo response body is read field by field from these places, and from no other.
pub proof fn echo_response_is_read_in_place(buf: Seq<u8>, m: EchoResponse)
    requires
        EchoResponse::parse_error(buf) is None,
        m.decodes(buf),
    ensures
        m.structure_size == layout::number(buf, 0, 2),
        m.reserved == layout::number(buf, 2, 2),
{
    layout::numbers_are_little_endian(buf);
}

/// A echo response body is accepted where it has its size and its parts lie within it.
pub proof fn echo_response_is_accepted_whole(buf: Seq<u8>)
    requires
        buf.len() <= usize::MAX,
    ensures
        EchoResponse::parse_error(buf) is None <==> {
            &&& buf.len() >= 4
            &&& layout::number(buf, 0, 2) == 4
        },
{
    layout::numbers_are_little_endian(buf);
}

/// A flush request body is read field by field from these places, and from no other.
pub proof fn flush_request_is_read_in_place(buf: Seq<u8>, m: FlushRequest)
    requires
        FlushRequest::parse_error(buf) is None,
        m.decodes(buf),
    ensures
        m.structure_size == layout::number(buf, 0, 2),
        m.reserved1 == layout::number(buf, 2, 2),
        m.reserved2 == layout::number(buf, 4, 4),
        m.file_id_persistent == layout::number(buf, 8, 8),
        m.file_id_volatile == layout::number(buf, 16, 8),
{
    layout::numbers_are_little_endian(buf);
}

/// A flush request body is accepted where it has its size and its parts lie within it.
pub proof fn flush_request_is_accepted_whole(buf: Seq<u8>)
    requires
        buf.len() <= usize::MAX,
    ensures
        FlushRequest::parse_error(buf) is None <==> {
            &&& buf.len() >= 24
            &&& layout::number(buf, 0, 2) == 24
        },
{
    layout::numbers_are_little_endian(buf);
}

/// A flush response body is read field by field from these places, and from no other.
pub proof fn flush_response_is_read_in_place(buf: Seq<u8>, m: FlushResponse)
    requires
        FlushResponse::parse_error(buf) is None,
        m.decodes(buf),
    ensures
        m.structure_size == layout::number(buf, 0, 2),
        m.reserved == layout::number(buf, 2, 2),
{
    layout::numbers_are_little_endian(buf);
}

/// A flush response body is accepted where it has its size and its parts lie within it.
pub proof fn flush_response_is_accepted_whole(buf: Seq<u8>)
    requires
        buf.len() <= usize::MAX,
    ensures
        FlushResponse::parse_error(buf) is None <==> {
            &&& buf.len() >= 4
            &&& layout::number(buf, 0, 2) == 4
        },
{
    layout::numbers_are_little_endian(buf);
}

/// A ioctl request body is read field by field from these places, and from no other.
pub proof fn ioctl_request_is_read_in_place(buf: Seq<u8>, m: IoctlRequest)
    requires
        IoctlRequest::parse_error(buf) is None,
        m.decodes(buf),
    ensures
        m.structure_size == layout::number(buf, 0, 2),
        m.reserved == layout::number(buf, 2, 2),
        m.ctl_code == layout::number(buf, 4, 4),
        m.file_id.persistent == layout::number(buf, 8, 8),
        m.file_id.volatile == layout::number(buf, 16, 8),
        m.input_offset == layout::number(buf, 24, 4),
        m.input_count == layout::number(buf, 28, 4),
        m.max_input_response == layout::number(buf, 32, 4),
        m.output_offset == layout::number(buf, 36, 4),
        m.output_count == layout::number(buf, 40, 4),
        m.max_output_response == layout::number(buf, 44, 4),
        m.flags == layout::number(buf, 48, 4),
        m.reserved2 == layout::number(buf, 52, 4),
        m.input@.len() == layout::number(buf, 28, 4),
        layout::number(buf, 28, 4) != 0 ==> m.input@ == buf.subrange(
            layout::number(buf, 24, 4) - 64,
            layout::number(buf, 24, 4) - 64 + layout::number(buf, 28, 4),
        ),
{
    layout::numbers_are_little_endian(buf);
}

/// A ioctl request body is accepted where it has its size and its parts lie within it.
pub proof fn ioctl_request_is_accepted_whole(buf: Seq<u8>)
    requires
        buf.len() <= usize::MAX,
    ensures
        IoctlRequest::parse_error(buf) is None <==> {
            &&& buf.len() >= 56
            &&& layout::number(buf, 0, 2) == 57
            &&& layout::number(buf, 28, 4) != 0
                ==> 120 <= layout::number(buf, 24, 4)
                && layout::number(buf, 24, 4) - 64 + layout::number(buf, 28, 4) <= buf.len()
        },
{
    layout::numbers_are_little_endian(buf);
}

/// A ioctl response body is read field by field from these places, and from no other.
pub proof fn ioctl_response_is_read_in_place(buf: Seq<u8>, m: IoctlResponse)
    requires
        IoctlResponse::parse_error(buf) is None,
        m.decodes(buf),
    ensures
        m.structure_size == layout::number(buf, 0, 2),
        m.reserved == layout::number(buf, 2, 2),
        m.ctl_code == layout::number(buf, 4, 4),
        m.file_id.persistent == layout::number(buf, 8, 8),
        m.file_id.volatile == layout::number(buf, 16, 8),
        m.input_offset == layout::number(buf, 24, 4),
        m.input_count == layout::number(buf, 28, 4),
        m.output_offset == layout::number(buf, 32, 4),
        m.output_count == layout::number(buf, 36, 4),
        m.flags == layout::number(buf, 40, 4),
        m.reserved2 == layout::number(buf, 44, 4),
        m.output@.len() == layout::number(buf, 36, 4),
        layout::number(buf, 36, 4) != 0 ==> m.output@ == buf.subrange(
            layout::number(buf, 32, 4) - 64,
            layout::number(buf, 32, 4) - 64 + layout::number(buf, 36, 4),
        ),
{
    layout::numbers_are_little_endian(buf);
}

/// A ioctl response body is accepted where it has its size and its parts lie within it.
pub proof fn ioctl_response_is_accepted_whole(buf: Seq<u8>)
    requires
        buf.len() <= usize::MAX,
    ensures
        IoctlResponse::parse_error(buf) is None <==> {
            &&& buf.len() >= 48
            &&& layout::number(buf, 0, 2) == 49
            &&& layout::number(buf, 36, 4) != 0
                ==> 112 <= layout::number(buf, 32, 4)
                && layout::number(buf, 32, 4) - 64 + layout::number(buf, 36, 4) <= buf.len()
        },
{
    layout::numbers_are_little_endian(buf);
}

/// A lock request body is read field by field from these places, and from no other.
pub proof fn lock_request_is_read_in_place(buf: Seq<u8>, m: LockRequest)
    requires
        LockRequest::parse_error(buf) is None,
        m.decodes(buf),
    ensures
        m.structure_size == layout::number(buf, 0, 2),
        m.lock_count == layout::number(buf, 2, 2),
        m.lock_sequence == layout::number(buf, 4, 4),
        m.file_id.persistent == layout::number(buf, 8, 8),
        m.file_id.volatile == layout::number(buf, 16, 8),
        m.locks@.len() == layout::number(buf, 2, 2),
        forall|i: int|
            0 <= i < layout::number(buf, 2, 2) ==> {
                &&& (#[trigger] m.locks@[i]).offset == layout::number(buf, 24 + 24 * i, 8)
                &&& m.locks@[i].length == layout::number(buf, 32 + 24 * i, 8)
                &&& m.locks@[i].flags == layout::number(buf, 40 + 24 * i, 4)
                &&& m.locks@[i].reserved == layout::number(buf, 44 + 24 * i, 4)
            },
{
    layout::numbers_are_little_endian(buf);
}

/// A lock request body is accepted where it has its size and its parts lie within it.
pub proof fn lock_request_is_accepted_whole(buf: Seq<u8>)
    requires
        buf.len() <= usize::MAX,
    ensures
        LockRequest::parse_error(buf) is None <==> {
            &&& buf.len() >= 48
            &&& layout::number(buf, 0, 2) == 48
            &&& layout::number(buf, 2, 2) != 0
            &&& buf.len() >= 24 + 24 * layout::number(buf, 2, 2)
        },
{
    layout::numbers_are_little_endian(buf);
}

/// A lock response body is read field by field from these places, and from no other.
pub proof fn lock_response_is_read_in_place(buf: Seq<u8>, m: LockResponse)
    requires
        LockResponse::parse_error(buf) is None,
        m.decodes(buf),
    ensures
        m.structure_size == layout::number(buf, 0, 2),
        m.reserved == layout::number(buf, 2, 2),
{
    layout::numbers_are_little_endian(buf);
}

/// A lock response body is accepted where it has its size and its parts lie within it.
pub proof fn lock_response_is_accepted_whole(buf: Seq<u8>)
    requires
        buf.len() <= usize::MAX,
    ensures
        LockResponse::parse_error(buf) is None <==> {
            &&& buf.len() >= 4
            &&& layout::number(buf, 0, 2) == 4
        },
{
    layout::numbers_are_little_endian(buf);
}

/// A negotiate request body is read field by field from these places, and from no other.
pub proof fn negotiate_request_is_read_in_place(buf: Seq<u8>, m: NegotiateRequest)
    requires
        NegotiateRequest::parse_error(buf) is None,
        m.decodes(buf),
    ensures
        m.structure_size == layout::number(buf, 0, 2),
        m.dialect_count == layout::number(buf, 2, 2),
        m.security_mode == layout::number(buf, 4, 2),
        m.reserved == layout::number(buf, 6, 2),
        m.capabilities == layout::number(buf, 8, 4),
        m.client_guid@ == buf.subrange(12, 28),
        m.negotiate_context_offset_or_client_start_time == layout::number(buf, 28, 8),
        m.dialects@.len() == layout::number(buf, 2, 2),
        forall|i: int|
            0 <= i < layout::number(buf, 2, 2)
                ==> #[trigger] m.dialects@[i] == layout::number(buf, 36 + 2 * i, 2),
{
    layout::numbers_are_little_endian(buf);
}

/// A negotiate request body is accepted where it has its size and its parts lie within it.
pub proof fn negotiate_request_is_accepted_whole(buf: Seq<u8>)
    requires
        buf.len() <= usize::MAX,
    ensures
        NegotiateRequest::parse_error(buf) is None <==> {
            &&& buf.len() >= 36
            &&& layout::number(buf, 0, 2) == 36
            &&& buf.len() >= 36 + 2 * layout::number(buf, 2, 2)
            &&& layout::number(buf, 32, 2) != 0
                ==> 100 <= layout::number(buf, 28, 4) <= 64 + buf.len()
                && negotiate_context::list_error(buf.subrange(layout::number(buf, 28, 4) - 64,
                buf.len() as int), 0, layout::number(buf, 32, 2)) is None
        },
{
    layout::numbers_are_little_endian(buf);
}

/// A negotiate response body is read field by field from these places, and from no other.
pub proof fn negotiate_response_is_read_in_place(buf: Seq<u8>, m: NegotiateResponse)
    requires
        NegotiateResponse::parse_error(buf) is None,
        m.decodes(buf),
    ensures
        m.structure_size == layout::number(buf, 0, 2),
        m.security_mode == layout::number(buf, 2, 2),
        m.dialect_revision == layout::number(buf, 4, 2),
        m.negotiate_context_count_or_reserved == layout::number(buf, 6, 2),
        m.server_guid@ == buf.subrange(8, 24),
        m.capabilities == layout::number(buf, 24, 4),
        m.max_transact_size == layout::number(buf, 28, 4),
        m.max_read_size == layout::number(buf, 32, 4),
        m.max_write_size == layout::number(buf, 36, 4),
        m.system_time == layout::number(buf, 40, 8),
        m.server_start_time == layout::number(buf, 48, 8),
        m.security_buffer_offset == layout::number(buf, 56, 2),
        m.security_buffer_length == layout::number(buf, 58, 2),
        m.negotiate_context_offset_or_reserved2 == layout::number(buf, 60, 4),
        m.security_buffer@.len() == layout::number(buf, 58, 2),
        layout::number(buf, 58, 2) != 0 ==> m.security_buffer@ == buf.subrange(
            layout::number(buf, 56, 2) - 64,
            layout::number(buf, 56, 2) - 64 + layout::number(buf, 58, 2),
        ),
{
    layout::numbers_are_little_endian(buf);
}

/// A negotiate response body is accepted where it has its size and its parts lie within it.
pub proof fn negotiate_response_is_accepted_whole(buf: Seq<u8>)
    requires
        buf.len() <= usize::MAX,
    ensures
        NegotiateResponse::parse_error(buf) is None <==> {
            &&& buf.len() >= 64
            &&& layout::number(buf, 0, 2) == 65
            &&& layout::number(buf, 58, 2) != 0
                ==> 128 <= layout::number(buf, 56, 2)
                && layout::number(buf, 56, 2) - 64 + layout::number(buf, 58, 2) <= buf.len()
            &&& NegotiateResponse::context_error(buf) is None
        },
{
    layout::numbers_are_little_endian(buf);
}

/// A preauth integrity capabilities body is read field by field from these places, and from no other.
pub proof fn preauth_integrity_capabilities_is_read_in_place(
    buf: Seq<u8>,
    m: PreauthIntegrityCapabilities,
)
    requires
        PreauthIntegrityCapabilities::parse_error(buf) is None,
        m.decodes(buf),
    ensures
        m.hash_algorithm_count == layout::number(buf, 0, 2),
        m.salt_length == layout::number(buf, 2, 2),
        m.hash_algorithms@.len() == layout::number(buf, 0, 2),
        forall|i: int|
            0 <= i < layout::number(buf, 0, 2)
                ==> #[trigger] m.hash_algorithms@[i] == layout::number(buf, 4 + 2 * i, 2),
        m.salt@ == buf.subrange(
            4 + 2 * layout::number(buf, 0, 2),
            4 + 2 * layout::number(buf, 0, 2) + layout::number(buf, 2, 2),
        ),
{
    layout::numbers_are_little_endian(buf);
}

/// A preauth integrity capabilities body is accepted where it has its size and its parts lie within it.
pub proof fn preauth_integrity_capabilities_is_accepted_whole(buf: Seq<u8>)
    requires
        buf.len() <= usize::MAX,
    ensures
        PreauthIntegrityCapabilities::parse_error(buf) is None <==> {
            &&& buf.len() >= 4
            &&& buf.len() >= 4 + 2 * layout::number(buf, 0, 2) + layout::number(buf, 2, 2)
        },
{
    layout::numbers_are_little_endian(buf);
}

/// A encryption capabilities body is read field by field from these places, and from no other.
pub proof fn encryption_capabilities_is_read_in_place(buf: Seq<u8>, m: EncryptionCapabilities)
    requires
        EncryptionCapabilities::parse_error(buf) is None,
        m.decodes(buf),
    ensures
        m.cipher_count == layout::number(buf, 0, 2),
        m.ciphers@.len() == layout::number(buf, 0, 2),
        forall|i: int|
            0 <= i < layout::number(buf, 0, 2)
                ==> #[trigger] m.ciphers@[i] == layout::number(buf, 2 + 2 * i, 2),
{
    layout::numbers_are_little_endian(buf);
}

/// A encryption capabilities body is accepted where it has its size and its parts lie within it.
pub proof fn encryption_capabilities_is_accepted_whole(buf: Seq<u8>)
    requires
        buf.len() <= usize::MAX,
    ensures
        EncryptionCapabilities::parse_error(buf) is None <==> {
            &&& buf.len() >= 2
            &&& buf.len() >= 2 + 2 * layout::number(buf, 0, 2)
        },
{
    layout::numbers_are_little_endian(buf);
}

/// A compression capabilities body is read field by field from these places, and from no other.
pub proof fn compression_capabilities_is_read_in_place(buf: Seq<u8>, m: CompressionCapabilities)
    requires
        CompressionCapabilities::parse_error(buf) is None,
        m.decodes(buf),
    ensures
        m.compression_algorithm_count == layout::number(buf, 0, 2),
        m.padding == layout::number(buf, 2, 2),
        m.flags == layout::number(buf, 4, 4),
        m.compression_algorithms@.len() == layout::number(buf, 0, 2),
        forall|i: int|
            0 <= i < layout::number(buf, 0, 2)
                ==> #[trigger] m.compression_algorithms@[i] == layout::number(buf, 8 + 2 * i, 2),
{
    layout::numbers_are_little_endian(buf);
}

/// A compression capabilities body is accepted where it has its size and its parts lie within it.
pub proof fn compression_capabilities_is_accepted_whole(buf: Seq<u8>)
    requires
        buf.len() <= usize::MAX,
    ensures
        CompressionCapabilities::parse_error(buf) is None <==> {
            &&& buf.len() >= 8
            &&& buf.len() >= 8 + 2 * layout::number(buf, 0, 2)
        },
{
    layout::numbers_are_little_endian(buf);
}

/// A rdma transform capabilities body is read field by field from these places, and from no other.
pub proof fn rdma_transform_capabilities_is_read_in_place(
    buf: Seq<u8>,
    m: RdmaTransformCapabilities,
)
    requires
        RdmaTransformCapabilities::parse_error(buf) is None,
        m.decodes(buf),
    ensures
        m.transform_count == layout::number(buf, 0, 2),
        m.reserved1 == layout::number(buf, 2, 2),
        m.reserved2 == layout::number(buf, 4, 4),
        m.rdma_transform_ids@.len() == layout::number(buf, 0, 2),
        forall|i: int|
            0 <= i < layout::number(buf, 0, 2)
                ==> #[trigger] m.rdma_transform_ids@[i] == layout::number(buf, 8 + 2 * i, 2),
{
    layout::numbers_are_little_endian(buf);
}

/// A rdma transform capabilities body is accepted where it has its size and its parts lie within it.
pub proof fn rdma_transform_capabilities_is_accepted_whole(buf: Seq<u8>)
    requires
        buf.len() <= usize::MAX,
    ensures
        RdmaTransformCapabilities::parse_error(buf) is None <==> {
            &&& buf.len() >= 8
            &&& buf.len() >= 8 + 2 * layout::number(buf, 0, 2)
        },
{
    layout::numbers_are_little_endian(buf);
}

/// A signing capabilities body is read field by field from these places, and from no other.
pub proof fn signing_capabilities_is_read_in_place(buf: Seq<u8>, m: SigningCapabilities)
    requires
        SigningCapabilities::parse_error(buf) is None,
        m.decodes(buf),
    ensures
        m.signing_algorithm_count == layout::number(buf, 0, 2),
        m.signing_algorithms@.len() == layout::number(buf, 0, 2),
        forall|i: int|
            0 <= i < layout::number(buf, 0, 2)
                ==> #[trigger] m.signing_algorithms@[i] == layout::number(buf, 2 + 2 * i, 2),
{
    layout::numbers_are_little_endian(buf);
}

/// A signing capabilities body is accepted where it has its size and its parts lie within it.
pub proof fn signing_capabilities_is_accepted_whole(buf: Seq<u8>)
    requires
        buf.len() <= usize::MAX,
    ensures
        SigningCapabilities::parse_error(buf) is None <==> {
            &&& buf.len() >= 2
            &&& buf.len() >= 2 + 2 * layout::number(buf, 0, 2)
        },
{
    layout::numbers_are_little_endian(buf);
}

/// A oplock break notification body is read field by field from these places, and from no other.
pub proof fn oplock_break_notification_is_read_in_place(buf: Seq<u8>, m: OplockBreakNotification)
    requires
        OplockBreakNotification::parse_error(buf) is None,
        m.decodes(buf),
    ensures
        m.structure_size == layout::number(buf, 0, 2),
        m.oplock_level == buf[2],
        m.reserved == buf[3],
        m.reserved2 == layout::number(buf, 4, 4),
        m.file_id.persistent == layout::number(buf, 8, 8),
        m.file_id.volatile == layout::number(buf, 16, 8),
{
    layout::numbers_are_little_endian(buf);
}

/// A oplock break notification body is accepted where it has its size and its parts lie within it.
pub proof fn oplock_break_notification_is_accepted_whole(buf: Seq<u8>)
    requires
        buf.len() <= usize::MAX,
    ensures
        OplockBreakNotification::parse_error(buf) is None <==> {
            &&& buf.len() >= 24
            &&& layout::number(buf, 0, 2) == 24
        },
{
    layout::numbers_are_little_endian(buf);
}

/// A lease break ack body is read field by field from these places, and from no other.
pub proof fn lease_break_ack_is_read_in_place(buf: Seq<u8>, m: LeaseBreakAck)
    requires
        LeaseBreakAck::parse_error(buf) is None,
        m.decodes(buf),
    ensures
        m.structure_size == layout::number(buf, 0, 2),
        m.reserved == layout::number(buf, 2, 2),
        m.flags == layout::number(buf, 4, 4),
        m.lease_key@ == buf.subrange(8, 24),
        m.lease_state == layout::number(buf, 24, 4),
        m.lease_duration == layout::number(buf, 28, 8),
{
    layout::numbers_are_little_endian(buf);
}

/// A lease break ack body is accepted where it has its size and its parts lie within it.
pub proof fn lease_break_ack_is_accepted_whole(buf: Seq<u8>)
    requires
        buf.len() <= usize::MAX,
    ensures
        LeaseBreakAck::parse_error(buf) is None <==> {
            &&& buf.len() >= 36
            &&& layout::number(buf, 0, 2) == 36
        },
{
    layout::numbers_are_little_endian(buf);
}

/// A lease break notification body is read field by field from these places, and from no other.
pub proof fn lease_break_notification_is_read_in_place(buf: Seq<u8>, m: LeaseBreakNotification)
    requires
        LeaseBreakNotification::parse_error(buf) is None,
        m.decodes(buf),
    ensures
        m.structure_size == layout::number(buf, 0, 2),
        m.new_epoch == layout::number(buf, 2, 2),
        m.flags == layout::number(buf, 4, 4),
        m.lease_key@ == buf.subrange(8, 24),
        m.current_lease_state == layout::number(buf, 24, 4),
        m.new_lease_state == layout::number(buf, 28, 4),
        m.break_reason == layout::number(buf, 32, 4),
        m.access_mask_hint == layout::number(buf, 36, 4),
        m.share_mask_hint == layout::number(buf, 40, 4),
{
    layout::numbers_are_little_endian(buf);
}

/// A lease break notification body is accepted where it has its size and its parts lie within it.
pub proof fn lease_break_notification_is_accepted_whole(buf: Seq<u8>)
    requires
        buf.len() <= usize::MAX,
    ensures
        LeaseBreakNotification::parse_error(buf) is None <==> {
            &&& buf.len() >= 44
            &&& layout::number(buf, 0, 2) == 44
        },
{
    layout::numbers_are_little_endian(buf);
}

/// A query directory request body is read field by field from these places, and from no other.
pub proof fn query_directory_request_is_read_in_place(buf: Seq<u8>, m: QueryDirectoryRequest)
    requires
        QueryDirectoryRequest::parse_error(buf) is None,
        m.decodes(buf),
    ensures
        m.structure_size == layout::number(buf, 0, 2),
        m.file_information_class == buf[2],
        m.flags == buf[3],
        m.file_index == layout::number(buf, 4, 4),
        m.file_id.persistent == layout::number(buf, 8, 8),
        m.file_id.volatile == layout::number(buf, 16, 8),
        m.file_name_offset == layout::number(buf, 24, 2),
        m.file_name_length == layout::number(buf, 26, 2),
        m.output_buffer_length == layout::number(buf, 28, 4),
        m.file_name@.len() == layout::number(buf, 26, 2),
        layout::number(buf, 26, 2) != 0 ==> m.file_name@ == buf.subrange(
            layout::number(buf, 24, 2) - 64,
            layout::number(buf, 24, 2) - 64 + layout::number(buf, 26, 2),
        ),
{
    layout::numbers_are_little_endian(buf);
}

/// A query directory request body is accepted where it has its size and its parts lie within it.
pub proof fn query_directory_request_is_accepted_whole(buf: Seq<u8>)
    requires
        buf.len() <= usize::MAX,
    ensures
        QueryDirectoryRequest::parse_error(buf) is None <==> {
            &&& buf.len() >= 32
            &&& layout::number(buf, 0, 2) == 33
            &&& layout::number(buf, 26, 2) % 2 == 0
            &&& layout::number(buf, 26, 2) != 0
                ==> 96 <= layout::number(buf, 24, 2)
                && layout::number(buf, 24, 2) - 64 + layout::number(buf, 26, 2) <= buf.len()
        },
{
    layout::numbers_are_little_endian(buf);
}

/// A query directory response body is read field by field from these places, and from no other.
pub proof fn query_directory_response_is_read_in_place(buf: Seq<u8>, m: QueryDirectoryResponse)
    requires
        QueryDirectoryResponse::parse_error(buf) is None,
        m.decodes(buf),
    ensures
        m.structure_size == layout::number(buf, 0, 2),
        m.output_buffer_offset == layout::number(buf, 2, 2),
        m.output_buffer_length == layout::number(buf, 4, 4),
        m.buffer@ == buf.subrange(8, 8 + layout::number(buf, 4, 4)),
{
    layout::numbers_are_little_endian(buf);
}

/// A query directory response body is accepted where it has its size and its parts lie within it.
pub proof fn query_directory_response_is_accepted_whole(buf: Seq<u8>)
    requires
        buf.len() <= usize::MAX,
    ensures
        QueryDirectoryResponse::parse_error(buf) is None <==> {
            &&& buf.len() >= 8
            &&& buf.len() - 8 >= layout::number(buf, 4, 4)
            &&& layout::number(buf, 0, 2) == 9
        },
{
    layout::numbers_are_little_endian(buf);
}

/// A query info request body is read field by field from these places, and from no other.
pub proof fn query_info_request_is_read_in_place(buf: Seq<u8>, m: QueryInfoRequest)
    requires
        QueryInfoRequest::parse_error(buf) is None,
        m.decodes(buf),
    ensures
        m.structure_size == layout::number(buf, 0, 2),
        m.info_type == buf[2],
        m.file_information_class == buf[3],
        m.output_buffer_length == layout::number(buf, 4, 4),
        m.input_buffer_offset == layout::number(buf, 8, 2),
        m.reserved == layout::number(buf, 10, 2),
        m.input_buffer_length == layout::number(buf, 12, 4),
        m.additional_information == layout::number(buf, 16, 4),
        m.flags == layout::number(buf, 20, 4),
        m.file_id.persistent == layout::number(buf, 24, 8),
        m.file_id.volatile == layout::number(buf, 32, 8),
        m.input_buffer@.len() == layout::number(buf, 12, 4),
        layout::number(buf, 12, 4) != 0 ==> m.input_buffer@ == buf.subrange(
            layout::number(buf, 8, 2) - 64,
            layout::number(buf, 8, 2) - 64 + layout::number(buf, 12, 4),
        ),
{
    layout::numbers_are_little_endian(buf);
}

/// A query info request body is accepted where it has its size and its parts lie within it.
pub proof fn query_info_request_is_accepted_whole(buf: Seq<u8>)
    requires
        buf.len() <= usize::MAX,
    ensures
        QueryInfoRequest::parse_error(buf) is None <==> {
            &&& buf.len() >= 40
            &&& layout::number(buf, 0, 2) == 41
            &&& layout::number(buf, 12, 4) != 0
                ==> 104 <= layout::number(buf, 8, 2)
                && layout::number(buf, 8, 2) - 64 + layout::number(buf, 12, 4) <= buf.len()
        },
{
    layout::numbers_are_little_endian(buf);
}

/// A query info response body is read field by field from these places, and from no other.
pub proof fn query_info_response_is_read_in_place(buf: Seq<u8>, m: QueryInfoResponse)
    requires
        QueryInfoResponse::parse_error(buf) is None,
        m.decodes(buf),
    ensures
        m.structure_size == layout::number(buf, 0, 2),
        m.output_buffer_offset == layout::number(buf, 2, 2),
        m.output_buffer_length == layout::number(buf, 4, 4),
        m.buffer@ == buf.subrange(8, 8 + layout::number(buf, 4, 4)),
{
    layout::numbers_are_little_endian(buf);
}

/// A query info response body is accepted where it has its size and its parts lie within it.
pub proof fn query_info_response_is_accepted_whole(buf: Seq<u8>)
    requires
        buf.len() <= usize::MAX,
    ensures
        QueryInfoResponse::parse_error(buf) is None <==> {
            &&& buf.len() >= 8
            &&& buf.len() - 8 >= layout::number(buf, 4, 4)
            &&& layout::number(buf, 0, 2) == 9
        },
{
    layout::numbers_are_little_endian(buf);
}

/// A read request body is read field by field from these places, and from no other.
pub proof fn read_request_is_read_in_place(buf: Seq<u8>, m: ReadRequest)
    requires
        ReadRequest::parse_error(buf) is None,
        m.decodes(buf),
    ensures
        m.structure_size == layout::number(buf, 0, 2),
        m.padding == buf[2],
        m.flags == buf[3],
        m.length == layout::number(buf, 4, 4),
        m.offset == layout::number(buf, 8, 8),
        m.file_id.persistent == layout::number(buf, 16, 8),
        m.file_id.volatile == layout::number(buf, 24, 8),
        m.minimum_count == layout::number(buf, 32, 4),
        m.channel == layout::number(buf, 36, 4),
        m.remaining_bytes == layout::number(buf, 40, 4),
        m.read_channel_info_offset == layout::number(buf, 44, 2),
        m.read_channel_info_length == layout::number(buf, 46, 2),
        m.buffer@ == buf.subrange(48, buf.len() as int),
{
    layout::numbers_are_little_endian(buf);
}

/// A read request body is accepted where it has its size and its parts lie within it.
pub proof fn read_request_is_accepted_whole(buf: Seq<u8>)
    requires
        buf.len() <= usize::MAX,
    ensures
        ReadRequest::parse_error(buf) is None <==> {
            &&& buf.len() >= 48
            &&& layout::number(buf, 0, 2) == 49
        },
{
    layout::numbers_are_little_endian(buf);
}

/// A read response body is read field by field from these places, and from no other.
pub proof fn read_response_is_read_in_place(buf: Seq<u8>, m: ReadResponse)
    requires
        ReadResponse::parse_error(buf) is None,
        m.decodes(buf),
    ensures
        m.structure_size == layout::number(buf, 0, 2),
        m.data_offset == buf[2],
        m.reserved == buf[3],
        m.data_length == layout::number(buf, 4, 4),
        m.data_remaining == layout::number(buf, 8, 4),
        m.flags == layout::number(buf, 12, 4),
        m.data@.len() == layout::number(buf, 4, 4),
        layout::number(buf, 4, 4) != 0 ==> m.data@ == buf.subrange(
            buf[2] - 64,
            buf[2] - 64 + layout::number(buf, 4, 4),
        ),
{
    layout::numbers_are_little_endian(buf);
}

/// A read response body is accepted where it has its size and its parts lie within it.
pub proof fn read_response_is_accepted_whole(buf: Seq<u8>)
    requires
        buf.len() <= usize::MAX,
    ensures
        ReadResponse::parse_error(buf) is None <==> {
            &&& buf.len() >= 16
            &&& layout::number(buf, 0, 2) == 17
            &&& layout::number(buf, 4, 4) != 0
                ==> 80 <= buf[2] && buf[2] - 64 + layout::number(buf, 4, 4) <= buf.len()
        },
{
    layout::numbers_are_little_endian(buf);
}

/// A session setup request body is read field by field from these places, and from no other.
pub proof fn session_setup_request_is_read_in_place(buf: Seq<u8>, m: SessionSetupRequest)
    requires
        SessionSetupRequest::parse_error(buf) is None,
        m.decodes(buf),
    ensures
        m.structure_size == layout::number(buf, 0, 2),
        m.flags == buf[2],
        m.security_mode == buf[3],
        m.capabilities == layout::number(buf, 4, 4),
        m.channel == layout::number(buf, 8, 4),
        m.security_buffer_offset == layout::number(buf, 12, 2),
        m.security_buffer_length == layout::number(buf, 14, 2),
        m.previous_session_id == layout::number(buf, 16, 8),
        m.security_buffer@ == buf.subrange(
            layout::number(buf, 12, 2) - 64,
            layout::number(buf, 12, 2) - 64 + layout::number(buf, 14, 2),
        ),
{
    layout::numbers_are_little_endian(buf);
}

/// A session setup request body is accepted where it has its size and its parts lie within it.
pub proof fn session_setup_request_is_accepted_whole(buf: Seq<u8>)
    requires
        buf.len() <= usize::MAX,
    ensures
        SessionSetupRequest::parse_error(buf) is None <==> {
            &&& buf.len() >= 24
            &&& layout::number(buf, 0, 2) == 25
            &&& 88 <= layout::number(buf, 12, 2)
                && layout::number(buf, 12, 2) - 64 + layout::number(buf, 14, 2) <= buf.len()
        },
{
    layout::numbers_are_little_endian(buf);
}

/// A session setup response body is read field by field from these places, and from no other.
pub proof fn session_setup_response_is_read_in_place(buf: Seq<u8>, m: SessionSetupResponse)
    requires
        SessionSetupResponse::parse_error(buf) is None,
        m.decodes(buf),
    ensures
        m.structure_size == layout::number(buf, 0, 2),
        m.session_flags == layout::number(buf, 2, 2),
        m.security_buffer_offset == layout::number(buf, 4, 2),
        m.security_buffer_length == layout::number(buf, 6, 2),
        m.security_buffer@ == buf.subrange(
            layout::number(buf, 4, 2) - 64,
            layout::number(buf, 4, 2) - 64 + layout::number(buf, 6, 2),
        ),
{
    layout::numbers_are_little_endian(buf);
}

/// A session setup response body is accepted where it has its size and its parts lie within it.
pub proof fn session_setup_response_is_accepted_whole(buf: Seq<u8>)
    requires
        buf.len() <= usize::MAX,
    ensures
        SessionSetupResponse::parse_error(buf) is None <==> {
            &&& buf.len() >= 8
            &&& layout::number(buf, 0, 2) == 9
            &&& 72 <= layout::number(buf, 4, 2)
                && layout::number(buf, 4, 2) - 64 + layout::number(buf, 6, 2) <= buf.len()
        },
{
    layout::numbers_are_little_endian(buf);
}

/// A set info request body is read field by field from these places, and from no other.
pub proof fn set_info_request_is_read_in_place(buf: Seq<u8>, m: SetInfoRequest)
    requires
        SetInfoRequest::parse_error(buf) is None,
        m.decodes(buf),
    ensures
        m.structure_size == layout::number(buf, 0, 2),
        m.info_type == buf[2],
        m.file_information_class == buf[3],
        m.buffer_length == layout::number(buf, 4, 4),
        m.buffer_offset == layout::number(buf, 8, 2),
        m.reserved == layout::number(buf, 10, 2),
        m.additional_information == layout::number(buf, 12, 4),
        m.file_id.persistent == layout::number(buf, 16, 8),
        m.file_id.volatile == layout::number(buf, 24, 8),
        m.buffer@.len() == layout::number(buf, 4, 4),
        layout::number(buf, 4, 4) != 0 ==> m.buffer@ == buf.subrange(
            layout::number(buf, 8, 2) - 64,
            layout::number(buf, 8, 2) - 64 + layout::number(buf, 4, 4),
        ),
{
    layout::numbers_are_little_endian(buf);
}

/// A set info request body is accepted where it has its size and its parts lie within it.
pub proof fn set_info_request_is_accepted_whole(buf: Seq<u8>)
    requires
        buf.len() <= usize::MAX,
    ensures
        SetInfoRequest::parse_error(buf) is None <==> {
            &&& buf.len() >= 32
            &&& layout::number(buf, 0, 2) == 33
            &&& layout::number(buf, 4, 4) != 0
                ==> 96 <= layout::number(buf, 8, 2)
                && layout::number(buf, 8, 2) - 64 + layout::number(buf, 4, 4) <= buf.len()
        },
{
    layout::numbers_are_little_endian(buf);
}

/// A set info response body is read field by field from these places, and from no other.
pub proof fn set_info_response_is_read_in_place(buf: Seq<u8>, m: SetInfoResponse)
    requires
        SetInfoResponse::parse_error(buf) is None,
        m.decodes(buf),
    ensures
        m.structure_size == layout::number(buf, 0, 2),
{
    layout::numbers_are_little_endian(buf);
}

/// A set info response body is accepted where it has its size and its parts lie within it.
pub proof fn set_info_response_is_accepted_whole(buf: Seq<u8>)
    requires
        buf.len() <= usize::MAX,
    ensures
        SetInfoResponse::parse_error(buf) is None <==> {
            &&& buf.len() >= 2
            &&& layout::number(buf, 0, 2) == 2
        },
{
    layout::numbers_are_little_endian(buf);
}

/// A tree connect request body is read field by field from these places, and from no other.
pub proof fn tree_connect_request_is_read_in_place(buf: Seq<u8>, m: TreeConnectRequest)
    requires
        TreeConnectRequest::parse_error(buf) is None,
        m.decodes(buf),
    ensures
        m.structure_size == layout::number(buf, 0, 2),
        m.flags == layout::number(buf, 2, 2),
        m.path_offset == layout::number(buf, 4, 2),
        m.path_length == layout::number(buf, 6, 2),
        m.path@ == buf.subrange(
            layout::number(buf, 4, 2) - 64,
            layout::number(buf, 4, 2) - 64 + layout::number(buf, 6, 2),
        ),
{
    layout::numbers_are_little_endian(buf);
}

/// A tree connect request body is accepted where it has its size and its parts lie within it.
pub proof fn tree_connect_request_is_accepted_whole(buf: Seq<u8>)
    requires
        buf.len() <= usize::MAX,
    ensures
        TreeConnectRequest::parse_error(buf) is None <==> {
            &&& buf.len() >= 8
            &&& layout::number(buf, 0, 2) == 9
            &&& layout::number(buf, 6, 2) % 2 == 0
            &&& 72 <= layout::number(buf, 4, 2)
                && layout::number(buf, 4, 2) - 64 + layout::number(buf, 6, 2) <= buf.len()
        },
{
    layout::numbers_are_little_endian(buf);
}

/// A tree connect response body is read field by field from these places, and from no other.
pub proof fn tree_connect_response_is_read_in_place(buf: Seq<u8>, m: TreeConnectResponse)
    requires
        TreeConnectResponse::parse_error(buf) is None,
        m.decodes(buf),
    ensures
        m.structure_size == layout::number(buf, 0, 2),
        m.share_type == buf[2],
        m.reserved == buf[3],
        m.share_flags == layout::number(buf, 4, 4),
        m.capabilities == layout::number(buf, 8, 4),
        m.maximal_access == layout::number(buf, 12, 4),
{
    layout::numbers_are_little_endian(buf);
}

/// A tree connect response body is accepted where it has its size and its parts lie within it.
pub proof fn tree_connect_response_is_accepted_whole(buf: Seq<u8>)
    requires
        buf.len() <= usize::MAX,
    ensures
        TreeConnectResponse::parse_error(buf) is None <==> {
            &&& buf.len() >= 16
            &&& layout::number(buf, 0, 2) == 16
        },
{
    layout::numbers_are_little_endian(buf);
}

/// A write request body is read field by field from these places, and from no other.
pub proof fn write_request_is_read_in_place(buf: Seq<u8>, m: WriteRequest)
    requires
        WriteRequest::parse_error(buf) is None,
        m.decodes(buf),
    ensures
        m.structure_size == layout::number(buf, 0, 2),
        m.data_offset == layout::number(buf, 2, 2),
        m.length == layout::number(buf, 4, 4),
        m.offset == layout::number(buf, 8, 8),
        m.file_id.persistent == layout::number(buf, 16, 8),
        m.file_id.volatile == layout::number(buf, 24, 8),
        m.channel == layout::number(buf, 32, 4),
        m.remaining_bytes == layout::number(buf, 36, 4),
        m.write_channel_info_offset == layout::number(buf, 40, 2),
        m.write_channel_info_length == layout::number(buf, 42, 2),
        m.flags == layout::number(buf, 44, 4),
        m.data@ == buf.subrange(
            layout::number(buf, 2, 2) - 64,
            layout::number(buf, 2, 2) - 64 + layout::number(buf, 4, 4),
        ),
{
    layout::numbers_are_little_endian(buf);
}

/// A write request body is accepted where it has its size and its parts lie within it.
pub proof fn write_request_is_accepted_whole(buf: Seq<u8>)
    requires
        buf.len() <= usize::MAX,
    ensures
        WriteRequest::parse_error(buf) is None <==> {
            &&& buf.len() >= 48
            &&& layout::number(buf, 0, 2) == 49
            &&& 112 <= layout::number(buf, 2, 2)
                && layout::number(buf, 2, 2) - 64 + layout::number(buf, 4, 4) <= buf.len()
        },
{
    layout::numbers_are_little_endian(buf);
}

/// A write response body is read field by field from these places, and from no other.
pub proof fn write_response_is_read_in_place(buf: Seq<u8>, m: WriteResponse)
    requires
        WriteResponse::parse_error(buf) is None,
        m.decodes(buf),
    ensures
        m.structure_size == layout::number(buf, 0, 2),
        m.reserved == layout::number(buf, 2, 2),
        m.count == layout::number(buf, 4, 4),
        m.remaining == layout::number(buf, 8, 4),
        m.write_channel_info_offset == layout::number(buf, 12, 2),
        m.write_channel_info_length == layout::number(buf, 14, 2),
{
    layout::numbers_are_little_endian(buf);
}

/// A write response body is accepted where it has its size and its parts lie within it.
pub proof fn write_response_is_accepted_whole(buf: Seq<u8>)
    requires
        buf.len() <= usize::MAX,
    ensures
        WriteResponse::parse_error(buf) is None <==> {
            &&& buf.len() >= 16
            &&& layout::number(buf, 0, 2) == 17
        },
{
    layout::numbers_are_little_endian(buf);
}

} // verus!
