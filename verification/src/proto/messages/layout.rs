//! Where the fields of message bodies lie, counted in bytes from the start of the body.

use crate::proto::messages;
use crate::proto::messages::lock;
use crate::proto::messages::negotiate_context::{
    CompressionCapabilities, EncryptionCapabilities, PreauthIntegrityCapabilities,
    RdmaTransformCapabilities, SigningCapabilities,
};
use crate::proto::messages::{
    CancelRequest, ChangeNotifyRequest, ChangeNotifyResponse, CreateRequest, CreateResponse,
    EchoRequest, EchoResponse, FlushRequest, FlushResponse, IoctlRequest, IoctlResponse,
    LeaseBreakAck, LeaseBreakNotification, LockRequest, LockResponse, NegotiateRequest,
    NegotiateResponse, OplockBreakNotification, QueryDirectoryRequest,
    QueryDirectoryResponse, QueryInfoRequest, QueryInfoResponse, ReadRequest, ReadResponse,
    SessionSetupRequest, SessionSetupResponse, SetInfoRequest, SetInfoResponse,
    TreeConnectRequest, TreeConnectResponse, WriteRequest, WriteResponse,
};
use crate::wire;
use vstd::prelude::*;

verus! {

/// The number in `n` bytes from `at` on, the low byte first.
#[verifier::opaque]
pub open spec fn number(b: Seq<u8>, at: int, n: int) -> int
    decreases n,
{
    if n <= 0 {
        0
    } else {
        b[at] + 256 * number(b, at + 1, n - 1)
    }
}

proof fn lemma_small(b: Seq<u8>, at: int)
    ensures
        wire::le16(b, at) == number(b, at, 2),
        wire::le32(b, at) == number(b, at, 4),
{
    reveal_with_fuel(number, 5);
    assert(at + 1 + 1 == at + 2 && at + 2 + 1 == at + 3);
}

proof fn lemma_large(b: Seq<u8>, at: int)
    ensures
        wire::le64(b, at) == number(b, at, 8),
{
    reveal_with_fuel(number, 9);
    lemma_small(b, at + 4);
    assert(at + 4 + 1 == at + 5 && at + 4 + 2 == at + 6 && at + 4 + 3 == at + 7);
}

/// Numbers on the wire have their low byte first.
pub proof fn numbers_are_little_endian(b: Seq<u8>)
    ensures
        forall|at: int| #[trigger] wire::le16(b, at) == number(b, at, 2),
        forall|at: int| #[trigger] wire::le32(b, at) == number(b, at, 4),
        forall|at: int| #[trigger] wire::le64(b, at) == number(b, at, 8),
{
    assert forall|at: int| #[trigger] wire::le16(b, at) == number(b, at, 2) by {
        lemma_small(b, at);
    }
    assert forall|at: int| #[trigger] wire::le32(b, at) == number(b, at, 4) by {
        lemma_small(b, at);
    }
    assert forall|at: int| #[trigger] wire::le64(b, at) == number(b, at, 8) by {
        lemma_large(b, at);
    }
}

/// A cancel request body is written field by field to these places.
pub proof fn cancel_request_is_written_in_place(m: CancelRequest)
    ensures
        m.encoding().len() == 4,
        number(m.encoding(), 0, 2) == m.structure_size,
        number(m.encoding(), 2, 2) == m.reserved,
{
    let b = m.encoding();
    assert(b.len() == 4);
    assert(number(b, 0, 2) == m.structure_size) by {
        assert(b.subrange(0, 2) =~= wire::bytes16(m.structure_size));
        wire::le16_of_bytes16(b, 0, m.structure_size);
        lemma_small(b, 0);
    }
    assert(number(b, 2, 2) == m.reserved) by {
        assert(b.subrange(2, 4) =~= wire::bytes16(m.reserved));
        wire::le16_of_bytes16(b, 2, m.reserved);
        lemma_small(b, 2);
    }
}

/// A change notify request body is written field by field to these places.
pub proof fn change_notify_request_is_written_in_place(m: ChangeNotifyRequest)
    ensures
        m.encoding().len() == 32,
        number(m.encoding(), 0, 2) == m.structure_size,
        number(m.encoding(), 2, 2) == m.flags,
        number(m.encoding(), 4, 4) == m.output_buffer_length,
        number(m.encoding(), 8, 8) == m.file_id.persistent,
        number(m.encoding(), 16, 8) == m.file_id.volatile,
        number(m.encoding(), 24, 4) == m.completion_filter,
        number(m.encoding(), 28, 4) == m.reserved,
{
    let b = m.encoding();
    assert(b.len() == 32);
    assert(number(b, 0, 2) == m.structure_size) by {
        assert(b.subrange(0, 2) =~= wire::bytes16(m.structure_size));
        wire::le16_of_bytes16(b, 0, m.structure_size);
        lemma_small(b, 0);
    }
    assert(number(b, 2, 2) == m.flags) by {
        assert(b.subrange(2, 4) =~= wire::bytes16(m.flags));
        wire::le16_of_bytes16(b, 2, m.flags);
        lemma_small(b, 2);
    }
    assert(number(b, 4, 4) == m.output_buffer_length) by {
        assert(b.subrange(4, 8) =~= wire::bytes32(m.output_buffer_length));
        wire::le32_of_bytes32(b, 4, m.output_buffer_length);
        lemma_small(b, 4);
    }
    assert(number(b, 8, 8) == m.file_id.persistent) by {
        assert(b.subrange(8, 16) =~= wire::bytes64(m.file_id.persistent));
        wire::le64_of_bytes64(b, 8, m.file_id.persistent);
        lemma_large(b, 8);
    }
    assert(number(b, 16, 8) == m.file_id.volatile) by {
        assert(b.subrange(16, 24) =~= wire::bytes64(m.file_id.volatile));
        wire::le64_of_bytes64(b, 16, m.file_id.volatile);
        lemma_large(b, 16);
    }
    assert(number(b, 24, 4) == m.completion_filter) by {
        assert(b.subrange(24, 28) =~= wire::bytes32(m.completion_filter));
        wire::le32_of_bytes32(b, 24, m.completion_filter);
        lemma_small(b, 24);
    }
    assert(number(b, 28, 4) == m.reserved) by {
        assert(b.subrange(28, 32) =~= wire::bytes32(m.reserved));
        wire::le32_of_bytes32(b, 28, m.reserved);
        lemma_small(b, 28);
    }
}

/// A change notify response body is written field by field to these places.
pub proof fn change_notify_response_is_written_in_place(m: ChangeNotifyResponse)
    ensures
        m.encoding().len() == 8 + m.buffer@.len(),
        number(m.encoding(), 0, 2) == m.structure_size,
        number(m.encoding(), 2, 2) == m.output_buffer_offset,
        number(m.encoding(), 4, 4) == m.output_buffer_length,
        m.encoding().subrange(8int, 8int + m.buffer@.len()) == m.buffer@,
{
    let b = m.encoding();
    assert(b.len() == 8 + m.buffer@.len());
    assert(number(b, 0, 2) == m.structure_size) by {
        assert(b.subrange(0, 2) =~= wire::bytes16(m.structure_size));
        wire::le16_of_bytes16(b, 0, m.structure_size);
        lemma_small(b, 0);
    }
    assert(number(b, 2, 2) == m.output_buffer_offset) by {
        assert(b.subrange(2, 4) =~= wire::bytes16(m.output_buffer_offset));
        wire::le16_of_bytes16(b, 2, m.output_buffer_offset);
        lemma_small(b, 2);
    }
    assert(number(b, 4, 4) == m.output_buffer_length) by {
        assert(b.subrange(4, 8) =~= wire::bytes32(m.output_buffer_length));
        wire::le32_of_bytes32(b, 4, m.output_buffer_length);
        lemma_small(b, 4);
    }
}

/// A create request body is written field by field to these places.
#[verifier::rlimit(80)]
#[verifier::spinoff_prover]
pub proof fn create_request_is_written_in_place(m: CreateRequest)
    ensures
        m.encoding().len() == 56 + m.name@.len() + m.create_contexts@.len(),
        number(m.encoding(), 0, 2) == m.structure_size,
        m.encoding()[2] == m.security_flags,
        m.encoding()[3] == m.requested_oplock_level,
        number(m.encoding(), 4, 4) == m.impersonation_level,
        number(m.encoding(), 8, 8) == m.smb_create_flags,
        number(m.encoding(), 16, 8) == m.reserved,
        number(m.encoding(), 24, 4) == m.desired_access,
        number(m.encoding(), 28, 4) == m.file_attributes,
        number(m.encoding(), 32, 4) == m.share_access,
        number(m.encoding(), 36, 4) == m.create_disposition,
        number(m.encoding(), 40, 4) == m.create_options,
        number(m.encoding(), 44, 2) == m.name_offset,
        number(m.encoding(), 46, 2) == m.name_length,
        number(m.encoding(), 48, 4) == m.create_contexts_offset,
        number(m.encoding(), 52, 4) == m.create_contexts_length,
        m.encoding().subrange(56int, 56int + m.name@.len()) == m.name@,
        m.encoding().subrange(56int + m.name@.len(), 56int + m.name@.len()
            + m.create_contexts@.len()) == m.create_contexts@,
{
    let b = m.encoding();
    assert(b.len() == 56 + m.name@.len() + m.create_contexts@.len());
    assert(number(b, 0, 2) == m.structure_size) by {
        assert(b.subrange(0, 2) =~= wire::bytes16(m.structure_size));
        wire::le16_of_bytes16(b, 0, m.structure_size);
        lemma_small(b, 0);
    }
    assert(number(b, 4, 4) == m.impersonation_level) by {
        assert(b.subrange(4, 8) =~= wire::bytes32(m.impersonation_level));
        wire::le32_of_bytes32(b, 4, m.impersonation_level);
        lemma_small(b, 4);
    }
    assert(number(b, 8, 8) == m.smb_create_flags) by {
        assert(b.subrange(8, 16) =~= wire::bytes64(m.smb_create_flags));
        wire::le64_of_bytes64(b, 8, m.smb_create_flags);
        lemma_large(b, 8);
    }
    assert(number(b, 16, 8) == m.reserved) by {
        assert(b.subrange(16, 24) =~= wire::bytes64(m.reserved));
        wire::le64_of_bytes64(b, 16, m.reserved);
        lemma_large(b, 16);
    }
    assert(number(b, 24, 4) == m.desired_access) by {
        assert(b.subrange(24, 28) =~= wire::bytes32(m.desired_access));
        wire::le32_of_bytes32(b, 24, m.desired_access);
        lemma_small(b, 24);
    }
    assert(number(b, 28, 4) == m.file_attributes) by {
        assert(b.subrange(28, 32) =~= wire::bytes32(m.file_attributes));
        wire::le32_of_bytes32(b, 28, m.file_attributes);
        lemma_small(b, 28);
    }
    assert(number(b, 32, 4) == m.share_access) by {
        assert(b.subrange(32, 36) =~= wire::bytes32(m.share_access));
        wire::le32_of_bytes32(b, 32, m.share_access);
        lemma_small(b, 32);
    }
    assert(number(b, 36, 4) == m.create_disposition) by {
        assert(b.subrange(36, 40) =~= wire::bytes32(m.create_disposition));
        wire::le32_of_bytes32(b, 36, m.create_disposition);
        lemma_small(b, 36);
    }
    assert(number(b, 40, 4) == m.create_options) by {
        assert(b.subrange(40, 44) =~= wire::bytes32(m.create_options));
        wire::le32_of_bytes32(b, 40, m.create_options);
        lemma_small(b, 40);
    }
    assert(number(b, 44, 2) == m.name_offset) by {
        assert(b.subrange(44, 46) =~= wire::bytes16(m.name_offset));
        wire::le16_of_bytes16(b, 44, m.name_offset);
        lemma_small(b, 44);
    }
    assert(number(b, 46, 2) == m.name_length) by {
        assert(b.subrange(46, 48) =~= wire::bytes16(m.name_length));
        wire::le16_of_bytes16(b, 46, m.name_length);
        lemma_small(b, 46);
    }
    assert(number(b, 48, 4) == m.create_contexts_offset) by {
        assert(b.subrange(48, 52) =~= wire::bytes32(m.create_contexts_offset));
        wire::le32_of_bytes32(b, 48, m.create_contexts_offset);
        lemma_small(b, 48);
    }
    assert(number(b, 52, 4) == m.create_contexts_length) by {
        assert(b.subrange(52, 56) =~= wire::bytes32(m.create_contexts_length));
        wire::le32_of_bytes32(b, 52, m.create_contexts_length);
        lemma_small(b, 52);
    }
}

/// A create response body is written field by field to these places.
#[verifier::rlimit(80)]
#[verifier::spinoff_prover]
pub proof fn create_response_is_written_in_place(m: CreateResponse)
    ensures
        m.encoding().len() == 88 + m.create_contexts@.len(),
        number(m.encoding(), 0, 2) == m.structure_size,
        m.encoding()[2] == m.oplock_level,
        m.encoding()[3] == m.flags,
        number(m.encoding(), 4, 4) == m.create_action,
        number(m.encoding(), 8, 8) == m.creation_time,
        number(m.encoding(), 16, 8) == m.last_access_time,
        number(m.encoding(), 24, 8) == m.last_write_time,
        number(m.encoding(), 32, 8) == m.change_time,
        number(m.encoding(), 40, 8) == m.allocation_size,
        number(m.encoding(), 48, 8) == m.end_of_file,
        number(m.encoding(), 56, 4) == m.file_attributes,
        number(m.encoding(), 60, 4) == m.reserved2,
        number(m.encoding(), 64, 8) == m.file_id.persistent,
        number(m.encoding(), 72, 8) == m.file_id.volatile,
        number(m.encoding(), 80, 4) == m.create_contexts_offset,
        number(m.encoding(), 84, 4) == m.create_contexts_length,
        m.encoding().subrange(88int, 88int + m.create_contexts@.len()) == m.create_contexts@,
{
    let b = m.encoding();
    assert(b.len() == 88 + m.create_contexts@.len());
    assert(number(b, 0, 2) == m.structure_size) by {
        assert(b.subrange(0, 2) =~= wire::bytes16(m.structure_size));
        wire::le16_of_bytes16(b, 0, m.structure_size);
        lemma_small(b, 0);
    }
    assert(number(b, 4, 4) == m.create_action) by {
        assert(b.subrange(4, 8) =~= wire::bytes32(m.create_action));
        wire::le32_of_bytes32(b, 4, m.create_action);
        lemma_small(b, 4);
    }
    assert(number(b, 8, 8) == m.creation_time) by {
        assert(b.subrange(8, 16) =~= wire::bytes64(m.creation_time));
        wire::le64_of_bytes64(b, 8, m.creation_time);
        lemma_large(b, 8);
    }
    assert(number(b, 16, 8) == m.last_access_time) by {
        assert(b.subrange(16, 24) =~= wire::bytes64(m.last_access_time));
        wire::le64_of_bytes64(b, 16, m.last_access_time);
        lemma_large(b, 16);
    }
    assert(number(b, 24, 8) == m.last_write_time) by {
        assert(b.subrange(24, 32) =~= wire::bytes64(m.last_write_time));
        wire::le64_of_bytes64(b, 24, m.last_write_time);
        lemma_large(b, 24);
    }
    assert(number(b, 32, 8) == m.change_time) by {
        assert(b.subrange(32, 40) =~= wire::bytes64(m.change_time));
        wire::le64_of_bytes64(b, 32, m.change_time);
        lemma_large(b, 32);
    }
    assert(number(b, 40, 8) == m.allocation_size) by {
        assert(b.subrange(40, 48) =~= wire::bytes64(m.allocation_size));
        wire::le64_of_bytes64(b, 40, m.allocation_size);
        lemma_large(b, 40);
    }
    assert(number(b, 48, 8) == m.end_of_file) by {
        assert(b.subrange(48, 56) =~= wire::bytes64(m.end_of_file));
        wire::le64_of_bytes64(b, 48, m.end_of_file);
        lemma_large(b, 48);
    }
    assert(number(b, 56, 4) == m.file_attributes) by {
        assert(b.subrange(56, 60) =~= wire::bytes32(m.file_attributes));
        wire::le32_of_bytes32(b, 56, m.file_attributes);
        lemma_small(b, 56);
    }
    assert(number(b, 60, 4) == m.reserved2) by {
        assert(b.subrange(60, 64) =~= wire::bytes32(m.reserved2));
        wire::le32_of_bytes32(b, 60, m.reserved2);
        lemma_small(b, 60);
    }
    assert(number(b, 64, 8) == m.file_id.persistent) by {
        assert(b.subrange(64, 72) =~= wire::bytes64(m.file_id.persistent));
        wire::le64_of_bytes64(b, 64, m.file_id.persistent);
        lemma_large(b, 64);
    }
    assert(number(b, 72, 8) == m.file_id.volatile) by {
        assert(b.subrange(72, 80) =~= wire::bytes64(m.file_id.volatile));
        wire::le64_of_bytes64(b, 72, m.file_id.volatile);
        lemma_large(b, 72);
    }
    assert(number(b, 80, 4) == m.create_contexts_offset) by {
        assert(b.subrange(80, 84) =~= wire::bytes32(m.create_contexts_offset));
        wire::le32_of_bytes32(b, 80, m.create_contexts_offset);
        lemma_small(b, 80);
    }
    assert(number(b, 84, 4) == m.create_contexts_length) by {
        assert(b.subrange(84, 88) =~= wire::bytes32(m.create_contexts_length));
        wire::le32_of_bytes32(b, 84, m.create_contexts_length);
        lemma_small(b, 84);
    }
}

/// A echo request body is written field by field to these places.
pub proof fn echo_request_is_written_in_place(m: EchoRequest)
    ensures
        m.encoding().len() == 4,
        number(m.encoding(), 0, 2) == m.structure_size,
        number(m.encoding(), 2, 2) == m.reserved,
{
    let b = m.encoding();
    assert(b.len() == 4);
    assert(number(b, 0, 2) == m.structure_size) by {
        assert(b.subrange(0, 2) =~= wire::bytes16(m.structure_size));
        wire::le16_of_bytes16(b, 0, m.structure_size);
        lemma_small(b, 0);
    }
    assert(number(b, 2, 2) == m.reserved) by {
        assert(b.subrange(2, 4) =~= wire::bytes16(m.reserved));
        wire::le16_of_bytes16(b, 2, m.reserved);
        lemma_small(b, 2);
    }
}

/// A echo response body is written field by field to these places.
pub proof fn echo_response_is_written_in_place(m: EchoResponse)
    ensures
        m.encoding().len() == 4,
        number(m.encoding(), 0, 2) == m.structure_size,
        number(m.encoding(), 2, 2) == m.reserved,
{
    let b = m.encoding();
    assert(b.len() == 4);
    assert(number(b, 0, 2) == m.structure_size) by {
        assert(b.subrange(0, 2) =~= wire::bytes16(m.structure_size));
        wire::le16_of_bytes16(b, 0, m.structure_size);
        lemma_small(b, 0);
    }
    assert(number(b, 2, 2) == m.reserved) by {
        assert(b.subrange(2, 4) =~= wire::bytes16(m.reserved));
        wire::le16_of_bytes16(b, 2, m.reserved);
        lemma_small(b, 2);
    }
}

/// A flush request body is written field by field to these places.
pub proof fn flush_request_is_written_in_place(m: FlushRequest)
    ensures
        m.encoding().len() == 24,
        number(m.encoding(), 0, 2) == m.structure_size,
        number(m.encoding(), 2, 2) == m.reserved1,
        number(m.encoding(), 4, 4) == m.reserved2,
        number(m.encoding(), 8, 8) == m.file_id_persistent,
        number(m.encoding(), 16, 8) == m.file_id_volatile,
{
    let b = m.encoding();
    assert(b.len() == 24);
    assert(number(b, 0, 2) == m.structure_size) by {
        assert(b.subrange(0, 2) =~= wire::bytes16(m.structure_size));
        wire::le16_of_bytes16(b, 0, m.structure_size);
        lemma_small(b, 0);
    }
    assert(number(b, 2, 2) == m.reserved1) by {
        assert(b.subrange(2, 4) =~= wire::bytes16(m.reserved1));
        wire::le16_of_bytes16(b, 2, m.reserved1);
        lemma_small(b, 2);
    }
    assert(number(b, 4, 4) == m.reserved2) by {
        assert(b.subrange(4, 8) =~= wire::bytes32(m.reserved2));
        wire::le32_of_bytes32(b, 4, m.reserved2);
        lemma_small(b, 4);
    }
    assert(number(b, 8, 8) == m.file_id_persistent) by {
        assert(b.subrange(8, 16) =~= wire::bytes64(m.file_id_persistent));
        wire::le64_of_bytes64(b, 8, m.file_id_persistent);
        lemma_large(b, 8);
    }
    assert(number(b, 16, 8) == m.file_id_volatile) by {
        assert(b.subrange(16, 24) =~= wire::bytes64(m.file_id_volatile));
        wire::le64_of_bytes64(b, 16, m.file_id_volatile);
        lemma_large(b, 16);
    }
}

/// A flush response body is written field by field to these places.
pub proof fn flush_response_is_written_in_place(m: FlushResponse)
    ensures
        m.encoding().len() == 4,
        number(m.encoding(), 0, 2) == m.structure_size,
        number(m.encoding(), 2, 2) == m.reserved,
{
    let b = m.encoding();
    assert(b.len() == 4);
    assert(number(b, 0, 2) == m.structure_size) by {
        assert(b.subrange(0, 2) =~= wire::bytes16(m.structure_size));
        wire::le16_of_bytes16(b, 0, m.structure_size);
        lemma_small(b, 0);
    }
    assert(number(b, 2, 2) == m.reserved) by {
        assert(b.subrange(2, 4) =~= wire::bytes16(m.reserved));
        wire::le16_of_bytes16(b, 2, m.reserved);
        lemma_small(b, 2);
    }
}

/// A ioctl request body is written field by field to these places.
#[verifier::rlimit(80)]
#[verifier::spinoff_prover]
pub proof fn ioctl_request_is_written_in_place(m: IoctlRequest)
    ensures
        m.encoding().len() == 56 + m.input@.len(),
        number(m.encoding(), 0, 2) == m.structure_size,
        number(m.encoding(), 2, 2) == m.reserved,
        number(m.encoding(), 4, 4) == m.ctl_code,
        number(m.encoding(), 8, 8) == m.file_id.persistent,
        number(m.encoding(), 16, 8) == m.file_id.volatile,
        number(m.encoding(), 24, 4) == m.input_offset,
        number(m.encoding(), 28, 4) == m.input_count,
        number(m.encoding(), 32, 4) == m.max_input_response,
        number(m.encoding(), 36, 4) == m.output_offset,
        number(m.encoding(), 40, 4) == m.output_count,
        number(m.encoding(), 44, 4) == m.max_output_response,
        number(m.encoding(), 48, 4) == m.flags,
        number(m.encoding(), 52, 4) == m.reserved2,
        m.encoding().subrange(56int, 56int + m.input@.len()) == m.input@,
{
    let b = m.encoding();
    assert(b.len() == 56 + m.input@.len());
    assert(number(b, 0, 2) == m.structure_size) by {
        assert(b.subrange(0, 2) =~= wire::bytes16(m.structure_size));
        wire::le16_of_bytes16(b, 0, m.structure_size);
        lemma_small(b, 0);
    }
    assert(number(b, 2, 2) == m.reserved) by {
        assert(b.subrange(2, 4) =~= wire::bytes16(m.reserved));
        wire::le16_of_bytes16(b, 2, m.reserved);
        lemma_small(b, 2);
    }
    assert(number(b, 4, 4) == m.ctl_code) by {
        assert(b.subrange(4, 8) =~= wire::bytes32(m.ctl_code));
        wire::le32_of_bytes32(b, 4, m.ctl_code);
        lemma_small(b, 4);
    }
    assert(number(b, 8, 8) == m.file_id.persistent) by {
        assert(b.subrange(8, 16) =~= wire::bytes64(m.file_id.persistent));
        wire::le64_of_bytes64(b, 8, m.file_id.persistent);
        lemma_large(b, 8);
    }
    assert(number(b, 16, 8) == m.file_id.volatile) by {
        assert(b.subrange(16, 24) =~= wire::bytes64(m.file_id.volatile));
        wire::le64_of_bytes64(b, 16, m.file_id.volatile);
        lemma_large(b, 16);
    }
    assert(number(b, 24, 4) == m.input_offset) by {
        assert(b.subrange(24, 28) =~= wire::bytes32(m.input_offset));
        wire::le32_of_bytes32(b, 24, m.input_offset);
        lemma_small(b, 24);
    }
    assert(number(b, 28, 4) == m.input_count) by {
        assert(b.subrange(28, 32) =~= wire::bytes32(m.input_count));
        wire::le32_of_bytes32(b, 28, m.input_count);
        lemma_small(b, 28);
    }
    assert(number(b, 32, 4) == m.max_input_response) by {
        assert(b.subrange(32, 36) =~= wire::bytes32(m.max_input_response));
        wire::le32_of_bytes32(b, 32, m.max_input_response);
        lemma_small(b, 32);
    }
    assert(number(b, 36, 4) == m.output_offset) by {
        assert(b.subrange(36, 40) =~= wire::bytes32(m.output_offset));
        wire::le32_of_bytes32(b, 36, m.output_offset);
        lemma_small(b, 36);
    }
    assert(number(b, 40, 4) == m.output_count) by {
        assert(b.subrange(40, 44) =~= wire::bytes32(m.output_count));
        wire::le32_of_bytes32(b, 40, m.output_count);
        lemma_small(b, 40);
    }
    assert(number(b, 44, 4) == m.max_output_response) by {
        assert(b.subrange(44, 48) =~= wire::bytes32(m.max_output_response));
        wire::le32_of_bytes32(b, 44, m.max_output_response);
        lemma_small(b, 44);
    }
    assert(number(b, 48, 4) == m.flags) by {
        assert(b.subrange(48, 52) =~= wire::bytes32(m.flags));
        wire::le32_of_bytes32(b, 48, m.flags);
        lemma_small(b, 48);
    }
    assert(number(b, 52, 4) == m.reserved2) by {
        assert(b.subrange(52, 56) =~= wire::bytes32(m.reserved2));
        wire::le32_of_bytes32(b, 52, m.reserved2);
        lemma_small(b, 52);
    }
}

/// A ioctl response body is written field by field to these places.
#[verifier::rlimit(80)]
#[verifier::spinoff_prover]
pub proof fn ioctl_response_is_written_in_place(m: IoctlResponse)
    ensures
        m.encoding().len() == 48 + m.output@.len(),
        number(m.encoding(), 0, 2) == m.structure_size,
        number(m.encoding(), 2, 2) == m.reserved,
        number(m.encoding(), 4, 4) == m.ctl_code,
        number(m.encoding(), 8, 8) == m.file_id.persistent,
        number(m.encoding(), 16, 8) == m.file_id.volatile,
        number(m.encoding(), 24, 4) == m.input_offset,
        number(m.encoding(), 28, 4) == m.input_count,
        number(m.encoding(), 32, 4) == m.output_offset,
        number(m.encoding(), 36, 4) == m.output_count,
        number(m.encoding(), 40, 4) == m.flags,
        number(m.encoding(), 44, 4) == m.reserved2,
        m.encoding().subrange(48int, 48int + m.output@.len()) == m.output@,
{
    let b = m.encoding();
    assert(b.len() == 48 + m.output@.len());
    assert(number(b, 0, 2) == m.structure_size) by {
        assert(b.subrange(0, 2) =~= wire::bytes16(m.structure_size));
        wire::le16_of_bytes16(b, 0, m.structure_size);
        lemma_small(b, 0);
    }
    assert(number(b, 2, 2) == m.reserved) by {
        assert(b.subrange(2, 4) =~= wire::bytes16(m.reserved));
        wire::le16_of_bytes16(b, 2, m.reserved);
        lemma_small(b, 2);
    }
    assert(number(b, 4, 4) == m.ctl_code) by {
        assert(b.subrange(4, 8) =~= wire::bytes32(m.ctl_code));
        wire::le32_of_bytes32(b, 4, m.ctl_code);
        lemma_small(b, 4);
    }
    assert(number(b, 8, 8) == m.file_id.persistent) by {
        assert(b.subrange(8, 16) =~= wire::bytes64(m.file_id.persistent));
        wire::le64_of_bytes64(b, 8, m.file_id.persistent);
        lemma_large(b, 8);
    }
    assert(number(b, 16, 8) == m.file_id.volatile) by {
        assert(b.subrange(16, 24) =~= wire::bytes64(m.file_id.volatile));
        wire::le64_of_bytes64(b, 16, m.file_id.volatile);
        lemma_large(b, 16);
    }
    assert(number(b, 24, 4) == m.input_offset) by {
        assert(b.subrange(24, 28) =~= wire::bytes32(m.input_offset));
        wire::le32_of_bytes32(b, 24, m.input_offset);
        lemma_small(b, 24);
    }
    assert(number(b, 28, 4) == m.input_count) by {
        assert(b.subrange(28, 32) =~= wire::bytes32(m.input_count));
        wire::le32_of_bytes32(b, 28, m.input_count);
        lemma_small(b, 28);
    }
    assert(number(b, 32, 4) == m.output_offset) by {
        assert(b.subrange(32, 36) =~= wire::bytes32(m.output_offset));
        wire::le32_of_bytes32(b, 32, m.output_offset);
        lemma_small(b, 32);
    }
    assert(number(b, 36, 4) == m.output_count) by {
        assert(b.subrange(36, 40) =~= wire::bytes32(m.output_count));
        wire::le32_of_bytes32(b, 36, m.output_count);
        lemma_small(b, 36);
    }
    assert(number(b, 40, 4) == m.flags) by {
        assert(b.subrange(40, 44) =~= wire::bytes32(m.flags));
        wire::le32_of_bytes32(b, 40, m.flags);
        lemma_small(b, 40);
    }
    assert(number(b, 44, 4) == m.reserved2) by {
        assert(b.subrange(44, 48) =~= wire::bytes32(m.reserved2));
        wire::le32_of_bytes32(b, 44, m.reserved2);
        lemma_small(b, 44);
    }
}

/// A lock request body is written field by field to these places.
pub proof fn lock_request_is_written_in_place(m: LockRequest)
    ensures
        m.encoding().len() == 24 + 24 * m.locks@.len(),
        number(m.encoding(), 0, 2) == m.structure_size,
        number(m.encoding(), 2, 2) == m.lock_count,
        number(m.encoding(), 4, 4) == m.lock_sequence,
        number(m.encoding(), 8, 8) == m.file_id.persistent,
        number(m.encoding(), 16, 8) == m.file_id.volatile,
        forall|i: int|
            0 <= i < m.locks@.len() ==> {
                &&& number(m.encoding(), 24 + 24 * i, 8) == (#[trigger] m.locks@[i]).offset
                &&& number(m.encoding(), 32 + 24 * i, 8) == m.locks@[i].length
                &&& number(m.encoding(), 40 + 24 * i, 4) == m.locks@[i].flags
                &&& number(m.encoding(), 44 + 24 * i, 4) == m.locks@[i].reserved
            },
{
    let b = m.encoding();
    lock::elements_are_written_in_place(m);
    assert(b.len() == 24 + 24 * m.locks@.len());
    assert(number(b, 0, 2) == m.structure_size) by {
        assert(b.subrange(0, 2) =~= wire::bytes16(m.structure_size));
        wire::le16_of_bytes16(b, 0, m.structure_size);
        lemma_small(b, 0);
    }
    assert(number(b, 2, 2) == m.lock_count) by {
        assert(b.subrange(2, 4) =~= wire::bytes16(m.lock_count));
        wire::le16_of_bytes16(b, 2, m.lock_count);
        lemma_small(b, 2);
    }
    assert(number(b, 4, 4) == m.lock_sequence) by {
        assert(b.subrange(4, 8) =~= wire::bytes32(m.lock_sequence));
        wire::le32_of_bytes32(b, 4, m.lock_sequence);
        lemma_small(b, 4);
    }
    assert(number(b, 8, 8) == m.file_id.persistent) by {
        assert(b.subrange(8, 16) =~= wire::bytes64(m.file_id.persistent));
        wire::le64_of_bytes64(b, 8, m.file_id.persistent);
        lemma_large(b, 8);
    }
    assert(number(b, 16, 8) == m.file_id.volatile) by {
        assert(b.subrange(16, 24) =~= wire::bytes64(m.file_id.volatile));
        wire::le64_of_bytes64(b, 16, m.file_id.volatile);
        lemma_large(b, 16);
    }
    numbers_are_little_endian(b);
}

/// A lock response body is written field by field to these places.
pub proof fn lock_response_is_written_in_place(m: LockResponse)
    ensures
        m.encoding().len() == 4,
        number(m.encoding(), 0, 2) == m.structure_size,
        number(m.encoding(), 2, 2) == m.reserved,
{
    let b = m.encoding();
    assert(b.len() == 4);
    assert(number(b, 0, 2) == m.structure_size) by {
        assert(b.subrange(0, 2) =~= wire::bytes16(m.structure_size));
        wire::le16_of_bytes16(b, 0, m.structure_size);
        lemma_small(b, 0);
    }
    assert(number(b, 2, 2) == m.reserved) by {
        assert(b.subrange(2, 4) =~= wire::bytes16(m.reserved));
        wire::le16_of_bytes16(b, 2, m.reserved);
        lemma_small(b, 2);
    }
}

/// A negotiate request body is written field by field to these places.
pub proof fn negotiate_request_is_written_in_place(m: NegotiateRequest)
    ensures
        m.encoding().len() == 36 + 2 * m.dialects@.len(),
        number(m.encoding(), 0, 2) == m.structure_size,
        number(m.encoding(), 2, 2) == m.dialect_count,
        number(m.encoding(), 4, 2) == m.security_mode,
        number(m.encoding(), 6, 2) == m.reserved,
        number(m.encoding(), 8, 4) == m.capabilities,
        m.encoding().subrange(12, 28) == m.client_guid@,
        number(m.encoding(), 28, 8) == m.negotiate_context_offset_or_client_start_time,
        forall|i: int|
            0 <= i < m.dialects@.len()
                ==> number(m.encoding(), 36 + 2 * i, 2) == #[trigger] m.dialects@[i],
{
    let b = m.encoding();
    assert(b.len() == 36 + 2 * m.dialects@.len());
    assert(number(b, 0, 2) == m.structure_size) by {
        assert(b.subrange(0, 2) =~= wire::bytes16(m.structure_size));
        wire::le16_of_bytes16(b, 0, m.structure_size);
        lemma_small(b, 0);
    }
    assert(number(b, 2, 2) == m.dialect_count) by {
        assert(b.subrange(2, 4) =~= wire::bytes16(m.dialect_count));
        wire::le16_of_bytes16(b, 2, m.dialect_count);
        lemma_small(b, 2);
    }
    assert(number(b, 4, 2) == m.security_mode) by {
        assert(b.subrange(4, 6) =~= wire::bytes16(m.security_mode));
        wire::le16_of_bytes16(b, 4, m.security_mode);
        lemma_small(b, 4);
    }
    assert(number(b, 6, 2) == m.reserved) by {
        assert(b.subrange(6, 8) =~= wire::bytes16(m.reserved));
        wire::le16_of_bytes16(b, 6, m.reserved);
        lemma_small(b, 6);
    }
    assert(number(b, 8, 4) == m.capabilities) by {
        assert(b.subrange(8, 12) =~= wire::bytes32(m.capabilities));
        wire::le32_of_bytes32(b, 8, m.capabilities);
        lemma_small(b, 8);
    }
    assert(number(b, 28, 8) == m.negotiate_context_offset_or_client_start_time) by {
        assert(b.subrange(28, 36) =~= wire::bytes64(m.negotiate_context_offset_or_client_start_time));
        wire::le64_of_bytes64(b, 28, m.negotiate_context_offset_or_client_start_time);
        lemma_large(b, 28);
    }
    assert(b.subrange(36int, 36int + 2 * m.dialects@.len()) =~= messages::bytes16_list(m.dialects@));
    messages::le16_list_of_bytes16_list(b, 36, m.dialects@);
    assert forall|i: int| 0 <= i < m.dialects@.len() implies number(b, 36 + 2 * i, 2)
        == #[trigger] m.dialects@[i] by {
        assert(messages::le16_list(b, 36, m.dialects@.len() as int)[i] == m.dialects@[i]);
        lemma_small(b, 36 + 2 * i);
    }
}

/// A negotiate response body is written field by field to these places.
#[verifier::rlimit(80)]
#[verifier::spinoff_prover]
pub proof fn negotiate_response_is_written_in_place(m: NegotiateResponse)
    ensures
        m.encoding().len() == 64 + m.security_buffer@.len(),
        number(m.encoding(), 0, 2) == m.structure_size,
        number(m.encoding(), 2, 2) == m.security_mode,
        number(m.encoding(), 4, 2) == m.dialect_revision,
        number(m.encoding(), 6, 2) == m.negotiate_context_count_or_reserved,
        m.encoding().subrange(8, 24) == m.server_guid@,
        number(m.encoding(), 24, 4) == m.capabilities,
        number(m.encoding(), 28, 4) == m.max_transact_size,
        number(m.encoding(), 32, 4) == m.max_read_size,
        number(m.encoding(), 36, 4) == m.max_write_size,
        number(m.encoding(), 40, 8) == m.system_time,
        number(m.encoding(), 48, 8) == m.server_start_time,
        number(m.encoding(), 56, 2) == m.security_buffer_offset,
        number(m.encoding(), 58, 2) == m.security_buffer_length,
        number(m.encoding(), 60, 4) == m.negotiate_context_offset_or_reserved2,
        m.encoding().subrange(64int, 64int + m.security_buffer@.len()) == m.security_buffer@,
{
    let b = m.encoding();
    assert(b.len() == 64 + m.security_buffer@.len());
    assert(number(b, 0, 2) == m.structure_size) by {
        assert(b.subrange(0, 2) =~= wire::bytes16(m.structure_size));
        wire::le16_of_bytes16(b, 0, m.structure_size);
        lemma_small(b, 0);
    }
    assert(number(b, 2, 2) == m.security_mode) by {
        assert(b.subrange(2, 4) =~= wire::bytes16(m.security_mode));
        wire::le16_of_bytes16(b, 2, m.security_mode);
        lemma_small(b, 2);
    }
    assert(number(b, 4, 2) == m.dialect_revision) by {
        assert(b.subrange(4, 6) =~= wire::bytes16(m.dialect_revision));
        wire::le16_of_bytes16(b, 4, m.dialect_revision);
        lemma_small(b, 4);
    }
    assert(number(b, 6, 2) == m.negotiate_context_count_or_reserved) by {
        assert(b.subrange(6, 8) =~= wire::bytes16(m.negotiate_context_count_or_reserved));
        wire::le16_of_bytes16(b, 6, m.negotiate_context_count_or_reserved);
        lemma_small(b, 6);
    }
    assert(number(b, 24, 4) == m.capabilities) by {
        assert(b.subrange(24, 28) =~= wire::bytes32(m.capabilities));
        wire::le32_of_bytes32(b, 24, m.capabilities);
        lemma_small(b, 24);
    }
    assert(number(b, 28, 4) == m.max_transact_size) by {
        assert(b.subrange(28, 32) =~= wire::bytes32(m.max_transact_size));
        wire::le32_of_bytes32(b, 28, m.max_transact_size);
        lemma_small(b, 28);
    }
    assert(number(b, 32, 4) == m.max_read_size) by {
        assert(b.subrange(32, 36) =~= wire::bytes32(m.max_read_size));
        wire::le32_of_bytes32(b, 32, m.max_read_size);
        lemma_small(b, 32);
    }
    assert(number(b, 36, 4) == m.max_write_size) by {
        assert(b.subrange(36, 40) =~= wire::bytes32(m.max_write_size));
        wire::le32_of_bytes32(b, 36, m.max_write_size);
        lemma_small(b, 36);
    }
    assert(number(b, 40, 8) == m.system_time) by {
        assert(b.subrange(40, 48) =~= wire::bytes64(m.system_time));
        wire::le64_of_bytes64(b, 40, m.system_time);
        lemma_large(b, 40);
    }
    assert(number(b, 48, 8) == m.server_start_time) by {
        assert(b.subrange(48, 56) =~= wire::bytes64(m.server_start_time));
        wire::le64_of_bytes64(b, 48, m.server_start_time);
        lemma_large(b, 48);
    }
    assert(number(b, 56, 2) == m.security_buffer_offset) by {
        assert(b.subrange(56, 58) =~= wire::bytes16(m.security_buffer_offset));
        wire::le16_of_bytes16(b, 56, m.security_buffer_offset);
        lemma_small(b, 56);
    }
    assert(number(b, 58, 2) == m.security_buffer_length) by {
        assert(b.subrange(58, 60) =~= wire::bytes16(m.security_buffer_length));
        wire::le16_of_bytes16(b, 58, m.security_buffer_length);
        lemma_small(b, 58);
    }
    assert(number(b, 60, 4) == m.negotiate_context_offset_or_reserved2) by {
        assert(b.subrange(60, 64) =~= wire::bytes32(m.negotiate_context_offset_or_reserved2));
        wire::le32_of_bytes32(b, 60, m.negotiate_context_offset_or_reserved2);
        lemma_small(b, 60);
    }
}

/// A preauth integrity capabilities body is written field by field to these places.
pub proof fn preauth_integrity_capabilities_is_written_in_place(m: PreauthIntegrityCapabilities)
    ensures
        m.encoding().len() == 4 + 2 * m.hash_algorithms@.len() + m.salt@.len(),
        number(m.encoding(), 0, 2) == m.hash_algorithm_count,
        number(m.encoding(), 2, 2) == m.salt_length,
        forall|i: int|
            0 <= i < m.hash_algorithms@.len()
                ==> number(m.encoding(), 4 + 2 * i, 2) == #[trigger] m.hash_algorithms@[i],
        m.encoding().subrange(4int + 2 * m.hash_algorithms@.len(), 4int
            + 2 * m.hash_algorithms@.len() + m.salt@.len()) == m.salt@,
{
    let b = m.encoding();
    assert(b.len() == 4 + 2 * m.hash_algorithms@.len() + m.salt@.len());
    assert(number(b, 0, 2) == m.hash_algorithm_count) by {
        assert(b.subrange(0, 2) =~= wire::bytes16(m.hash_algorithm_count));
        wire::le16_of_bytes16(b, 0, m.hash_algorithm_count);
        lemma_small(b, 0);
    }
    assert(number(b, 2, 2) == m.salt_length) by {
        assert(b.subrange(2, 4) =~= wire::bytes16(m.salt_length));
        wire::le16_of_bytes16(b, 2, m.salt_length);
        lemma_small(b, 2);
    }
    assert(b.subrange(4int, 4int + 2 * m.hash_algorithms@.len()) =~= messages::bytes16_list(m.hash_algorithms@));
    messages::le16_list_of_bytes16_list(b, 4, m.hash_algorithms@);
    assert forall|i: int| 0 <= i < m.hash_algorithms@.len() implies number(b, 4 + 2 * i, 2)
        == #[trigger] m.hash_algorithms@[i] by {
        assert(messages::le16_list(b, 4, m.hash_algorithms@.len() as int)[i]
            == m.hash_algorithms@[i]);
        lemma_small(b, 4 + 2 * i);
    }
}

/// A encryption capabilities body is written field by field to these places.
pub proof fn encryption_capabilities_is_written_in_place(m: EncryptionCapabilities)
    ensures
        m.encoding().len() == 2 + 2 * m.ciphers@.len(),
        number(m.encoding(), 0, 2) == m.cipher_count,
        forall|i: int|
            0 <= i < m.ciphers@.len()
                ==> number(m.encoding(), 2 + 2 * i, 2) == #[trigger] m.ciphers@[i],
{
    let b = m.encoding();
    assert(b.len() == 2 + 2 * m.ciphers@.len());
    assert(number(b, 0, 2) == m.cipher_count) by {
        assert(b.subrange(0, 2) =~= wire::bytes16(m.cipher_count));
        wire::le16_of_bytes16(b, 0, m.cipher_count);
        lemma_small(b, 0);
    }
    assert(b.subrange(2int, 2int + 2 * m.ciphers@.len()) =~= messages::bytes16_list(m.ciphers@));
    messages::le16_list_of_bytes16_list(b, 2, m.ciphers@);
    assert forall|i: int| 0 <= i < m.ciphers@.len() implies number(b, 2 + 2 * i, 2)
        == #[trigger] m.ciphers@[i] by {
        assert(messages::le16_list(b, 2, m.ciphers@.len() as int)[i] == m.ciphers@[i]);
        lemma_small(b, 2 + 2 * i);
    }
}

/// A compression capabilities body is written field by field to these places.
pub proof fn compression_capabilities_is_written_in_place(m: CompressionCapabilities)
    ensures
        m.encoding().len() == 8 + 2 * m.compression_algorithms@.len(),
        number(m.encoding(), 0, 2) == m.compression_algorithm_count,
        number(m.encoding(), 2, 2) == m.padding,
        number(m.encoding(), 4, 4) == m.flags,
        forall|i: int|
            0 <= i < m.compression_algorithms@.len()
                ==> number(m.encoding(), 8 + 2 * i, 2) == #[trigger] m.compression_algorithms@[i],
{
    let b = m.encoding();
    assert(b.len() == 8 + 2 * m.compression_algorithms@.len());
    assert(number(b, 0, 2) == m.compression_algorithm_count) by {
        assert(b.subrange(0, 2) =~= wire::bytes16(m.compression_algorithm_count));
        wire::le16_of_bytes16(b, 0, m.compression_algorithm_count);
        lemma_small(b, 0);
    }
    assert(number(b, 2, 2) == m.padding) by {
        assert(b.subrange(2, 4) =~= wire::bytes16(m.padding));
        wire::le16_of_bytes16(b, 2, m.padding);
        lemma_small(b, 2);
    }
    assert(number(b, 4, 4) == m.flags) by {
        assert(b.subrange(4, 8) =~= wire::bytes32(m.flags));
        wire::le32_of_bytes32(b, 4, m.flags);
        lemma_small(b, 4);
    }
    assert(b.subrange(8int, 8int + 2 * m.compression_algorithms@.len()) =~= messages::bytes16_list(m.compression_algorithms@));
    messages::le16_list_of_bytes16_list(b, 8, m.compression_algorithms@);
    assert forall|i: int| 0 <= i < m.compression_algorithms@.len() implies number(b, 8 + 2 * i, 2)
        == #[trigger] m.compression_algorithms@[i] by {
        assert(messages::le16_list(b, 8, m.compression_algorithms@.len() as int)[i]
            == m.compression_algorithms@[i]);
        lemma_small(b, 8 + 2 * i);
    }
}

/// A rdma transform capabilities body is written field by field to these places.
pub proof fn rdma_transform_capabilities_is_written_in_place(m: RdmaTransformCapabilities)
    ensures
        m.encoding().len() == 8 + 2 * m.rdma_transform_ids@.len(),
        number(m.encoding(), 0, 2) == m.transform_count,
        number(m.encoding(), 2, 2) == m.reserved1,
        number(m.encoding(), 4, 4) == m.reserved2,
        forall|i: int|
            0 <= i < m.rdma_transform_ids@.len()
                ==> number(m.encoding(), 8 + 2 * i, 2) == #[trigger] m.rdma_transform_ids@[i],
{
    let b = m.encoding();
    assert(b.len() == 8 + 2 * m.rdma_transform_ids@.len());
    assert(number(b, 0, 2) == m.transform_count) by {
        assert(b.subrange(0, 2) =~= wire::bytes16(m.transform_count));
        wire::le16_of_bytes16(b, 0, m.transform_count);
        lemma_small(b, 0);
    }
    assert(number(b, 2, 2) == m.reserved1) by {
        assert(b.subrange(2, 4) =~= wire::bytes16(m.reserved1));
        wire::le16_of_bytes16(b, 2, m.reserved1);
        lemma_small(b, 2);
    }
    assert(number(b, 4, 4) == m.reserved2) by {
        assert(b.subrange(4, 8) =~= wire::bytes32(m.reserved2));
        wire::le32_of_bytes32(b, 4, m.reserved2);
        lemma_small(b, 4);
    }
    assert(b.subrange(8int, 8int + 2 * m.rdma_transform_ids@.len()) =~= messages::bytes16_list(m.rdma_transform_ids@));
    messages::le16_list_of_bytes16_list(b, 8, m.rdma_transform_ids@);
    assert forall|i: int| 0 <= i < m.rdma_transform_ids@.len() implies number(b, 8 + 2 * i, 2)
        == #[trigger] m.rdma_transform_ids@[i] by {
        assert(messages::le16_list(b, 8, m.rdma_transform_ids@.len() as int)[i]
            == m.rdma_transform_ids@[i]);
        lemma_small(b, 8 + 2 * i);
    }
}

/// A signing capabilities body is written field by field to these places.
pub proof fn signing_capabilities_is_written_in_place(m: SigningCapabilities)
    ensures
        m.encoding().len() == 2 + 2 * m.signing_algorithms@.len(),
        number(m.encoding(), 0, 2) == m.signing_algorithm_count,
        forall|i: int|
            0 <= i < m.signing_algorithms@.len()
                ==> number(m.encoding(), 2 + 2 * i, 2) == #[trigger] m.signing_algorithms@[i],
{
    let b = m.encoding();
    assert(b.len() == 2 + 2 * m.signing_algorithms@.len());
    assert(number(b, 0, 2) == m.signing_algorithm_count) by {
        assert(b.subrange(0, 2) =~= wire::bytes16(m.signing_algorithm_count));
        wire::le16_of_bytes16(b, 0, m.signing_algorithm_count);
        lemma_small(b, 0);
    }
    assert(b.subrange(2int, 2int + 2 * m.signing_algorithms@.len()) =~= messages::bytes16_list(m.signing_algorithms@));
    messages::le16_list_of_bytes16_list(b, 2, m.signing_algorithms@);
    assert forall|i: int| 0 <= i < m.signing_algorithms@.len() implies number(b, 2 + 2 * i, 2)
        == #[trigger] m.signing_algorithms@[i] by {
        assert(messages::le16_list(b, 2, m.signing_algorithms@.len() as int)[i]
            == m.signing_algorithms@[i]);
        lemma_small(b, 2 + 2 * i);
    }
}

/// A oplock break notification body is written field by field to these places.
pub proof fn oplock_break_notification_is_written_in_place(m: OplockBreakNotification)
    ensures
        m.encoding().len() == 24,
        number(m.encoding(), 0, 2) == m.structure_size,
        m.encoding()[2] == m.oplock_level,
        m.encoding()[3] == m.reserved,
        number(m.encoding(), 4, 4) == m.reserved2,
        number(m.encoding(), 8, 8) == m.file_id.persistent,
        number(m.encoding(), 16, 8) == m.file_id.volatile,
{
    let b = m.encoding();
    assert(b.len() == 24);
    assert(number(b, 0, 2) == m.structure_size) by {
        assert(b.subrange(0, 2) =~= wire::bytes16(m.structure_size));
        wire::le16_of_bytes16(b, 0, m.structure_size);
        lemma_small(b, 0);
    }
    assert(number(b, 4, 4) == m.reserved2) by {
        assert(b.subrange(4, 8) =~= wire::bytes32(m.reserved2));
        wire::le32_of_bytes32(b, 4, m.reserved2);
        lemma_small(b, 4);
    }
    assert(number(b, 8, 8) == m.file_id.persistent) by {
        assert(b.subrange(8, 16) =~= wire::bytes64(m.file_id.persistent));
        wire::le64_of_bytes64(b, 8, m.file_id.persistent);
        lemma_large(b, 8);
    }
    assert(number(b, 16, 8) == m.file_id.volatile) by {
        assert(b.subrange(16, 24) =~= wire::bytes64(m.file_id.volatile));
        wire::le64_of_bytes64(b, 16, m.file_id.volatile);
        lemma_large(b, 16);
    }
}

/// A lease break ack body is written field by field to these places.
pub proof fn lease_break_ack_is_written_in_place(m: LeaseBreakAck)
    ensures
        m.encoding().len() == 36,
        number(m.encoding(), 0, 2) == m.structure_size,
        number(m.encoding(), 2, 2) == m.reserved,
        number(m.encoding(), 4, 4) == m.flags,
        m.encoding().subrange(8, 24) == m.lease_key@,
        number(m.encoding(), 24, 4) == m.lease_state,
        number(m.encoding(), 28, 8) == m.lease_duration,
{
    let b = m.encoding();
    assert(b.len() == 36);
    assert(number(b, 0, 2) == m.structure_size) by {
        assert(b.subrange(0, 2) =~= wire::bytes16(m.structure_size));
        wire::le16_of_bytes16(b, 0, m.structure_size);
        lemma_small(b, 0);
    }
    assert(number(b, 2, 2) == m.reserved) by {
        assert(b.subrange(2, 4) =~= wire::bytes16(m.reserved));
        wire::le16_of_bytes16(b, 2, m.reserved);
        lemma_small(b, 2);
    }
    assert(number(b, 4, 4) == m.flags) by {
        assert(b.subrange(4, 8) =~= wire::bytes32(m.flags));
        wire::le32_of_bytes32(b, 4, m.flags);
        lemma_small(b, 4);
    }
    assert(number(b, 24, 4) == m.lease_state) by {
        assert(b.subrange(24, 28) =~= wire::bytes32(m.lease_state));
        wire::le32_of_bytes32(b, 24, m.lease_state);
        lemma_small(b, 24);
    }
    assert(number(b, 28, 8) == m.lease_duration) by {
        assert(b.subrange(28, 36) =~= wire::bytes64(m.lease_duration));
        wire::le64_of_bytes64(b, 28, m.lease_duration);
        lemma_large(b, 28);
    }
}

/// A lease break notification body is written field by field to these places.
pub proof fn lease_break_notification_is_written_in_place(m: LeaseBreakNotification)
    ensures
        m.encoding().len() == 44,
        number(m.encoding(), 0, 2) == m.structure_size,
        number(m.encoding(), 2, 2) == m.new_epoch,
        number(m.encoding(), 4, 4) == m.flags,
        m.encoding().subrange(8, 24) == m.lease_key@,
        number(m.encoding(), 24, 4) == m.current_lease_state,
        number(m.encoding(), 28, 4) == m.new_lease_state,
        number(m.encoding(), 32, 4) == m.break_reason,
        number(m.encoding(), 36, 4) == m.access_mask_hint,
        number(m.encoding(), 40, 4) == m.share_mask_hint,
{
    let b = m.encoding();
    assert(b.len() == 44);
    assert(number(b, 0, 2) == m.structure_size) by {
        assert(b.subrange(0, 2) =~= wire::bytes16(m.structure_size));
        wire::le16_of_bytes16(b, 0, m.structure_size);
        lemma_small(b, 0);
    }
    assert(number(b, 2, 2) == m.new_epoch) by {
        assert(b.subrange(2, 4) =~= wire::bytes16(m.new_epoch));
        wire::le16_of_bytes16(b, 2, m.new_epoch);
        lemma_small(b, 2);
    }
    assert(number(b, 4, 4) == m.flags) by {
        assert(b.subrange(4, 8) =~= wire::bytes32(m.flags));
        wire::le32_of_bytes32(b, 4, m.flags);
        lemma_small(b, 4);
    }
    assert(number(b, 24, 4) == m.current_lease_state) by {
        assert(b.subrange(24, 28) =~= wire::bytes32(m.current_lease_state));
        wire::le32_of_bytes32(b, 24, m.current_lease_state);
        lemma_small(b, 24);
    }
    assert(number(b, 28, 4) == m.new_lease_state) by {
        assert(b.subrange(28, 32) =~= wire::bytes32(m.new_lease_state));
        wire::le32_of_bytes32(b, 28, m.new_lease_state);
        lemma_small(b, 28);
    }
    assert(number(b, 32, 4) == m.break_reason) by {
        assert(b.subrange(32, 36) =~= wire::bytes32(m.break_reason));
        wire::le32_of_bytes32(b, 32, m.break_reason);
        lemma_small(b, 32);
    }
    assert(number(b, 36, 4) == m.access_mask_hint) by {
        assert(b.subrange(36, 40) =~= wire::bytes32(m.access_mask_hint));
        wire::le32_of_bytes32(b, 36, m.access_mask_hint);
        lemma_small(b, 36);
    }
    assert(number(b, 40, 4) == m.share_mask_hint) by {
        assert(b.subrange(40, 44) =~= wire::bytes32(m.share_mask_hint));
        wire::le32_of_bytes32(b, 40, m.share_mask_hint);
        lemma_small(b, 40);
    }
}

/// A query directory request body is written field by field to these places.
pub proof fn query_directory_request_is_written_in_place(m: QueryDirectoryRequest)
    ensures
        m.encoding().len() == 32 + m.file_name@.len(),
        number(m.encoding(), 0, 2) == m.structure_size,
        m.encoding()[2] == m.file_information_class,
        m.encoding()[3] == m.flags,
        number(m.encoding(), 4, 4) == m.file_index,
        number(m.encoding(), 8, 8) == m.file_id.persistent,
        number(m.encoding(), 16, 8) == m.file_id.volatile,
        number(m.encoding(), 24, 2) == m.file_name_offset,
        number(m.encoding(), 26, 2) == m.file_name_length,
        number(m.encoding(), 28, 4) == m.output_buffer_length,
        m.encoding().subrange(32int, 32int + m.file_name@.len()) == m.file_name@,
{
    let b = m.encoding();
    assert(b.len() == 32 + m.file_name@.len());
    assert(number(b, 0, 2) == m.structure_size) by {
        assert(b.subrange(0, 2) =~= wire::bytes16(m.structure_size));
        wire::le16_of_bytes16(b, 0, m.structure_size);
        lemma_small(b, 0);
    }
    assert(number(b, 4, 4) == m.file_index) by {
        assert(b.subrange(4, 8) =~= wire::bytes32(m.file_index));
        wire::le32_of_bytes32(b, 4, m.file_index);
        lemma_small(b, 4);
    }
    assert(number(b, 8, 8) == m.file_id.persistent) by {
        assert(b.subrange(8, 16) =~= wire::bytes64(m.file_id.persistent));
        wire::le64_of_bytes64(b, 8, m.file_id.persistent);
        lemma_large(b, 8);
    }
    assert(number(b, 16, 8) == m.file_id.volatile) by {
        assert(b.subrange(16, 24) =~= wire::bytes64(m.file_id.volatile));
        wire::le64_of_bytes64(b, 16, m.file_id.volatile);
        lemma_large(b, 16);
    }
    assert(number(b, 24, 2) == m.file_name_offset) by {
        assert(b.subrange(24, 26) =~= wire::bytes16(m.file_name_offset));
        wire::le16_of_bytes16(b, 24, m.file_name_offset);
        lemma_small(b, 24);
    }
    assert(number(b, 26, 2) == m.file_name_length) by {
        assert(b.subrange(26, 28) =~= wire::bytes16(m.file_name_length));
        wire::le16_of_bytes16(b, 26, m.file_name_length);
        lemma_small(b, 26);
    }
    assert(number(b, 28, 4) == m.output_buffer_length) by {
        assert(b.subrange(28, 32) =~= wire::bytes32(m.output_buffer_length));
        wire::le32_of_bytes32(b, 28, m.output_buffer_length);
        lemma_small(b, 28);
    }
}

/// A query directory response body is written field by field to these places.
pub proof fn query_directory_response_is_written_in_place(m: QueryDirectoryResponse)
    ensures
        m.encoding().len() == 8 + m.buffer@.len(),
        number(m.encoding(), 0, 2) == m.structure_size,
        number(m.encoding(), 2, 2) == m.output_buffer_offset,
        number(m.encoding(), 4, 4) == m.output_buffer_length,
        m.encoding().subrange(8int, 8int + m.buffer@.len()) == m.buffer@,
{
    let b = m.encoding();
    assert(b.len() == 8 + m.buffer@.len());
    assert(number(b, 0, 2) == m.structure_size) by {
        assert(b.subrange(0, 2) =~= wire::bytes16(m.structure_size));
        wire::le16_of_bytes16(b, 0, m.structure_size);
        lemma_small(b, 0);
    }
    assert(number(b, 2, 2) == m.output_buffer_offset) by {
        assert(b.subrange(2, 4) =~= wire::bytes16(m.output_buffer_offset));
        wire::le16_of_bytes16(b, 2, m.output_buffer_offset);
        lemma_small(b, 2);
    }
    assert(number(b, 4, 4) == m.output_buffer_length) by {
        assert(b.subrange(4, 8) =~= wire::bytes32(m.output_buffer_length));
        wire::le32_of_bytes32(b, 4, m.output_buffer_length);
        lemma_small(b, 4);
    }
}

/// A query info request body is written field by field to these places.
#[verifier::rlimit(80)]
#[verifier::spinoff_prover]
pub proof fn query_info_request_is_written_in_place(m: QueryInfoRequest)
    ensures
        m.encoding().len() == 40 + m.input_buffer@.len(),
        number(m.encoding(), 0, 2) == m.structure_size,
        m.encoding()[2] == m.info_type,
        m.encoding()[3] == m.file_information_class,
        number(m.encoding(), 4, 4) == m.output_buffer_length,
        number(m.encoding(), 8, 2) == m.input_buffer_offset,
        number(m.encoding(), 10, 2) == m.reserved,
        number(m.encoding(), 12, 4) == m.input_buffer_length,
        number(m.encoding(), 16, 4) == m.additional_information,
        number(m.encoding(), 20, 4) == m.flags,
        number(m.encoding(), 24, 8) == m.file_id.persistent,
        number(m.encoding(), 32, 8) == m.file_id.volatile,
        m.encoding().subrange(40int, 40int + m.input_buffer@.len()) == m.input_buffer@,
{
    let b = m.encoding();
    assert(b.len() == 40 + m.input_buffer@.len());
    assert(number(b, 0, 2) == m.structure_size) by {
        assert(b.subrange(0, 2) =~= wire::bytes16(m.structure_size));
        wire::le16_of_bytes16(b, 0, m.structure_size);
        lemma_small(b, 0);
    }
    assert(number(b, 4, 4) == m.output_buffer_length) by {
        assert(b.subrange(4, 8) =~= wire::bytes32(m.output_buffer_length));
        wire::le32_of_bytes32(b, 4, m.output_buffer_length);
        lemma_small(b, 4);
    }
    assert(number(b, 8, 2) == m.input_buffer_offset) by {
        assert(b.subrange(8, 10) =~= wire::bytes16(m.input_buffer_offset));
        wire::le16_of_bytes16(b, 8, m.input_buffer_offset);
        lemma_small(b, 8);
    }
    assert(number(b, 10, 2) == m.reserved) by {
        assert(b.subrange(10, 12) =~= wire::bytes16(m.reserved));
        wire::le16_of_bytes16(b, 10, m.reserved);
        lemma_small(b, 10);
    }
    assert(number(b, 12, 4) == m.input_buffer_length) by {
        assert(b.subrange(12, 16) =~= wire::bytes32(m.input_buffer_length));
        wire::le32_of_bytes32(b, 12, m.input_buffer_length);
        lemma_small(b, 12);
    }
    assert(number(b, 16, 4) == m.additional_information) by {
        assert(b.subrange(16, 20) =~= wire::bytes32(m.additional_information));
        wire::le32_of_bytes32(b, 16, m.additional_information);
        lemma_small(b, 16);
    }
    assert(number(b, 20, 4) == m.flags) by {
        assert(b.subrange(20, 24) =~= wire::bytes32(m.flags));
        wire::le32_of_bytes32(b, 20, m.flags);
        lemma_small(b, 20);
    }
    assert(number(b, 24, 8) == m.file_id.persistent) by {
        assert(b.subrange(24, 32) =~= wire::bytes64(m.file_id.persistent));
        wire::le64_of_bytes64(b, 24, m.file_id.persistent);
        lemma_large(b, 24);
    }
    assert(number(b, 32, 8) == m.file_id.volatile) by {
        assert(b.subrange(32, 40) =~= wire::bytes64(m.file_id.volatile));
        wire::le64_of_bytes64(b, 32, m.file_id.volatile);
        lemma_large(b, 32);
    }
}

/// A query info response body is written field by field to these places.
pub proof fn query_info_response_is_written_in_place(m: QueryInfoResponse)
    ensures
        m.encoding().len() == 8 + m.buffer@.len(),
        number(m.encoding(), 0, 2) == m.structure_size,
        number(m.encoding(), 2, 2) == m.output_buffer_offset,
        number(m.encoding(), 4, 4) == m.output_buffer_length,
        m.encoding().subrange(8int, 8int + m.buffer@.len()) == m.buffer@,
{
    let b = m.encoding();
    assert(b.len() == 8 + m.buffer@.len());
    assert(number(b, 0, 2) == m.structure_size) by {
        assert(b.subrange(0, 2) =~= wire::bytes16(m.structure_size));
        wire::le16_of_bytes16(b, 0, m.structure_size);
        lemma_small(b, 0);
    }
    assert(number(b, 2, 2) == m.output_buffer_offset) by {
        assert(b.subrange(2, 4) =~= wire::bytes16(m.output_buffer_offset));
        wire::le16_of_bytes16(b, 2, m.output_buffer_offset);
        lemma_small(b, 2);
    }
    assert(number(b, 4, 4) == m.output_buffer_length) by {
        assert(b.subrange(4, 8) =~= wire::bytes32(m.output_buffer_length));
        wire::le32_of_bytes32(b, 4, m.output_buffer_length);
        lemma_small(b, 4);
    }
}

/// A read request body is written field by field to these places.
#[verifier::rlimit(80)]
#[verifier::spinoff_prover]
pub proof fn read_request_is_written_in_place(m: ReadRequest)
    ensures
        m.encoding().len() == 48 + m.buffer@.len(),
        number(m.encoding(), 0, 2) == m.structure_size,
        m.encoding()[2] == m.padding,
        m.encoding()[3] == m.flags,
        number(m.encoding(), 4, 4) == m.length,
        number(m.encoding(), 8, 8) == m.offset,
        number(m.encoding(), 16, 8) == m.file_id.persistent,
        number(m.encoding(), 24, 8) == m.file_id.volatile,
        number(m.encoding(), 32, 4) == m.minimum_count,
        number(m.encoding(), 36, 4) == m.channel,
        number(m.encoding(), 40, 4) == m.remaining_bytes,
        number(m.encoding(), 44, 2) == m.read_channel_info_offset,
        number(m.encoding(), 46, 2) == m.read_channel_info_length,
        m.encoding().subrange(48int, 48int + m.buffer@.len()) == m.buffer@,
{
    let b = m.encoding();
    assert(b.len() == 48 + m.buffer@.len());
    assert(number(b, 0, 2) == m.structure_size) by {
        assert(b.subrange(0, 2) =~= wire::bytes16(m.structure_size));
        wire::le16_of_bytes16(b, 0, m.structure_size);
        lemma_small(b, 0);
    }
    assert(number(b, 4, 4) == m.length) by {
        assert(b.subrange(4, 8) =~= wire::bytes32(m.length));
        wire::le32_of_bytes32(b, 4, m.length);
        lemma_small(b, 4);
    }
    assert(number(b, 8, 8) == m.offset) by {
        assert(b.subrange(8, 16) =~= wire::bytes64(m.offset));
        wire::le64_of_bytes64(b, 8, m.offset);
        lemma_large(b, 8);
    }
    assert(number(b, 16, 8) == m.file_id.persistent) by {
        assert(b.subrange(16, 24) =~= wire::bytes64(m.file_id.persistent));
        wire::le64_of_bytes64(b, 16, m.file_id.persistent);
        lemma_large(b, 16);
    }
    assert(number(b, 24, 8) == m.file_id.volatile) by {
        assert(b.subrange(24, 32) =~= wire::bytes64(m.file_id.volatile));
        wire::le64_of_bytes64(b, 24, m.file_id.volatile);
        lemma_large(b, 24);
    }
    assert(number(b, 32, 4) == m.minimum_count) by {
        assert(b.subrange(32, 36) =~= wire::bytes32(m.minimum_count));
        wire::le32_of_bytes32(b, 32, m.minimum_count);
        lemma_small(b, 32);
    }
    assert(number(b, 36, 4) == m.channel) by {
        assert(b.subrange(36, 40) =~= wire::bytes32(m.channel));
        wire::le32_of_bytes32(b, 36, m.channel);
        lemma_small(b, 36);
    }
    assert(number(b, 40, 4) == m.remaining_bytes) by {
        assert(b.subrange(40, 44) =~= wire::bytes32(m.remaining_bytes));
        wire::le32_of_bytes32(b, 40, m.remaining_bytes);
        lemma_small(b, 40);
    }
    assert(number(b, 44, 2) == m.read_channel_info_offset) by {
        assert(b.subrange(44, 46) =~= wire::bytes16(m.read_channel_info_offset));
        wire::le16_of_bytes16(b, 44, m.read_channel_info_offset);
        lemma_small(b, 44);
    }
    assert(number(b, 46, 2) == m.read_channel_info_length) by {
        assert(b.subrange(46, 48) =~= wire::bytes16(m.read_channel_info_length));
        wire::le16_of_bytes16(b, 46, m.read_channel_info_length);
        lemma_small(b, 46);
    }
}

/// A read response body is written field by field to these places.
pub proof fn read_response_is_written_in_place(m: ReadResponse)
    ensures
        m.encoding().len() == 16 + m.data@.len(),
        number(m.encoding(), 0, 2) == m.structure_size,
        m.encoding()[2] == m.data_offset,
        m.encoding()[3] == m.reserved,
        number(m.encoding(), 4, 4) == m.data_length,
        number(m.encoding(), 8, 4) == m.data_remaining,
        number(m.encoding(), 12, 4) == m.flags,
        m.encoding().subrange(16int, 16int + m.data@.len()) == m.data@,
{
    let b = m.encoding();
    assert(b.len() == 16 + m.data@.len());
    assert(number(b, 0, 2) == m.structure_size) by {
        assert(b.subrange(0, 2) =~= wire::bytes16(m.structure_size));
        wire::le16_of_bytes16(b, 0, m.structure_size);
        lemma_small(b, 0);
    }
    assert(number(b, 4, 4) == m.data_length) by {
        assert(b.subrange(4, 8) =~= wire::bytes32(m.data_length));
        wire::le32_of_bytes32(b, 4, m.data_length);
        lemma_small(b, 4);
    }
    assert(number(b, 8, 4) == m.data_remaining) by {
        assert(b.subrange(8, 12) =~= wire::bytes32(m.data_remaining));
        wire::le32_of_bytes32(b, 8, m.data_remaining);
        lemma_small(b, 8);
    }
    assert(number(b, 12, 4) == m.flags) by {
        assert(b.subrange(12, 16) =~= wire::bytes32(m.flags));
        wire::le32_of_bytes32(b, 12, m.flags);
        lemma_small(b, 12);
    }
}

/// A session setup request body is written field by field to these places.
pub proof fn session_setup_request_is_written_in_place(m: SessionSetupRequest)
    ensures
        m.encoding().len() == 24 + m.security_buffer@.len(),
        number(m.encoding(), 0, 2) == m.structure_size,
        m.encoding()[2] == m.flags,
        m.encoding()[3] == m.security_mode,
        number(m.encoding(), 4, 4) == m.capabilities,
        number(m.encoding(), 8, 4) == m.channel,
        number(m.encoding(), 12, 2) == m.security_buffer_offset,
        number(m.encoding(), 14, 2) == m.security_buffer_length,
        number(m.encoding(), 16, 8) == m.previous_session_id,
        m.encoding().subrange(24int, 24int + m.security_buffer@.len()) == m.security_buffer@,
{
    let b = m.encoding();
    assert(b.len() == 24 + m.security_buffer@.len());
    assert(number(b, 0, 2) == m.structure_size) by {
        assert(b.subrange(0, 2) =~= wire::bytes16(m.structure_size));
        wire::le16_of_bytes16(b, 0, m.structure_size);
        lemma_small(b, 0);
    }
    assert(number(b, 4, 4) == m.capabilities) by {
        assert(b.subrange(4, 8) =~= wire::bytes32(m.capabilities));
        wire::le32_of_bytes32(b, 4, m.capabilities);
        lemma_small(b, 4);
    }
    assert(number(b, 8, 4) == m.channel) by {
        assert(b.subrange(8, 12) =~= wire::bytes32(m.channel));
        wire::le32_of_bytes32(b, 8, m.channel);
        lemma_small(b, 8);
    }
    assert(number(b, 12, 2) == m.security_buffer_offset) by {
        assert(b.subrange(12, 14) =~= wire::bytes16(m.security_buffer_offset));
        wire::le16_of_bytes16(b, 12, m.security_buffer_offset);
        lemma_small(b, 12);
    }
    assert(number(b, 14, 2) == m.security_buffer_length) by {
        assert(b.subrange(14, 16) =~= wire::bytes16(m.security_buffer_length));
        wire::le16_of_bytes16(b, 14, m.security_buffer_length);
        lemma_small(b, 14);
    }
    assert(number(b, 16, 8) == m.previous_session_id) by {
        assert(b.subrange(16, 24) =~= wire::bytes64(m.previous_session_id));
        wire::le64_of_bytes64(b, 16, m.previous_session_id);
        lemma_large(b, 16);
    }
}

/// A session setup response body is written field by field to these places.
pub proof fn session_setup_response_is_written_in_place(m: SessionSetupResponse)
    ensures
        m.encoding().len() == 8 + m.security_buffer@.len(),
        number(m.encoding(), 0, 2) == m.structure_size,
        number(m.encoding(), 2, 2) == m.session_flags,
        number(m.encoding(), 4, 2) == m.security_buffer_offset,
        number(m.encoding(), 6, 2) == m.security_buffer_length,
        m.encoding().subrange(8int, 8int + m.security_buffer@.len()) == m.security_buffer@,
{
    let b = m.encoding();
    assert(b.len() == 8 + m.security_buffer@.len());
    assert(number(b, 0, 2) == m.structure_size) by {
        assert(b.subrange(0, 2) =~= wire::bytes16(m.structure_size));
        wire::le16_of_bytes16(b, 0, m.structure_size);
        lemma_small(b, 0);
    }
    assert(number(b, 2, 2) == m.session_flags) by {
        assert(b.subrange(2, 4) =~= wire::bytes16(m.session_flags));
        wire::le16_of_bytes16(b, 2, m.session_flags);
        lemma_small(b, 2);
    }
    assert(number(b, 4, 2) == m.security_buffer_offset) by {
        assert(b.subrange(4, 6) =~= wire::bytes16(m.security_buffer_offset));
        wire::le16_of_bytes16(b, 4, m.security_buffer_offset);
        lemma_small(b, 4);
    }
    assert(number(b, 6, 2) == m.security_buffer_length) by {
        assert(b.subrange(6, 8) =~= wire::bytes16(m.security_buffer_length));
        wire::le16_of_bytes16(b, 6, m.security_buffer_length);
        lemma_small(b, 6);
    }
}

/// A set info request body is written field by field to these places.
pub proof fn set_info_request_is_written_in_place(m: SetInfoRequest)
    ensures
        m.encoding().len() == 32 + m.buffer@.len(),
        number(m.encoding(), 0, 2) == m.structure_size,
        m.encoding()[2] == m.info_type,
        m.encoding()[3] == m.file_information_class,
        number(m.encoding(), 4, 4) == m.buffer_length,
        number(m.encoding(), 8, 2) == m.buffer_offset,
        number(m.encoding(), 10, 2) == m.reserved,
        number(m.encoding(), 12, 4) == m.additional_information,
        number(m.encoding(), 16, 8) == m.file_id.persistent,
        number(m.encoding(), 24, 8) == m.file_id.volatile,
        m.encoding().subrange(32int, 32int + m.buffer@.len()) == m.buffer@,
{
    let b = m.encoding();
    assert(b.len() == 32 + m.buffer@.len());
    assert(number(b, 0, 2) == m.structure_size) by {
        assert(b.subrange(0, 2) =~= wire::bytes16(m.structure_size));
        wire::le16_of_bytes16(b, 0, m.structure_size);
        lemma_small(b, 0);
    }
    assert(number(b, 4, 4) == m.buffer_length) by {
        assert(b.subrange(4, 8) =~= wire::bytes32(m.buffer_length));
        wire::le32_of_bytes32(b, 4, m.buffer_length);
        lemma_small(b, 4);
    }
    assert(number(b, 8, 2) == m.buffer_offset) by {
        assert(b.subrange(8, 10) =~= wire::bytes16(m.buffer_offset));
        wire::le16_of_bytes16(b, 8, m.buffer_offset);
        lemma_small(b, 8);
    }
    assert(number(b, 10, 2) == m.reserved) by {
        assert(b.subrange(10, 12) =~= wire::bytes16(m.reserved));
        wire::le16_of_bytes16(b, 10, m.reserved);
        lemma_small(b, 10);
    }
    assert(number(b, 12, 4) == m.additional_information) by {
        assert(b.subrange(12, 16) =~= wire::bytes32(m.additional_information));
        wire::le32_of_bytes32(b, 12, m.additional_information);
        lemma_small(b, 12);
    }
    assert(number(b, 16, 8) == m.file_id.persistent) by {
        assert(b.subrange(16, 24) =~= wire::bytes64(m.file_id.persistent));
        wire::le64_of_bytes64(b, 16, m.file_id.persistent);
        lemma_large(b, 16);
    }
    assert(number(b, 24, 8) == m.file_id.volatile) by {
        assert(b.subrange(24, 32) =~= wire::bytes64(m.file_id.volatile));
        wire::le64_of_bytes64(b, 24, m.file_id.volatile);
        lemma_large(b, 24);
    }
}

/// A set info response body is written field by field to these places.
pub proof fn set_info_response_is_written_in_place(m: SetInfoResponse)
    ensures
        m.encoding().len() == 2,
        number(m.encoding(), 0, 2) == m.structure_size,
{
    let b = m.encoding();
    assert(b.len() == 2);
    assert(number(b, 0, 2) == m.structure_size) by {
        assert(b.subrange(0, 2) =~= wire::bytes16(m.structure_size));
        wire::le16_of_bytes16(b, 0, m.structure_size);
        lemma_small(b, 0);
    }
}

/// A tree connect request body is written field by field to these places.
pub proof fn tree_connect_request_is_written_in_place(m: TreeConnectRequest)
    ensures
        m.encoding().len() == 8 + m.path@.len(),
        number(m.encoding(), 0, 2) == m.structure_size,
        number(m.encoding(), 2, 2) == m.flags,
        number(m.encoding(), 4, 2) == m.path_offset,
        number(m.encoding(), 6, 2) == m.path_length,
        m.encoding().subrange(8int, 8int + m.path@.len()) == m.path@,
{
    let b = m.encoding();
    assert(b.len() == 8 + m.path@.len());
    assert(number(b, 0, 2) == m.structure_size) by {
        assert(b.subrange(0, 2) =~= wire::bytes16(m.structure_size));
        wire::le16_of_bytes16(b, 0, m.structure_size);
        lemma_small(b, 0);
    }
    assert(number(b, 2, 2) == m.flags) by {
        assert(b.subrange(2, 4) =~= wire::bytes16(m.flags));
        wire::le16_of_bytes16(b, 2, m.flags);
        lemma_small(b, 2);
    }
    assert(number(b, 4, 2) == m.path_offset) by {
        assert(b.subrange(4, 6) =~= wire::bytes16(m.path_offset));
        wire::le16_of_bytes16(b, 4, m.path_offset);
        lemma_small(b, 4);
    }
    assert(number(b, 6, 2) == m.path_length) by {
        assert(b.subrange(6, 8) =~= wire::bytes16(m.path_length));
        wire::le16_of_bytes16(b, 6, m.path_length);
        lemma_small(b, 6);
    }
}

/// A tree connect response body is written field by field to these places.
pub proof fn tree_connect_response_is_written_in_place(m: TreeConnectResponse)
    ensures
        m.encoding().len() == 16,
        number(m.encoding(), 0, 2) == m.structure_size,
        m.encoding()[2] == m.share_type,
        m.encoding()[3] == m.reserved,
        number(m.encoding(), 4, 4) == m.share_flags,
        number(m.encoding(), 8, 4) == m.capabilities,
        number(m.encoding(), 12, 4) == m.maximal_access,
{
    let b = m.encoding();
    assert(b.len() == 16);
    assert(number(b, 0, 2) == m.structure_size) by {
        assert(b.subrange(0, 2) =~= wire::bytes16(m.structure_size));
        wire::le16_of_bytes16(b, 0, m.structure_size);
        lemma_small(b, 0);
    }
    assert(number(b, 4, 4) == m.share_flags) by {
        assert(b.subrange(4, 8) =~= wire::bytes32(m.share_flags));
        wire::le32_of_bytes32(b, 4, m.share_flags);
        lemma_small(b, 4);
    }
    assert(number(b, 8, 4) == m.capabilities) by {
        assert(b.subrange(8, 12) =~= wire::bytes32(m.capabilities));
        wire::le32_of_bytes32(b, 8, m.capabilities);
        lemma_small(b, 8);
    }
    assert(number(b, 12, 4) == m.maximal_access) by {
        assert(b.subrange(12, 16) =~= wire::bytes32(m.maximal_access));
        wire::le32_of_bytes32(b, 12, m.maximal_access);
        lemma_small(b, 12);
    }
}

/// A write request body is written field by field to these places.
#[verifier::rlimit(80)]
#[verifier::spinoff_prover]
pub proof fn write_request_is_written_in_place(m: WriteRequest)
    ensures
        m.encoding().len() == 48 + m.data@.len(),
        number(m.encoding(), 0, 2) == m.structure_size,
        number(m.encoding(), 2, 2) == m.data_offset,
        number(m.encoding(), 4, 4) == m.length,
        number(m.encoding(), 8, 8) == m.offset,
        number(m.encoding(), 16, 8) == m.file_id.persistent,
        number(m.encoding(), 24, 8) == m.file_id.volatile,
        number(m.encoding(), 32, 4) == m.channel,
        number(m.encoding(), 36, 4) == m.remaining_bytes,
        number(m.encoding(), 40, 2) == m.write_channel_info_offset,
        number(m.encoding(), 42, 2) == m.write_channel_info_length,
        number(m.encoding(), 44, 4) == m.flags,
        m.encoding().subrange(48int, 48int + m.data@.len()) == m.data@,
{
    let b = m.encoding();
    assert(b.len() == 48 + m.data@.len());
    assert(number(b, 0, 2) == m.structure_size) by {
        assert(b.subrange(0, 2) =~= wire::bytes16(m.structure_size));
        wire::le16_of_bytes16(b, 0, m.structure_size);
        lemma_small(b, 0);
    }
    assert(number(b, 2, 2) == m.data_offset) by {
        assert(b.subrange(2, 4) =~= wire::bytes16(m.data_offset));
        wire::le16_of_bytes16(b, 2, m.data_offset);
        lemma_small(b, 2);
    }
    assert(number(b, 4, 4) == m.length) by {
        assert(b.subrange(4, 8) =~= wire::bytes32(m.length));
        wire::le32_of_bytes32(b, 4, m.length);
        lemma_small(b, 4);
    }
    assert(number(b, 8, 8) == m.offset) by {
        assert(b.subrange(8, 16) =~= wire::bytes64(m.offset));
        wire::le64_of_bytes64(b, 8, m.offset);
        lemma_large(b, 8);
    }
    assert(number(b, 16, 8) == m.file_id.persistent) by {
        assert(b.subrange(16, 24) =~= wire::bytes64(m.file_id.persistent));
        wire::le64_of_bytes64(b, 16, m.file_id.persistent);
        lemma_large(b, 16);
    }
    assert(number(b, 24, 8) == m.file_id.volatile) by {
        assert(b.subrange(24, 32) =~= wire::bytes64(m.file_id.volatile));
        wire::le64_of_bytes64(b, 24, m.file_id.volatile);
        lemma_large(b, 24);
    }
    assert(number(b, 32, 4) == m.channel) by {
        assert(b.subrange(32, 36) =~= wire::bytes32(m.channel));
        wire::le32_of_bytes32(b, 32, m.channel);
        lemma_small(b, 32);
    }
    assert(number(b, 36, 4) == m.remaining_bytes) by {
        assert(b.subrange(36, 40) =~= wire::bytes32(m.remaining_bytes));
        wire::le32_of_bytes32(b, 36, m.remaining_bytes);
        lemma_small(b, 36);
    }
    assert(number(b, 40, 2) == m.write_channel_info_offset) by {
        assert(b.subrange(40, 42) =~= wire::bytes16(m.write_channel_info_offset));
        wire::le16_of_bytes16(b, 40, m.write_channel_info_offset);
        lemma_small(b, 40);
    }
    assert(number(b, 42, 2) == m.write_channel_info_length) by {
        assert(b.subrange(42, 44) =~= wire::bytes16(m.write_channel_info_length));
        wire::le16_of_bytes16(b, 42, m.write_channel_info_length);
        lemma_small(b, 42);
    }
    assert(number(b, 44, 4) == m.flags) by {
        assert(b.subrange(44, 48) =~= wire::bytes32(m.flags));
        wire::le32_of_bytes32(b, 44, m.flags);
        lemma_small(b, 44);
    }
}

/// A write response body is written field by field to these places.
pub proof fn write_response_is_written_in_place(m: WriteResponse)
    ensures
        m.encoding().len() == 16,
        number(m.encoding(), 0, 2) == m.structure_size,
        number(m.encoding(), 2, 2) == m.reserved,
        number(m.encoding(), 4, 4) == m.count,
        number(m.encoding(), 8, 4) == m.remaining,
        number(m.encoding(), 12, 2) == m.write_channel_info_offset,
        number(m.encoding(), 14, 2) == m.write_channel_info_length,
{
    let b = m.encoding();
    assert(b.len() == 16);
    assert(number(b, 0, 2) == m.structure_size) by {
        assert(b.subrange(0, 2) =~= wire::bytes16(m.structure_size));
        wire::le16_of_bytes16(b, 0, m.structure_size);
        lemma_small(b, 0);
    }
    assert(number(b, 2, 2) == m.reserved) by {
        assert(b.subrange(2, 4) =~= wire::bytes16(m.reserved));
        wire::le16_of_bytes16(b, 2, m.reserved);
        lemma_small(b, 2);
    }
    assert(number(b, 4, 4) == m.count) by {
        assert(b.subrange(4, 8) =~= wire::bytes32(m.count));
        wire::le32_of_bytes32(b, 4, m.count);
        lemma_small(b, 4);
    }
    assert(number(b, 8, 4) == m.remaining) by {
        assert(b.subrange(8, 12) =~= wire::bytes32(m.remaining));
        wire::le32_of_bytes32(b, 8, m.remaining);
        lemma_small(b, 8);
    }
    assert(number(b, 12, 2) == m.write_channel_info_offset) by {
        assert(b.subrange(12, 14) =~= wire::bytes16(m.write_channel_info_offset));
        wire::le16_of_bytes16(b, 12, m.write_channel_info_offset);
        lemma_small(b, 12);
    }
    assert(number(b, 14, 2) == m.write_channel_info_length) by {
        assert(b.subrange(14, 16) =~= wire::bytes16(m.write_channel_info_length));
        wire::le16_of_bytes16(b, 14, m.write_channel_info_length);
        lemma_small(b, 14);
    }
}

} // verus!
