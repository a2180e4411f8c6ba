//! The rules of sharing and caching: access and share modes, byte ranges, leases and
//! oplocks.

use crate::backend::{FILE_ATTRIBUTE_ARCHIVE, FILE_ATTRIBUTE_DIRECTORY, FILE_ATTRIBUTE_NORMAL};
use crate::ntstatus::{STATUS_NOTIFY_CLEANUP, STATUS_RANGE_NOT_LOCKED};
use crate::text;
use crate::text::lower_string;
use crate::wire::array16_equal;
use vstd::prelude::*;

verus! {

/// Right to read data.
pub const FILE_READ_DATA: u32 = 0x0000_0001;

/// Right to write data.
pub const FILE_WRITE_DATA: u32 = 0x0000_0002;

/// Right to append data.
pub const FILE_APPEND_DATA: u32 = 0x0000_0004;

/// Right to execute.
pub const FILE_EXECUTE: u32 = 0x0000_0020;

/// Right to read attributes.
pub const FILE_READ_ATTRIBUTES: u32 = 0x0000_0080;

/// Right to write attributes.
pub const FILE_WRITE_ATTRIBUTES: u32 = 0x0000_0100;

/// Right to delete.
pub const DELETE: u32 = 0x0001_0000;

/// Right to read the security descriptor.
pub const READ_CONTROL: u32 = 0x0002_0000;

/// Right to wait.
pub const SYNCHRONIZE: u32 = 0x0010_0000;

/// Others may read.
pub const FILE_SHARE_READ: u32 = 0x0000_0001;

/// Others may write.
pub const FILE_SHARE_WRITE: u32 = 0x0000_0002;

/// Others may delete.
pub const FILE_SHARE_DELETE: u32 = 0x0000_0004;

/// Others may do anything.
pub const FILE_SHARE_ALL: u32 = 0x0000_0007;

/// Lease on reads.
pub const LEASE_READ_CACHING: u32 = 0x0000_0001;

/// Lease on handles.
pub const LEASE_HANDLE_CACHING: u32 = 0x0000_0002;

/// Lease on writes.
pub const LEASE_WRITE_CACHING: u32 = 0x0000_0004;

/// Flag of a lease break that is to be acknowledged.
pub const LEASE_BREAK_ACK_REQUIRED: u32 = 0x0000_0001;

/// No oplock.
pub const OPLOCK_NONE: u8 = 0x00;

/// Shared oplock.
pub const OPLOCK_LEVEL_II: u8 = 0x01;

/// Exclusive oplock.
pub const OPLOCK_EXCLUSIVE: u8 = 0x08;

/// Batch oplock.
pub const OPLOCK_BATCH: u8 = 0x09;

/// The most requests of a connection that may be pending.
pub const MAX_PENDING_ASYNC_REQUESTS: usize = 511;

// ---------------------------------------------------------------------------
// Share modes
// ---------------------------------------------------------------------------

/// Whether access needs others to share reads.
pub open spec fn needs_read(access: u32) -> bool {
    access & 0x21 != 0
}

/// Whether access needs others to share writes.
pub open spec fn needs_write(access: u32) -> bool {
    access & 0x06 != 0
}

/// Whether access needs others to share deletion.
pub open spec fn needs_delete(access: u32) -> bool {
    access & DELETE != 0
}

/// Whether access needs what a share mode withholds.
pub open spec fn withheld(access: u32, peer_share: u32) -> bool {
    (needs_read(access) && peer_share & FILE_SHARE_READ == 0) || (needs_write(access) && peer_share
        & FILE_SHARE_WRITE == 0) || (needs_delete(access) && peer_share & FILE_SHARE_DELETE == 0)
}

/// Whether access takes part in sharing.
pub open spec fn enforced(access: u32) -> bool {
    needs_read(access) || needs_write(access) || needs_delete(access)
}

/// Whether two opens of a file exclude each other.
pub open spec fn opens_conflict(a_access: u32, a_share: u32, b_access: u32, b_share: u32) -> bool {
    (enforced(a_access) && withheld(b_access, a_share)) || (enforced(b_access) && withheld(
        a_access,
        b_share,
    ))
}

/// Two opens exclude each other whichever came first.
pub proof fn open_conflicts_are_mutual(a_access: u32, a_share: u32, b_access: u32, b_share: u32)
    ensures
        opens_conflict(a_access, a_share, b_access, b_share) == opens_conflict(
            b_access,
            b_share,
            a_access,
            a_share,
        ),
{
}

/// Opens that share everything never exclude each other.
pub proof fn full_sharing_never_conflicts(a_access: u32, b_access: u32)
    ensures
        !opens_conflict(a_access, FILE_SHARE_ALL, b_access, FILE_SHARE_ALL),
{
    assert(7u32 & 1 != 0 && 7u32 & 2 != 0 && 7u32 & 4 != 0) by (bit_vector);
}

fn share_needs_read(access: u32) -> (r: bool)
    ensures
        r == needs_read(access),
{
    access & 0x21 != 0
}

fn share_needs_write(access: u32) -> (r: bool)
    ensures
        r == needs_write(access),
{
    access & 0x06 != 0
}

fn share_needs_delete(access: u32) -> (r: bool)
    ensures
        r == needs_delete(access),
{
    access & DELETE != 0
}

/// Whether access needs what a share mode withholds.
pub fn share_conflict(access: u32, peer_share: u32) -> (r: bool)
    ensures
        r == withheld(access, peer_share),
{
    (share_needs_read(access) && peer_share & FILE_SHARE_READ == 0) || (share_needs_write(access)
        && peer_share & FILE_SHARE_WRITE == 0) || (share_needs_delete(access) && peer_share
        & FILE_SHARE_DELETE == 0)
}

/// Whether access takes part in sharing.
pub fn share_enforced_by_access(access: u32) -> (r: bool)
    ensures
        r == enforced(access),
{
    share_needs_read(access) || share_needs_write(access) || share_needs_delete(access)
}

/// Whether access is for looking at attributes only: it is not empty, and the right to
/// read the descriptor stands alone or beside the right to wait.
pub open spec fn stat_open(access: u32) -> bool {
    access != 0 && access & !0x0012_0180u32 == 0 && (access & READ_CONTROL == 0 || access
        == READ_CONTROL || access == SYNCHRONIZE || access == 0x0012_0000)
}

/// Whether access is for looking at attributes only.
pub fn access_is_lease_stat_open(access: u32) -> (r: bool)
    ensures
        r == stat_open(access),
{
    access != 0 && access & !0x0012_0180u32 == 0 && (access & READ_CONTROL == 0 || access
        == READ_CONTROL || access == SYNCHRONIZE || access == 0x0012_0000)
}

// ---------------------------------------------------------------------------
// Byte ranges
// ---------------------------------------------------------------------------

/// The last byte of a range that is not empty, modulo 2^64.
pub open spec fn range_end(offset: u64, length: u64) -> int {
    if length == 0 {
        u64::MAX as int
    } else if offset + length - 1 <= u64::MAX {
        offset + length - 1
    } else {
        offset + length - 1 - 0x1_0000_0000_0000_0000
    }
}

/// Whether two ranges overlap. An empty range overlaps a range that it lies within, and
/// no empty range.
pub open spec fn overlap(a_offset: u64, a_length: u64, b_offset: u64, b_length: u64) -> bool {
    if a_length == 0 && b_length == 0 {
        false
    } else if a_length == 0 {
        b_offset < a_offset && range_end(b_offset, b_length) >= a_offset
    } else if b_length == 0 {
        a_offset < b_offset && range_end(a_offset, a_length) >= b_offset
    } else {
        a_offset <= range_end(b_offset, b_length) && b_offset <= range_end(a_offset, a_length)
    }
}

fn range_end_inclusive(offset: u64, length: u64) -> (r: u64)
    ensures
        r == range_end(offset, length),
{
    if length == 0 {
        u64::MAX
    } else {
        let last: u64 = length - 1;
        if offset <= u64::MAX - last {
            offset + last
        } else {
            offset - (u64::MAX - last) - 1
        }
    }
}

/// Whether two ranges overlap.
pub fn ranges_overlap(a_offset: u64, a_length: u64, b_offset: u64, b_length: u64) -> (r: bool)
    ensures
        r == overlap(a_offset, a_length, b_offset, b_length),
{
    if a_length == 0 && b_length == 0 {
        return false;
    }
    if a_length == 0 {
        return b_offset < a_offset && range_end_inclusive(b_offset, b_length) >= a_offset;
    }
    if b_length == 0 {
        return a_offset < b_offset && range_end_inclusive(a_offset, a_length) >= b_offset;
    }
    let a_end: u64 = range_end_inclusive(a_offset, a_length);
    let b_end: u64 = range_end_inclusive(b_offset, b_length);
    a_offset <= b_end && b_offset <= a_end
}

/// Two ranges overlap in either order.
pub proof fn overlap_is_mutual(a_offset: u64, a_length: u64, b_offset: u64, b_length: u64)
    ensures
        overlap(a_offset, a_length, b_offset, b_length) == overlap(
            b_offset,
            b_length,
            a_offset,
            a_length,
        ),
{
}

/// Ranges that do not wrap around overlap just where they have a byte in common.
pub proof fn overlap_is_a_common_byte(a_offset: u64, a_length: u64, b_offset: u64, b_length: u64)
    requires
        a_length > 0,
        b_length > 0,
        a_offset + a_length <= 0x1_0000_0000_0000_0000,
        b_offset + b_length <= 0x1_0000_0000_0000_0000,
    ensures
        overlap(a_offset, a_length, b_offset, b_length) <==> exists|at: int|
            a_offset <= at < a_offset + a_length && #[trigger] in_range(at, b_offset, b_length),
{
    if overlap(a_offset, a_length, b_offset, b_length) {
        let at = if a_offset >= b_offset {
            a_offset as int
        } else {
            b_offset as int
        };
        assert(in_range(at, b_offset, b_length));
    }
}

/// Whether a byte lies in a range.
pub open spec fn in_range(at: int, offset: u64, length: u64) -> bool {
    offset <= at < offset + length
}

/// The size that is allocated for so many bytes: a multiple of 4096, as far as that fits.
pub open spec fn rounded_allocation(size: u64) -> int {
    if size == 0 {
        0
    } else if size + 4095 <= u64::MAX {
        (size + 4095) / 4096 * 4096
    } else {
        u64::MAX as int / 4096 * 4096
    }
}

/// The size that is allocated for so many bytes.
pub fn round_allocation_size(size: u64) -> (r: u64)
    ensures
        r == rounded_allocation(size),
{
    if size == 0 {
        return 0;
    }
    if size <= u64::MAX - 4095 {
        (size + 4095) / 4096 * 4096
    } else {
        u64::MAX / 4096 * 4096
    }
}

// ---------------------------------------------------------------------------
// Attributes and volumes
// ---------------------------------------------------------------------------

/// The attributes that are kept of those that a client sets.
pub open spec fn stored_attributes(attributes: u32, is_directory: bool) -> u32 {
    let meaningful = attributes & 0x11b7;
    if is_directory {
        (meaningful & !FILE_ATTRIBUTE_ARCHIVE & !FILE_ATTRIBUTE_NORMAL) | FILE_ATTRIBUTE_DIRECTORY
    } else {
        let attrs = meaningful & !FILE_ATTRIBUTE_DIRECTORY;
        if attrs == 0 || attrs == FILE_ATTRIBUTE_NORMAL {
            FILE_ATTRIBUTE_NORMAL
        } else {
            attrs & !FILE_ATTRIBUTE_NORMAL
        }
    }
}

/// The attributes that are kept of those that a client sets.
pub fn normalize_stored_file_attributes(attributes: u32, is_directory: bool) -> (r: u32)
    ensures
        r == stored_attributes(attributes, is_directory),
{
    let meaningful: u32 = attributes & 0x11b7;
    if is_directory {
        (meaningful & !FILE_ATTRIBUTE_ARCHIVE & !FILE_ATTRIBUTE_NORMAL) | FILE_ATTRIBUTE_DIRECTORY
    } else {
        let attrs: u32 = meaningful & !FILE_ATTRIBUTE_DIRECTORY;
        if attrs == 0 || attrs == FILE_ATTRIBUTE_NORMAL {
            FILE_ATTRIBUTE_NORMAL
        } else {
            attrs & !FILE_ATTRIBUTE_NORMAL
        }
    }
}

/// Attributes that are kept are kept as they are when they are set again.
pub proof fn stored_attributes_are_stable(attributes: u32, is_directory: bool)
    ensures
        stored_attributes(stored_attributes(attributes, is_directory), is_directory)
            == stored_attributes(attributes, is_directory),
{
    let m = attributes & 0x11b7;
    if is_directory {
        assert((((((m & !0x20u32 & !0x80u32) | 0x10) & 0x11b7) & !0x20u32 & !0x80u32) | 0x10) == ((m
            & !0x20u32 & !0x80u32) | 0x10)) by (bit_vector)
            requires
                m == attributes & 0x11b7,
        ;
    } else {
        let a = m & !0x10u32;
        assert(0x80u32 & 0x11b7 & !0x10u32 == 0x80) by (bit_vector);
        assert((a & !0x80u32) & 0x11b7 & !0x10u32 == a & !0x80u32) by (bit_vector)
            requires
                a == m & !0x10u32,
                m == attributes & 0x11b7,
        ;
        assert(a != 0 && a != 0x80 ==> a & !0x80u32 != 0 && a & !0x80u32 != 0x80 && (a & !0x80u32)
            & !0x80u32 == a & !0x80u32) by (bit_vector);
    }
}

/// One step of the hash of a share name.
pub open spec fn hash_step(hash: u64, byte: u8) -> u64 {
    ((hash ^ (byte as u64)) * 0x0000_0100_0000_01B3 % 0x1_0000_0000_0000_0000) as u64
}

/// The hash of the bytes of a share name.
pub open spec fn name_hash(bytes: Seq<u8>) -> u64
    decreases bytes.len(),
{
    if bytes.len() == 0 {
        0xCBF2_9CE4_8422_2325
    } else {
        hash_step(name_hash(bytes.drop_last()), bytes.last())
    }
}

/// The volume id of a share: the hash of its name in lower case, never zero.
pub fn volume_id_for_share(share: &str) -> (r: u64)
    ensures
        r == ({
            let hash = name_hash(vstd::utf8::encode_utf8(text::lowered(share@)));
            if hash == 0 {
                1
            } else {
                hash
            }
        }),
        r != 0,
{
    let lower: String = lower_string(share);
    let bytes: &[u8] = lower.as_str().as_bytes();
    let mut hash: u64 = 0xCBF2_9CE4_8422_2325;
    let mut i: usize = 0;
    while i < bytes.len()
        invariant
            i <= bytes@.len(),
            hash == name_hash(bytes@.take(i as int)),
        decreases bytes@.len() - i,
    {
        assert(bytes@.take(i + 1).drop_last() =~= bytes@.take(i as int));
        assert(bytes@.take(i + 1).last() == bytes@[i as int]);
        hash = (hash ^ (bytes[i] as u64)).wrapping_mul(0x0000_0100_0000_01B3);
        i += 1;
    }
    assert(bytes@.take(i as int) =~= bytes@);
    if hash == 0 {
        1
    } else {
        hash
    }
}

// ---------------------------------------------------------------------------
// Leases and oplocks
// ---------------------------------------------------------------------------

/// Whether a lease state answers a break: it has nothing that was to be given up, and
/// it holds no handles without reads.
pub open spec fn ack_fits(ack_state: u32, break_to: u32) -> bool {
    ack_state & !break_to == 0 && !(ack_state & LEASE_HANDLE_CACHING != 0 && ack_state
        & LEASE_READ_CACHING == 0)
}

/// Whether a lease state answers a break.
pub fn valid_lease_break_ack_state(ack_state: u32, break_to: u32) -> (r: bool)
    ensures
        r == ack_fits(ack_state, break_to),
{
    if ack_state & !break_to != 0 {
        return false;
    }
    if ack_state & LEASE_HANDLE_CACHING != 0 && ack_state & LEASE_READ_CACHING == 0 {
        return false;
    }
    true
}

/// The next state on the way from a lease state to a target: writes are given up first,
/// then handles, then the rest.
pub open spec fn staged_target(current: u32, final_target: u32) -> u32 {
    let target = current & final_target;
    if target == current {
        current
    } else if current & LEASE_WRITE_CACHING != 0 && target & LEASE_WRITE_CACHING == 0 {
        current & !LEASE_WRITE_CACHING
    } else if current & LEASE_HANDLE_CACHING != 0 && target & LEASE_HANDLE_CACHING == 0 {
        current & !LEASE_HANDLE_CACHING
    } else {
        target
    }
}

/// The next state on the way from a lease state to a target.
pub fn staged_lease_break_target(current: u32, final_target: u32) -> (r: u32)
    ensures
        r == staged_target(current, final_target),
{
    let target: u32 = current & final_target;
    if target == current {
        return current;
    }
    if current & LEASE_WRITE_CACHING != 0 && target & LEASE_WRITE_CACHING == 0 {
        return current & !LEASE_WRITE_CACHING;
    }
    if current & LEASE_HANDLE_CACHING != 0 && target & LEASE_HANDLE_CACHING == 0 {
        return current & !LEASE_HANDLE_CACHING;
    }
    target
}

/// A break by stages gives up something at each stage until the target is reached, and
/// never what the target keeps.
pub proof fn stages_lead_to_the_target(current: u32, final_target: u32)
    ensures
        staged_target(current, final_target) & !current == 0,
        (current & final_target) & !staged_target(current, final_target) == 0,
        staged_target(current, final_target) == current <==> current & final_target == current,
        staged_target(current, final_target) & final_target == current & final_target,
{
    let target = current & final_target;
    assert(target & !current == 0 && target & !target == 0
        && current & !current == 0) by (bit_vector)
        requires
            target == current & final_target,
    ;
    assert(target & final_target == target) by (bit_vector)
        requires
            target == current & final_target,
    ;
    assert(current & 4 != 0 && target & 4 == 0 ==> (current & !4u32) & !current == 0 && target & !(
    current & !4u32) == 0 && current & !4u32 != current && (current & !4u32) & final_target
        == target) by (bit_vector)
        requires
            target == current & final_target,
    ;
    assert(current & 2 != 0 && target & 2 == 0 ==> (current & !2u32) & !current == 0 && target & !(
    current & !2u32) == 0 && current & !2u32 != current && (current & !2u32) & final_target
        == target) by (bit_vector)
        requires
            target == current & final_target,
    ;
}

/// The level that an oplock is broken to.
pub open spec fn oplock_target(current: u8, requested_target: u8) -> u8 {
    if requested_target == OPLOCK_LEVEL_II && (current == OPLOCK_EXCLUSIVE || current
        == OPLOCK_BATCH) {
        OPLOCK_LEVEL_II
    } else if requested_target == OPLOCK_NONE && (current == OPLOCK_LEVEL_II || current
        == OPLOCK_EXCLUSIVE || current == OPLOCK_BATCH) {
        OPLOCK_NONE
    } else {
        current
    }
}

/// The level that an oplock is broken to.
pub fn oplock_break_target(current: u8, requested_target: u8) -> (r: u8)
    ensures
        r == oplock_target(current, requested_target),
{
    if requested_target == OPLOCK_LEVEL_II && (current == OPLOCK_EXCLUSIVE || current
        == OPLOCK_BATCH) {
        OPLOCK_LEVEL_II
    } else if requested_target == OPLOCK_NONE && (current == OPLOCK_LEVEL_II || current
        == OPLOCK_EXCLUSIVE || current == OPLOCK_BATCH) {
        OPLOCK_NONE
    } else {
        current
    }
}

/// Whether a level answers an oplock break.
pub open spec fn oplock_ack_fits(level: u8, target: u8) -> bool {
    level == target || (target == OPLOCK_LEVEL_II && level == OPLOCK_NONE)
}

/// Whether a level answers an oplock break.
pub fn valid_oplock_break_ack_for_target(level: u8, target: u8) -> (r: bool)
    ensures
        r == oplock_ack_fits(level, target),
{
    level == target || (target == OPLOCK_LEVEL_II && level == OPLOCK_NONE)
}

/// The status that a waiting lock request is answered with when its file goes away.
pub fn cleanup_status_for_byte_range_lock_wait(status: u32) -> (r: u32)
    ensures
        r == lock_wait_status(status),
{
    if status == STATUS_NOTIFY_CLEANUP {
        STATUS_RANGE_NOT_LOCKED
    } else {
        status
    }
}

/// The status that a waiting lock request is answered with when its file goes away.
pub open spec fn lock_wait_status(status: u32) -> u32 {
    if status == STATUS_NOTIFY_CLEANUP {
        STATUS_RANGE_NOT_LOCKED
    } else {
        status
    }
}

/// A lease that a create request asks for.
#[derive(Debug, Clone, Copy, PartialEq, Eq)]
pub struct RequestedLease {
    pub key: [u8; 16],
    pub state: u32,
}

/// Whether a new open leaves a detached durable open alone: both cache handles, and no
/// writes are cached under another key.
pub open spec fn spares_detached(
    durable_version: u8,
    lease_state: u32,
    lease_key: [u8; 16],
    requested: Option<RequestedLease>,
) -> bool {
    durable_version >= 2 && requested is Some && requested->0.state & (LEASE_READ_CACHING
        | LEASE_HANDLE_CACHING) == LEASE_READ_CACHING | LEASE_HANDLE_CACHING && !(lease_state
        & LEASE_WRITE_CACHING != 0 && requested->0.key != lease_key)
}

/// Whether a new open leaves a detached durable open alone.
pub fn preserve_detached_durable_for_fresh_open(
    durable_version: u8,
    lease_state: u32,
    lease_key: [u8; 16],
    requested: Option<RequestedLease>,
) -> (r: bool)
    ensures
        r == spares_detached(durable_version, lease_state, lease_key, requested),
{
    if durable_version < 2 {
        return false;
    }
    match requested {
        None => false,
        Some(lease) => {
            let state: u32 = lease.state & (LEASE_READ_CACHING | LEASE_HANDLE_CACHING
                | LEASE_WRITE_CACHING);
            proof {
                let s = lease.state;
                assert((s & (1u32 | 2u32 | 4u32)) & (1u32 | 2u32) == s & (1u32 | 2u32))
                    by (bit_vector);
                assert(s & (1u32 | 2u32) == 1u32 | 2u32 ==> s & (1u32 | 2u32 | 4u32) != 0)
                    by (bit_vector);
            }
            if state & (LEASE_READ_CACHING | LEASE_HANDLE_CACHING) != (LEASE_READ_CACHING
                | LEASE_HANDLE_CACHING) {
                return false;
            }
            !(lease_state & LEASE_WRITE_CACHING != 0 && state != 0 && !array16_equal(
                &lease.key,
                &lease_key,
            ))
        },
    }
}

/// Whether an open caches enough to be reconnected: handles by its lease, or a batch
/// oplock.
pub open spec fn caches_handle(lease_state: u32, oplock_level: u8) -> bool {
    if lease_state != 0 {
        lease_state & LEASE_HANDLE_CACHING != 0
    } else {
        oplock_level == OPLOCK_BATCH
    }
}

/// Whether an open caches enough to be reconnected.
pub fn durable_reconnect_caching_valid(lease_state: u32, oplock_level: u8) -> (r: bool)
    ensures
        r == caches_handle(lease_state, oplock_level),
{
    if lease_state != 0 {
        lease_state & LEASE_HANDLE_CACHING != 0
    } else {
        oplock_level == OPLOCK_BATCH
    }
}

} // verus!
