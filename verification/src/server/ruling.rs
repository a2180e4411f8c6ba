//! What the rules decide, in the bits and numbers that clients send.

use crate::server::rules;
use crate::server::rules::RequestedLease;
use vstd::prelude::*;

verus! {

/// Whether access takes part in sharing: it reads data (0x1) or executes (0x20), writes data
/// (0x2) or appends (0x4), or deletes (0x10000).
pub open spec fn shares(access: u32) -> bool {
    access & 0x21 != 0 || access & 0x06 != 0 || access & 0x0001_0000 != 0
}

/// The rights to cache reads (0x1), handles (0x2) and writes (0x4) are bits of their own, as are
/// those to share reads, writes and deletion, and the kinds of changes to size and contents.
pub proof fn rights_add_up()
    ensures
        0x1u32 | 0x2u32 == 0x3,
        0x4u32 | 0x2u32 == 0x6,
        0x2u32 | 0x4u32 == 0x6,
        0x1u32 | 0x4u32 == 0x5,
        0x8u32 | 0x10u32 == 0x18,
{
    assert(0x1u32 | 0x2u32 == 0x3 && 0x4u32 | 0x2u32 == 0x6 && 0x2u32 | 0x4u32 == 0x6 && 0x1u32
        | 0x4u32 == 0x5 && 0x8u32 | 0x10u32 == 0x18) by (bit_vector);
}

/// Two opens exclude each other exactly where one of them reads, writes or deletes what the
/// other, which takes part in sharing, does not share: reads go by bit 0x1 of the share mode,
/// writes by 0x2, deletion by 0x4.
pub proof fn opens_exclude_by_kind(a: u32, a_share: u32, b: u32, b_share: u32)
    ensures
        shares(a) && b & 0x21 != 0 && a_share & 0x1 == 0 ==> rules::opens_conflict(
            a,
            a_share,
            b,
            b_share,
        ),
        shares(a) && b & 0x06 != 0 && a_share & 0x2 == 0 ==> rules::opens_conflict(
            a,
            a_share,
            b,
            b_share,
        ),
        shares(a) && b & 0x0001_0000 != 0 && a_share & 0x4 == 0 ==> rules::opens_conflict(
            a,
            a_share,
            b,
            b_share,
        ),
        !shares(a) && !shares(b) ==> !rules::opens_conflict(a, a_share, b, b_share),
        !shares(a) ==> !rules::opens_conflict(a, a_share, b, b_share),
        (b & 0x21 != 0 ==> a_share & 0x1 != 0) && (b & 0x06 != 0 ==> a_share & 0x2 != 0) && (b
            & 0x0001_0000 != 0 ==> a_share & 0x4 != 0) && (a & 0x21 != 0 ==> b_share & 0x1 != 0)
            && (a & 0x06 != 0 ==> b_share & 0x2 != 0) && (a & 0x0001_0000 != 0 ==> b_share & 0x4
            != 0) ==> !rules::opens_conflict(a, a_share, b, b_share),
{
}

/// Access is for looking at attributes only where it has nothing but the rights to read
/// attributes, to write them, to wait and to read the descriptor, and the last one stands alone
/// or beside the right to wait.
pub proof fn stat_opens_only_look(access: u32)
    ensures
        rules::stat_open(access) ==> access != 0 && access & !0x0012_0180u32 == 0,
        access != 0 && access & !0x0010_0180u32 == 0 ==> rules::stat_open(access),
        access == 0x0002_0000 || access == 0x0012_0000 ==> rules::stat_open(access),
        access & 0x0002_0000 != 0 && access != 0x0002_0000 && access != 0x0012_0000
            ==> !rules::stat_open(access),
        !rules::stat_open(0),
{
    assert((access & !0x0010_0180u32 == 0 ==> access & !0x0012_0180u32 == 0 && access & 0x0002_0000
        == 0) && 0x0002_0000u32 & !0x0012_0180u32 == 0 && 0x0012_0000u32 & !0x0012_0180u32 == 0
        && 0x0010_0000u32 & 0x0002_0000u32 == 0) by (bit_vector);
}

/// Two ranges that are not empty and do not wrap overlap exactly where each starts before the
/// other ends. An empty range overlaps exactly the ranges that it lies strictly within.
pub proof fn ranges_overlap_by_their_bounds(a: u64, a_len: u64, b: u64, b_len: u64)
    requires
        a + a_len <= u64::MAX,
        b + b_len <= u64::MAX,
    ensures
        a_len > 0 && b_len > 0 ==> (rules::overlap(a, a_len, b, b_len) <==> a < b + b_len && b < a
            + a_len),
        a_len == 0 && b_len > 0 ==> (rules::overlap(a, a_len, b, b_len) <==> b < a < b + b_len),
        a_len > 0 && b_len == 0 ==> (rules::overlap(a, a_len, b, b_len) <==> a < b < a + a_len),
        a_len == 0 && b_len == 0 ==> !rules::overlap(a, a_len, b, b_len),
{
}

/// What is allocated is the least multiple of 4096 that holds the size.
pub proof fn allocation_is_the_least_that_holds(size: u64)
    requires
        size + 4095 <= u64::MAX,
    ensures
        rules::rounded_allocation(size) % 4096 == 0,
        size <= rules::rounded_allocation(size) < size + 4096,
{
}

/// The attributes that are kept: a directory has the directory bit and neither archive nor
/// normal; a file never has the directory bit, has normal (0x80) exactly where it has nothing
/// else, and keeps each of the other meaningful bits that were set.
pub proof fn stored_attributes_keep_what_was_set(attributes: u32)
    ensures
        rules::stored_attributes(attributes, true) == (attributes & 0x1117) | 0x10,
        attributes & 0x1127 == 0 ==> rules::stored_attributes(attributes, false) == 0x80,
        attributes & 0x1127 != 0 ==> rules::stored_attributes(attributes, false) == attributes
            & 0x1127,
{
    assert(((attributes & 0x11b7) & !0x20u32 & !0x80u32) | 0x10 == (attributes & 0x1117) | 0x10
        && ((attributes & 0x11b7) & !0x10u32) & !0x80u32 == attributes & 0x1127 && ((attributes
        & 0x1127 == 0) == ((attributes & 0x11b7) & !0x10u32 == 0 || (attributes & 0x11b7)
        & !0x10u32 == 0x80))) by (bit_vector);
}

/// A lease state answers a break where it has no bit that was to be given up, and does not
/// cache handles (0x2) without reads (0x1). To give up everything always answers; to keep a bit
/// that was to go never does.
pub proof fn acknowledgments_give_up_what_was_asked(ack: u32, break_to: u32)
    ensures
        rules::ack_fits(0, break_to),
        ack & !break_to != 0 ==> !rules::ack_fits(ack, break_to),
        ack & 0x2 != 0 && ack & 0x1 == 0 ==> !rules::ack_fits(ack, break_to),
        ack & !break_to == 0 && (ack & 0x2 == 0 || ack & 0x1 != 0) ==> rules::ack_fits(
            ack,
            break_to,
        ),
{
    assert(0u32 & !break_to == 0 && 0u32 & 0x2 == 0) by (bit_vector);
}

/// A break that takes both away takes writes (0x4) first and handles (0x2) next; it never asks
/// for a bit that was not there.
pub proof fn writes_go_before_handles(current: u32, target: u32)
    ensures
        current & 0x4 != 0 && target & 0x4 == 0 ==> rules::staged_target(current, target)
            == current & !0x4u32,
        (current & 0x4 == 0 || target & 0x4 != 0) && current & 0x2 != 0 && target & 0x2 == 0
            ==> rules::staged_target(current, target) == current & !0x2u32,
        current & !target == 0 ==> rules::staged_target(current, target) == current,
        (current & 0x6) & !target == 0 ==> rules::staged_target(current, target) == current
            & target,
{
    assert((current & 0x4 != 0 && target & 0x4 == 0 ==> current & target != current && (current
        & target) & 0x4 == 0) && (current & 0x2 != 0 && target & 0x2 == 0 ==> current & target
        != current && (current & target) & 0x2 == 0) && ((current & 0x4 == 0 || target & 0x4 != 0)
        ==> (current & 0x4 == 0 || (current & target) & 0x4 != 0)) && (current & !target == 0
        ==> current & target == current) && ((current & 0x6) & !target == 0 ==> (current & 0x4 == 0
        || (current & target) & 0x4 != 0) && (current & 0x2 == 0 || (current & target) & 0x2 != 0)))
        by (bit_vector);
}

/// An exclusive (8) or batch (9) oplock is broken to level two (1) where that is asked for, any
/// oplock to none (0) where that is asked for; otherwise it stays. A break to level two is
/// answered by level two or by none, a break to none by none alone.
pub proof fn oplocks_break_to_what_is_asked(current: u8, asked: u8, level: u8)
    ensures
        current == 8 || current == 9 ==> rules::oplock_target(current, 1) == 1,
        current == 1 || current == 8 || current == 9 ==> rules::oplock_target(current, 0) == 0,
        current == 0 || current == 1 ==> rules::oplock_target(current, 1) == current,
        asked != 0 && asked != 1 ==> rules::oplock_target(current, asked) == current,
        rules::oplock_target(0, asked) == 0,
        rules::oplock_ack_fits(level, 1) <==> level == 1 || level == 0,
        rules::oplock_ack_fits(level, 0) <==> level == 0,
{
}

/// A waiting lock request whose watch would be told of a cleanup (0x10b) is told that the range
/// is not locked; any other status is handed on.
pub proof fn lock_waits_are_not_cleaned_up(status: u32)
    ensures
        rules::lock_wait_status(0x10b) == 0xc000_007e,
        status != 0x10b ==> rules::lock_wait_status(status) == status,
{
}

/// An open can be reconnected where its lease caches handles (0x2) or, where it has no lease
/// state, its oplock is batch (9).
pub proof fn reconnectable_opens_cache_handles(lease_state: u32, level: u8)
    ensures
        lease_state != 0 ==> rules::caches_handle(lease_state, level) == (lease_state & 0x2 != 0),
        rules::caches_handle(0, level) == (level == 9),
{
}

/// A new open leaves a detached open alone only where it asks for a lease that caches reads and
/// handles, the detached open is durable in the second version, and the new lease has its key
/// or it caches no writes (0x4).
pub proof fn detached_opens_are_spared_by_leases(
    version: u8,
    lease_state: u32,
    key: [u8; 16],
    requested: Option<RequestedLease>,
)
    ensures
        requested is None ==> !rules::spares_detached(version, lease_state, key, requested),
        version < 2 ==> !rules::spares_detached(version, lease_state, key, requested),
        requested matches Some(l) ==> {
            &&& l.state & 0x3 != 0x3 ==> !rules::spares_detached(
                version,
                lease_state,
                key,
                requested,
            )
            &&& lease_state & 0x4 != 0 && l.key != key ==> !rules::spares_detached(
                version,
                lease_state,
                key,
                requested,
            )
            &&& version >= 2 && l.state & 0x3 == 0x3 && (lease_state & 0x4 == 0 || l.key == key)
                ==> rules::spares_detached(version, lease_state, key, requested)
        },
{
    rights_add_up();
}

} // verus!
