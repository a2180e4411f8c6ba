//! Byte-range locks in offsets, lengths and statuses.

use crate::proto::messages::FileId;
use crate::server::locks;
use crate::server::locks::LockAnswer;
use crate::server::ruling;
use crate::server::selecting;
use crate::server::state;
use crate::server::state::StateModel;
use crate::server::types::{
    ActionModel, BodyModel, ByteRangeLockRequest, HeldLockModel, LockKeyModel, LockWaitModel,
};
use crate::server::waiting::WaitingModel;
use crate::text;
use vstd::prelude::*;

verus! {

/// Whether a range has bytes and ends before the end of all offsets.
pub open spec fn is_plain(offset: u64, length: u64) -> bool {
    length > 0 && offset + length <= u64::MAX
}

/// Whether two plain ranges have a byte in common.
pub open spec fn meet(a: u64, a_len: u64, b: u64, b_len: u64) -> bool {
    a < b + b_len && b < a + a_len
}

/// A held lock stands in the way of another that meets it where the other is exclusive, or the
/// held one is and belongs to another open; ranges that do not meet never do.
pub proof fn locks_stand_in_the_way_of_what_they_meet(
    held: ByteRangeLockRequest,
    next: ByteRangeLockRequest,
)
    requires
        is_plain(held.offset, held.length),
        is_plain(next.offset, next.length),
    ensures
        locks::stands_in_way(held, next) <==> {
            &&& meet(held.offset, held.length, next.offset, next.length)
            &&& next.exclusive || (held.exclusive && held.fid != next.fid)
        },
{
    ruling::ranges_overlap_by_their_bounds(held.offset, held.length, next.offset, next.length);
}

/// One range is granted (0) exactly where no lock on the same path and stream stands in its way,
/// and is then held behind the others; else it is not granted (0xc0000055) and nothing changes.
/// A request for no range is a wrong parameter (0xc000000d).
pub proof fn one_range_is_granted_or_not(
    held: Seq<HeldLockModel>,
    key: LockKeyModel,
    next: ByteRangeLockRequest,
)
    ensures
        ({
            let blocked = exists|i: int|
                0 <= i < held.len() && (#[trigger] held[i]).key == key && locks::stands_in_way(
                    held[i].lock,
                    next,
                );
            &&& blocked ==> locks::lock_status(held, key, seq![next]) == 0xc000_0055
                && locks::locks_after(held, key, seq![next]) == held
            &&& !blocked ==> locks::lock_status(held, key, seq![next]) == 0 && locks::locks_after(
                held,
                key,
                seq![next],
            ) == held.push(HeldLockModel { key, lock: next })
        }),
        locks::lock_status(held, key, Seq::empty()) == 0xc000_000d,
        locks::locks_after(held, key, Seq::empty()) == held,
{
    let some = seq![next];
    reveal_with_fuel(locks::first_refused, 2);
    assert(locks::with_locks(held, key, some, 0) =~= held);
    assert(some.take(1) =~= some);
    assert(locks::with_locks(held, key, some, 1) =~= held.push(HeldLockModel { key, lock: next }));
    if exists|i: int|
        0 <= i < held.len() && (#[trigger] held[i]).key == key && locks::stands_in_way(
            held[i].lock,
            next,
        ) {
        let i = choose|i: int|
            0 <= i < held.len() && (#[trigger] held[i]).key == key && locks::stands_in_way(
                held[i].lock,
                next,
            );
        assert(locks::refuses(held[i], key, next));
    }
    if locks::refused(held, key, next) {
        let i = choose|i: int| 0 <= i < held.len() && locks::refuses(#[trigger] held[i], key, next);
        assert(held[i].key == key && locks::stands_in_way(held[i].lock, next));
    }
}

/// Unlocking one range takes the first lock of the open with exactly that offset and length on
/// the path and stream; a range that the open does not hold so is not unlocked.
pub proof fn unlocking_takes_the_exact_range(
    held: Seq<HeldLockModel>,
    key: LockKeyModel,
    fid: FileId,
    offset: u64,
    length: u64,
)
    ensures
        ({
            let after = locks::unlocked(held, key, fid, seq![(offset, length)], 1);
            &&& after matches Some(left) ==> exists|i: int|
                0 <= i < held.len() && (#[trigger] held[i]).key == key && held[i].lock.fid == fid
                    && held[i].lock.offset == offset && held[i].lock.length == length && left
                    == held.remove(i)
            &&& after is None ==> forall|i: int|
                0 <= i < held.len() ==> !((#[trigger] held[i]).key == key && held[i].lock.fid == fid
                    && held[i].lock.offset == offset && held[i].lock.length == length)
        }),
{
    let range = (offset, length);
    reveal_with_fuel(locks::unlocked, 2);
    lemma_range_found(held, key, fid, range);
    assert(seq![range][0] == range);
    let at = locks::range_index(held, key, fid, range);
    if at < held.len() {
        assert(locks::is_range(held[at], key, fid, range));
    } else {
        assert forall|i: int| 0 <= i < held.len() implies !((#[trigger] held[i]).key == key
            && held[i].lock.fid == fid && held[i].lock.offset == offset && held[i].lock.length
            == length) by {
            assert(!locks::is_range(held[i], key, fid, range));
        }
    }
}

proof fn lemma_range_found(
    held: Seq<HeldLockModel>,
    key: LockKeyModel,
    fid: FileId,
    range: (u64, u64),
)
    ensures
        0 <= locks::range_index(held, key, fid, range) <= held.len(),
        locks::range_index(held, key, fid, range) < held.len() ==> locks::is_range(
            held[locks::range_index(held, key, fid, range)],
            key,
            fid,
            range,
        ),
        forall|i: int|
            0 <= i < locks::range_index(held, key, fid, range) ==> !locks::is_range(
                #[trigger] held[i],
                key,
                fid,
                range,
            ),
    decreases held.len(),
{
    if held.len() > 0 && !locks::is_range(held[0], key, fid, range) {
        let tail = held.skip(1);
        lemma_range_found(tail, key, fid, range);
        let n = locks::range_index(held, key, fid, range);
        assert forall|i: int| 0 <= i < n implies !locks::is_range(
            #[trigger] held[i],
            key,
            fid,
            range,
        ) by {
            if i > 0 {
                assert(!locks::is_range(tail[i - 1], key, fid, range));
            }
        }
        if locks::range_index(tail, key, fid, range) < tail.len() {
            assert(tail[locks::range_index(tail, key, fid, range)] == held[n]);
        }
    }
}

/// Reading bytes is forbidden by the exclusive locks of others that meet them, and by no other
/// lock; writing also by the shared locks that meet them, the open's own too. On other paths or
/// streams nothing is forbidden.
pub proof fn locks_forbid_reads_and_writes(
    l: HeldLockModel,
    key: LockKeyModel,
    fid: FileId,
    offset: u64,
    length: u64,
)
    requires
        is_plain(l.lock.offset, l.lock.length),
        is_plain(offset, length),
    ensures
        locks::forbids_read(l, key, fid, offset, length) <==> {
            &&& l.key == key
            &&& meet(l.lock.offset, l.lock.length, offset, length)
            &&& l.lock.exclusive && l.lock.fid != fid
        },
        locks::forbids_write(l, key, fid, offset, length) <==> {
            &&& l.key == key
            &&& meet(l.lock.offset, l.lock.length, offset, length)
            &&& !l.lock.exclusive || l.lock.fid != fid
        },
{
    ruling::ranges_overlap_by_their_bounds(l.lock.offset, l.lock.length, offset, length);
}

/// A write of bytes that a lock forbids is in conflict with a lock (0xc0000054); any other write,
/// and a write of nothing, goes through.
pub proof fn writes_are_judged_by_locks(
    held: Seq<HeldLockModel>,
    key: LockKeyModel,
    fid: FileId,
    offset: u64,
    length: u64,
    i: int,
)
    requires
        0 <= i < held.len(),
    ensures
        length > 0 && locks::forbids_write(held[i], key, fid, offset, length)
            ==> locks::write_status(held, key, fid, offset, length) == 0xc000_0054,
        locks::write_status(held, key, fid, offset, 0) == 0,
        (forall|k: int|
            0 <= k < held.len() ==> !locks::forbids_write(
                #[trigger] held[k],
                key,
                fid,
                offset,
                length,
            )) ==> locks::write_status(held, key, fid, offset, length) == 0,
{
}

/// What is locked is known by share, path and stream in any case.
pub proof fn lock_keys_ignore_case(
    share: Seq<char>,
    other: Seq<char>,
    path: crate::path::PathModel,
    stream_name: Option<Seq<char>>,
)
    requires
        text::lowered(share) == text::lowered(other),
    ensures
        locks::lock_key(share, path, stream_name) == locks::lock_key(other, path, stream_name),
        locks::lock_key(share, path, stream_name).share == text::lowered(share),
        locks::lock_key(share, path, None).stream_name is None,
        stream_name is Some ==> locks::lock_key(share, path, stream_name).stream_name == Some(
            text::lowered(stream_name->0),
        ),
        locks::lock_key(share, path, stream_name).path == text::lowered(
            crate::path::displayed(path),
        ),
{
}

/// The locks of an open on a path and stream are dropped, and no others.
pub proof fn dropped_locks_are_the_opens_own(
    m: StateModel,
    share: Seq<char>,
    path: crate::path::PathModel,
    stream_name: Option<Seq<char>>,
    fid: FileId,
    l: HeldLockModel,
)
    ensures
        ({
            let key = locks::lock_key(share, path, stream_name);
            let after = locks::locks_dropped(m, share, path, stream_name, fid).byte_range_locks;
            after.contains(l) <==> m.byte_range_locks.contains(l) && !(l.key == key && l.lock.fid
                == fid)
        }),
{
    let key = locks::lock_key(share, path, stream_name);
    let s = m.byte_range_locks;
    let test = |l: HeldLockModel| locks::held_by(l, key, fid);
    assert(s.map_values(|l: HeldLockModel| locks::held_by(l, key, fid)) =~= s.map_values(test));
    selecting::items_are_parted_by_a_test(s, test, l);
}

/// A waiting request that can be granted now is answered with success and a body of four bytes
/// that say so; its ranges are held, and its open's lock sequence is used up. One that cannot
/// keeps waiting.
pub proof fn waiting_locks_are_granted_when_they_can_be(
    m: StateModel,
    w: WaitingModel<LockWaitModel>,
)
    ensures
        ({
            let r = locks::retried(m, seq![w]);
            let key = locks::lock_key(w.detail.share, w.detail.path, w.detail.stream_name);
            let status = locks::lock_status(m.byte_range_locks, key, w.detail.locks);
            &&& status == 0xc000_0055 ==> r.still == seq![w] && r.done.len() == 0 && r.actions.len()
                == 0
            &&& status != 0xc000_0055 ==> r.still.len() == 0 && r.done == seq![
                LockAnswer { wait: w, status },
            ] && r.locks == locks::locks_after(m.byte_range_locks, key, w.detail.locks)
            &&& status == 0 && state::open_alive(m.opens, w.detail.open) ==> r.actions == seq![
                ActionModel::RecordLockSequence {
                    open: w.detail.open,
                    dialect: w.detail.dialect,
                    sequence: w.detail.lock_sequence,
                },
            ]
        }),
        locks::lock_body(0) == BodyModel::Data(seq![4u8, 0, 0, 0]),
        forall|status: u32| status != 0 ==> #[trigger] locks::lock_body(status) == BodyModel::Error,
{
    reveal_with_fuel(locks::retried, 2);
    assert(seq![w].drop_last() =~= Seq::empty());
    assert(seq![w].last() == w);
    assert(Seq::<WaitingModel<LockWaitModel>>::empty().push(w) =~= seq![w]);
    let status = locks::lock_status(m.byte_range_locks, locks::wait_key(w), w.detail.locks);
    assert(Seq::<LockAnswer>::empty().push(LockAnswer { wait: w, status }) =~= seq![
        LockAnswer { wait: w, status },
    ]);
    let act = ActionModel::RecordLockSequence {
        open: w.detail.open,
        dialect: w.detail.dialect,
        sequence: w.detail.lock_sequence,
    };
    assert(Seq::<ActionModel>::empty().push(act) =~= seq![act]);
    let body = crate::proto::messages::LockResponse { structure_size: 4, reserved: 0 };
    assert(body.encoding() =~= seq![4u8, 0, 0, 0]);
}

/// A renamed path takes its locks with it: a lock of the share on the path, or below it, has the
/// new path in place of the old one, and keeps its range, open and stream.
pub proof fn locks_follow_renames(
    l: HeldLockModel,
    share: Seq<char>,
    from: Seq<char>,
    to: Seq<char>,
    rest: Seq<char>,
)
    requires
        to.len() > 0,
    ensures
        l.key.share == share && l.key.path == from ==> locks::lock_renames(l, share, from, to)
            && locks::renamed_lock(l, from, to).key.path == to,
        l.key.share == share && l.key.path == from + seq!['\\'] + rest ==> locks::lock_renames(
            l,
            share,
            from,
            to,
        ) && locks::renamed_lock(l, from, to).key.path == to + seq!['\\'] + rest,
        l.key.share != share ==> !locks::lock_renames(l, share, from, to),
        locks::renamed_lock(l, from, to).lock == l.lock,
        locks::renamed_lock(l, from, to).key.stream_name == l.key.stream_name,
        locks::renamed_lock(l, from, to).key.share == l.key.share,
{
    let whole = from + seq!['\\'] + rest;
    let n = from.len() as int;
    assert(whole.take(n) =~= from);
    assert(whole.skip(n + 1) =~= rest);
    assert(whole[n] == '\\');
    assert(whole.len() > n);
}

} // verus!
