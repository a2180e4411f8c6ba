//! Byte-range locks.

use crate::ntstatus::{
    STATUS_FILE_LOCK_CONFLICT, STATUS_INVALID_PARAMETER, STATUS_LOCK_NOT_GRANTED,
    STATUS_RANGE_NOT_LOCKED, STATUS_SUCCESS,
};
use crate::path;
use crate::path::{rebase_lowercase_path, PathModel, SmbPath};
use crate::proto::messages::lock::LockResponse;
use crate::proto::messages::FileId;
use crate::server::rules;
use crate::server::rules::{cleanup_status_for_byte_range_lock_wait, ranges_overlap};
use crate::server::state;
use crate::server::state::{ServerState, StateModel};
use crate::server::types;
use crate::server::types::{
    Action, ActionModel, BodyModel, ByteRangeLockKey, ByteRangeLockRequest, HeldLock, HeldLockModel,
    LockKeyModel, LockWait, LockWaitModel, ResponseBody,
};
use crate::server::waiting;
use crate::server::waiting::{
    put_waiting, take_flagged, take_selected, take_waiting_flagged, Selector, Waiting, WaitingModel,
};
use crate::text;
use crate::text::lower_string;
use vstd::prelude::*;

verus! {

/// The key of a path and stream in a share.
pub open spec fn lock_key(
    share: Seq<char>,
    path: PathModel,
    stream_name: Option<Seq<char>>,
) -> LockKeyModel {
    LockKeyModel {
        share: text::lowered(share),
        path: text::lowered(path::displayed(path)),
        stream_name: types::opt_lowered(stream_name),
    }
}

impl ByteRangeLockKey {
    /// The key of a path and stream in a share.
    pub fn new(share: &str, path: &SmbPath, stream_name: Option<&str>) -> (r: Self)
        ensures
            r@ == lock_key(share@, path@, types::opt_str(stream_name)),
    {
        let shown: String = path.display_backslash();
        ByteRangeLockKey {
            share: lower_string(share),
            path: lower_string(shown.as_str()),
            stream_name: types::lower_opt(stream_name),
        }
    }

    fn same(&self, other: &Self) -> (r: bool)
        ensures
            r == (self@ == other@),
    {
        self.share == other.share && self.path == other.path && types::opt_equal(
            &self.stream_name,
            &other.stream_name,
        )
    }

    fn duplicate(&self) -> (r: Self)
        ensures
            r@ == self@,
    {
        ByteRangeLockKey {
            share: self.share.clone(),
            path: self.path.clone(),
            stream_name: types::clone_opt(&self.stream_name),
        }
    }
}

// ---------------------------------------------------------------------------
// Conflicts
// ---------------------------------------------------------------------------

/// Whether a held lock stands in the way of another: they overlap, and the other is
/// exclusive, or they are of different opens and one of them is exclusive.
pub open spec fn stands_in_way(held: ByteRangeLockRequest, next: ByteRangeLockRequest) -> bool {
    rules::overlap(held.offset, held.length, next.offset, next.length) && (next.exclusive || (
    held.fid != next.fid && held.exclusive))
}

/// Whether a lock held on a key stands in the way of another.
pub open spec fn refuses(l: HeldLockModel, key: LockKeyModel, next: ByteRangeLockRequest) -> bool {
    l.key == key && stands_in_way(l.lock, next)
}

/// Whether some lock held on a key stands in the way of another.
pub open spec fn refused(
    locks: Seq<HeldLockModel>,
    key: LockKeyModel,
    next: ByteRangeLockRequest,
) -> bool {
    exists|i: int| 0 <= i < locks.len() && refuses(#[trigger] locks[i], key, next)
}

/// Locks of different opens stand in each other's way, or neither does.
pub proof fn lock_conflicts_are_mutual(a: ByteRangeLockRequest, b: ByteRangeLockRequest)
    requires
        a.fid != b.fid,
    ensures
        stands_in_way(a, b) == stands_in_way(b, a),
{
    rules::overlap_is_mutual(a.offset, a.length, b.offset, b.length);
}

/// Shared locks never stand in each other's way.
pub proof fn shared_locks_coexist(a: ByteRangeLockRequest, b: ByteRangeLockRequest)
    requires
        !a.exclusive,
        !b.exclusive,
    ensures
        !stands_in_way(a, b),
{
}

// ---------------------------------------------------------------------------
// Locking
// ---------------------------------------------------------------------------

/// Locks after the first `n` requests were added.
pub open spec fn with_locks(
    locks: Seq<HeldLockModel>,
    key: LockKeyModel,
    requests: Seq<ByteRangeLockRequest>,
    n: int,
) -> Seq<HeldLockModel> {
    locks + requests.take(n).map_values(|r: ByteRangeLockRequest| HeldLockModel { key, lock: r })
}

/// The first request from `n` on that is refused when those before it are granted; the
/// number of requests where none is.
pub open spec fn first_refused(
    locks: Seq<HeldLockModel>,
    key: LockKeyModel,
    requests: Seq<ByteRangeLockRequest>,
    n: int,
) -> int
    decreases requests.len() - n,
{
    if n < 0 || n >= requests.len() {
        requests.len() as int
    } else if refused(with_locks(locks, key, requests, n), key, requests[n]) {
        n
    } else {
        first_refused(locks, key, requests, n + 1)
    }
}

/// Whether a lock on a key is one of some requests.
pub open spec fn is_one_of(
    l: HeldLockModel,
    key: LockKeyModel,
    requests: Seq<ByteRangeLockRequest>,
) -> bool {
    l.key == key && requests.contains(l.lock)
}

/// Locks without those on a key that are among some requests.
pub open spec fn without_requests(
    locks: Seq<HeldLockModel>,
    key: LockKeyModel,
    requests: Seq<ByteRangeLockRequest>,
) -> Seq<HeldLockModel> {
    waiting::unflagged(
        locks,
        locks.map_values(|l: HeldLockModel| is_one_of(l, key, requests)),
    )
}

/// The status of a lock request.
pub open spec fn lock_status(
    locks: Seq<HeldLockModel>,
    key: LockKeyModel,
    requests: Seq<ByteRangeLockRequest>,
) -> u32 {
    if requests.len() == 0 {
        STATUS_INVALID_PARAMETER
    } else if first_refused(locks, key, requests, 0) < requests.len() {
        STATUS_LOCK_NOT_GRANTED
    } else {
        STATUS_SUCCESS
    }
}

/// Locks after a lock request: all are granted, or those that were granted on the way are
/// taken back.
pub open spec fn locks_after(
    locks: Seq<HeldLockModel>,
    key: LockKeyModel,
    requests: Seq<ByteRangeLockRequest>,
) -> Seq<HeldLockModel> {
    let n = first_refused(locks, key, requests, 0);
    if requests.len() == 0 || n == 0 {
        locks
    } else if n < requests.len() {
        without_requests(with_locks(locks, key, requests, n), key, requests.take(n))
    } else {
        with_locks(locks, key, requests, requests.len() as int)
    }
}

proof fn lemma_unflagged_suffix<A>(s: Seq<A>, flags: Seq<bool>, n: int)
    requires
        0 <= n <= s.len(),
        forall|i: int| 0 <= i < n ==> !#[trigger] flags[i],
        forall|i: int| n <= i < s.len() ==> #[trigger] flags[i],
    ensures
        waiting::unflagged(s, flags) == s.take(n),
    decreases s.len(),
{
    if s.len() > n {
        assert(flags[s.len() - 1]);
        lemma_unflagged_suffix(s.drop_last(), flags, n);
        assert(s.drop_last().take(n) =~= s.take(n));
    } else {
        waiting::unflagged_none(s, flags);
        assert(s.take(n) =~= s);
    }
}

/// A lock request grants all its ranges or changes nothing, unless a range that it asks
/// for was locked already just so.
pub proof fn locking_is_all_or_nothing(
    locks: Seq<HeldLockModel>,
    key: LockKeyModel,
    requests: Seq<ByteRangeLockRequest>,
)
    requires
        forall|i: int| 0 <= i < locks.len() ==> !is_one_of(#[trigger] locks[i], key, requests),
    ensures
        lock_status(locks, key, requests) == STATUS_SUCCESS ==> locks_after(locks, key, requests)
            == with_locks(locks, key, requests, requests.len() as int),
        lock_status(locks, key, requests) != STATUS_SUCCESS ==> locks_after(locks, key, requests)
            == locks,
{
    lemma_first_refused(locks, key, requests, 0);
    let n = first_refused(locks, key, requests, 0);
    if 0 < n < requests.len() {
        let all = with_locks(locks, key, requests, n);
        let some = requests.take(n);
        let flags = all.map_values(|l: HeldLockModel| is_one_of(l, key, some));
        assert forall|i: int| 0 <= i < locks.len() implies !#[trigger] flags[i] by {
            assert(all[i] == locks[i]);
            assert(!is_one_of(locks[i], key, requests));
            if some.contains(locks[i].lock) {
                let j = choose|j: int| 0 <= j < some.len() && some[j] == locks[i].lock;
                assert(requests[j] == locks[i].lock);
            }
        }
        assert forall|i: int| locks.len() <= i < all.len() implies #[trigger] flags[i] by {
            let j = i - locks.len();
            assert(all[i].lock == requests[j]);
            assert(some[j] == requests[j]);
        }
        lemma_unflagged_suffix(all, flags, locks.len() as int);
        assert(all.take(locks.len() as int) =~= locks);
    }
}

proof fn lemma_first_refused(
    locks: Seq<HeldLockModel>,
    key: LockKeyModel,
    requests: Seq<ByteRangeLockRequest>,
    n: int,
)
    requires
        0 <= n <= requests.len(),
    ensures
        n <= first_refused(locks, key, requests, n) <= requests.len(),
    decreases requests.len() - n,
{
    if n < requests.len() {
        lemma_first_refused(locks, key, requests, n + 1);
    }
}

// ---------------------------------------------------------------------------
// Unlocking
// ---------------------------------------------------------------------------

/// Whether a lock is that of an open on a key with an exact range.
pub open spec fn is_range(
    l: HeldLockModel,
    key: LockKeyModel,
    fid: FileId,
    range: (u64, u64),
) -> bool {
    l.key == key && l.lock.fid == fid && l.lock.offset == range.0 && l.lock.length == range.1
}

/// Where the first lock with an exact range stands; the number of locks where there is
/// none.
pub open spec fn range_index(
    locks: Seq<HeldLockModel>,
    key: LockKeyModel,
    fid: FileId,
    range: (u64, u64),
) -> int
    decreases locks.len(),
{
    if locks.len() == 0 {
        0
    } else if is_range(locks[0], key, fid, range) {
        0
    } else {
        1 + range_index(locks.skip(1), key, fid, range)
    }
}

proof fn lemma_range_index(
    locks: Seq<HeldLockModel>,
    key: LockKeyModel,
    fid: FileId,
    range: (u64, u64),
    at: int,
)
    requires
        0 <= at <= locks.len(),
        at < locks.len() ==> is_range(locks[at], key, fid, range),
        forall|i: int| 0 <= i < at ==> !is_range(#[trigger] locks[i], key, fid, range),
    ensures
        range_index(locks, key, fid, range) == at,
    decreases locks.len(),
{
    if locks.len() > 0 && at > 0 {
        assert(!is_range(locks[0], key, fid, range));
        let tail = locks.skip(1);
        assert forall|i: int| 0 <= i < at - 1 implies !is_range(#[trigger] tail[i], key, fid,
            range) by {
            assert(tail[i] == locks[i + 1]);
        }
        if at < locks.len() {
            assert(tail[at - 1] == locks[at]);
        }
        lemma_range_index(tail, key, fid, range, at - 1);
    }
}

/// Locks after the first `n` ranges were unlocked; `None` where one of them is not locked.
pub open spec fn unlocked(
    locks: Seq<HeldLockModel>,
    key: LockKeyModel,
    fid: FileId,
    ranges: Seq<(u64, u64)>,
    n: int,
) -> Option<Seq<HeldLockModel>>
    decreases n,
{
    if n <= 0 {
        Some(locks)
    } else {
        match unlocked(locks, key, fid, ranges, n - 1) {
            None => None,
            Some(before) => {
                let at = range_index(before, key, fid, ranges[n - 1]);
                if at < before.len() {
                    Some(before.remove(at))
                } else {
                    None
                }
            },
        }
    }
}

/// How many of the ranges can be unlocked one after the other.
pub open spec fn unlockable(
    locks: Seq<HeldLockModel>,
    key: LockKeyModel,
    fid: FileId,
    ranges: Seq<(u64, u64)>,
    n: int,
) -> int
    decreases ranges.len() - n,
{
    if n < 0 || n >= ranges.len() {
        ranges.len() as int
    } else if unlocked(locks, key, fid, ranges, n + 1) is None {
        n
    } else {
        unlockable(locks, key, fid, ranges, n + 1)
    }
}

/// Unlocking a range that was just locked gives the locks as they were before.
pub proof fn unlock_undoes_lock(
    locks: Seq<HeldLockModel>,
    key: LockKeyModel,
    request: ByteRangeLockRequest,
)
    requires
        forall|i: int|
            0 <= i < locks.len() ==> !is_range(
                #[trigger] locks[i],
                key,
                request.fid,
                (request.offset, request.length),
            ),
    ensures
        unlocked(
            with_locks(locks, key, seq![request], 1),
            key,
            request.fid,
            seq![(request.offset, request.length)],
            1,
        ) == Some(locks),
{
    let range = (request.offset, request.length);
    let all = with_locks(locks, key, seq![request], 1);
    assert(seq![request].take(1) =~= seq![request]);
    assert(all =~= locks.push(HeldLockModel { key, lock: request }));
    assert forall|i: int| 0 <= i < locks.len() implies !is_range(
        #[trigger] all[i],
        key,
        request.fid,
        range,
    ) by {
        assert(all[i] == locks[i]);
    }
    lemma_range_index(all, key, request.fid, range, locks.len() as int);
    reveal_with_fuel(unlocked, 2);
    assert(all.remove(locks.len() as int) =~= locks);
}

// ---------------------------------------------------------------------------
// Checks
// ---------------------------------------------------------------------------

/// Whether a lock forbids an open to read a range.
pub open spec fn forbids_read(
    l: HeldLockModel,
    key: LockKeyModel,
    fid: FileId,
    offset: u64,
    length: u64,
) -> bool {
    l.key == key && l.lock.fid != fid && l.lock.exclusive && rules::overlap(
        l.lock.offset,
        l.lock.length,
        offset,
        length,
    )
}

/// Whether a lock forbids an open to write a range.
pub open spec fn forbids_write(
    l: HeldLockModel,
    key: LockKeyModel,
    fid: FileId,
    offset: u64,
    length: u64,
) -> bool {
    l.key == key && rules::overlap(l.lock.offset, l.lock.length, offset, length) && (l.lock.fid
        != fid || !l.lock.exclusive)
}

/// The status of a write to a range, as far as locks go.
pub open spec fn write_status(
    locks: Seq<HeldLockModel>,
    key: LockKeyModel,
    fid: FileId,
    offset: u64,
    length: u64,
) -> u32 {
    if length != 0 && exists|i: int|
        0 <= i < locks.len() && forbids_write(#[trigger] locks[i], key, fid, offset, length) {
        STATUS_FILE_LOCK_CONFLICT
    } else {
        STATUS_SUCCESS
    }
}

/// Who may not read a range may not write it.
pub proof fn write_checks_are_stricter(
    l: HeldLockModel,
    key: LockKeyModel,
    fid: FileId,
    offset: u64,
    length: u64,
)
    ensures
        forbids_read(l, key, fid, offset, length) ==> forbids_write(l, key, fid, offset, length),
{
}

/// An exclusive lock shuts others out: who does not hold it can neither read nor write
/// bytes of its range.
pub proof fn exclusive_locks_shut_others_out(
    locks: Seq<HeldLockModel>,
    i: int,
    fid: FileId,
    offset: u64,
    length: u64,
)
    requires
        0 <= i < locks.len(),
        locks[i].lock.exclusive,
        locks[i].lock.fid != fid,
        length > 0,
        rules::overlap(locks[i].lock.offset, locks[i].lock.length, offset, length),
    ensures
        forbids_read(locks[i], locks[i].key, fid, offset, length),
        write_status(locks, locks[i].key, fid, offset, length) == STATUS_FILE_LOCK_CONFLICT,
{
    assert(forbids_write(locks[i], locks[i].key, fid, offset, length));
}

/// Whether a lock is held by an open on a key.
pub open spec fn held_by(l: HeldLockModel, key: LockKeyModel, fid: FileId) -> bool {
    l.key == key && l.lock.fid == fid
}

/// The state after the locks of an open on a key are gone.
pub open spec fn locks_dropped(
    m: StateModel,
    share: Seq<char>,
    path: PathModel,
    stream_name: Option<Seq<char>>,
    fid: FileId,
) -> StateModel {
    let key = lock_key(share, path, stream_name);
    StateModel {
        byte_range_locks: waiting::unflagged(
            m.byte_range_locks,
            m.byte_range_locks.map_values(|l: HeldLockModel| held_by(l, key, fid)),
        ),
        ..m
    }
}

/// Whether a lock is held on bytes of a file.
pub open spec fn is_backed(l: HeldLockModel, key: LockKeyModel, end_of_file: u64) -> bool {
    l.key == key && l.lock.length != 0 && l.lock.offset < end_of_file
}

/// Whether renaming moves a lock.
pub open spec fn lock_renames(
    l: HeldLockModel,
    share: Seq<char>,
    from: Seq<char>,
    to: Seq<char>,
) -> bool {
    l.key.share == share && path::rebased(l.key.path, from, to) is Some
}

/// A lock after renaming.
pub open spec fn renamed_lock(l: HeldLockModel, from: Seq<char>, to: Seq<char>) -> HeldLockModel {
    HeldLockModel {
        key: LockKeyModel { path: path::rebased(l.key.path, from, to)->0, ..l.key },
        ..l
    }
}

/// Locks after a path was renamed: those on it and below it follow, behind the others.
pub open spec fn locks_rekeyed(
    locks: Seq<HeldLockModel>,
    share: Seq<char>,
    from: PathModel,
    to: PathModel,
) -> Seq<HeldLockModel> {
    let s = text::lowered(share);
    let f = text::lowered(path::displayed(from));
    let t = text::lowered(path::displayed(to));
    let flags = locks.map_values(|l: HeldLockModel| lock_renames(l, s, f, t));
    waiting::unflagged(locks, flags) + waiting::flagged(locks, flags).map_values(
        |l: HeldLockModel| renamed_lock(l, f, t),
    )
}

// ---------------------------------------------------------------------------
// Waiting requests
// ---------------------------------------------------------------------------

/// The key that a waiting request wants to lock.
pub open spec fn wait_key(w: WaitingModel<LockWaitModel>) -> LockKeyModel {
    lock_key(w.detail.share, w.detail.path, w.detail.stream_name)
}

/// A waiting request that was answered, with its status.
pub struct LockAnswer {
    pub wait: WaitingModel<LockWaitModel>,
    pub status: u32,
}

/// Waiting requests while they are tried again.
#[verifier::ext_equal]
pub struct Retried {
    pub locks: Seq<HeldLockModel>,
    pub actions: Seq<ActionModel>,
    pub done: Seq<LockAnswer>,
    pub still: Seq<WaitingModel<LockWaitModel>>,
}

/// What comes of waiting requests that are tried one after the other. A request that is
/// granted uses up the lock sequence of its open.
pub open spec fn retried(
    m: StateModel,
    waits: Seq<WaitingModel<LockWaitModel>>,
) -> Retried
    decreases waits.len(),
{
    if waits.len() == 0 {
        Retried {
            locks: m.byte_range_locks,
            actions: Seq::empty(),
            done: Seq::empty(),
            still: Seq::empty(),
        }
    } else {
        let before = retried(m, waits.drop_last());
        let w = waits.last();
        let status = lock_status(before.locks, wait_key(w), w.detail.locks);
        let locks = locks_after(before.locks, wait_key(w), w.detail.locks);
        if status == STATUS_LOCK_NOT_GRANTED {
            Retried { locks, still: before.still.push(w), ..before }
        } else {
            Retried {
                locks,
                actions: if status == STATUS_SUCCESS && state::open_alive(m.opens, w.detail.open) {
                    before.actions.push(
                        ActionModel::RecordLockSequence {
                            open: w.detail.open,
                            dialect: w.detail.dialect,
                            sequence: w.detail.lock_sequence,
                        },
                    )
                } else {
                    before.actions
                },
                done: before.done.push(LockAnswer { wait: w, status }),
                still: before.still,
            }
        }
    }
}

/// The body of the answer to a lock request.
pub open spec fn lock_body(status: u32) -> BodyModel {
    if status == STATUS_SUCCESS {
        BodyModel::Data(LockResponse { structure_size: 4, reserved: 0 }.encoding())
    } else {
        BodyModel::Error
    }
}

/// The state after waiting lock requests were answered.
pub open spec fn lock_waits_answered(m: StateModel, done: Seq<LockAnswer>) -> StateModel
    decreases done.len(),
{
    if done.len() == 0 {
        m
    } else {
        let before = lock_waits_answered(m, done.drop_last());
        let w = done.last();
        state::answered(
            before,
            w.wait.conn,
            w.wait.async_id,
            w.status,
            lock_body(w.status),
            None,
        )
    }
}

/// Which waiting requests want to lock a key.
pub open spec fn waits_on(
    waits: Seq<WaitingModel<LockWaitModel>>,
    key: LockKeyModel,
) -> Seq<bool> {
    waits.map_values(|w: WaitingModel<LockWaitModel>| wait_key(w) == key)
}

/// Which waiting requests are of connections that are still there.
pub open spec fn waits_alive<M>(m: StateModel, waits: Seq<WaitingModel<M>>) -> Seq<bool> {
    waits.map_values(|w: WaitingModel<M>| state::conn_alive(m.connections, w.conn))
}

/// The state after the requests that wait to lock a path and stream were tried again.
pub open spec fn lock_waits_retried(
    m: StateModel,
    share: Seq<char>,
    path: PathModel,
    stream_name: Option<Seq<char>>,
) -> StateModel {
    let flags = waits_on(m.byte_range_lock_waits, lock_key(share, path, stream_name));
    let tried = waiting::flagged(m.byte_range_lock_waits, flags);
    let r = retried(m, tried);
    let again = waiting::flagged(r.still, waits_alive(m, r.still));
    lock_waits_answered(
        StateModel {
            byte_range_locks: r.locks,
            byte_range_lock_waits: waiting::unflagged(m.byte_range_lock_waits, flags) + again,
            outbox: m.outbox + r.actions,
            ..m
        },
        r.done,
    )
}

/// How many of some lock requests were of connections that are still there.
pub open spec fn answers_sent(m: StateModel, done: Seq<LockAnswer>) -> int
    decreases done.len(),
{
    if done.len() == 0 {
        0
    } else {
        answers_sent(m, done.drop_last()) + if state::conn_alive(
            m.connections,
            done.last().wait.conn,
        ) {
            1int
        } else {
            0
        }
    }
}

proof fn lemma_lock_models_flagged(s: Seq<HeldLock>, flags: Seq<bool>)
    ensures
        state::lock_models(waiting::flagged(s, flags)) == waiting::flagged(
            state::lock_models(s),
            flags,
        ),
        state::lock_models(waiting::unflagged(s, flags)) == waiting::unflagged(
            state::lock_models(s),
            flags,
        ),
    decreases s.len(),
{
    if s.len() > 0 {
        lemma_lock_models_flagged(s.drop_last(), flags);
        assert(state::lock_models(s).drop_last() =~= state::lock_models(s.drop_last()));
        let f = waiting::flagged(s.drop_last(), flags);
        let u = waiting::unflagged(s.drop_last(), flags);
        assert(state::lock_models(f.push(s.last())) =~= state::lock_models(f).push(s.last()@));
        assert(state::lock_models(u.push(s.last())) =~= state::lock_models(u).push(s.last()@));
    } else {
        assert(state::lock_models(waiting::flagged(s, flags)) =~= Seq::empty());
        assert(state::lock_models(waiting::unflagged(s, flags)) =~= Seq::empty());
    }
}

fn take_locks(locks: &mut Vec<HeldLock>, flags: &Vec<bool>) -> (r: Vec<HeldLock>)
    requires
        flags@.len() == old(locks)@.len(),
    ensures
        state::lock_models(r@) == waiting::flagged(state::lock_models(old(locks)@), flags@),
        state::lock_models(final(locks)@) == waiting::unflagged(
            state::lock_models(old(locks)@),
            flags@,
        ),
{
    proof {
        lemma_lock_models_flagged(old(locks)@, flags@);
    }
    take_flagged(locks, flags)
}

/// Whether some lock held on a key stands in the way of another.
pub fn lock_conflicts(
    existing: &Vec<HeldLock>,
    key: &ByteRangeLockKey,
    next: ByteRangeLockRequest,
) -> (r: bool)
    ensures
        r == refused(state::lock_models(existing@), key@, next),
{
    let ghost locks = state::lock_models(existing@);
    let mut i: usize = 0;
    while i < existing.len()
        invariant
            i <= existing@.len(),
            locks == state::lock_models(existing@),
            forall|j: int| 0 <= j < i ==> !refuses(#[trigger] locks[j], key@, next),
        decreases existing@.len() - i,
    {
        let held: &HeldLock = &existing[i];
        assert(locks[i as int] == held@);
        if held.key.same(key) && ranges_overlap(
            held.lock.offset,
            held.lock.length,
            next.offset,
            next.length,
        ) && (next.exclusive || (held.lock.fid != next.fid && held.lock.exclusive)) {
            assert(refuses(locks[i as int], key@, next));
            return true;
        }
        i += 1;
    }
    false
}

fn contains_request(list: &[ByteRangeLockRequest], n: usize, x: ByteRangeLockRequest) -> (r: bool)
    requires
        n <= list@.len(),
    ensures
        r == list@.take(n as int).contains(x),
{
    let mut i: usize = 0;
    while i < n
        invariant
            i <= n <= list@.len(),
            forall|j: int| 0 <= j < i ==> list@[j] != x,
        decreases n - i,
    {
        if list[i] == x {
            assert(list@.take(n as int)[i as int] == x);
            return true;
        }
        i += 1;
    }
    proof {
        if list@.take(n as int).contains(x) {
            let j = choose|j: int| 0 <= j < n && list@.take(n as int)[j] == x;
            assert(list@[j] == x);
        }
    }
    false
}

impl ServerState {
    /// Locks byte ranges of a path and stream, all or none.
    pub fn apply_byte_range_locks(
        &mut self,
        share: &str,
        path: &SmbPath,
        stream_name: Option<&str>,
        locks: &[ByteRangeLockRequest],
    ) -> (r: u32)
        ensures
            ({
                let key = lock_key(share@, path@, types::opt_str(stream_name));
                let held = old(self)@.byte_range_locks;
                r == lock_status(held, key, locks@) && final(self)@ == (StateModel {
                    byte_range_locks: locks_after(held, key, locks@),
                    ..old(self)@
                })
            }),
    {
        if locks.len() == 0 {
            return STATUS_INVALID_PARAMETER;
        }
        let key = ByteRangeLockKey::new(share, path, stream_name);
        let ghost held = self@.byte_range_locks;
        let mut n: usize = 0;
        assert(with_locks(held, key@, locks@, 0) =~= held);
        while n < locks.len()
            invariant
                n <= locks@.len(),
                locks@.len() > 0,
                key@ == lock_key(share@, path@, types::opt_str(stream_name)),
                held == old(self)@.byte_range_locks,
                self@ == (StateModel {
                    byte_range_locks: with_locks(held, key@, locks@, n as int),
                    ..old(self)@
                }),
                first_refused(held, key@, locks@, 0) == first_refused(held, key@, locks@, n as int),
            decreases locks@.len() - n,
        {
            let next: ByteRangeLockRequest = locks[n];
            if lock_conflicts(&self.byte_range_locks, &key, next) {
                let mut flags: Vec<bool> = Vec::new();
                let mut i: usize = 0;
                let ghost all = self@.byte_range_locks;
                let ghost some = locks@.take(n as int);
                while i < self.byte_range_locks.len()
                    invariant
                        i <= self.byte_range_locks@.len(),
                        n <= locks@.len(),
                        all == state::lock_models(self.byte_range_locks@),
                        some == locks@.take(n as int),
                        flags@.len() == i,
                        forall|j: int|
                            0 <= j < i ==> flags@[j] == is_one_of(all[j], key@, some),
                    decreases self.byte_range_locks@.len() - i,
                {
                    let l: &HeldLock = &self.byte_range_locks[i];
                    assert(all[i as int] == l@);
                    flags.push(l.key.same(&key) && contains_request(locks, n, l.lock));
                    i += 1;
                }
                assert(flags@ =~= all.map_values(|l: HeldLockModel| is_one_of(l, key@, some)));
                let _ = take_locks(&mut self.byte_range_locks, &flags);
                proof {
                    if n == 0 {
                        assert forall|j: int| 0 <= j < all.len() implies !#[trigger] flags@[j] by {}
                        waiting::unflagged_none(all, flags@);
                    }
                }
                return STATUS_LOCK_NOT_GRANTED;
            }
            let lock = HeldLock { key: key.duplicate(), lock: next };
            let ghost before = self@.byte_range_locks;
            self.byte_range_locks.push(lock);
            proof {
                assert(self@.byte_range_locks =~= before.push(lock@));
                assert(locks@.take(n + 1) =~= locks@.take(n as int).push(next));
                assert(self@.byte_range_locks =~= with_locks(held, key@, locks@, n + 1));
            }
            n += 1;
        }
        STATUS_SUCCESS
    }

    /// Unlocks byte ranges one after the other, until one is not locked.
    pub fn unlock_byte_ranges(
        &mut self,
        share: &str,
        path: &SmbPath,
        stream_name: Option<&str>,
        fid: FileId,
        ranges: &[(u64, u64)],
    ) -> (r: u32)
        ensures
            ({
                let key = lock_key(share@, path@, types::opt_str(stream_name));
                let held = old(self)@.byte_range_locks;
                let n = unlockable(held, key, fid, ranges@, 0);
                r == (if n == ranges@.len() {
                    STATUS_SUCCESS
                } else {
                    STATUS_RANGE_NOT_LOCKED
                }) && unlocked(held, key, fid, ranges@, n) == Some(final(self)@.byte_range_locks)
                    && final(self)@ == (StateModel {
                    byte_range_locks: final(self)@.byte_range_locks,
                    ..old(self)@
                })
            }),
    {
        let key = ByteRangeLockKey::new(share, path, stream_name);
        let ghost held = self@.byte_range_locks;
        let mut n: usize = 0;
        while n < ranges.len()
            invariant
                n <= ranges@.len(),
                key@ == lock_key(share@, path@, types::opt_str(stream_name)),
                held == old(self)@.byte_range_locks,
                self@ == (StateModel {
                    byte_range_locks: self@.byte_range_locks,
                    ..old(self)@
                }),
                unlocked(held, key@, fid, ranges@, n as int) == Some(self@.byte_range_locks),
                unlockable(held, key@, fid, ranges@, 0) == unlockable(
                    held,
                    key@,
                    fid,
                    ranges@,
                    n as int,
                ),
            decreases ranges@.len() - n,
        {
            let range: (u64, u64) = ranges[n];
            let ghost now = self@.byte_range_locks;
            let mut at: usize = 0;
            let mut found: bool = false;
            while at < self.byte_range_locks.len() && !found
                invariant
                    at <= self.byte_range_locks@.len(),
                    now == state::lock_models(self.byte_range_locks@),
                    found ==> at < now.len() && is_range(now[at as int], key@, fid, range),
                    forall|j: int| 0 <= j < at ==> !is_range(#[trigger] now[j], key@, fid, range),
                decreases
                        self.byte_range_locks@.len() - at,
                        if found {
                            0int
                        } else {
                            1
                        },
            {
                let l: &HeldLock = &self.byte_range_locks[at];
                assert(now[at as int] == l@);
                if l.key.same(&key) && l.lock.fid == fid && l.lock.offset == range.0
                    && l.lock.length == range.1 {
                    found = true;
                } else {
                    at += 1;
                }
            }
            proof {
                lemma_range_index(now, key@, fid, range, at as int);
            }
            if !found {
                return STATUS_RANGE_NOT_LOCKED;
            }
            let _ = self.byte_range_locks.remove(at);
            assert(self@.byte_range_locks =~= now.remove(at as int));
            n += 1;
        }
        STATUS_SUCCESS
    }

    /// Whether an open may read a range.
    pub fn check_read_lock(
        &self,
        share: &str,
        path: &SmbPath,
        stream_name: Option<&str>,
        fid: FileId,
        offset: u64,
        length: u64,
    ) -> (r: u32)
        ensures
            ({
                let key = lock_key(share@, path@, types::opt_str(stream_name));
                r == if length != 0 && exists|i: int|
                    0 <= i < self@.byte_range_locks.len() && forbids_read(
                        #[trigger] self@.byte_range_locks[i],
                        key,
                        fid,
                        offset,
                        length,
                    ) {
                    STATUS_FILE_LOCK_CONFLICT
                } else {
                    STATUS_SUCCESS
                }
            }),
    {
        if length == 0 {
            return STATUS_SUCCESS;
        }
        let key = ByteRangeLockKey::new(share, path, stream_name);
        let mut i: usize = 0;
        while i < self.byte_range_locks.len()
            invariant
                i <= self.byte_range_locks@.len(),
                length != 0,
                key@ == lock_key(share@, path@, types::opt_str(stream_name)),
                forall|j: int|
                    0 <= j < i ==> !forbids_read(
                        #[trigger] self@.byte_range_locks[j],
                        key@,
                        fid,
                        offset,
                        length,
                    ),
            decreases self.byte_range_locks@.len() - i,
        {
            let l: &HeldLock = &self.byte_range_locks[i];
            assert(self@.byte_range_locks[i as int] == l@);
            if l.key.same(&key) && l.lock.fid != fid && l.lock.exclusive && ranges_overlap(
                l.lock.offset,
                l.lock.length,
                offset,
                length,
            ) {
                assert(forbids_read(self@.byte_range_locks[i as int], key@, fid, offset, length));
                return STATUS_FILE_LOCK_CONFLICT;
            }
            i += 1;
        }
        STATUS_SUCCESS
    }

    /// Whether an open may write a range.
    pub fn check_write_lock(
        &self,
        share: &str,
        path: &SmbPath,
        stream_name: Option<&str>,
        fid: FileId,
        offset: u64,
        length: u64,
    ) -> (r: u32)
        ensures
            r == write_status(
                self@.byte_range_locks,
                lock_key(share@, path@, types::opt_str(stream_name)),
                fid,
                offset,
                length,
            ),
    {
        if length == 0 {
            return STATUS_SUCCESS;
        }
        let key = ByteRangeLockKey::new(share, path, stream_name);
        let mut i: usize = 0;
        while i < self.byte_range_locks.len()
            invariant
                i <= self.byte_range_locks@.len(),
                length != 0,
                key@ == lock_key(share@, path@, types::opt_str(stream_name)),
                forall|j: int|
                    0 <= j < i ==> !forbids_write(
                        #[trigger] self@.byte_range_locks[j],
                        key@,
                        fid,
                        offset,
                        length,
                    ),
            decreases self.byte_range_locks@.len() - i,
        {
            let l: &HeldLock = &self.byte_range_locks[i];
            assert(self@.byte_range_locks[i as int] == l@);
            if l.key.same(&key) && ranges_overlap(l.lock.offset, l.lock.length, offset, length) && (
            l.lock.fid != fid || !l.lock.exclusive) {
                assert(forbids_write(self@.byte_range_locks[i as int], key@, fid, offset, length));
                return STATUS_FILE_LOCK_CONFLICT;
            }
            i += 1;
        }
        STATUS_SUCCESS
    }

    /// Drops the locks of an open on a path and stream.
    pub fn remove_byte_range_locks(
        &mut self,
        share: &str,
        path: &SmbPath,
        stream_name: Option<&str>,
        fid: FileId,
    )
        ensures
            final(self)@ == locks_dropped(
                old(self)@,
                share@,
                path@,
                types::opt_str(stream_name),
                fid,
            ),
    {
        let key = ByteRangeLockKey::new(share, path, stream_name);
        let mut flags: Vec<bool> = Vec::new();
        let mut i: usize = 0;
        while i < self.byte_range_locks.len()
            invariant
                i <= self.byte_range_locks@.len(),
                flags@.len() == i,
                forall|j: int|
                    0 <= j < i ==> flags@[j] == held_by(
                        #[trigger] self.byte_range_locks@[j]@,
                        key@,
                        fid,
                    ),
            decreases self.byte_range_locks@.len() - i,
        {
            let l: &HeldLock = &self.byte_range_locks[i];
            flags.push(l.key.same(&key) && l.lock.fid == fid);
            i += 1;
        }
        assert(flags@ =~= self@.byte_range_locks.map_values(
            |l: HeldLockModel| held_by(l, key@, fid),
        ));
        let _ = take_locks(&mut self.byte_range_locks, &flags);
    }

    /// Whether an open holds locks on a path and stream.
    pub fn open_has_byte_range_locks(
        &self,
        share: &str,
        path: &SmbPath,
        stream_name: Option<&str>,
        fid: FileId,
    ) -> (r: bool)
        ensures
            r == has_locks(
                self@.byte_range_locks,
                lock_key(share@, path@, types::opt_str(stream_name)),
                fid,
            ),
    {
        let key = ByteRangeLockKey::new(share, path, stream_name);
        let mut i: usize = 0;
        while i < self.byte_range_locks.len()
            invariant
                i <= self.byte_range_locks@.len(),
                key@ == lock_key(share@, path@, types::opt_str(stream_name)),
                forall|j: int|
                    0 <= j < i ==> !held_by(#[trigger] self@.byte_range_locks[j], key@, fid),
            decreases self.byte_range_locks@.len() - i,
        {
            let l: &HeldLock = &self.byte_range_locks[i];
            assert(self@.byte_range_locks[i as int] == l@);
            if l.key.same(&key) && l.lock.fid == fid {
                assert(held_by(self@.byte_range_locks[i as int], key@, fid));
                return true;
            }
            i += 1;
        }
        false
    }

    /// Whether locks are held on bytes that a file has.
    pub fn has_backed_byte_range_locks(
        &self,
        share: &str,
        path: &SmbPath,
        stream_name: Option<&str>,
        end_of_file: u64,
    ) -> (r: bool)
        ensures
            r == (exists|i: int|
                0 <= i < self@.byte_range_locks.len() && is_backed(
                    #[trigger] self@.byte_range_locks[i],
                    lock_key(share@, path@, types::opt_str(stream_name)),
                    end_of_file,
                )),
    {
        let key = ByteRangeLockKey::new(share, path, stream_name);
        let mut i: usize = 0;
        while i < self.byte_range_locks.len()
            invariant
                i <= self.byte_range_locks@.len(),
                key@ == lock_key(share@, path@, types::opt_str(stream_name)),
                forall|j: int|
                    0 <= j < i ==> !is_backed(
                        #[trigger] self@.byte_range_locks[j],
                        key@,
                        end_of_file,
                    ),
            decreases self.byte_range_locks@.len() - i,
        {
            let l: &HeldLock = &self.byte_range_locks[i];
            assert(self@.byte_range_locks[i as int] == l@);
            if l.key.same(&key) && l.lock.length != 0 && l.lock.offset < end_of_file {
                assert(is_backed(self@.byte_range_locks[i as int], key@, end_of_file));
                return true;
            }
            i += 1;
        }
        false
    }

    /// Moves the locks of a path and of the paths below it to another path.
    pub fn rekey_byte_range_locks(&mut self, share: &str, from: &SmbPath, to: &SmbPath)
        ensures
            final(self)@ == (StateModel {
                byte_range_locks: locks_rekeyed(
                    old(self)@.byte_range_locks,
                    share@,
                    from@,
                    to@,
                ),
                ..old(self)@
            }),
    {
        let share_key: String = lower_string(share);
        let from_shown: String = from.display_backslash();
        let to_shown: String = to.display_backslash();
        let from_path: String = lower_string(from_shown.as_str());
        let to_path: String = lower_string(to_shown.as_str());
        let ghost s = share_key@;
        let ghost f = from_path@;
        let ghost t = to_path@;
        let ghost all = self@.byte_range_locks;
        let mut flags: Vec<bool> = Vec::new();
        let mut i: usize = 0;
        while i < self.byte_range_locks.len()
            invariant
                i <= self.byte_range_locks@.len(),
                s == share_key@,
                f == from_path@,
                t == to_path@,
                flags@.len() == i,
                forall|j: int|
                    0 <= j < i ==> flags@[j] == lock_renames(
                        #[trigger] self.byte_range_locks@[j]@,
                        s,
                        f,
                        t,
                    ),
            decreases self.byte_range_locks@.len() - i,
        {
            let l: &HeldLock = &self.byte_range_locks[i];
            let hit: bool = l.key.share == share_key && rebase_lowercase_path(
                l.key.path.as_str(),
                from_path.as_str(),
                to_path.as_str(),
            ).is_some();
            flags.push(hit);
            i += 1;
        }
        assert(flags@ =~= all.map_values(|l: HeldLockModel| lock_renames(l, s, f, t)));
        let mut moved: Vec<HeldLock> = take_locks(&mut self.byte_range_locks, &flags);
        let ghost kept = self@.byte_range_locks;
        let ghost list = state::lock_models(moved@);
        proof {
            lemma_flagged_renames(all, flags@, s, f, t);
        }
        let ghost mut n: int = 0;
        assert(kept + list.take(0).map_values(|l: HeldLockModel| renamed_lock(l, f, t)) =~= kept);
        while moved.len() > 0
            invariant
                0 <= n,
                n + moved@.len() == list.len(),
                state::lock_models(moved@) == list.skip(n),
                f == from_path@,
                t == to_path@,
                forall|j: int| 0 <= j < list.len() ==> lock_renames(#[trigger] list[j], s, f, t),
                self@ == (StateModel {
                    byte_range_locks: kept + list.take(n).map_values(
                        |l: HeldLockModel| renamed_lock(l, f, t),
                    ),
                    ..old(self)@
                }),
            decreases moved@.len(),
        {
            let ghost rest = moved@;
            let l: HeldLock = moved.remove(0);
            assert(l@ == list[n]) by {
                assert(state::lock_models(rest)[0] == l@);
            }
            assert(state::lock_models(moved@) =~= list.skip(n + 1)) by {
                assert(list.skip(n).skip(1) =~= list.skip(n + 1));
                assert(state::lock_models(moved@) =~= state::lock_models(rest).skip(1));
            }
            assert(lock_renames(list[n], s, f, t));
            match rebase_lowercase_path(
                l.key.path.as_str(),
                from_path.as_str(),
                to_path.as_str(),
            ) {
                Some(path) => {
                    let key = ByteRangeLockKey {
                        share: l.key.share,
                        path,
                        stream_name: l.key.stream_name,
                    };
                    let ghost before = self@.byte_range_locks;
                    let lock = HeldLock { key, lock: l.lock };
                    self.byte_range_locks.push(lock);
                    proof {
                        assert(lock@ =~= renamed_lock(list[n], f, t));
                        assert(self@.byte_range_locks =~= before.push(lock@));
                        assert(self@.byte_range_locks =~= kept + list.take(n + 1).map_values(
                            |l: HeldLockModel| renamed_lock(l, f, t),
                        ));
                    }
                },
                None => {
                    assert(false);
                },
            }
            proof {
                n = n + 1;
            }
        }
        assert(list.take(n) =~= list);
    }
}

/// Whether an open holds locks on a key.
pub open spec fn has_locks(locks: Seq<HeldLockModel>, key: LockKeyModel, fid: FileId) -> bool {
    exists|i: int| 0 <= i < locks.len() && held_by(#[trigger] locks[i], key, fid)
}

proof fn lemma_flagged_renames(
    all: Seq<HeldLockModel>,
    flags: Seq<bool>,
    s: Seq<char>,
    f: Seq<char>,
    t: Seq<char>,
)
    requires
        flags.len() >= all.len(),
        forall|j: int| 0 <= j < all.len() ==> flags[j] == lock_renames(#[trigger] all[j], s, f, t),
    ensures
        forall|j: int|
            0 <= j < waiting::flagged(all, flags).len() ==> lock_renames(
                #[trigger] waiting::flagged(all, flags)[j],
                s,
                f,
                t,
            ),
    decreases all.len(),
{
    if all.len() > 0 {
        let head = all.drop_last();
        assert forall|j: int| 0 <= j < head.len() implies flags[j] == lock_renames(
            #[trigger] head[j],
            s,
            f,
            t,
        ) by {
            assert(head[j] == all[j]);
        }
        lemma_flagged_renames(head, flags, s, f, t);
        let before = waiting::flagged(head, flags);
        let out = waiting::flagged(all, flags);
        assert forall|j: int| 0 <= j < out.len() implies lock_renames(#[trigger] out[j], s, f,
            t) by {
            if j < before.len() {
                assert(out[j] == before[j]);
            } else {
                assert(all[all.len() - 1] == out[j]);
            }
        }
    }
}

/// What answered lock requests say.
pub open spec fn lock_answers(s: Seq<(Waiting<LockWait>, u32)>) -> Seq<LockAnswer> {
    s.map_values(|p: (Waiting<LockWait>, u32)| LockAnswer { wait: p.0@, status: p.1 })
}

/// Waiting lock requests that are all answered with one status.
pub open spec fn with_status(
    waits: Seq<WaitingModel<LockWaitModel>>,
    status: u32,
) -> Seq<LockAnswer> {
    waits.map_values(|w: WaitingModel<LockWaitModel>| LockAnswer { wait: w, status })
}

/// The state after the waiting lock requests that are meant were answered with a status.
pub open spec fn lock_waits_ended(m: StateModel, sel: Selector, status: u32) -> StateModel {
    lock_waits_answered(
        StateModel {
            byte_range_lock_waits: waiting::left(m.byte_range_lock_waits, sel),
            ..m
        },
        with_status(waiting::taken(m.byte_range_lock_waits, sel), status),
    )
}

/// A lock request as it is kept: its share is known in lower case.
pub open spec fn kept_wait(w: WaitingModel<LockWaitModel>) -> WaitingModel<LockWaitModel> {
    WaitingModel {
        detail: LockWaitModel { share: text::lowered(w.detail.share), ..w.detail },
        ..w
    }
}

impl ServerState {
    /// Keeps a lock request that waits for its ranges.
    pub fn register_byte_range_lock_wait(&mut self, wait: Waiting<LockWait>)
        ensures
            final(self)@ == (StateModel {
                byte_range_lock_waits: waiting::left(
                    old(self)@.byte_range_lock_waits,
                    Selector::Id { conn: wait.conn, async_id: wait.async_id },
                ).push(kept_wait(wait@)),
                ..old(self)@
            }),
    {
        let mut kept: Waiting<LockWait> = wait;
        let share: String = lower_string(kept.detail.share.as_str());
        kept.detail.share = share;
        assert(kept@ == kept_wait(wait@));
        put_waiting(&mut self.byte_range_lock_waits, kept);
    }

    fn complete_byte_range_lock_waits(&mut self, done: Vec<(Waiting<LockWait>, u32)>) -> (r: usize)
        ensures
            r == answers_sent(old(self)@, lock_answers(done@)),
            final(self)@ == lock_waits_answered(old(self)@, lock_answers(done@)),
    {
        let mut rest: Vec<(Waiting<LockWait>, u32)> = done;
        let ghost all = lock_answers(rest@);
        let total: usize = rest.len();
        let mut sent: usize = 0;
        let ghost mut n: int = 0;
        assert(all.skip(0) =~= all);
        assert(all.take(0) =~= Seq::empty());
        while rest.len() > 0
            invariant
                0 <= n,
                n + rest@.len() == all.len(),
                all.len() == total,
                lock_answers(rest@) == all.skip(n),
                sent == answers_sent(old(self)@, all.take(n)),
                sent <= n,
                self@ == lock_waits_answered(old(self)@, all.take(n)),
                forall|k: u64|
                    #![trigger state::conn_alive(self@.connections, k)]
                    state::conn_alive(self@.connections, k) == state::conn_alive(
                        old(self)@.connections,
                        k,
                    ),
            decreases rest@.len(),
        {
            let ghost before = rest@;
            let ghost m = self@;
            let (w, status) = rest.remove(0);
            proof {
                assert(lock_answers(before)[0] == all[n]);
                assert(lock_answers(rest@) =~= lock_answers(before).skip(1));
                assert(all.skip(n).skip(1) =~= all.skip(n + 1));
                assert(all.take(n + 1).drop_last() =~= all.take(n));
                assert(all.take(n + 1).last() == all[n]);
            }
            let body: ResponseBody = if status == STATUS_SUCCESS {
                let response = LockResponse { structure_size: 4, reserved: 0 };
                let mut data: Vec<u8> = Vec::new();
                response.write_to(&mut data);
                assert(data@ =~= response.encoding());
                ResponseBody::Data(data)
            } else {
                ResponseBody::Error
            };
            if self.answer(w.conn, w.async_id, status, body, None) {
                sent += 1;
            }
            proof {
                assert forall|k: u64| state::conn_alive(self@.connections, k)
                    == state::conn_alive(old(self)@.connections, k) by {
                    state::released_keeps_connections(m.connections, w.conn, k);
                    assert(state::conn_alive(m.connections, k) == state::conn_alive(
                        old(self)@.connections,
                        k,
                    ));
                }
                n = n + 1;
            }
        }
        assert(all.take(n) =~= all);
        sent
    }

    fn end_byte_range_lock_waits(&mut self, sel: Selector, status: u32) -> (r: usize)
        ensures
            final(self)@ == lock_waits_ended(old(self)@, sel, status),
            r == answers_sent(
                old(self)@,
                with_status(waiting::taken(old(self)@.byte_range_lock_waits, sel), status),
            ),
    {
        let mut waits: Vec<Waiting<LockWait>> = take_selected(&mut self.byte_range_lock_waits, sel);
        let ghost all = waiting::models(waits@);
        let ghost m = self@;
        let mut done: Vec<(Waiting<LockWait>, u32)> = Vec::new();
        let ghost mut n: int = 0;
        assert(all.skip(0) =~= all);
        assert(lock_answers(done@) =~= with_status(all.take(0), status));
        while waits.len() > 0
            invariant
                0 <= n,
                n + waits@.len() == all.len(),
                waiting::models(waits@) == all.skip(n),
                lock_answers(done@) == with_status(all.take(n), status),
            decreases waits@.len(),
        {
            let ghost before = waits@;
            let ghost so_far = done@;
            let w: Waiting<LockWait> = waits.remove(0);
            done.push((w, status));
            proof {
                assert(waiting::models(before)[0] == all[n]);
                assert(waiting::models(waits@) =~= waiting::models(before).skip(1));
                assert(all.skip(n).skip(1) =~= all.skip(n + 1));
                assert(lock_answers(done@) =~= lock_answers(so_far).push(
                    LockAnswer { wait: all[n], status },
                ));
                assert(all.take(n + 1) =~= all.take(n).push(all[n]));
                assert(with_status(all.take(n + 1), status) =~= with_status(
                    all.take(n),
                    status,
                ).push(LockAnswer { wait: all[n], status }));
                n = n + 1;
            }
        }
        assert(all.take(n) =~= all);
        proof {
            lemma_answers_sent_same(old(self)@, m, lock_answers(done@));
        }
        self.complete_byte_range_lock_waits(done)
    }

    /// Cancels a lock request that waits.
    pub fn cancel_byte_range_lock_wait(
        &mut self,
        conn: u64,
        async_id: u64,
        session_id: u64,
        status: u32,
    ) -> (r: bool)
        ensures
            ({
                let sel = Selector::Request { conn, async_id, session_id };
                final(self)@ == lock_waits_ended(old(self)@, sel, status) && r == (answers_sent(
                    old(self)@,
                    with_status(waiting::taken(old(self)@.byte_range_lock_waits, sel), status),
                ) != 0)
            }),
    {
        self.end_byte_range_lock_waits(Selector::Request { conn, async_id, session_id }, status)
            != 0
    }

    /// Ends the lock requests that wait in a session.
    pub fn cleanup_byte_range_lock_waits_for_session(
        &mut self,
        conn: u64,
        session_id: u64,
        status: u32,
    ) -> (r: usize)
        ensures
            ({
                let sel = Selector::Session { conn, session_id };
                let status = rules::lock_wait_status(status);
                final(self)@ == lock_waits_ended(old(self)@, sel, status) && r == answers_sent(
                    old(self)@,
                    with_status(waiting::taken(old(self)@.byte_range_lock_waits, sel), status),
                )
            }),
    {
        let status: u32 = cleanup_status_for_byte_range_lock_wait(status);
        self.end_byte_range_lock_waits(Selector::Session { conn, session_id }, status)
    }

    /// Ends the lock requests that wait in a tree connect.
    pub fn cleanup_byte_range_lock_waits_for_tree(
        &mut self,
        conn: u64,
        session_id: u64,
        tree_id: u32,
        status: u32,
    ) -> (r: usize)
        ensures
            ({
                let sel = Selector::Tree { conn, session_id, tree_id };
                let status = rules::lock_wait_status(status);
                final(self)@ == lock_waits_ended(old(self)@, sel, status) && r == answers_sent(
                    old(self)@,
                    with_status(waiting::taken(old(self)@.byte_range_lock_waits, sel), status),
                )
            }),
    {
        let status: u32 = cleanup_status_for_byte_range_lock_wait(status);
        self.end_byte_range_lock_waits(Selector::Tree { conn, session_id, tree_id }, status)
    }

    /// Ends the lock requests that wait on a file.
    pub fn cleanup_byte_range_lock_waits_for_file(
        &mut self,
        conn: u64,
        file_id: FileId,
        status: u32,
    ) -> (r: usize)
        ensures
            ({
                let sel = Selector::File { conn, file_id };
                let status = rules::lock_wait_status(status);
                final(self)@ == lock_waits_ended(old(self)@, sel, status) && r == answers_sent(
                    old(self)@,
                    with_status(waiting::taken(old(self)@.byte_range_lock_waits, sel), status),
                )
            }),
    {
        let status: u32 = cleanup_status_for_byte_range_lock_wait(status);
        self.end_byte_range_lock_waits(Selector::File { conn, file_id }, status)
    }

    /// Tries the lock requests again that wait for ranges of a path and stream.
    pub fn try_complete_byte_range_lock_waits(
        &mut self,
        share: &str,
        path: &SmbPath,
        stream_name: Option<&str>,
    ) -> (r: usize)
        ensures
            final(self)@ == lock_waits_retried(
                old(self)@,
                share@,
                path@,
                types::opt_str(stream_name),
            ),
            r == answers_sent(
                old(self)@,
                retried(
                    old(self)@,
                    waiting::flagged(
                        old(self)@.byte_range_lock_waits,
                        waits_on(
                            old(self)@.byte_range_lock_waits,
                            lock_key(share@, path@, types::opt_str(stream_name)),
                        ),
                    ),
                ).done,
            ),
    {
        let key = ByteRangeLockKey::new(share, path, stream_name);
        let mut flags: Vec<bool> = Vec::new();
        let mut i: usize = 0;
        while i < self.byte_range_lock_waits.len()
            invariant
                i <= self.byte_range_lock_waits@.len(),
                flags@.len() == i,
                forall|j: int|
                    0 <= j < i ==> flags@[j] == (wait_key(
                        #[trigger] self.byte_range_lock_waits@[j]@,
                    ) == key@),
            decreases self.byte_range_lock_waits@.len() - i,
        {
            let w: &Waiting<LockWait> = &self.byte_range_lock_waits[i];
            let k = ByteRangeLockKey::new(
                w.detail.share.as_str(),
                &w.detail.path,
                types::as_opt_str(&w.detail.stream_name),
            );
            flags.push(k.same(&key));
            i += 1;
        }
        let ghost m = self@;
        assert(flags@ =~= waits_on(m.byte_range_lock_waits, key@));
        let mut tried: Vec<Waiting<LockWait>> = take_waiting_flagged(
            &mut self.byte_range_lock_waits,
            &flags,
        );
        let ghost all = waiting::models(tried@);
        let ghost kept = self@.byte_range_lock_waits;
        let mut done: Vec<(Waiting<LockWait>, u32)> = Vec::new();
        let mut still: Vec<Waiting<LockWait>> = Vec::new();
        let ghost mut n: int = 0;
        assert(all.skip(0) =~= all);
        assert(all.take(0) =~= Seq::empty());
        assert(lock_answers(done@) =~= Seq::empty());
        assert(waiting::models(still@) =~= Seq::empty());
        assert(m.outbox + Seq::<ActionModel>::empty() =~= m.outbox);
        while tried.len() > 0
            invariant
                0 <= n,
                n + tried@.len() == all.len(),
                waiting::models(tried@) == all.skip(n),
                lock_answers(done@) == retried(m, all.take(n)).done,
                waiting::models(still@) == retried(m, all.take(n)).still,
                self@ == (StateModel {
                    byte_range_locks: retried(m, all.take(n)).locks,
                    byte_range_lock_waits: kept,
                    outbox: m.outbox + retried(m, all.take(n)).actions,
                    ..m
                }),
            decreases tried@.len(),
        {
            let ghost before = tried@;
            let ghost so_far = retried(m, all.take(n));
            let ghost done_before = done@;
            let ghost still_before = still@;
            let w: Waiting<LockWait> = tried.remove(0);
            proof {
                assert(waiting::models(before)[0] == all[n]);
                assert(waiting::models(tried@) =~= waiting::models(before).skip(1));
                assert(all.skip(n).skip(1) =~= all.skip(n + 1));
                assert(all.take(n + 1).drop_last() =~= all.take(n));
                assert(all.take(n + 1).last() == all[n]);
            }
            let status: u32 = self.apply_byte_range_locks(
                w.detail.share.as_str(),
                &w.detail.path,
                types::as_opt_str(&w.detail.stream_name),
                w.detail.locks.as_slice(),
            );
            if status == STATUS_LOCK_NOT_GRANTED {
                still.push(w);
                assert(waiting::models(still@) =~= waiting::models(still_before).push(w@));
            } else {
                if status == STATUS_SUCCESS && self.find_open(w.detail.open).is_some() {
                    let ghost outbox = self@.outbox;
                    let a = Action::RecordLockSequence {
                        open: w.detail.open,
                        dialect: w.detail.dialect,
                        sequence: w.detail.lock_sequence,
                    };
                    self.act(a);
                    assert(self@.outbox =~= m.outbox + so_far.actions.push(a@));
                }
                done.push((w, status));
                assert(lock_answers(done@) =~= lock_answers(done_before).push(
                    LockAnswer { wait: w@, status },
                ));
            }
            proof {
                n = n + 1;
            }
        }
        assert(all.take(n) =~= all);
        let mut alive: Vec<bool> = Vec::new();
        let mut k: usize = 0;
        let ghost r = retried(m, all);
        while k < still.len()
            invariant
                k <= still@.len(),
                alive@.len() == k,
                self@.connections == m.connections,
                forall|j: int|
                    0 <= j < k ==> alive@[j] == state::conn_alive(
                        m.connections,
                        (#[trigger] still@[j]).conn,
                    ),
            decreases still@.len() - k,
        {
            alive.push(self.find_conn(still[k].conn).is_some());
            k += 1;
        }
        assert(alive@ =~= waits_alive(m, r.still));
        let mut again: Vec<Waiting<LockWait>> = take_waiting_flagged(&mut still, &alive);
        let ghost put = again@;
        let ghost waits = self.byte_range_lock_waits@;
        self.byte_range_lock_waits.append(&mut again);
        proof {
            assert(waiting::models(waits + put) =~= waiting::models(waits) + waiting::models(put));
            lemma_answers_sent_same(m, self@, lock_answers(done@));
        }
        self.complete_byte_range_lock_waits(done)
    }
}

proof fn lemma_answers_sent_same(m: StateModel, n: StateModel, done: Seq<LockAnswer>)
    requires
        m.connections == n.connections,
    ensures
        answers_sent(m, done) == answers_sent(n, done),
    decreases done.len(),
{
    if done.len() > 0 {
        lemma_answers_sent_same(m, n, done.drop_last());
    }
}

} // verus!
