//! What is left of an open that is closed, given up or loses its durability, field by field.

use crate::path::PathModel;
use crate::proto::messages::FileId;
use crate::server::cleanup;
use crate::server::closing;
use crate::server::closing::UnlinkReason;
use crate::server::completions;
use crate::server::completions::Ended;
use crate::server::detaching;
use crate::server::detaching::Leaving;
use crate::server::durable;
use crate::server::lasting;
use crate::server::locks;
use crate::server::locks::LockAnswer;
use crate::server::opens;
use crate::server::selecting;
use crate::server::state;
use crate::server::state::StateModel;
use crate::server::tasks;
use crate::server::timeouts;
use crate::server::types::{
    CreateWaitModel, DurableModel, LockWaitModel, OpenRecordModel, TaskWaitModel, TreeOpen, NIL16,
};
use crate::server::waiting;
use crate::server::waiting::WaitingModel;
use vstd::prelude::*;

verus! {

proof fn lemma_answered(m: StateModel, done: Seq<LockAnswer>)
    ensures
        locks::lock_waits_answered(m, done).opens == m.opens,
        locks::lock_waits_answered(m, done).durable_opens == m.durable_opens,
        locks::lock_waits_answered(m, done).byte_range_lock_waits == m.byte_range_lock_waits,
    decreases done.len(),
{
    if done.len() > 0 {
        lemma_answered(m, done.drop_last());
    }
}

proof fn lemma_retried(
    m: StateModel,
    share: Seq<char>,
    path: PathModel,
    stream_name: Option<Seq<char>>,
)
    ensures
        locks::lock_waits_retried(m, share, path, stream_name).opens == m.opens,
        locks::lock_waits_retried(m, share, path, stream_name).durable_opens == m.durable_opens,
{
    let flags = locks::waits_on(
        m.byte_range_lock_waits,
        locks::lock_key(share, path, stream_name),
    );
    let r = locks::retried(m, waiting::flagged(m.byte_range_lock_waits, flags));
    let again = waiting::flagged(r.still, locks::waits_alive(m, r.still));
    lemma_answered(
        StateModel {
            byte_range_locks: r.locks,
            byte_range_lock_waits: waiting::unflagged(m.byte_range_lock_waits, flags) + again,
            outbox: m.outbox + r.actions,
            ..m
        },
        r.done,
    );
}

proof fn lemma_still(
    m: StateModel,
    waits: Seq<WaitingModel<LockWaitModel>>,
    w: WaitingModel<LockWaitModel>,
)
    ensures
        locks::retried(m, waits).still.contains(w) ==> waits.contains(w),
    decreases waits.len(),
{
    if waits.len() > 0 {
        let rest = waits.drop_last();
        lemma_still(m, rest, w);
        let before = locks::retried(m, rest).still;
        if locks::retried(m, waits).still.contains(w) {
            let s = locks::retried(m, waits).still;
            let i = choose|i: int| 0 <= i < s.len() && s[i] == w;
            if i < before.len() {
                assert(before[i] == w);
                assert(rest.contains(w));
                let j = choose|j: int| 0 <= j < rest.len() && rest[j] == w;
                assert(waits[j] == w);
            } else {
                assert(waits[waits.len() - 1] == w);
            }
        }
    }
}

/// Lock requests that wait for another path or stream go on waiting when one is tried again, and
/// no request waits that did not wait before.
pub proof fn other_locks_go_on_waiting(
    m: StateModel,
    share: Seq<char>,
    path: PathModel,
    stream_name: Option<Seq<char>>,
    w: WaitingModel<LockWaitModel>,
)
    ensures
        ({
            let after = locks::lock_waits_retried(m, share, path, stream_name);
            let key = locks::lock_key(share, path, stream_name);
            &&& locks::wait_key(w) != key ==> (after.byte_range_lock_waits.contains(w)
                <==> m.byte_range_lock_waits.contains(w))
            &&& after.byte_range_lock_waits.contains(w) ==> m.byte_range_lock_waits.contains(w)
            &&& locks::wait_key(w) == key && after.byte_range_lock_waits.contains(w)
                ==> state::conn_alive(m.connections, w.conn)
        }),
{
    let key = locks::lock_key(share, path, stream_name);
    let flags = locks::waits_on(m.byte_range_lock_waits, key);
    let tried = waiting::flagged(m.byte_range_lock_waits, flags);
    let others = waiting::unflagged(m.byte_range_lock_waits, flags);
    let r = locks::retried(m, tried);
    let again = waiting::flagged(r.still, locks::waits_alive(m, r.still));
    lemma_answered(
        StateModel {
            byte_range_locks: r.locks,
            byte_range_lock_waits: others + again,
            outbox: m.outbox + r.actions,
            ..m
        },
        r.done,
    );
    selecting::items_are_parted_by_a_test(
        m.byte_range_lock_waits,
        |x: WaitingModel<LockWaitModel>| locks::wait_key(x) == key,
        w,
    );
    selecting::items_are_parted_by_a_test(
        r.still,
        |x: WaitingModel<LockWaitModel>| state::conn_alive(m.connections, x.conn),
        w,
    );
    lemma_still(m, tried, w);
    let all = others + again;
    if all.contains(w) {
        let i = choose|i: int| 0 <= i < all.len() && all[i] == w;
        if i < others.len() {
            assert(others[i] == w);
        } else {
            assert(again[i - others.len()] == w);
        }
    }
    if others.contains(w) {
        let i = choose|i: int| 0 <= i < others.len() && others[i] == w;
        assert(all[i] == w);
    }
}

proof fn lemma_creates(m: StateModel, ws: Seq<WaitingModel<CreateWaitModel>>)
    ensures
        completions::creates_done(m, ws).opens == m.opens,
        completions::creates_done(m, ws).durable_opens == m.durable_opens,
    decreases ws.len(),
{
    if ws.len() > 0 {
        lemma_creates(m, ws.drop_last());
    }
}

proof fn lemma_tasks(m: StateModel, ws: Seq<WaitingModel<TaskWaitModel>>)
    ensures
        tasks::tasks_started(m, ws).opens == m.opens,
        tasks::tasks_started(m, ws).durable_opens == m.durable_opens,
    decreases ws.len(),
{
    if ws.len() > 0 {
        lemma_tasks(m, ws.drop_last());
    }
}

proof fn lemma_oplock_resumed(m: StateModel, file_id: FileId)
    ensures
        timeouts::oplock_waits_resumed(m, file_id).opens == m.opens,
        timeouts::oplock_waits_resumed(m, file_id).durable_opens == m.durable_opens,
{
    let ended = Ended::Oplock { file_id };
    let f = completions::ready_creates(m, ended);
    lemma_creates(
        StateModel { cache_break_creates: waiting::unflagged(m.cache_break_creates, f), ..m },
        waiting::flagged(m.cache_break_creates, f),
    );
    let n = completions::creates_resumed(m, ended);
    let g = tasks::ready_tasks(n, ended);
    lemma_tasks(
        StateModel { cache_break_tasks: waiting::unflagged(n.cache_break_tasks, g), ..n },
        tasks::in_order(waiting::flagged(n.cache_break_tasks, g)),
    );
}

/// A durable open that cannot wait for its client is durable no longer, and no open with its file
/// id is registered any more; other opens stay as they are.
pub proof fn opens_that_lose_durability_lose_their_place(
    m: StateModel,
    share: Seq<char>,
    t: TreeOpen,
    k: int,
    d: DurableModel,
)
    requires
        durable::open_of(m.opens, t.open) is Some,
        0 <= k < m.opens.len(),
    ensures
        ({
            let after = detaching::durability_lost(m, share, t);
            &&& after.opens.len() == m.opens.len()
            &&& after.opens[k].open == m.opens[k].open
            &&& after.opens[k].key == m.opens[k].key
            &&& m.opens[k].open.file_id == t.file_id ==> after.opens[k].registration is None
            &&& m.opens[k].open.file_id != t.file_id ==> after.opens[k] == m.opens[k]
            &&& after.durable_opens.contains(d) <==> m.durable_opens.contains(d) && d.file_id
                != t.file_id
        }),
{
    let o = durable::open_of(m.opens, t.open)->0;
    let dropped = durable::durable_dropped(m, t.file_id);
    let gone = StateModel {
        opens: opens::without_file_registration(dropped.opens, t.file_id),
        ..dropped
    };
    lemma_retried(
        locks::locks_dropped(gone, share, o.last_path, o.stream_name, t.file_id),
        share,
        o.last_path,
        o.stream_name,
    );
    lasting::dropped_opens_are_kept_no_longer(m, t.file_id, d);
}

proof fn lemma_retired(
    m: StateModel,
    share: Seq<char>,
    file_id: FileId,
    open: u64,
    why: Leaving,
    at: int,
) -> (r: StateModel)
    requires
        0 <= at < m.opens.len(),
        m.opens[at].key == open,
        forall|i: int| 0 <= i < at ==> (#[trigger] m.opens[i]).key != open,
    ensures
        r.opens == detaching::opens_stripped(m.opens, open, why),
        r.durable_opens == m.durable_opens,
        detaching::retired(m, share, file_id, open, why) == durable::open_let_go(r, open),
{
    state::open_index_at(m.opens, open, at);
    let o = m.opens[at].open;
    let gone = StateModel { opens: detaching::opens_stripped(m.opens, open, why), ..m };
    let dropped = locks::locks_dropped(gone, share, o.last_path, o.stream_name, file_id);
    lemma_retried(dropped, share, o.last_path, o.stream_name);
    let unlocked = locks::lock_waits_retried(dropped, share, o.last_path, o.stream_name);
    lemma_oplock_resumed(unlocked, file_id);
    let resumed = if why != Leaving::Purged {
        timeouts::oplock_waits_resumed(unlocked, file_id)
    } else {
        unlocked
    };
    if o.has_handle {
        state::acted(resumed, crate::server::types::ActionModel::CloseHandle { open })
    } else {
        resumed
    }
}

/// An open that is given up claims nothing any more, where it is still there: it has no handle, no
/// rights, no lease, no oplock and no durability, shares everything, and is registered nowhere.
/// Other opens and the durable opens stay as they are.
pub proof fn given_up_opens_are_bare(
    m: StateModel,
    share: Seq<char>,
    file_id: FileId,
    open: u64,
    why: Leaving,
    at: int,
    r: OpenRecordModel,
)
    requires
        0 <= at < m.opens.len(),
        m.opens[at].key == open,
        forall|i: int| 0 <= i < m.opens.len() && i != at ==> (#[trigger] m.opens[i]).key != open,
    ensures
        ({
            let after = detaching::retired(m, share, file_id, open, why);
            &&& r.key != open ==> (after.opens.contains(r) <==> m.opens.contains(r))
            &&& r.key == open && after.opens.contains(r) ==> {
                &&& r.registration is None
                &&& !r.open.has_handle
                &&& r.open.desired_access == 0
                &&& r.open.share_access == 7
                &&& r.open.lease.state == 0 && !r.open.lease.breaking
                &&& r.open.oplock.level == 0 && !r.open.oplock.breaking
                &&& !r.open.durability.enabled && r.open.durability.version == 0
                &&& why == Leaving::Replaced ==> r.open.durability.app_instance_id == NIL16
                &&& why == Leaving::Stale ==> !r.open.delete_on_close
                &&& why != Leaving::Stale ==> r.open.delete_on_close
                    == m.opens[at].open.delete_on_close
            }
            &&& after.durable_opens == m.durable_opens
        }),
{
    let s = lemma_retired(m, share, file_id, open, why, at);
    state::open_index_at(m.opens, open, at);
    let bare = detaching::opens_stripped(m.opens, open, why);
    assert(bare.len() == m.opens.len());
    assert forall|i: int| 0 <= i < bare.len() implies (#[trigger] bare[i]).key == m.opens[i].key by {
    }
    lasting::opens_without_reference_are_forgotten(s, open, at, r);
    if bare.contains(r) {
        let i = choose|i: int| 0 <= i < bare.len() && bare[i] == r;
        assert(bare[i].key == m.opens[i].key);
        if i != at {
            assert(m.opens[i] == r);
        }
    }
    if m.opens.contains(r) && r.key != open {
        let i = choose|i: int| 0 <= i < m.opens.len() && m.opens[i] == r;
        assert(bare[i] == r);
    }
}

/// A durable open that gave way leaves its file, unless it was to delete it: then the file goes as
/// with its last open.
pub proof fn stale_opens_delete_their_file(
    m: StateModel,
    share: Seq<char>,
    t: TreeOpen,
    at: int,
)
    requires
        0 <= at < m.opens.len(),
        m.opens[at].key == t.open,
        forall|i: int| 0 <= i < at ==> (#[trigger] m.opens[i]).key != t.open,
    ensures
        ({
            let gone = cleanup::gone_for_good(m, share, t);
            let after = detaching::retired(m, share, t.file_id, t.open, Leaving::Stale);
            let o = m.opens[at].open;
            &&& !o.delete_on_close ==> gone.state == after && gone.unlink is None
            &&& o.delete_on_close ==> gone == closing::deleted_with(
                after,
                share,
                o,
                t.open,
                UnlinkReason::LastDetached,
            )
        }),
{
    reveal(cleanup::gone_for_good);
    state::open_index_at(m.opens, t.open, at);
}

/// A closed open is registered nowhere and claims nothing, and it is durable no longer unless it is
/// to delete its file and durable opens are preserved.
pub proof fn closed_opens_lose_their_place(
    m: StateModel,
    share: Seq<char>,
    t: TreeOpen,
    preserve: bool,
    at: int,
    k: int,
    d: DurableModel,
)
    requires
        0 <= at < m.opens.len(),
        m.opens[at].key == t.open,
        forall|i: int| 0 <= i < at ==> (#[trigger] m.opens[i]).key != t.open,
        0 <= k < m.opens.len(),
    ensures
        ({
            let after = closing::open_closed(m, share, t, preserve);
            let o = m.opens[at].open;
            let stays = preserve && o.durability.enabled && o.delete_on_close && o.stream_name
                is None;
            &&& after.opens.len() == m.opens.len()
            &&& after.opens[at].registration is None
            &&& !after.opens[at].open.has_handle
            &&& after.opens[at].open.desired_access == 0
            &&& after.opens[at].open.share_access == 7
            &&& !after.opens[at].open.oplock.breaking
            &&& after.opens[at].open.delete_on_close ==> preserve && o.durability.enabled
            &&& m.opens[k].key != t.open ==> after.opens[k] == m.opens[k]
            &&& !stays ==> (after.durable_opens.contains(d) <==> m.durable_opens.contains(d)
                && d.file_id != t.file_id)
            &&& stays ==> after.durable_opens == durable::detached_for_good(
                m,
                t.file_id,
            ).durable_opens
        }),
{
    state::open_index_at(m.opens, t.open, at);
    let o = m.opens[at].open;
    let empty = StateModel {
        opens: m.opens.update(
            at,
            closing::emptied(m.opens[at], preserve && o.durability.enabled),
        ),
        ..m
    };
    let detached = if closing::stays(o, preserve) {
        durable::detached_for_good(empty, t.file_id)
    } else {
        durable::durable_dropped(empty, t.file_id)
    };
    let closed = if o.has_handle {
        state::acted(detached, crate::server::types::ActionModel::CloseHandle { open: t.open })
    } else {
        detached
    };
    let gone = StateModel { opens: opens::without_registration(closed.opens, t.open), ..closed };
    let dropped = locks::locks_dropped(gone, share, o.last_path, o.stream_name, t.file_id);
    lemma_retried(dropped, share, o.last_path, o.stream_name);
    lemma_oplock_resumed(
        locks::lock_waits_retried(dropped, share, o.last_path, o.stream_name),
        t.file_id,
    );
    lasting::dropped_opens_are_kept_no_longer(empty, t.file_id, d);
}

} // verus!
