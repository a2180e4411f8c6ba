//! What is left of leases and oplocks whose breaks nobody acknowledged in time.

use crate::proto::messages::FileId;
use crate::server::completions;
use crate::server::distinct;
use crate::server::durable;
use crate::server::lease_acks;
use crate::server::leases;
use crate::server::opens;
use crate::server::state;
use crate::server::state::StateModel;
use crate::server::timeouts;
use crate::server::trees;
use crate::server::types::{Lease, LeaseGeneration, OpenRecordModel};
use vstd::prelude::*;

verus! {

/// Whether no two opens have the same key.
pub open spec fn keys_differ(records: Seq<OpenRecordModel>) -> bool {
    forall|i: int, j: int|
        0 <= i < j < records.len() ==> (#[trigger] records[i]).key != (#[trigger] records[j]).key
}

/// Whether some open has a key and a lease.
pub open spec fn has_lease(records: Seq<OpenRecordModel>, key: u64, lease: Lease) -> bool {
    exists|i: int|
        0 <= i < records.len() && (#[trigger] records[i]).key == key && records[i].open.lease
            == lease
}

/// Whether every open of a list has the lease that an open of another list with its key has.
spec fn leases_from(after: Seq<OpenRecordModel>, before: Seq<OpenRecordModel>) -> bool {
    forall|j: int|
        0 <= j < after.len() ==> has_lease(
            before,
            (#[trigger] after[j]).key,
            after[j].open.lease,
        )
}

proof fn lemma_same_leases(s: Seq<OpenRecordModel>)
    ensures
        leases_from(s, s),
{
    assert forall|j: int| 0 <= j < s.len() implies has_lease(
        s,
        (#[trigger] s[j]).key,
        s[j].open.lease,
    ) by {}
}

proof fn lemma_leases_through(
    a: Seq<OpenRecordModel>,
    b: Seq<OpenRecordModel>,
    c: Seq<OpenRecordModel>,
)
    requires
        leases_from(b, a),
        leases_from(c, b),
    ensures
        leases_from(c, a),
{
    assert forall|j: int| 0 <= j < c.len() implies has_lease(
        a,
        (#[trigger] c[j]).key,
        c[j].open.lease,
    ) by {
        assert(has_lease(b, c[j].key, c[j].open.lease));
        let i = choose|i: int|
            0 <= i < b.len() && (#[trigger] b[i]).key == c[j].key && b[i].open.lease
                == c[j].open.lease;
        assert(has_lease(a, b[i].key, b[i].open.lease));
    }
}

proof fn lemma_put_keeps_leases(s: Seq<OpenRecordModel>, i: int, r: OpenRecordModel)
    requires
        0 <= i < s.len(),
        r.key == s[i].key,
        r.open.lease == s[i].open.lease,
    ensures
        leases_from(s.update(i, r), s),
{
    let after = s.update(i, r);
    assert forall|j: int| 0 <= j < after.len() implies has_lease(
        s,
        (#[trigger] after[j]).key,
        after[j].open.lease,
    ) by {
        assert(s[j].key == after[j].key);
    }
}

proof fn lemma_let_go_keeps_leases(m: StateModel, open: u64)
    ensures
        leases_from(durable::open_let_go(m, open).opens, m.opens),
{
    lemma_same_leases(m.opens);
    let flags = opens::keyed(m.opens, open);
    let test = |r: OpenRecordModel| has_lease(m.opens, r.key, r.open.lease);
    assert forall|i: int| 0 <= i < m.opens.len() && !flags[i] implies test(
        #[trigger] m.opens[i],
    ) by {
        assert(has_lease(m.opens, m.opens[i].key, m.opens[i].open.lease));
    }
    distinct::left_are_from(m.opens, flags, test);
    let u = opens::without_open(m.opens, open);
    assert forall|j: int| 0 <= j < u.len() implies has_lease(
        m.opens,
        (#[trigger] u[j]).key,
        u[j].open.lease,
    ) by {
        assert(test(u[j]));
    }
}

proof fn lemma_close_keeps_leases(m: StateModel, conn: u64, file_id: FileId)
    ensures
        leases_from(timeouts::force_closed(m, conn, file_id).opens, m.opens),
{
    lemma_same_leases(m.opens);
    let taken = StateModel { connections: trees::taken_on(m.connections, conn, file_id), ..m };
    let dropped = durable::durable_dropped(taken, file_id);
    match trees::open_on(m.connections, conn, file_id) {
        None => {
            if durable::durable_of(taken.durable_opens, file_id) is Some {
                lemma_let_go_keeps_leases(
                    dropped,
                    durable::durable_of(taken.durable_opens, file_id)->0.open,
                );
            }
        },
        Some(open) => {
            let settled = timeouts::oplock_settled(dropped, open);
            let i = state::open_index(m.opens, open);
            state::open_index_is_first(m.opens, open);
            if i < m.opens.len() {
                let r = timeouts::with_oplock(m.opens[i], m.opens[i].open.oplock.level);
                lemma_put_keeps_leases(m.opens, i, r);
            }
            state::open_index_is_first(settled.opens, open);
            let k = state::open_index(settled.opens, open);
            if k < settled.opens.len() {
                let bare = completions::without_handle(settled.opens[k]);
                lemma_put_keeps_leases(settled.opens, k, bare);
                let closed = if settled.opens[k].open.has_handle {
                    state::acted(
                        settled,
                        crate::server::types::ActionModel::CloseHandle { open },
                    )
                } else {
                    settled
                };
                let shut = StateModel { opens: settled.opens.update(k, bare), ..closed };
                lemma_let_go_keeps_leases(shut, open);
                lemma_leases_through(m.opens, settled.opens, shut.opens);
                lemma_leases_through(
                    m.opens,
                    shut.opens,
                    durable::open_let_go(shut, open).opens,
                );
            }
        },
    }
}

proof fn lemma_forced_oplocks_keep_leases(m: StateModel, list: Seq<(u64, u64)>, ids: Seq<FileId>)
    ensures
        leases_from(timeouts::oplocks_forced(m, list, ids).opens, m.opens),
    decreases list.len(),
{
    lemma_same_leases(m.opens);
    if list.len() > 0 {
        lemma_forced_oplocks_keep_leases(m, list.drop_last(), ids);
        let before = timeouts::oplocks_forced(m, list.drop_last(), ids);
        let e = list.last();
        let i = state::open_index(before.opens, e.0);
        state::open_index_is_first(before.opens, e.0);
        lemma_same_leases(before.opens);
        if i < before.opens.len() {
            let r = before.opens[i];
            lemma_put_keeps_leases(
                before.opens,
                i,
                timeouts::with_oplock(r, r.open.oplock.break_to),
            );
            let taken = StateModel {
                connections: timeouts::force_taken(before.connections, e.1),
                ..before
            };
            lemma_close_keeps_leases(taken, e.1, r.open.file_id);
        }
        lemma_leases_through(
            m.opens,
            before.opens,
            timeouts::oplock_forced(before, e, ids).opens,
        );
    }
}

proof fn lemma_resuming_keeps_opens(m: StateModel, keys: Seq<[u8; 16]>, ids: Seq<FileId>)
    ensures
        timeouts::all_leases_resumed(m, keys).opens == m.opens,
        timeouts::all_oplocks_resumed(m, ids).opens == m.opens,
    decreases keys.len() + ids.len(),
{
    if keys.len() > 0 {
        lemma_resuming_keeps_opens(m, keys.drop_last(), Seq::empty());
        lease_acks::resuming_keeps_opens(
            timeouts::all_leases_resumed(m, keys.drop_last()),
            keys.last(),
            FileId { persistent: 0, volatile: 0 },
        );
    }
    if ids.len() > 0 {
        lemma_resuming_keeps_opens(m, Seq::empty(), ids.drop_last());
        lease_acks::resuming_keeps_opens(
            timeouts::all_oplocks_resumed(m, ids.drop_last()),
            crate::server::types::NIL16,
            ids.last(),
        );
    }
}

proof fn lemma_unchanged_key(gens: Seq<LeaseGeneration>, list: Seq<LeaseGeneration>, k: int)
    requires
        0 <= k < list.len(),
        leases::generation_of(gens, list[k].key) == list[k].generation,
    ensures
        timeouts::unchanged_keys(gens, list).contains(list[k].key),
    decreases list.len(),
{
    let before = timeouts::unchanged_keys(gens, list.drop_last());
    if k < list.len() - 1 {
        assert(list.drop_last()[k] == list[k]);
        lemma_unchanged_key(gens, list.drop_last(), k);
        let at = choose|at: int| 0 <= at < before.len() && before[at] == list[k].key;
        assert(before.push(list.last().key)[at] == list[k].key);
    } else {
        let after = before.push(list[k].key);
        assert(after[before.len() as int] == list[k].key);
    }
}

proof fn lemma_changed_key(gens: Seq<LeaseGeneration>, list: Seq<LeaseGeneration>, key: [u8; 16])
    requires
        forall|k: int|
            0 <= k < list.len() ==> (#[trigger] list[k]).key != key || leases::generation_of(
                gens,
                key,
            ) != list[k].generation,
    ensures
        !timeouts::unchanged_keys(gens, list).contains(key),
    decreases list.len(),
{
    if list.len() > 0 {
        let head = list.drop_last();
        assert forall|k: int| 0 <= k < head.len() implies (#[trigger] head[k]).key != key
            || leases::generation_of(gens, key) != head[k].generation by {
            assert(head[k] == list[k]);
        }
        lemma_changed_key(gens, head, key);
        assert(list[list.len() - 1] == list.last());
        let before = timeouts::unchanged_keys(gens, head);
        let all = timeouts::unchanged_keys(gens, list);
        if all.contains(key) {
            let at = choose|at: int| 0 <= at < all.len() && all[at] == key;
            if at < before.len() {
                assert(before[at] == key);
                assert(before.contains(key));
            }
        }
    }
}

/// Nothing is left of a lease that was ended by force: every open of a connection that is
/// there, with a lease that was being broken under one of the keys, has a state without any
/// right, is no longer being broken, and keeps its key, version, flags and epoch. Every
/// other open, and everything else of these, stays as it was.
pub proof fn forced_leases_leave_no_rights(m: StateModel, keys: Seq<[u8; 16]>, i: int, c: int)
    requires
        0 <= i < m.opens.len(),
    ensures
        ({
            let r = m.opens[i];
            let after = timeouts::leases_forced(m, keys).opens[i];
            let was_meant = r.open.lease.version != 0 && r.open.lease.breaking && keys.contains(
                r.open.lease.key,
            );
            &&& timeouts::leases_forced(m, keys).opens.len() == m.opens.len()
            &&& after.key == r.key && after.registration == r.registration
            &&& after.open.oplock == r.open.oplock && after.open.file_id == r.open.file_id
                && after.open.durability == r.open.durability && after.open.has_handle
                == r.open.has_handle
            &&& after.open.lease.key == r.open.lease.key && after.open.lease.version
                == r.open.lease.version && after.open.lease.flags == r.open.lease.flags
                && after.open.lease.epoch == r.open.lease.epoch
            &&& (was_meant && r.registration is Some && 0 <= c < m.connections.len()
                && m.connections[c].key == r.registration->0.conn) ==> after.open.lease.state == 0
                && !after.open.lease.breaking && after.open.lease.break_to == 0
                && after.open.lease.break_final_to == 0
            &&& !was_meant ==> after == r
            &&& (r.registration is None || forall|k: int|
                0 <= k < m.connections.len() ==> (#[trigger] m.connections[k]).key
                    != r.registration->0.conn) ==> after == r
        }),
{
    let r = m.opens[i];
    if r.registration is Some {
        state::conn_index_is_first(m.connections, r.registration->0.conn);
    }
}

/// When the time for a break has run out and the lease was not broken again since, each open
/// that was being broken and is still there has a lease that allows nothing and is no longer
/// being broken.
pub proof fn timed_out_leases_allow_nothing(
    m: StateModel,
    list: Seq<LeaseGeneration>,
    ids: Seq<FileId>,
    i: int,
    k: int,
    c: int,
    j: int,
)
    requires
        keys_differ(m.opens),
        0 <= i < m.opens.len(),
        m.opens[i].registration is Some,
        0 <= c < m.connections.len(),
        m.connections[c].key == m.opens[i].registration->0.conn,
        m.opens[i].open.lease.version != 0,
        m.opens[i].open.lease.breaking,
        0 <= k < list.len(),
        list[k].key == m.opens[i].open.lease.key,
        leases::generation_of(m.lease_break_generations, list[k].key) == list[k].generation,
        0 <= j < timeouts::timed_out(m, list, ids).opens.len(),
        timeouts::timed_out(m, list, ids).opens[j].key == m.opens[i].key,
    ensures
        ({
            let lease = timeouts::timed_out(m, list, ids).opens[j].open.lease;
            &&& lease.state == 0
            &&& !lease.breaking
            &&& lease.break_to == 0
            &&& lease.break_final_to == 0
            &&& lease.key == m.opens[i].open.lease.key
            &&& lease.version == m.opens[i].open.lease.version
            &&& lease.epoch == m.opens[i].open.lease.epoch
        }),
{
    let keys = timeouts::unchanged_keys(m.lease_break_generations, list);
    let freed = timeouts::leases_forced(m, keys);
    let all = timeouts::entries(freed, freed.opens.len() as int);
    let closed = timeouts::oplocks_forced(freed, all, ids);
    let after = timeouts::timed_out(m, list, ids);
    lemma_unchanged_key(m.lease_break_generations, list, k);
    forced_leases_leave_no_rights(m, keys, i, c);
    lemma_forced_oplocks_keep_leases(freed, all, ids);
    lemma_resuming_keeps_opens(closed, keys, Seq::empty());
    lemma_resuming_keeps_opens(timeouts::all_leases_resumed(closed, keys), Seq::empty(), ids);
    assert(has_lease(freed.opens, after.opens[j].key, after.opens[j].open.lease));
    let at = choose|at: int|
        0 <= at < freed.opens.len() && (#[trigger] freed.opens[at]).key == after.opens[j].key
            && freed.opens[at].open.lease == after.opens[j].open.lease;
    forced_leases_leave_no_rights(m, keys, at, c);
    assert(m.opens[at].key == m.opens[i].key);
}

/// A lease that was broken again since, or that no timer was started for, outlives the
/// timeout: each open that is still there has the lease that it had.
pub proof fn leases_broken_again_are_kept(
    m: StateModel,
    list: Seq<LeaseGeneration>,
    ids: Seq<FileId>,
    i: int,
    j: int,
)
    requires
        keys_differ(m.opens),
        0 <= i < m.opens.len(),
        forall|k: int|
            0 <= k < list.len() ==> (#[trigger] list[k]).key != m.opens[i].open.lease.key
                || leases::generation_of(m.lease_break_generations, m.opens[i].open.lease.key)
                != list[k].generation,
        0 <= j < timeouts::timed_out(m, list, ids).opens.len(),
        timeouts::timed_out(m, list, ids).opens[j].key == m.opens[i].key,
    ensures
        timeouts::timed_out(m, list, ids).opens[j].open.lease == m.opens[i].open.lease,
{
    let keys = timeouts::unchanged_keys(m.lease_break_generations, list);
    let freed = timeouts::leases_forced(m, keys);
    let all = timeouts::entries(freed, freed.opens.len() as int);
    let closed = timeouts::oplocks_forced(freed, all, ids);
    let after = timeouts::timed_out(m, list, ids);
    lemma_changed_key(m.lease_break_generations, list, m.opens[i].open.lease.key);
    forced_leases_leave_no_rights(m, keys, i, 0);
    lemma_forced_oplocks_keep_leases(freed, all, ids);
    lemma_resuming_keeps_opens(closed, keys, Seq::empty());
    lemma_resuming_keeps_opens(timeouts::all_leases_resumed(closed, keys), Seq::empty(), ids);
    assert(has_lease(freed.opens, after.opens[j].key, after.opens[j].open.lease));
    let at = choose|at: int|
        0 <= at < freed.opens.len() && (#[trigger] freed.opens[at]).key == after.opens[j].key
            && freed.opens[at].open.lease == after.opens[j].open.lease;
    forced_leases_leave_no_rights(m, keys, at, 0);
    assert(m.opens[at].key == m.opens[i].key);
}

/// A connection that wanted its next break ended by force wants it no longer once one of its
/// leases was ended so.
pub proof fn force_is_wanted_once(conns: Seq<crate::server::types::ConnectionModel>, key: u64)
    ensures
        !timeouts::wants_force(timeouts::force_taken(conns, key), key),
        timeouts::force_taken(conns, key).len() == conns.len(),
        forall|i: int|
            0 <= i < conns.len() ==> {
                &&& (#[trigger] timeouts::force_taken(conns, key)[i]).key == conns[i].key
                &&& timeouts::force_taken(conns, key)[i].sessions == conns[i].sessions
                &&& timeouts::force_taken(conns, key)[i].pending_async == conns[i].pending_async
                &&& conns[i].key != key ==> timeouts::force_taken(conns, key)[i] == conns[i]
            },
{
    let after = timeouts::force_taken(conns, key);
    state::conn_index_is_first(conns, key);
    state::conn_index_is_first(after, key);
    let a = state::conn_index(conns, key);
    let b = state::conn_index(after, key);
    assert(forall|i: int| 0 <= i < conns.len() ==> (#[trigger] after[i]).key == conns[i].key);
    if a < conns.len() && b < a {
        assert(conns[b].key != key);
    }
    if a < conns.len() && a < b {
        assert(after[a].key != key);
    }
}

/// An oplock whose break nobody acknowledged in time: on a connection that does not want
/// force, the open keeps the level that the break was to leave and is no longer being broken.
/// An oplock that is not being broken, or that was not waited for, stays as it is.
pub proof fn forced_oplocks_keep_what_was_left(
    m: StateModel,
    entry: (u64, u64),
    ids: Seq<FileId>,
    i: int,
)
    requires
        keys_differ(m.opens),
        0 <= i < m.opens.len(),
        m.opens[i].key == entry.0,
    ensures
        ({
            let r = m.opens[i];
            let after = timeouts::oplock_forced(m, entry, ids);
            let is_due = r.open.oplock.breaking && ids.contains(r.open.file_id);
            &&& !is_due ==> after == m
            &&& is_due && !timeouts::wants_force(m.connections, entry.1) ==> {
                &&& after.opens.len() == m.opens.len()
                &&& after.opens[i].open.oplock.level == r.open.oplock.break_to
                &&& !after.opens[i].open.oplock.breaking
                &&& after.opens[i].open.oplock.break_to == 0
                &&& after.opens[i].open.lease == r.open.lease
                &&& after.opens[i].open.has_handle == r.open.has_handle
                &&& after.opens[i].registration == r.registration
                &&& forall|j: int|
                    0 <= j < m.opens.len() && j != i ==> #[trigger] after.opens[j] == m.opens[j]
            }
        }),
{
    state::open_index_is_first(m.opens, entry.0);
    let at = state::open_index(m.opens, entry.0);
    if at < i {
        assert(m.opens[at].key != m.opens[i].key);
    }
}

} // verus!
