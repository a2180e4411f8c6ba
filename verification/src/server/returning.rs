//! Why a client that comes back in time finds its durable opens again.

use crate::proto::messages::FileId;
use crate::server::detaching;
use crate::server::detaching::Reconnect;
use crate::server::durable;
use crate::server::lists;
use crate::server::locks;
use crate::server::opens;
use crate::server::state;
use crate::server::state::StateModel;
use crate::server::trees;
use crate::server::trees::TreeRef;
use crate::server::types::{DurableModel, OpenRecordModel, TreeOpen};
use crate::server::waiting;
use crate::text;
use vstd::prelude::*;

verus! {

/// The durable open with a file id, looked up from the end of the list.
proof fn lemma_durable_of_last(s: Seq<DurableModel>, id: FileId)
    requires
        s.len() > 0,
    ensures
        durable::durable_of(s, id) == match durable::durable_of(s.drop_last(), id) {
            Some(d) => Some(d),
            None => if s.last().file_id == id {
                Some(s.last())
            } else {
                None
            },
        },
{
    let test = durable::durable_is(id);
    let head = s.drop_last();
    let i = lists::first(head, test);
    lists::first_is_first(head, test);
    assert forall|j: int| 0 <= j < i implies !test(#[trigger] s[j]) by {
        assert(head[j] == s[j]);
    }
    if i < head.len() {
        assert(s[i] == head[i]);
        lists::first_at(s, test, i);
    } else if test(s.last()) {
        lists::first_at(s, test, s.len() - 1);
    } else {
        assert forall|j: int| 0 <= j < s.len() implies !test(#[trigger] s[j]) by {
            if j < head.len() {
                assert(head[j] == s[j]);
            }
        }
        lists::first_at(s, test, s.len() as int);
    }
}

/// A durable open stays when others go.
proof fn lemma_durable_stays(s: Seq<DurableModel>, flags: Seq<bool>, id: FileId)
    requires
        flags.len() >= s.len(),
        forall|i: int| 0 <= i < s.len() && #[trigger] flags[i] ==> s[i].file_id != id,
    ensures
        durable::durable_of(waiting::unflagged(s, flags), id) == durable::durable_of(s, id),
    decreases s.len(),
{
    if s.len() > 0 {
        assert forall|i: int| 0 <= i < s.drop_last().len() && #[trigger] flags[i] implies
            s.drop_last()[i].file_id != id by {
            assert(s.drop_last()[i] == s[i]);
        }
        lemma_durable_stays(s.drop_last(), flags, id);
        lemma_durable_of_last(s, id);
        let before = waiting::unflagged(s.drop_last(), flags);
        if !flags[s.len() - 1] {
            let after = before.push(s.last());
            lemma_durable_of_last(after, id);
            assert(after.drop_last() =~= before);
        } else {
            assert(s[s.len() - 1].file_id != id);
        }
    }
}

/// A durable open is found after it was put in place, and others stay.
proof fn lemma_durable_put(s: Seq<DurableModel>, d: DurableModel, id: FileId)
    ensures
        durable::durable_of(durable::with_durable(s, d), id) == if d.file_id == id {
            Some(d)
        } else {
            durable::durable_of(s, id)
        },
{
    let own = durable::durable_is(d.file_id);
    let test = durable::durable_is(id);
    let at = lists::first(s, own);
    let after = durable::with_durable(s, d);
    lists::first_is_first(s, own);
    lists::first_is_first(s, test);
    if at < s.len() {
        let i = lists::first(s, test);
        assert forall|j: int| 0 <= j < i implies !test(#[trigger] after[j]) by {
            assert(!test(s[j]));
            if j == at {
                assert(own(s[at]));
            }
        }
        if i < s.len() {
            assert(test(s[i]));
            if i == at {
                assert(own(s[at]));
            }
        }
        lists::first_at(after, test, i);
    } else {
        lemma_durable_of_last(after, id);
        assert(after.drop_last() =~= s);
        if d.file_id == id {
            assert(durable::durable_of(s, id) is None);
        }
    }
}

proof fn lemma_answered_keeps_opens(m: StateModel, done: Seq<locks::LockAnswer>)
    ensures
        locks::lock_waits_answered(m, done).durable_opens == m.durable_opens,
        locks::lock_waits_answered(m, done).opens == m.opens,
    decreases done.len(),
{
    if done.len() > 0 {
        lemma_answered_keeps_opens(m, done.drop_last());
    }
}

/// Giving one durable open up takes it from the list, and leaves the opens but for where
/// they are registered.
proof fn lemma_lost(m: StateModel, share: Seq<char>, t: TreeOpen, id: FileId, key: u64)
    requires
        t.file_id != id,
    ensures
        ({
            let after = detaching::durability_lost(m, share, t);
            &&& durable::durable_of(after.durable_opens, id) == durable::durable_of(
                m.durable_opens,
                id,
            )
            &&& durable::open_of(after.opens, key) == durable::open_of(m.opens, key)
        }),
{
    match durable::open_of(m.opens, t.open) {
        None => {},
        Some(o) => {
            let flags = durable::filed(m.durable_opens, t.file_id);
            lemma_durable_stays(m.durable_opens, flags, id);
            let dropped = durable::durable_dropped(m, t.file_id);
            let gone = StateModel {
                opens: opens::without_file_registration(dropped.opens, t.file_id),
                ..dropped
            };
            lemma_keys_kept(m.opens, gone.opens, key);
            let unlocked = locks::locks_dropped(gone, share, o.last_path, o.stream_name, t.file_id);
            let lock = locks::lock_key(share, o.last_path, o.stream_name);
            let on = locks::waits_on(unlocked.byte_range_lock_waits, lock);
            let r = locks::retried(unlocked, waiting::flagged(unlocked.byte_range_lock_waits, on));
            let again = waiting::flagged(r.still, locks::waits_alive(unlocked, r.still));
            lemma_answered_keeps_opens(
                StateModel {
                    byte_range_locks: r.locks,
                    byte_range_lock_waits: waiting::unflagged(unlocked.byte_range_lock_waits, on)
                        + again,
                    outbox: unlocked.outbox + r.actions,
                    ..unlocked
                },
                r.done,
            );
        },
    }
}

proof fn lemma_keys_kept(a: Seq<OpenRecordModel>, b: Seq<OpenRecordModel>, key: u64)
    requires
        a.len() == b.len(),
        forall|i: int|
            0 <= i < a.len() ==> (#[trigger] b[i]).key == a[i].key && b[i].open == a[i].open,
    ensures
        durable::open_of(b, key) == durable::open_of(a, key),
{
    let i = state::open_index(a, key);
    state::open_index_is_first(a, key);
    assert forall|j: int| 0 <= j < i implies (#[trigger] b[j]).key != key by {
        assert(a[j].key != key);
    }
    state::open_index_at(b, key, i);
}

proof fn lemma_all_lost(m: StateModel, share: Seq<char>, list: Seq<TreeOpen>, id: FileId, key: u64)
    requires
        forall|i: int| 0 <= i < list.len() ==> (#[trigger] list[i]).file_id != id,
    ensures
        ({
            let after = detaching::all_lost(m, share, list);
            &&& durable::durable_of(after.durable_opens, id) == durable::durable_of(
                m.durable_opens,
                id,
            )
            &&& durable::open_of(after.opens, key) == durable::open_of(m.opens, key)
        }),
    decreases list.len(),
{
    if list.len() > 0 {
        lemma_all_lost(m, share, list.drop_last(), id, key);
        assert(list[list.len() - 1].file_id != id);
        lemma_lost(
            detaching::all_lost(m, share, list.drop_last()),
            share,
            list.last(),
            id,
            key,
        );
    }
}

proof fn lemma_all_waiting(
    durables: Seq<DurableModel>,
    share: Seq<char>,
    list: Seq<TreeOpen>,
    deadline: u64,
    e: TreeOpen,
    d: DurableModel,
)
    requires
        durable::durable_of(durables, e.file_id) == Some(d),
        d.file_id == e.file_id,
        forall|i: int|
            0 <= i < list.len() && (#[trigger] list[i]).file_id == e.file_id ==> list[i] == e,
    ensures
        durable::durable_of(
            detaching::all_waiting(durables, share, list, deadline),
            e.file_id,
        ) == Some(
            if list.contains(e) {
                DurableModel {
                    open: e.open,
                    attached_conn: None,
                    attached_session_id: None,
                    expires_at: Some(deadline),
                    ..d
                }
            } else {
                d
            },
        ),
    decreases list.len(),
{
    if list.len() > 0 {
        let head = list.drop_last();
        let l = list.last();
        lemma_all_waiting(durables, share, head, deadline, e, d);
        let before = detaching::all_waiting(durables, share, head, deadline);
        let w = detaching::waiting_durable(before, share, l, deadline);
        lemma_durable_put(before, w, e.file_id);
        lists::first_is_first(before, durable::durable_is(l.file_id));
        assert(w.file_id == l.file_id);
        assert(list[list.len() - 1] == l);
        if list.contains(e) && l != e {
            let i = choose|i: int| 0 <= i < list.len() && list[i] == e;
            assert(head[i] == e);
        }
        if head.contains(e) {
            let i = choose|i: int| 0 <= i < head.len() && head[i] == e;
            assert(list[i] == e);
        }
    }
}

/// A durable open that can wait for its client is detached with its tree connect, and the
/// client that comes back for it in time, over a tree connect to the same share, gets it
/// back.
pub proof fn detached_opens_are_found_again(
    m: StateModel,
    t: TreeRef,
    e: TreeOpen,
    deadline: u64,
    r: Reconnect,
    back: TreeRef,
    later: u64,
)
    requires
        trees::tree_of(m.connections, t) is Some,
        ({
            let tree = trees::tree_of(m.connections, t)->0;
            let share = text::lowered(tree.share);
            let after = detaching::tree_detached(m, t, deadline);
            &&& tree.opens.contains(e)
            // A tree connect has one open for each file id.
            &&& forall|i: int|
                0 <= i < tree.opens.len() && (#[trigger] tree.opens[i]).file_id == e.file_id
                    ==> tree.opens[i] == e
            &&& detaching::detaches(m, share, e)
            // The open is the client's.
            &&& durable::durable_of(m.durable_opens, e.file_id) is Some
            &&& ({
                let d = durable::durable_of(m.durable_opens, e.file_id)->0;
                &&& d.share == share
                &&& d.owner == r.owner@
                &&& detaching::is_wanted(
                    durable::open_of(m.opens, e.open)->0,
                    d.client_guid,
                    r,
                )
            })
            &&& r.file_id == e.file_id
            // It comes back over a tree connect to the share that has no such open.
            &&& trees::tree_of(after.connections, back) is Some
            &&& text::lowered(trees::tree_of(after.connections, back)->0.share) == share
            &&& !detaching::is_taken(after, back, e.file_id)
        }),
        later < deadline,
    ensures
        detaching::reconnected(
            detaching::tree_detached(m, t, deadline),
            back,
            r,
            later,
        ) == Some(e.open),
{
    let tree = trees::tree_of(m.connections, t)->0;
    let share = text::lowered(tree.share);
    let d = durable::durable_of(m.durable_opens, e.file_id)->0;
    lists::first_is_first(m.durable_opens, durable::durable_is(e.file_id));
    let lf = detaching::lost_flags(m, share, tree.opens);
    let df = detaching::detached_flags(m, share, tree.opens);
    let lost = waiting::flagged(tree.opens, lf);
    let waits = waiting::flagged(tree.opens, df);
    assert forall|i: int| 0 <= i < lost.len() implies (#[trigger] lost[i]).file_id != e.file_id by {
        waiting::flagged_contains(tree.opens, lf, lost[i]);
        assert(lost.contains(lost[i]));
        let k = choose|k: int| 0 <= k < tree.opens.len() && tree.opens[k] == lost[i] && lf[k];
        assert(lf[k] == detaching::loses_durability(m, share, tree.opens[k]));
    }
    lemma_all_lost(m, share, lost, e.file_id, e.open);
    assert forall|i: int|
        0 <= i < waits.len()
            && (#[trigger] waits[i]).file_id == e.file_id implies waits[i] == e by {
        waiting::flagged_contains(tree.opens, df, waits[i]);
        assert(waits.contains(waits[i]));
    }
    waiting::flagged_contains(tree.opens, df, e);
    let at = choose|i: int| 0 <= i < tree.opens.len() && tree.opens[i] == e;
    assert(df[at]);
    lemma_all_waiting(
        detaching::all_lost(m, share, lost).durable_opens,
        share,
        waits,
        deadline,
        e,
        d,
    );
}

/// A client that comes back too late gets nothing, and the open is forgotten.
pub proof fn late_clients_get_nothing(m: StateModel, back: TreeRef, r: Reconnect, later: u64)
    requires
        detaching::offered(m, back, r) is Some,
        durable::has_expired(detaching::offered(m, back, r)->0, later),
    ensures
        detaching::reconnected(m, back, r, later) is None,
        durable::durable_of(
            detaching::after_reconnect(m, back, r, later).durable_opens,
            r.file_id,
        ) is None,
{
    let s = m.durable_opens;
    lemma_durable_gone(s, s.len() as int, r.file_id);
    assert(s.take(s.len() as int) =~= s);
}

proof fn lemma_durable_gone(s: Seq<DurableModel>, n: int, id: FileId)
    requires
        0 <= n <= s.len(),
    ensures
        durable::durable_of(
            waiting::unflagged(s.take(n), durable::filed(s, id)),
            id,
        ) is None,
    decreases n,
{
    if n > 0 {
        lemma_durable_gone(s, n - 1, id);
        let head = s.take(n);
        assert(head.drop_last() =~= s.take(n - 1));
        assert(head.last() == s[n - 1]);
        let before = waiting::unflagged(head.drop_last(), durable::filed(s, id));
        if !durable::filed(s, id)[n - 1] {
            lemma_durable_of_last(before.push(head.last()), id);
            assert(before.push(head.last()).drop_last() =~= before);
        }
    }
}

} // verus!
