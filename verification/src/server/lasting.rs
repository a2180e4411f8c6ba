//! Which opens outlast their connection, and how repeated requests find them, by fields.

use crate::path::PathModel;
use crate::proto::messages::FileId;
use crate::server::completions;
use crate::server::detaching;
use crate::server::detaching::Leaving;
use crate::server::durable;
use crate::server::durable::Replayer;
use crate::server::lists;
use crate::server::locks;
use crate::server::selecting;
use crate::server::state;
use crate::server::state::StateModel;
use crate::server::trees;
use crate::server::types::{
    ActionModel, DurableModel, DurableReplayLookup, OpenModel, OpenRecordModel,
    TreeOpen, NIL16,
};
use crate::text;
use vstd::prelude::*;

verus! {

/// Whether an open holds a lock on its path and stream.
pub open spec fn holds_a_lock(m: StateModel, share: Seq<char>, o: OpenModel) -> bool {
    exists|i: int|
        0 <= i < m.byte_range_locks.len() && (#[trigger] m.byte_range_locks[i]).key
            == locks::lock_key(share, o.last_path, o.stream_name) && m.byte_range_locks[i].lock.fid
            == o.file_id
}

/// An open waits for its client exactly where it is durable, has a handle, nothing of it is
/// being broken, its lease caches handles (0x2) or it has none and a batch oplock (9), and it
/// does not hold a lock under a lease without writes (0x4).
pub proof fn opens_wait_for_their_client(m: StateModel, share: Seq<char>, o: OpenModel)
    ensures
        detaching::can_wait(m, share, o) <==> {
            &&& o.durability.enabled
            &&& o.has_handle
            &&& !o.lease.breaking
            &&& !o.oplock.breaking
            &&& if o.lease.state != 0 { o.lease.state & 0x2 != 0 } else { o.oplock.level == 9 }
            &&& o.lease.state == 0 || o.lease.state & 0x4 != 0 || !holds_a_lock(m, share, o)
        },
{
    let key = locks::lock_key(share, o.last_path, o.stream_name);
    if holds_a_lock(m, share, o) {
        let i = choose|i: int|
            0 <= i < m.byte_range_locks.len() && (#[trigger] m.byte_range_locks[i]).key == key
                && m.byte_range_locks[i].lock.fid == o.file_id;
        assert(locks::held_by(m.byte_range_locks[i], key, o.file_id));
    }
    if locks::has_locks(m.byte_range_locks, key, o.file_id) {
        let i = choose|i: int|
            0 <= i < m.byte_range_locks.len() && locks::held_by(
                #[trigger] m.byte_range_locks[i],
                key,
                o.file_id,
            );
        assert(m.byte_range_locks[i].key == key);
    }
}

/// Waiting ends the configured time after it began.
pub proof fn waiting_ends_in_due_time(m: StateModel, now: u64)
    requires
        now + m.config.durable_handle_timeout <= u64::MAX,
    ensures
        detaching::deadline_fits(m, now),
        detaching::deadline_of(m, now) == now + m.config.durable_handle_timeout,
{
}

/// An open that begins to wait is attached to nobody and waits until the deadline; who owns it
/// and which client opened it stays as it was.
pub proof fn waiting_opens_keep_their_owner(
    durables: Seq<DurableModel>,
    share: Seq<char>,
    t: TreeOpen,
    deadline: u64,
    i: int,
)
    requires
        0 <= i < durables.len(),
        durables[i].file_id == t.file_id,
        forall|k: int| 0 <= k < i ==> (#[trigger] durables[k]).file_id != t.file_id,
    ensures
        ({
            let d = detaching::waiting_durable(durables, share, t, deadline);
            &&& d.attached_conn is None
            &&& d.attached_session_id is None
            &&& d.expires_at == Some(deadline)
            &&& d.open == t.open
            &&& d.file_id == t.file_id
            &&& d.owner == durables[i].owner
            &&& d.client_guid == durables[i].client_guid
            &&& d.share == durables[i].share
        }),
{
    lists::first_at(durables, durable::durable_is(t.file_id), i);
}

/// The time to come back is over at the deadline, not before; an open that does not wait never
/// expires.
pub proof fn waiting_opens_expire_at_the_deadline(d: DurableModel, now: u64)
    ensures
        d.expires_at is None ==> !durable::has_expired(d, now) && !durable::awaits_client(d, now),
        d.expires_at matches Some(t) ==> (durable::has_expired(d, now) <==> t <= now) && (
        durable::awaits_client(d, now) <==> now < t),
{
}

/// An open that is kept under a file id takes the place of one that was; all others stay.
pub proof fn one_open_is_kept_for_a_file_id(durables: Seq<DurableModel>, d: DurableModel, k: int)
    requires
        0 <= k < durables.len(),
    ensures
        durable::durable_of(durable::with_durable(durables, d), d.file_id) == Some(d),
        durables[k].file_id != d.file_id ==> durable::with_durable(durables, d)[k] == durables[k],
        durables[k].file_id == d.file_id ==> durable::with_durable(durables, d).len()
            == durables.len(),
        (forall|i: int| 0 <= i < durables.len() ==> (#[trigger] durables[i]).file_id != d.file_id)
            ==> durable::with_durable(durables, d) == durables.push(d),
{
    let test = durable::durable_is(d.file_id);
    lists::first_is_first(durables, test);
    let i = lists::first(durables, test);
    let after = durable::with_durable(durables, d);
    assert forall|j: int| 0 <= j < i implies !test(#[trigger] after[j]) by {
        assert(!test(durables[j]));
        assert(after[j] == durables[j]);
    }
    lists::first_at(after, test, i);
    if i == durables.len() {
        assert(!test(durables[k]));
    }
}

/// An open whose durability is dropped is kept under its file id no longer; the others are.
pub proof fn dropped_opens_are_kept_no_longer(m: StateModel, file_id: FileId, d: DurableModel)
    ensures
        durable::durable_dropped(m, file_id).durable_opens.contains(d) <==> (
        m.durable_opens.contains(d) && d.file_id != file_id),
        durable::durable_dropped(m, file_id).opens == m.opens,
{
    let test = |d: DurableModel| d.file_id == file_id;
    assert(durable::filed(m.durable_opens, file_id) =~= m.durable_opens.map_values(test));
    selecting::items_are_parted_by_a_test(m.durable_opens, test, d);
}

/// Whether a durable open is the one that a create request repeats, by its fields: same share,
/// client, owner and create guid, not expired, durable in the second version, eligible for it
/// and with a handle.
pub open spec fn is_repeated(d: DurableModel, o: OpenModel, who: Replayer, now: u64) -> bool {
    &&& d.share == text::lowered(who.share@)
    &&& d.client_guid == who.client_guid
    &&& d.owner == who.owner@
    &&& d.expires_at is None || now < d.expires_at->0
    &&& o.durability.enabled
    &&& o.durability.version >= 2
    &&& o.durability.replay_eligible
    &&& o.durability.create_guid == who.create_guid
    &&& o.has_handle
}

/// A repeated create request gets the first open that it repeats, where that is attached to its
/// own session or to none; where it is attached elsewhere, the request is told so. An open that
/// is attached and was given out and used before is passed over.
pub proof fn repeated_requests_find_their_open(
    m: StateModel,
    who: Replayer,
    now: u64,
    n: int,
    j: int,
)
    requires
        0 <= n < m.durable_opens.len(),
        0 <= j < m.opens.len(),
        m.opens[j].key == m.durable_opens[n].open,
        forall|k: int| 0 <= k < j ==> (#[trigger] m.opens[k]).key != m.durable_opens[n].open,
    ensures
        ({
            let d = m.durable_opens[n];
            let o = m.opens[j].open;
            let own = d.attached_conn == Some(who.conn) && d.attached_session_id == Some(
                who.session_id,
            );
            let found = durable::replayed(m, who, now, n);
            &&& is_repeated(d, o, who, now) && d.attached_conn is None ==> found
                == DurableReplayLookup::Available(d.open)
            &&& is_repeated(d, o, who, now) && d.attached_conn is Some && !own ==> found
                == DurableReplayLookup::AttachedElsewhere
            &&& is_repeated(d, o, who, now) && own && !(o.durability.replay_consumed
                && o.durability.replay_used) ==> found == DurableReplayLookup::Available(d.open)
            &&& is_repeated(d, o, who, now) && own && o.durability.replay_consumed
                && o.durability.replay_used ==> found == durable::replayed(m, who, now, n + 1)
            &&& !is_repeated(d, o, who, now) ==> found == durable::replayed(m, who, now, n + 1)
        }),
        durable::replayed(m, who, now, m.durable_opens.len() as int)
            == DurableReplayLookup::NotFound,
{
    state::open_index_at(m.opens, m.durable_opens[n].open, j);
}

/// An open that is given up claims nothing: no handle, no access, everything shared, no lease
/// state, no oplock, not durable. It is not deleted on close where it is stale; its application
/// instance is forgotten where it was replaced.
pub proof fn given_up_opens_claim_nothing(o: OpenModel, why: Leaving)
    ensures
        ({
            let s = detaching::stripped(o, why);
            &&& !s.has_handle
            &&& s.desired_access == 0
            &&& s.share_access == 7
            &&& s.lease.state == 0 && !s.lease.breaking && s.lease.key == o.lease.key
            &&& s.oplock.level == 0 && !s.oplock.breaking
            &&& !s.durability.enabled && s.durability.version == 0
            &&& s.file_id == o.file_id && s.last_path == o.last_path && s.stream_name
                == o.stream_name
            &&& why == Leaving::Stale ==> !s.delete_on_close && !s.delete_on_close_unlinks_name
            &&& why != Leaving::Stale ==> s.delete_on_close == o.delete_on_close
                && s.delete_on_close_unlinks_name == o.delete_on_close_unlinks_name
            &&& why == Leaving::Replaced ==> s.durability.app_instance_id == NIL16
            &&& why != Leaving::Replaced ==> s.durability.app_instance_id
                == o.durability.app_instance_id
        }),
{
}

/// What waits on a path that goes away: the durable opens of the share that wait for their
/// client with that path or one below it, but for case, and no others.
pub proof fn opens_under_a_path_are_given_up(
    records: Seq<OpenRecordModel>,
    d: DurableModel,
    share: Seq<char>,
    path: PathModel,
    j: int,
)
    requires
        0 <= j < records.len(),
        records[j].key == d.open,
        forall|k: int| 0 <= k < j ==> (#[trigger] records[k]).key != d.open,
    ensures
        detaching::is_under(records, d, share, path) <==> {
            &&& d.share == share
            &&& d.expires_at is Some
            &&& records[j].open.last_path.len() >= path.len()
            &&& forall|c: int|
                0 <= c < path.len() ==> text::same_ignoring_case(
                    #[trigger] records[j].open.last_path[c],
                    path[c],
                )
        },
{
    state::open_index_at(records, d.open, j);
}

/// An application instance that comes again closes its earlier opens: those are durable opens
/// whose record has its id.
pub proof fn instances_are_known_by_their_id(
    records: Seq<OpenRecordModel>,
    d: DurableModel,
    id: [u8; 16],
    j: int,
)
    requires
        0 <= j < records.len(),
        records[j].key == d.open,
        forall|k: int| 0 <= k < j ==> (#[trigger] records[k]).key != d.open,
    ensures
        detaching::instance_is(records, id)(d) <==> records[j].open.durability.app_instance_id
            == id,
{
    state::open_index_at(records, d.open, j);
}

/// The handle of an open that is discarded is closed, once: an open with a handle is closed, one
/// without is not, and an open that something refers to is kept without its handle.
pub proof fn discarded_opens_lose_their_handle(m: StateModel, open: u64, i: int)
    requires
        0 <= i < m.opens.len(),
        m.opens[i].key == open,
        forall|k: int| 0 <= k < i ==> (#[trigger] m.opens[k]).key != open,
        durable::is_referred_to(m, open),
    ensures
        ({
            let after = completions::open_discarded(m, open);
            &&& m.opens[i].open.has_handle ==> after.outbox == m.outbox.push(
                ActionModel::CloseHandle { open },
            )
            &&& !m.opens[i].open.has_handle ==> after.outbox == m.outbox
            &&& after.opens.len() == m.opens.len()
            &&& !after.opens[i].open.has_handle
            &&& after.opens[i].open.lease == m.opens[i].open.lease
            &&& after.opens[i].registration == m.opens[i].registration
            &&& forall|k: int|
                0 <= k < m.opens.len() && k != i ==> #[trigger] after.opens[k] == m.opens[k]
        }),
{
    state::open_index_at(m.opens, open, i);
}

/// An open that nothing refers to is forgotten when it is let go, and a handle that it still has
/// goes with it, unclosed; others stay.
pub proof fn opens_without_reference_are_forgotten(
    m: StateModel,
    open: u64,
    i: int,
    r: OpenRecordModel,
)
    requires
        0 <= i < m.opens.len(),
        m.opens[i].key == open,
        forall|k: int| 0 <= k < i ==> (#[trigger] m.opens[k]).key != open,
    ensures
        ({
            let after = durable::open_let_go(m, open);
            let kept = trees::is_kept(m.connections, open) || exists|k: int|
                0 <= k < m.durable_opens.len() && (#[trigger] m.durable_opens[k]).open == open;
            &&& kept ==> after == m
            &&& !kept && m.opens[i].open.has_handle ==> after.outbox == m.outbox.push(
                ActionModel::DropHandle { open },
            )
            &&& !kept && !m.opens[i].open.has_handle ==> after.outbox == m.outbox
            &&& !kept ==> (after.opens.contains(r) <==> m.opens.contains(r) && r.key != open)
        }),
{
    state::open_index_at(m.opens, open, i);
    let test = durable::is_durable_of(open);
    lists::first_is_first(m.durable_opens, test);
    let n = lists::first(m.durable_opens, test);
    if n < m.durable_opens.len() {
        assert(m.durable_opens[n].open == open);
    } else {
        assert forall|k: int| 0 <= k < m.durable_opens.len() implies (
        #[trigger] m.durable_opens[k]).open != open by {
            assert(!test(m.durable_opens[k]));
        }
    }
    let keyed = |r: OpenRecordModel| r.key == open;
    assert(crate::server::opens::keyed(m.opens, open) =~= m.opens.map_values(keyed));
    selecting::items_are_parted_by_a_test(m.opens, keyed, r);
}

} // verus!
