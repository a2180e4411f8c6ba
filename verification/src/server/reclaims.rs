//! Who gets a durable open back, by the fields of the open and of the request.

use crate::server::detaching;
use crate::server::detaching::Reconnect;
use crate::server::durable;
use crate::server::lists;
use crate::server::state;
use crate::server::state::StateModel;
use crate::server::trees;
use crate::server::trees::TreeRef;
use crate::text;
use vstd::prelude::*;

verus! {

/// Whether the durable open at `i`, whose record is at `j`, is the one with the file id that
/// a client asks for.
pub open spec fn is_asked_for(m: StateModel, r: Reconnect, i: int, j: int) -> bool {
    &&& 0 <= i < m.durable_opens.len()
    &&& m.durable_opens[i].file_id == r.file_id
    &&& forall|k: int| 0 <= k < i ==> (#[trigger] m.durable_opens[k]).file_id != r.file_id
    &&& 0 <= j < m.opens.len()
    &&& m.opens[j].key == m.durable_opens[i].open
    &&& forall|k: int| 0 <= k < j ==> (#[trigger] m.opens[k]).key != m.durable_opens[i].open
}

/// Whether a client comes back in time, as the owner, over a tree connect to the share that
/// has no open with the file id yet.
pub open spec fn comes_in_time(m: StateModel, t: TreeRef, r: Reconnect, now: u64, i: int) -> bool {
    &&& trees::tree_of(m.connections, t) is Some
    &&& m.durable_opens[i].share == text::lowered(trees::tree_of(m.connections, t)->0.share)
    &&& m.durable_opens[i].owner == r.owner@
    &&& m.durable_opens[i].expires_at is Some
    &&& now < m.durable_opens[i].expires_at->0
    &&& forall|k: int|
        0 <= k < trees::tree_of(m.connections, t)->0.opens.len() ==> (
        #[trigger] trees::tree_of(m.connections, t)->0.opens[k]).file_id != r.file_id
}

/// Whether an open is durable in the way that a request names: its version, its file id, and
/// the create guid where one is given with a version that has one.
pub open spec fn is_named(m: StateModel, r: Reconnect, j: int) -> bool {
    &&& m.opens[j].open.durability.enabled
    &&& m.opens[j].open.durability.version == r.version
    &&& m.opens[j].open.file_id == r.file_id
    &&& r.version < 2 || r.create_guid is None || r.create_guid
        == Some(m.opens[j].open.durability.create_guid)
}

proof fn lemma_asked_for(m: StateModel, t: TreeRef, r: Reconnect, i: int, j: int)
    requires
        is_asked_for(m, r, i, j),
    ensures
        durable::durable_of(m.durable_opens, r.file_id) == Some(m.durable_opens[i]),
        durable::open_of(m.opens, m.durable_opens[i].open) == Some(m.opens[j].open),
        trees::tree_of(m.connections, t) matches Some(tree) ==> (detaching::is_taken(
            m,
            t,
            r.file_id,
        ) <==> exists|k: int|
            0 <= k < tree.opens.len() && (#[trigger] tree.opens[k]).file_id == r.file_id),
{
    lists::first_at(m.durable_opens, durable::durable_is(r.file_id), i);
    state::open_index_at(m.opens, m.durable_opens[i].open, j);
    if let Some(tree) = trees::tree_of(m.connections, t) {
        lists::first_is_first(tree.opens, trees::open_is(r.file_id));
        let n = lists::first(tree.opens, trees::open_is(r.file_id));
        if n < tree.opens.len() {
            assert(tree.opens[n].file_id == r.file_id);
        } else {
            assert forall|k: int| 0 <= k < tree.opens.len() implies (
            #[trigger] tree.opens[k]).file_id != r.file_id by {
                assert(!trees::open_is(r.file_id)(tree.opens[k]));
            }
        }
    }
}

/// A client that comes back in time for an open with a lease, as the client that opened it
/// and with the key of the lease, gets the open back.
pub proof fn holders_of_the_lease_get_their_open(
    m: StateModel,
    t: TreeRef,
    r: Reconnect,
    now: u64,
    i: int,
    j: int,
)
    requires
        is_asked_for(m, r, i, j),
        comes_in_time(m, t, r, now, i),
        is_named(m, r, j),
        m.opens[j].open.lease.state != 0,
        m.durable_opens[i].client_guid == r.client_guid,
        r.lease_key == Some(m.opens[j].open.lease.key),
    ensures
        detaching::reconnected(m, t, r, now) == Some(m.opens[j].key),
{
    lemma_asked_for(m, t, r, i, j);
}

/// Nobody gets an open with a lease back by another lease key than its own, by none, or with
/// another client guid.
pub proof fn other_lease_keys_get_nothing(
    m: StateModel,
    t: TreeRef,
    r: Reconnect,
    now: u64,
    i: int,
    j: int,
)
    requires
        is_asked_for(m, r, i, j),
        m.opens[j].open.lease.state != 0,
        r.lease_key != Some(m.opens[j].open.lease.key) || m.durable_opens[i].client_guid
            != r.client_guid,
    ensures
        detaching::reconnected(m, t, r, now) is None,
{
    lemma_asked_for(m, t, r, i, j);
}

/// An open without a lease is given back, whatever the client guid, where no lease key is
/// named; where one is named, nothing is given back.
pub proof fn unleased_opens_need_no_lease_key(
    m: StateModel,
    t: TreeRef,
    r: Reconnect,
    now: u64,
    i: int,
    j: int,
)
    requires
        is_asked_for(m, r, i, j),
        m.opens[j].open.lease.state == 0,
    ensures
        r.lease_key is None && comes_in_time(m, t, r, now, i) && is_named(m, r, j)
            ==> detaching::reconnected(m, t, r, now) == Some(m.opens[j].key),
        r.lease_key is Some ==> detaching::reconnected(m, t, r, now) is None,
{
    lemma_asked_for(m, t, r, i, j);
}

/// Who gets an open back came in time, to the right share, as its owner, named its durability,
/// file id and create guid, and did not have it yet; anybody else gets nothing.
pub proof fn only_the_owner_gets_an_open_back(
    m: StateModel,
    t: TreeRef,
    r: Reconnect,
    now: u64,
    i: int,
    j: int,
)
    requires
        is_asked_for(m, r, i, j),
    ensures
        detaching::reconnected(m, t, r, now) is Some ==> comes_in_time(m, t, r, now, i)
            && is_named(m, r, j) && detaching::reconnected(m, t, r, now) == Some(m.opens[j].key),
{
    lemma_asked_for(m, t, r, i, j);
}

/// An open that is not kept as durable, or whose record is gone, is given to nobody, and
/// asking for it changes nothing.
pub proof fn unknown_opens_are_given_to_nobody(m: StateModel, t: TreeRef, r: Reconnect, now: u64)
    requires
        forall|k: int|
            0 <= k < m.durable_opens.len() ==> (#[trigger] m.durable_opens[k]).file_id
                != r.file_id,
    ensures
        detaching::reconnected(m, t, r, now) is None,
        detaching::after_reconnect(m, t, r, now) == m,
{
    lists::first_at(
        m.durable_opens,
        durable::durable_is(r.file_id),
        m.durable_opens.len() as int,
    );
}

/// The open that a client gets back waits no longer: it is attached to the connection and
/// session that the client came over, and the tree connect has it behind those it had.
pub proof fn returned_opens_are_attached(
    m: StateModel,
    t: TreeRef,
    r: Reconnect,
    now: u64,
    i: int,
    j: int,
)
    requires
        is_asked_for(m, r, i, j),
        detaching::reconnected(m, t, r, now) is Some,
    ensures
        ({
            let after = detaching::after_reconnect(m, t, r, now);
            let d = after.durable_opens[i];
            &&& after.durable_opens.len() == m.durable_opens.len()
            &&& d.attached_conn == Some(t.conn)
            &&& d.attached_session_id == Some(t.session_id)
            &&& d.expires_at is None
            &&& d.open == m.durable_opens[i].open && d.file_id == r.file_id && d.share
                == m.durable_opens[i].share && d.owner == m.durable_opens[i].owner
                && d.client_guid == m.durable_opens[i].client_guid
            &&& forall|k: int|
                0 <= k < m.durable_opens.len() && k != i ==> #[trigger] after.durable_opens[k]
                    == m.durable_opens[k]
            &&& after.opens == m.opens
            &&& after.outbox == m.outbox
        }),
{
    lemma_asked_for(m, t, r, i, j);
    lists::first_at(m.durable_opens, durable::durable_is(r.file_id), i);
}

/// Asking at or behind the deadline gives nothing back, and the open is no longer kept for
/// anybody.
pub proof fn deadlines_are_kept(
    m: StateModel,
    t: TreeRef,
    r: Reconnect,
    now: u64,
    i: int,
    j: int,
)
    requires
        is_asked_for(m, r, i, j),
        m.durable_opens[i].expires_at is Some,
        now >= m.durable_opens[i].expires_at->0,
    ensures
        detaching::reconnected(m, t, r, now) is None,
{
    lemma_asked_for(m, t, r, i, j);
}

} // verus!
