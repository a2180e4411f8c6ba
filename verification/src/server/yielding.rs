//! How leases give way to other openers, field by field, and what their holders are told.

use crate::proto::messages::Dialect;
use crate::server::leases;
use crate::server::leases::Notice;
use crate::server::ruling;
use crate::server::state;
use crate::server::state::StateModel;
use crate::server::types::{ConnectionModel, Lease, OpenRecordModel, NIL16};
use vstd::prelude::*;

verus! {

/// Whether a lease is one, is of another key, and has a right that a break takes away.
pub open spec fn opposes(lease: Lease, incoming: [u8; 16], target: u32) -> bool {
    &&& lease.version != 0
    &&& lease.key != NIL16
    &&& lease.key != incoming
    &&& lease.state != 0
    &&& lease.state & target != lease.state
}

/// Whether the holder of a lease has to agree before writes (0x4) or handles (0x2) go.
pub open spec fn must_agree(lease: Lease) -> bool {
    lease.state & 0x6 != 0
}

/// Where the connection stands that is told of the break of an open's lease.
pub open spec fn told_at(conns: Seq<ConnectionModel>, r: OpenRecordModel, c: int) -> bool {
    &&& 0 <= c < conns.len()
    &&& leases::told_connection(conns, r) == Some(c)
}

/// A lease that does not oppose a break, or whose open is not meant, stays as it is; of one that
/// does, all but state, epoch and the fields of the break stay, and so does the open around it.
pub proof fn breaks_leave_the_rest_alone(
    m: StateModel,
    flags: Seq<bool>,
    incoming: [u8; 16],
    target: u32,
    i: int,
)
    requires
        0 <= i < m.opens.len(),
    ensures
        ({
            let r = m.opens[i];
            let after = leases::leases_broken(m, flags, incoming, target).opens[i];
            &&& leases::leases_broken(m, flags, incoming, target).opens.len() == m.opens.len()
            &&& leases::leases_broken(m, flags, incoming, target).connections == m.connections
            &&& !flags[i] || !opposes(r.open.lease, incoming, target) ==> after == r
            &&& after.key == r.key && after.registration == r.registration
            &&& after.open.oplock == r.open.oplock && after.open.durability == r.open.durability
                && after.open.has_handle == r.open.has_handle && after.open.file_id
                == r.open.file_id && after.open.desired_access == r.open.desired_access
            &&& after.open.lease.key == r.open.lease.key && after.open.lease.version
                == r.open.lease.version && after.open.lease.flags == r.open.lease.flags
        }),
{
}

/// A lease that nobody has to agree to break changes at once: it keeps the rights that the
/// break leaves and no other, and is not being broken.
pub proof fn leases_nobody_answers_for_change_at_once(
    m: StateModel,
    flags: Seq<bool>,
    incoming: [u8; 16],
    target: u32,
    i: int,
    c: int,
)
    requires
        0 <= i < m.opens.len(),
        flags[i],
        opposes(m.opens[i].open.lease, incoming, target),
        !m.opens[i].open.lease.breaking,
        !must_agree(m.opens[i].open.lease) || m.opens[i].registration is None || (told_at(
            m.connections,
            m.opens[i],
            c,
        ) && !m.connections[c].has_sender),
    ensures
        ({
            let l = m.opens[i].open.lease;
            let after = leases::leases_broken(m, flags, incoming, target).opens[i].open.lease;
            &&& after.state == l.state & target
            &&& !after.breaking
            &&& after.break_to == 0
        }),
{
    ruling::rights_add_up();
}

/// A lease whose holder can be told and has to agree keeps its rights until then: it is being
/// broken to the rights that the break leaves.
pub proof fn leases_of_holders_wait_for_their_word(
    m: StateModel,
    flags: Seq<bool>,
    incoming: [u8; 16],
    target: u32,
    i: int,
    c: int,
)
    requires
        0 <= i < m.opens.len(),
        flags[i],
        opposes(m.opens[i].open.lease, incoming, target),
        !m.opens[i].open.lease.breaking,
        must_agree(m.opens[i].open.lease),
        told_at(m.connections, m.opens[i], c),
        m.connections[c].has_sender,
    ensures
        ({
            let l = m.opens[i].open.lease;
            let after = leases::leases_broken(m, flags, incoming, target).opens[i].open.lease;
            &&& after.state == l.state
            &&& after.breaking
            &&& after.break_to == l.state & target
            &&& after.break_final_to == l.state & target
        }),
{
    ruling::rights_add_up();
}

/// A lease that is being broken already is to go further: what is left in the end is what both
/// breaks leave, and the break that is under way stays.
pub proof fn further_breaks_leave_what_all_leave(
    m: StateModel,
    flags: Seq<bool>,
    incoming: [u8; 16],
    target: u32,
    i: int,
)
    requires
        0 <= i < m.opens.len(),
        flags[i],
        opposes(m.opens[i].open.lease, incoming, target),
        m.opens[i].open.lease.breaking,
    ensures
        ({
            let l = m.opens[i].open.lease;
            let after = leases::leases_broken(m, flags, incoming, target).opens[i].open.lease;
            &&& after.state == l.state
            &&& after.breaking
            &&& after.break_to == l.break_to
            &&& after.break_final_to == l.break_final_to & target
            &&& after.epoch == l.epoch
        }),
{
}

/// A lease of the second version counts its breaks, on connections of the third generation
/// alone; on others the epoch is zero.
pub proof fn epochs_count_breaks(lease: Lease, dialect: Option<Dialect>)
    ensures
        lease.version == 2 && lease.epoch < u16::MAX && (dialect == Some(Dialect::Smb300)
            || dialect == Some(Dialect::Smb302) || dialect == Some(Dialect::Smb311))
            ==> leases::next_epoch(lease, dialect) == lease.epoch + 1,
        lease.version == 2 && lease.epoch == u16::MAX && (dialect == Some(Dialect::Smb300)
            || dialect == Some(Dialect::Smb302) || dialect == Some(Dialect::Smb311))
            ==> leases::next_epoch(lease, dialect) == u16::MAX,
        lease.version != 2 || dialect is None || dialect == Some(Dialect::Smb202) || dialect
            == Some(Dialect::Smb210) ==> leases::next_epoch(lease, dialect) == 0,
{
}

/// Of the break of a lease of the first version the connection is told over which the open is
/// registered; of one of the second version the client's first active connection, where the
/// client is known and has one.
pub proof fn holders_are_told_over_their_connection(
    conns: Seq<ConnectionModel>,
    r: OpenRecordModel,
    c: int,
)
    requires
        r.registration is Some,
        0 <= c < conns.len(),
        conns[c].key == r.registration->0.conn,
        forall|k: int| 0 <= k < c ==> (#[trigger] conns[k]).key != r.registration->0.conn,
    ensures
        r.open.lease.version < 2 ==> leases::told_connection(conns, r) == Some(c),
        conns[c].negotiated.client_guid == NIL16 ==> leases::told_connection(conns, r) == Some(c),
        leases::told_connection(conns, r) matches Some(t) && 0 <= t < conns.len() && (t == c || (
        conns[t].negotiated.client_guid == conns[c].negotiated.client_guid && conns[t].numbers.len()
            > 0)),
{
    state::conn_index_is_first(conns, r.registration->0.conn);
    let at = state::conn_index(conns, r.registration->0.conn);
    if at < c {
        assert(conns[at].key != r.registration->0.conn);
    }
    leases::primary_is_lowest(conns, conns[c].negotiated.client_guid, conns.len() as int);
}

/// Whether a notice is of the break of an open's lease: it goes to the connection that is told,
/// names the key, the rights as they are and as they will be, asks for an answer exactly where
/// writes or handles go, and carries no reason and no hints.
pub open spec fn tells_of(
    n: Notice,
    conns: Seq<ConnectionModel>,
    r: OpenRecordModel,
    target: u32,
    c: int,
) -> bool {
    &&& told_at(conns, r, c)
    &&& conns[c].has_sender
    &&& n.conn == conns[c].key
    &&& n.notification.structure_size == 44
    &&& n.notification.lease_key == r.open.lease.key
    &&& n.notification.current_lease_state == r.open.lease.state
    &&& n.notification.new_lease_state == r.open.lease.state & target
    &&& n.notification.flags == if must_agree(r.open.lease) { 1u32 } else { 0u32 }
    &&& n.notification.new_epoch == leases::next_epoch(
        r.open.lease,
        conns[c].negotiated.dialect,
    )
    &&& n.notification.break_reason == 0
    &&& n.notification.access_mask_hint == 0
    &&& n.notification.share_mask_hint == 0
}

/// Every notice is of the lease of an open that is meant, opposes the break and is not being
/// broken yet.
pub proof fn notices_tell_of_opposing_leases(
    m: StateModel,
    flags: Seq<bool>,
    incoming: [u8; 16],
    target: u32,
    n: int,
    k: int,
) -> (at: (int, int))
    requires
        0 <= n <= m.opens.len(),
        0 <= k < leases::notices(m, flags, incoming, target, n).len(),
    ensures
        0 <= at.0 < n,
        flags[at.0],
        opposes(m.opens[at.0].open.lease, incoming, target),
        !m.opens[at.0].open.lease.breaking,
        tells_of(
            leases::notices(m, flags, incoming, target, n)[k],
            m.connections,
            m.opens[at.0],
            target,
            at.1,
        ),
    decreases n,
{
    let before = leases::notices(m, flags, incoming, target, n - 1);
    if k < before.len() {
        notices_tell_of_opposing_leases(m, flags, incoming, target, n - 1, k)
    } else {
        ruling::rights_add_up();
        let r = m.opens[n - 1];
        if r.registration is Some {
            state::conn_index_is_first(m.connections, r.registration->0.conn);
            let c = state::conn_index(m.connections, r.registration->0.conn);
            if c < m.connections.len() {
                leases::primary_is_lowest(
                    m.connections,
                    m.connections[c].negotiated.client_guid,
                    m.connections.len() as int,
                );
            }
        }
        (n - 1, leases::told_connection(m.connections, m.opens[n - 1])->0)
    }
}

/// Nobody is told twice of the break of one lease.
pub proof fn each_lease_is_told_of_once(
    m: StateModel,
    flags: Seq<bool>,
    incoming: [u8; 16],
    target: u32,
    n: int,
    a: int,
    b: int,
)
    requires
        0 <= n <= m.opens.len(),
        0 <= a < b < leases::notices(m, flags, incoming, target, n).len(),
    ensures
        leases::notices(m, flags, incoming, target, n)[a].notification.lease_key
            != leases::notices(m, flags, incoming, target, n)[b].notification.lease_key,
    decreases n,
{
    let before = leases::notices(m, flags, incoming, target, n - 1);
    if b < before.len() {
        each_lease_is_told_of_once(m, flags, incoming, target, n - 1, a, b);
    } else {
        assert(before[a] == leases::notices(m, flags, incoming, target, n)[a]);
    }
}

/// Every lease that opposes a break, is not being broken yet and whose holder can be told is
/// told of.
pub proof fn opposing_leases_are_told_of(
    m: StateModel,
    flags: Seq<bool>,
    incoming: [u8; 16],
    target: u32,
    n: int,
    i: int,
    c: int,
)
    requires
        0 <= i < n <= m.opens.len(),
        flags[i],
        opposes(m.opens[i].open.lease, incoming, target),
        !m.opens[i].open.lease.breaking,
        told_at(m.connections, m.opens[i], c),
        m.connections[c].has_sender,
    ensures
        exists|k: int|
            0 <= k < leases::notices(m, flags, incoming, target, n).len() && (
            #[trigger] leases::notices(m, flags, incoming, target, n)[k]).notification.lease_key
                == m.opens[i].open.lease.key,
    decreases n,
{
    let before = leases::notices(m, flags, incoming, target, n - 1);
    let all = leases::notices(m, flags, incoming, target, n);
    if i < n - 1 {
        opposing_leases_are_told_of(m, flags, incoming, target, n - 1, i, c);
        let k = choose|k: int|
            0 <= k < before.len() && (#[trigger] before[k]).notification.lease_key
                == m.opens[i].open.lease.key;
        assert(all[k] == before[k]);
    } else if leases::is_noticed(before, m.opens[i].open.lease.key) {
        let k = choose|k: int|
            0 <= k < before.len() && (#[trigger] before[k]).notification.lease_key
                == m.opens[i].open.lease.key;
        assert(all[k] == before[k]);
    } else {
        assert(all[before.len() as int].notification.lease_key == m.opens[i].open.lease.key);
    }
}

/// Whether the break of an open's lease holds its opener up: the lease opposes it, is being
/// broken or has to be agreed to by a holder who can be told, and the opener insists, or the
/// lease caches writes, or the break leaves a right.
pub open spec fn holds_up(
    conns: Seq<ConnectionModel>,
    r: OpenRecordModel,
    incoming: [u8; 16],
    target: u32,
    force: bool,
) -> bool {
    let l = r.open.lease;
    &&& opposes(l, incoming, target)
    &&& l.breaking || (must_agree(l) && leases::told_connection(conns, r) is Some
        && conns[leases::told_connection(conns, r)->0].has_sender)
    &&& force || l.state & 0x4 != 0 || l.state & target != 0
}

/// The keys that an opener waits for are those of the leases that hold it up, each once.
pub proof fn openers_wait_for_what_holds_them_up(
    m: StateModel,
    flags: Seq<bool>,
    incoming: [u8; 16],
    target: u32,
    force: bool,
    n: int,
    key: [u8; 16],
)
    requires
        0 <= n <= m.opens.len(),
    ensures
        leases::awaited_keys(m, flags, incoming, target, force, n).contains(key) <==> exists|i: int|
            0 <= i < n && flags[i] && (#[trigger] m.opens[i]).open.lease.key == key && holds_up(
                m.connections,
                m.opens[i],
                incoming,
                target,
                force,
            ),
        leases::awaited_keys(m, flags, incoming, target, force, n).no_duplicates(),
    decreases n,
{
    if n > 0 {
        ruling::rights_add_up();
        openers_wait_for_what_holds_them_up(m, flags, incoming, target, force, n - 1, key);
        let before = leases::awaited_keys(m, flags, incoming, target, force, n - 1);
        let all = leases::awaited_keys(m, flags, incoming, target, force, n);
        let r = m.opens[n - 1];
        if all.contains(key) && !before.contains(key) {
            let k = choose|k: int| 0 <= k < all.len() && all[k] == key;
            if k < before.len() {
                assert(before[k] == key);
            }
            assert(m.opens[n - 1].open.lease.key == key);
        }
        if before.contains(key) {
            let k = choose|k: int| 0 <= k < before.len() && before[k] == key;
            assert(all[k] == key);
        }
        if flags[n - 1] && holds_up(m.connections, r, incoming, target, force) && r.open.lease.key
            == key && !before.contains(key) {
            assert(all[before.len() as int] == key);
        }
    }
}

/// Breaks that leave exactly reading and writing and go together to one connection all repeat
/// the first; all others are sent as they are.
pub proof fn payloads_carry_the_notices(b: leases::Batch, target: u32)
    ensures
        leases::payload(b, target) matches crate::server::types::ActionModel::LeaseBreak {
            conn,
            notifications,
        } && conn == b.conn && notifications.len() == b.notifications.len() && (target != 0x5
            || b.notifications.len() <= 1 ==> notifications == b.notifications) && (target == 0x5
            ==> forall|i: int|
            0 <= i < notifications.len() ==> #[trigger] notifications[i] == b.notifications[0]),
{
    ruling::rights_add_up();
}

} // verus!
