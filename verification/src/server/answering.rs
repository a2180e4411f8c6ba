//! How breaks of leases and oplocks are acknowledged, and how oplocks give way, field by field.

use crate::path::PathModel;
use crate::proto::messages::FileId;
use crate::server::completions;
use crate::server::lease_acks;
use crate::server::lists;
use crate::server::opens;
use crate::server::oplocks;
use crate::server::rules;
use crate::server::ruling;
use crate::server::state;
use crate::server::state::StateModel;
use crate::server::timeouts;
use crate::server::types;
use crate::server::types::{ActionModel, ConnectionModel, OpenRecordModel, NIL16};
use crate::text;
use vstd::prelude::*;

verus! {

// ---------------------------------------------------------------------------
// Leases
// ---------------------------------------------------------------------------

/// Whether an open is registered and has a lease with a key.
pub open spec fn holds(r: OpenRecordModel, key: [u8; 16]) -> bool {
    r.registration is Some && r.open.lease.version != 0 && r.open.lease.key == key
}

/// An acknowledgment of a lease that nobody has is not found (0xc0000034); one that keeps a
/// right that some break of the lease takes, or handles without reads, is not accepted
/// (0xc00000d0); one where nothing is being broken fails (0xc0000001); any other is taken.
pub proof fn acknowledgments_are_judged(
    records: Seq<OpenRecordModel>,
    key: [u8; 16],
    lease_state: u32,
    i: int,
)
    requires
        0 <= i < records.len(),
        key != NIL16,
    ensures
        (forall|k: int| 0 <= k < records.len() ==> !holds(#[trigger] records[k], key))
            ==> lease_acks::ack_status(records, key, lease_state) == 0xc000_0034,
        holds(records[i], key) && records[i].open.lease.breaking && (lease_state
            & !records[i].open.lease.break_to != 0 || (lease_state & 0x2 != 0 && lease_state & 0x1
            == 0)) ==> lease_acks::ack_status(records, key, lease_state) == 0xc000_00d0,
        holds(records[i], key) && (forall|k: int|
            0 <= k < records.len() && holds(#[trigger] records[k], key)
                ==> !records[k].open.lease.breaking) ==> lease_acks::ack_status(
            records,
            key,
            lease_state,
        ) == 0xc000_0001,
        holds(records[i], key) && records[i].open.lease.breaking && (lease_state & 0x2 == 0
            || lease_state & 0x1 != 0) && (forall|k: int|
            0 <= k < records.len() && holds(#[trigger] records[k], key)
                && records[k].open.lease.breaking ==> lease_state
                & !records[k].open.lease.break_to == 0) ==> lease_acks::ack_status(
            records,
            key,
            lease_state,
        ) == 0,
{
    assert(opens::has_lease(records[i], key) == holds(records[i], key));
    assert(opens::breaks_lease(records[i], key) == (holds(records[i], key)
        && records[i].open.lease.breaking));
    assert(lease_acks::ack_misfits(records[i], key, lease_state) == (opens::breaks_lease(
        records[i],
        key,
    ) && !rules::ack_fits(lease_state, records[i].open.lease.break_to)));
    if forall|k: int| 0 <= k < records.len() ==> !holds(#[trigger] records[k], key) {
        assert(!lease_acks::lease_known(records, key)) by {
            assert forall|k: int| 0 <= k < records.len() implies !opens::has_lease(
                #[trigger] records[k],
                key,
            ) by {
                assert(!holds(records[k], key));
            }
        }
    }
    if forall|k: int|
        0 <= k < records.len() && holds(#[trigger] records[k], key)
            ==> !records[k].open.lease.breaking {
        assert forall|k: int| 0 <= k < records.len() implies !opens::breaks_lease(
            #[trigger] records[k],
            key,
        ) by {
            assert(holds(records[k], key) ==> !records[k].open.lease.breaking);
        }
    }
    if forall|k: int|
        0 <= k < records.len() && holds(#[trigger] records[k], key)
            && records[k].open.lease.breaking ==> lease_state & !records[k].open.lease.break_to
            == 0 {
        assert forall|k: int|
            0 <= k < records.len() && (lease_state & 0x2 == 0 || lease_state & 0x1
                != 0) implies !lease_acks::ack_misfits(#[trigger] records[k], key, lease_state) by {
            assert(holds(records[k], key) && records[k].open.lease.breaking ==> lease_state
                & !records[k].open.lease.break_to == 0);
        }
    }
}

/// A key of zeros names no lease.
pub proof fn nil_keys_are_not_found(records: Seq<OpenRecordModel>, lease_state: u32)
    ensures
        lease_acks::ack_status(records, NIL16, lease_state) == 0xc000_0034,
{
}

/// An acknowledged break is over: each open with the lease that was being broken has the rights
/// that the client named and no others, and is no longer being broken; opens without the lease,
/// or whose lease was not being broken, stay as they are.
pub proof fn acknowledged_leases_have_the_named_rights(
    records: Seq<OpenRecordModel>,
    key: [u8; 16],
    lease_state: u32,
    i: int,
)
    requires
        0 <= i < records.len(),
    ensures
        ({
            let r = records[i];
            let after = lease_acks::acked_opens(records, key, lease_state)[i];
            &&& holds(r, key) && r.open.lease.breaking ==> {
                &&& after.open.lease.state == lease_state
                &&& !after.open.lease.breaking
                &&& after.open.lease.break_to == 0
                &&& after.open.lease.break_final_to == lease_state
                &&& after.open.lease.key == key
                &&& after.open.lease.epoch == r.open.lease.epoch
                &&& after.open.lease.version == r.open.lease.version
            }
            &&& !holds(r, key) || !r.open.lease.breaking ==> after == r
        }),
{
}

/// Where a lease has to go further after an acknowledgment, a client that can be told and has
/// writes or handles left is asked again: the lease keeps the acknowledged rights and is being
/// broken to the next ones. Where nobody can be told, it changes at once.
pub proof fn further_steps_ask_again_or_change(
    m: StateModel,
    key: [u8; 16],
    lease_state: u32,
    next: u32,
    target: u32,
    i: int,
)
    requires
        0 <= i < m.opens.len(),
        holds(m.opens[i], key),
    ensures
        ({
            let l = m.opens[i].open.lease;
            let after = lease_acks::staged_opens(m, key, lease_state, next, target)[i].open.lease;
            let is_told = lease_acks::told(m, key, i + 1) is Some;
            &&& is_told && lease_state & 0x6 != 0 ==> after.state == l.state && after.breaking
                && after.break_to == next && after.break_final_to == target
            &&& !is_told || lease_state & 0x6 == 0 ==> after.state == next && !after.breaking
                && after.break_to == 0
            &&& after.key == l.key && after.epoch == l.epoch && after.version == l.version
        }),
{
    ruling::rights_add_up();
}

/// Who is told of a further step is the first connection that can be told, among those over
/// which the lease is registered.
pub proof fn further_steps_are_told_to_a_holder(m: StateModel, key: [u8; 16], n: int)
    requires
        0 <= n <= m.opens.len(),
    ensures
        lease_acks::told(m, key, n) matches Some(conn) ==> exists|i: int|
            0 <= i < n && holds(#[trigger] m.opens[i], key) && m.opens[i].registration->0.conn
                == conn && state::has_sender(m.connections, conn),
        lease_acks::told(m, key, n) is None ==> forall|i: int|
            0 <= i < n && holds(#[trigger] m.opens[i], key) ==> !state::has_sender(
                m.connections,
                m.opens[i].registration->0.conn,
            ),
    decreases n,
{
    if n > 0 {
        further_steps_are_told_to_a_holder(m, key, n - 1);
        let before = lease_acks::told(m, key, n - 1);
        if before is Some {
            let i = choose|i: int|
                0 <= i < n - 1 && holds(#[trigger] m.opens[i], key)
                    && m.opens[i].registration->0.conn == before->0 && state::has_sender(
                    m.connections,
                    before->0,
                );
            assert(holds(m.opens[i], key));
        } else {
            assert(holds(m.opens[n - 1], key) == opens::has_lease(m.opens[n - 1], key));
        }
    }
}

/// How far a lease is to go in the end: the acknowledged rights that every break of it leaves.
pub proof fn final_rights_are_left_by_all(
    records: Seq<OpenRecordModel>,
    key: [u8; 16],
    lease_state: u32,
)
    ensures
        lease_acks::final_target(records, key, lease_state, 0) == lease_state,
        records.len() > 0 && holds(records[0], key) && records[0].open.lease.breaking
            ==> lease_acks::final_target(records, key, lease_state, 1) == lease_state
            & records[0].open.lease.break_final_to,
        records.len() > 0 && !(holds(records[0], key) && records[0].open.lease.breaking)
            ==> lease_acks::final_target(records, key, lease_state, 1) == lease_state,
{
    reveal_with_fuel(lease_acks::final_target, 2);
}

// ---------------------------------------------------------------------------
// Oplocks
// ---------------------------------------------------------------------------

/// Whether the connection of an open is there and can be told.
pub open spec fn reachable(conns: Seq<ConnectionModel>, r: OpenRecordModel) -> bool {
    r.registration is Some && state::has_sender(conns, r.registration->0.conn)
}

/// An exclusive (8) or batch (9) oplock whose holder can be told keeps its level until the
/// holder agrees, and is being broken to what was asked for; one whose holder cannot be told,
/// or level two (1), changes at once. A break for batch oplocks alone leaves others alone, and
/// an oplock that is being broken already stays.
pub proof fn oplocks_give_way_by_level(
    m: StateModel,
    flags: Seq<bool>,
    target: u8,
    batch_only: bool,
    i: int,
)
    requires
        0 <= i < m.opens.len(),
        flags[i],
        target == 0 || target == 1,
    ensures
        ({
            let r = m.opens[i];
            let o = r.open.oplock;
            let after = oplocks::oplocks_broken(m, flags, target, batch_only).opens[i];
            let high = o.level == 8 || o.level == 9;
            let is_meant = !o.breaking && (!batch_only || o.level == 9) && (high || (o.level == 1
                && target == 0));
            &&& !is_meant ==> after == r
            &&& is_meant && high && reachable(m.connections, r) ==> after.open.oplock.level
                == o.level && after.open.oplock.breaking && after.open.oplock.break_to == target
            &&& is_meant && !(high && reachable(m.connections, r)) ==> after.open.oplock.level
                == target && !after.open.oplock.breaking && after.open.oplock.break_to == 0
            &&& after.open.lease == r.open.lease && after.registration == r.registration
                && after.key == r.key && after.open.has_handle == r.open.has_handle
        }),
{
}

/// The message of an oplock break goes to the connection of the open and names its file id and
/// the level that is left.
pub proof fn oplock_messages_name_the_open(r: OpenRecordModel, level: u8)
    requires
        r.registration is Some,
    ensures
        oplocks::break_message(r, level) matches ActionModel::OplockBreak { conn, notification }
            && conn == r.registration->0.conn && notification.structure_size == 24
            && notification.oplock_level == level && notification.file_id == r.open.file_id
            && notification.reserved == 0 && notification.reserved2 == 0,
{
}

/// The holders that are told are those that can be, of oplocks that are meant, and each is told
/// the level that is left; nobody else is told anything.
pub proof fn oplock_holders_are_told(
    m: StateModel,
    flags: Seq<bool>,
    target: u8,
    batch_only: bool,
    n: int,
    i: int,
)
    requires
        0 <= i < n <= m.opens.len(),
        target == 0 || target == 1,
    ensures
        ({
            let r = m.opens[i];
            let o = r.open.oplock;
            let is_meant = flags[i] && !o.breaking && (!batch_only || o.level == 9) && (o.level == 8
                || o.level == 9 || (o.level == 1 && target == 0)) && reachable(m.connections, r);
            let told = oplocks::break_messages(m, flags, target, batch_only, i + 1);
            let before = oplocks::break_messages(m, flags, target, batch_only, i);
            &&& is_meant ==> told == before.push(oplocks::break_message(r, target))
            &&& !is_meant ==> told == before
        }),
{
}

/// Openers wait for the oplocks that are being broken or that a holder has to agree to.
pub proof fn openers_wait_for_oplocks(
    m: StateModel,
    flags: Seq<bool>,
    target: u8,
    batch_only: bool,
    n: int,
    id: FileId,
)
    requires
        0 <= n <= m.opens.len(),
        target == 0 || target == 1,
    ensures
        oplocks::awaited_files(m, flags, target, batch_only, n).contains(id) <==> exists|i: int|
            0 <= i < n && flags[i] && (#[trigger] m.opens[i]).open.file_id == id && holds_up(
                m.connections,
                m.opens[i],
                target,
                batch_only,
            ),
    decreases n,
{
    if n > 0 {
        openers_wait_for_oplocks(m, flags, target, batch_only, n - 1, id);
        let before = oplocks::awaited_files(m, flags, target, batch_only, n - 1);
        let all = oplocks::awaited_files(m, flags, target, batch_only, n);
        let r = m.opens[n - 1];
        if all.contains(id) && !before.contains(id) {
            let k = choose|k: int| 0 <= k < all.len() && all[k] == id;
            if k < before.len() {
                assert(before[k] == id);
            }
            assert(m.opens[n - 1].open.file_id == id);
        }
        if before.contains(id) {
            let k = choose|k: int| 0 <= k < before.len() && before[k] == id;
            assert(all[k] == id);
        }
        if flags[n - 1] && holds_up(m.connections, r, target, batch_only) && r.open.file_id == id
            && !before.contains(id) {
            assert(all[before.len() as int] == id);
        }
    }
}

/// Whether the oplock of an open holds up who breaks it to a level.
pub open spec fn holds_up(
    conns: Seq<ConnectionModel>,
    r: OpenRecordModel,
    target: u8,
    batch_only: bool,
) -> bool {
    let o = r.open.oplock;
    let high = o.level == 8 || o.level == 9;
    &&& !batch_only || o.level == 9
    &&& high || (o.level == 1 && target == 0)
    &&& o.breaking || (high && reachable(conns, r))
}

/// Acknowledging an oplock break: where the connection has no such open and nobody has, the file
/// is closed (0xc0000128); where nothing is being broken, none is a breach of the protocol
/// (0xc00000e3) and any other level is not found (0xc0000034); a level that the break does not
/// leave is a wrong parameter (0xc000000d); else the open has that level and the break is over.
pub proof fn oplock_acknowledgments_are_judged(
    m: StateModel,
    conn: u64,
    file_id: FileId,
    level: u8,
    i: int,
)
    requires
        0 <= i < m.opens.len(),
        m.opens[i].registration is Some,
        m.opens[i].registration->0.conn == conn,
        m.opens[i].open.file_id == file_id,
        state::conn_alive(m.connections, conn),
        forall|k: int|
            0 <= k < i ==> (#[trigger] m.opens[k]).registration is None
                || m.opens[k].registration->0.conn != conn || m.opens[k].open.file_id != file_id,
    ensures
        ({
            let o = m.opens[i].open.oplock;
            let status = oplocks::ack_status(m, conn, file_id, level);
            let after = oplocks::oplock_acked(m, conn, file_id, level);
            &&& !o.breaking && level == 0 ==> status == 0xc000_00e3
            &&& !o.breaking && level != 0 ==> status == 0xc000_0034
            &&& o.breaking && level != o.break_to && !(o.break_to == 1 && level == 0) ==> status
                == 0xc000_000d
            &&& o.breaking && (level == o.break_to || (o.break_to == 1 && level == 0)) ==> status
                == 0 && after.opens[i].open.oplock.level == level
                && !after.opens[i].open.oplock.breaking && after.opens[i].open.oplock.break_to == 0
                && after.opens.len() == m.opens.len()
            &&& status != 0 ==> after == m
        }),
{
    lists::first_at(m.opens, oplocks::registered_on(conn, file_id), i);
    lease_acks::resuming_keeps_opens(
        StateModel { opens: m.opens.update(i, timeouts::with_oplock(m.opens[i], level)), ..m },
        NIL16,
        file_id,
    );
}

/// An acknowledgment for a file that nobody has open says that it is closed.
pub proof fn acknowledgments_of_closed_files_fail(
    m: StateModel,
    conn: u64,
    file_id: FileId,
    level: u8,
)
    requires
        forall|k: int|
            0 <= k < m.opens.len() ==> (#[trigger] m.opens[k]).registration is None
                || m.opens[k].open.file_id != file_id,
    ensures
        oplocks::ack_status(m, conn, file_id, level) == 0xc000_0128,
        oplocks::oplock_acked(m, conn, file_id, level) == m,
{
    lists::first_at(m.opens, oplocks::registered_on(conn, file_id), m.opens.len() as int);
    lists::first_at(m.opens, completions::registered_as(file_id), m.opens.len() as int);
}

/// Whether an open is registered on a path and stream of a share, in any case.
pub open spec fn is_on(
    r: OpenRecordModel,
    share: Seq<char>,
    path: PathModel,
    stream_name: Option<Seq<char>>,
) -> bool {
    &&& r.registration is Some
    &&& r.registration->0.share == text::lowered(share)
    &&& r.registration->0.path == path
    &&& r.registration->0.stream_name == types::opt_lowered(stream_name)
}

/// Level two oplocks (1) of a path and stream are lost, those of others and of other levels are
/// kept.
pub proof fn level_two_is_lost_where_it_is_taken(
    m: StateModel,
    share: Seq<char>,
    path: PathModel,
    stream_name: Option<Seq<char>>,
    i: int,
)
    requires
        0 <= i < m.opens.len(),
    ensures
        ({
            let r = m.opens[i];
            let after = oplocks::level_ii_lost(m, share, path, stream_name).opens[i];
            &&& is_on(r, share, path, stream_name) && r.open.oplock.level == 1
                ==> after.open.oplock.level == 0 && !after.open.oplock.breaking
            &&& !is_on(r, share, path, stream_name) || r.open.oplock.level != 1 ==> after == r
        }),
{
}

/// An open loses its own level two oplock only where another open has the same path and stream,
/// and it is told so where it can be.
pub proof fn own_level_two_is_lost_to_others(
    m: StateModel,
    share: Seq<char>,
    path: PathModel,
    stream_name: Option<Seq<char>>,
    file_id: FileId,
    i: int,
)
    requires
        0 <= i < m.opens.len(),
        is_on(m.opens[i], share, path, stream_name),
        m.opens[i].open.file_id == file_id,
        m.opens[i].open.oplock.level == 1,
        forall|k: int|
            0 <= k < i ==> !is_on(#[trigger] m.opens[k], share, path, stream_name)
                || m.opens[k].open.file_id != file_id || m.opens[k].open.oplock.level != 1,
    ensures
        ({
            let r = m.opens[i];
            let after = oplocks::own_level_ii_broken(m, share, path, stream_name, file_id);
            let others = exists|k: int|
                0 <= k < m.opens.len() && is_on(#[trigger] m.opens[k], share, path, stream_name)
                    && m.opens[k].open.file_id != file_id;
            &&& !others ==> after == m
            &&& others ==> after.opens[i].open.oplock.level == 0
            &&& others && reachable(m.connections, r) ==> after.outbox == m.outbox.push(
                oplocks::break_message(r, 0),
            )
            &&& others && !reachable(m.connections, r) ==> after.outbox == m.outbox
        }),
{
    let test = oplocks::own_level_ii(share, path, stream_name, file_id);
    assert forall|k: int| 0 <= k < i implies !test(#[trigger] m.opens[k]) by {
        assert(!is_on(m.opens[k], share, path, stream_name) || m.opens[k].open.file_id != file_id
            || m.opens[k].open.oplock.level != 1);
    }
    lists::first_at(m.opens, test, i);
    if exists|k: int|
        0 <= k < m.opens.len() && is_on(#[trigger] m.opens[k], share, path, stream_name)
            && m.opens[k].open.file_id != file_id {
        let k = choose|k: int|
            0 <= k < m.opens.len() && is_on(#[trigger] m.opens[k], share, path, stream_name)
                && m.opens[k].open.file_id != file_id;
        assert(oplocks::is_other_handle(m.opens[k], share, path, stream_name, file_id));
    }
    if oplocks::loses_own_level_ii(m.opens, share, path, stream_name, file_id) {
        let k = choose|k: int|
            0 <= k < m.opens.len() && oplocks::is_other_handle(
                #[trigger] m.opens[k],
                share,
                path,
                stream_name,
                file_id,
            );
        assert(is_on(m.opens[k], share, path, stream_name));
    }
}

} // verus!
