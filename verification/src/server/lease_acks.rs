//! Acknowledgments of lease breaks.

use crate::ntstatus::{
    STATUS_OBJECT_NAME_NOT_FOUND, STATUS_REQUEST_NOT_ACCEPTED, STATUS_SUCCESS, STATUS_UNSUCCESSFUL,
};
use crate::proto::messages::oplock_break::LeaseBreakNotification;
use crate::proto::messages::FileId;
use crate::server::completions;
use crate::server::leases;
use crate::server::opens;
use crate::server::rules;
use crate::server::rules::{
    staged_lease_break_target, valid_lease_break_ack_state, LEASE_BREAK_ACK_REQUIRED,
    LEASE_HANDLE_CACHING, LEASE_WRITE_CACHING,
};
use crate::server::state;
use crate::server::state::{ServerState, StateModel};
use crate::server::tasks;
use crate::server::timeouts;
use crate::server::types::{
    Action, ActionModel, BreakWaitModel, ConnectionModel, CreateWaitModel, Lease, OpenRecord,
    OpenRecordModel, TaskWaitModel, WriteWaitModel, NIL16,
};
use crate::server::waiting;
use crate::server::waiting::WaitingModel;
use crate::server::writes;
use crate::wire::array16_equal;
use vstd::prelude::*;

verus! {

/// Whether some open has the lease.
pub open spec fn lease_known(records: Seq<OpenRecordModel>, key: [u8; 16]) -> bool {
    exists|i: int| 0 <= i < records.len() && opens::has_lease(#[trigger] records[i], key)
}

/// Whether the lease of an open is being broken to a state that an acknowledgment does not
/// fit.
pub open spec fn ack_misfits(r: OpenRecordModel, key: [u8; 16], lease_state: u32) -> bool {
    opens::breaks_lease(r, key) && !rules::ack_fits(lease_state, r.open.lease.break_to)
}

/// Whether an acknowledgment does not fit some break of the lease.
pub open spec fn ack_refused(
    records: Seq<OpenRecordModel>,
    key: [u8; 16],
    lease_state: u32,
) -> bool {
    exists|i: int| 0 <= i < records.len() && ack_misfits(#[trigger] records[i], key, lease_state)
}

/// The status of an acknowledgment.
pub open spec fn ack_status(records: Seq<OpenRecordModel>, key: [u8; 16], lease_state: u32) -> u32 {
    if key == NIL16 || !lease_known(records, key) {
        STATUS_OBJECT_NAME_NOT_FOUND
    } else if ack_refused(records, key, lease_state) {
        STATUS_REQUEST_NOT_ACCEPTED
    } else if !completions::lease_breaking(records, key) {
        STATUS_UNSUCCESSFUL
    } else {
        STATUS_SUCCESS
    }
}

/// How far the lease is to go in the end, by the breaks of the first `n` opens.
pub open spec fn final_target(
    records: Seq<OpenRecordModel>,
    key: [u8; 16],
    lease_state: u32,
    n: int,
) -> u32
    decreases n,
{
    if n <= 0 {
        lease_state
    } else {
        let before = final_target(records, key, lease_state, n - 1);
        if opens::breaks_lease(records[n - 1], key) {
            before & records[n - 1].open.lease.break_final_to
        } else {
            before
        }
    }
}

/// An open after its client acknowledged the break of its lease.
pub open spec fn acked(r: OpenRecordModel, key: [u8; 16], lease_state: u32) -> OpenRecordModel {
    if opens::breaks_lease(r, key) {
        leases::with_lease(
            r,
            Lease {
                state: lease_state,
                breaking: false,
                break_to: 0,
                break_final_to: lease_state,
                ..r.open.lease
            },
        )
    } else {
        r
    }
}

/// Opens after the acknowledgment.
pub open spec fn acked_opens(
    records: Seq<OpenRecordModel>,
    key: [u8; 16],
    lease_state: u32,
) -> Seq<OpenRecordModel> {
    records.map_values(|r: OpenRecordModel| acked(r, key, lease_state))
}

/// The first connection that can be told of a further break, by the first `n` opens.
pub open spec fn told(m: StateModel, key: [u8; 16], n: int) -> Option<u64>
    decreases n,
{
    if n <= 0 {
        None
    } else {
        let before = told(m, key, n - 1);
        let r = m.opens[n - 1];
        if before is None && opens::has_lease(r, key) && state::has_sender(
            m.connections,
            r.registration->0.conn,
        ) {
            Some(r.registration->0.conn)
        } else {
            before
        }
    }
}

/// The highest epoch of the lease, among the first `n` opens.
pub open spec fn highest_epoch(records: Seq<OpenRecordModel>, key: [u8; 16], n: int) -> u16
    decreases n,
{
    if n <= 0 {
        0
    } else {
        let before = highest_epoch(records, key, n - 1);
        if opens::has_lease(records[n - 1], key) {
            opens::max16(before, records[n - 1].open.lease.epoch)
        } else {
            before
        }
    }
}

/// A lease that goes a step further: it is being broken again where the client is asked,
/// else it changes at once.
pub open spec fn staged_lease(lease: Lease, ask: bool, next: u32, target: u32) -> Lease {
    if ask {
        Lease { breaking: true, break_to: next, break_final_to: target, ..lease }
    } else {
        Lease { state: next, breaking: false, break_to: 0, break_final_to: next, ..lease }
    }
}

/// Opens after their lease went a step further.
pub open spec fn staged_opens(
    m: StateModel,
    key: [u8; 16],
    lease_state: u32,
    next: u32,
    target: u32,
) -> Seq<OpenRecordModel> {
    Seq::new(
        m.opens.len(),
        |i: int|
            if opens::has_lease(m.opens[i], key) {
                leases::with_lease(
                    m.opens[i],
                    staged_lease(
                        m.opens[i].open.lease,
                        leases::needs_ack(told(m, key, i + 1) is Some, lease_state),
                        next,
                        target,
                    ),
                )
            } else {
                m.opens[i]
            },
    )
}

/// The state after a lease went a step further from an acknowledged state.
pub open spec fn lease_staged(
    m: StateModel,
    key: [u8; 16],
    lease_state: u32,
    next: u32,
    target: u32,
) -> StateModel {
    let staged = StateModel { opens: staged_opens(m, key, lease_state, next, target), ..m };
    match told(m, key, m.opens.len() as int) {
        None => timeouts::lease_waits_resumed(staged, key),
        Some(conn) => {
            let ask = leases::needs_ack(true, lease_state);
            let notification = leases::break_notification(
                key,
                highest_epoch(m.opens, key, m.opens.len() as int),
                ask,
                lease_state,
                next,
            );
            let counted = if ask {
                StateModel {
                    lease_break_generations: leases::advanced(m.lease_break_generations, key),
                    ..staged
                }
            } else {
                staged
            };
            let sent = state::acted(
                counted,
                ActionModel::LeaseBreak { conn, notifications: seq![notification] },
            );
            if ask {
                completions::timer_started(
                    sent,
                    BreakWaitModel { lease_keys: seq![key], oplock_file_ids: Seq::empty() },
                )
            } else {
                timeouts::lease_waits_resumed(sent, key)
            }
        },
    }
}

/// The state after an acknowledgment. Where the lease is to go further, the next step is
/// taken; else what waited for the break goes on.
pub open spec fn lease_acked(m: StateModel, key: [u8; 16], lease_state: u32) -> StateModel {
    let target = final_target(m.opens, key, lease_state, m.opens.len() as int);
    let next = rules::staged_target(lease_state, target);
    let settled = StateModel { opens: acked_opens(m.opens, key, lease_state), ..m };
    if ack_status(m.opens, key, lease_state) != STATUS_SUCCESS {
        m
    } else if next == lease_state {
        timeouts::lease_waits_resumed(settled, key)
    } else {
        lease_staged(settled, key, lease_state, next, target)
    }
}

impl ServerState {
    fn ack_check(&self, key: &[u8; 16], lease_state: u32) -> (r: (u32, u32))
        requires
            *key != NIL16,
        ensures
            r.0 == ack_status(self@.opens, *key, lease_state),
            r.1 == final_target(self@.opens, *key, lease_state, self@.opens.len() as int),
    {
        let mut known: bool = false;
        let mut breaking: bool = false;
        let mut refused: bool = false;
        let mut target: u32 = lease_state;
        let mut i: usize = 0;
        while i < self.opens.len()
            invariant
                i <= self.opens@.len(),
                target == final_target(self@.opens, *key, lease_state, i as int),
                known == (exists|j: int|
                    0 <= j < i && opens::has_lease(#[trigger] self@.opens[j], *key)),
                breaking == (exists|j: int|
                    0 <= j < i && opens::breaks_lease(#[trigger] self@.opens[j], *key)),
                refused == (exists|j: int|
                    0 <= j < i && ack_misfits(#[trigger] self@.opens[j], *key, lease_state)),
            decreases self.opens@.len() - i,
        {
            let r: &OpenRecord = &self.opens[i];
            assert(self@.opens[i as int] == r@);
            if r.registration.is_some() && r.open.lease.version != 0 && array16_equal(
                &r.open.lease.key,
                key,
            ) {
                known = true;
                assert(opens::has_lease(self@.opens[i as int], *key));
                if r.open.lease.breaking {
                    breaking = true;
                    assert(opens::breaks_lease(self@.opens[i as int], *key));
                    target = target & r.open.lease.break_final_to;
                    if !valid_lease_break_ack_state(lease_state, r.open.lease.break_to) {
                        refused = true;
                        assert(ack_misfits(self@.opens[i as int], *key, lease_state));
                    }
                }
            }
            i += 1;
        }
        let status: u32 = if !known {
            STATUS_OBJECT_NAME_NOT_FOUND
        } else if refused {
            STATUS_REQUEST_NOT_ACCEPTED
        } else if !breaking {
            STATUS_UNSUCCESSFUL
        } else {
            STATUS_SUCCESS
        };
        (status, target)
    }

    fn settle_lease(&mut self, key: &[u8; 16], lease_state: u32)
        ensures
            final(self)@ == (StateModel {
                opens: acked_opens(old(self)@.opens, *key, lease_state),
                ..old(self)@
            }),
    {
        let ghost m = self@;
        let mut i: usize = 0;
        while i < self.opens.len()
            invariant
                i <= self.opens@.len(),
                self@.opens.len() == m.opens.len(),
                self@ == (StateModel { opens: self@.opens, ..m }),
                forall|j: int|
                    0 <= j < i ==> (#[trigger] self@.opens[j]) == acked(
                        m.opens[j],
                        *key,
                        lease_state,
                    ),
                forall|j: int|
                    i <= j < self@.opens.len() ==> (#[trigger] self@.opens[j]) == m.opens[j],
            decreases self.opens@.len() - i,
        {
            let r: &OpenRecord = &self.opens[i];
            assert(self@.opens[i as int] == r@);
            if r.registration.is_some() && r.open.lease.version != 0 && array16_equal(
                &r.open.lease.key,
                key,
            ) && r.open.lease.breaking {
                let lease: Lease = r.open.lease;
                let ghost before = self@.opens;
                self.opens[i].open.lease = Lease {
                    state: lease_state,
                    breaking: false,
                    break_to: 0,
                    break_final_to: lease_state,
                    ..lease
                };
                assert(self@.opens =~= before.update(
                    i as int,
                    acked(m.opens[i as int], *key, lease_state),
                ));
            }
            i += 1;
        }
        assert(self@.opens =~= acked_opens(m.opens, *key, lease_state));
    }

    /// Whether a connection can be sent messages that it did not ask for.
    pub fn connection_has_sender(&self, conn: u64) -> (r: bool)
        ensures
            r == state::has_sender(self@.connections, conn),
    {
        match self.find_conn(conn) {
            None => false,
            Some(i) => {
                assert(self@.connections[i as int] == self.connections@[i as int]@);
                self.connections[i].has_sender
            },
        }
    }

    fn stage_lease(&mut self, key: &[u8; 16], lease_state: u32, next: u32, target: u32) -> (r: (
        Option<u64>,
        u16,
    ))
        ensures
            r.0 == told(old(self)@, *key, old(self)@.opens.len() as int),
            r.1 == highest_epoch(old(self)@.opens, *key, old(self)@.opens.len() as int),
            final(self)@ == (StateModel {
                opens: staged_opens(old(self)@, *key, lease_state, next, target),
                ..old(self)@
            }),
    {
        let ghost m = self@;
        let ghost after = staged_opens(m, *key, lease_state, next, target);
        let mut conn: Option<u64> = None;
        let mut epoch: u16 = 0;
        let mut i: usize = 0;
        while i < self.opens.len()
            invariant
                i <= self.opens@.len(),
                self@.opens.len() == m.opens.len(),
                after == staged_opens(m, *key, lease_state, next, target),
                self@ == (StateModel { opens: self@.opens, ..m }),
                conn == told(m, *key, i as int),
                epoch == highest_epoch(m.opens, *key, i as int),
                forall|j: int| 0 <= j < i ==> (#[trigger] self@.opens[j]) == after[j],
                forall|j: int|
                    i <= j < self@.opens.len() ==> (#[trigger] self@.opens[j]) == m.opens[j],
            decreases self.opens@.len() - i,
        {
            let r: &OpenRecord = &self.opens[i];
            assert(self@.opens[i as int] == r@);
            let lease: Lease = r.open.lease;
            match &r.registration {
                None => {},
                Some(g) => {
                    if lease.version != 0 && array16_equal(&lease.key, key) {
                        if conn.is_none() && self.connection_has_sender(g.conn) {
                            conn = Some(g.conn);
                        }
                        if lease.epoch > epoch {
                            epoch = lease.epoch;
                        }
                        let ask: bool = conn.is_some() && lease_state & (LEASE_WRITE_CACHING
                            | LEASE_HANDLE_CACHING) != 0;
                        let ghost before = self@.opens;
                        self.opens[i].open.lease = if ask {
                            Lease {
                                breaking: true,
                                break_to: next,
                                break_final_to: target,
                                ..lease
                            }
                        } else {
                            Lease {
                                state: next,
                                breaking: false,
                                break_to: 0,
                                break_final_to: next,
                                ..lease
                            }
                        };
                        assert(self@.opens =~= before.update(i as int, after[i as int]));
                    }
                },
            }
            i += 1;
        }
        assert(self@.opens =~= after);
        (conn, epoch)
    }

    /// Takes note of a client's acknowledgment of a lease break.
    pub fn acknowledge_lease_break(&mut self, lease_key: [u8; 16], lease_state: u32) -> (r: u32)
        ensures
            r == ack_status(old(self)@.opens, lease_key, lease_state),
            final(self)@ == lease_acked(old(self)@, lease_key, lease_state),
    {
        if ServerState::is_nil(&lease_key) {
            return STATUS_OBJECT_NAME_NOT_FOUND;
        }
        let (status, target) = self.ack_check(&lease_key, lease_state);
        if status != STATUS_SUCCESS {
            return status;
        }
        self.settle_lease(&lease_key, lease_state);
        let next: u32 = staged_lease_break_target(lease_state, target);
        if next != lease_state {
            let (conn, epoch) = self.stage_lease(&lease_key, lease_state, next, target);
            match conn {
                None => {},
                Some(conn) => {
                    let ask: bool = lease_state & (LEASE_WRITE_CACHING | LEASE_HANDLE_CACHING)
                        != 0;
                    if ask {
                        let _ = self.advance_lease_break_generation(lease_key);
                    }
                    let notification = LeaseBreakNotification {
                        structure_size: 44,
                        new_epoch: epoch,
                        flags: if ask {
                            LEASE_BREAK_ACK_REQUIRED
                        } else {
                            0
                        },
                        lease_key,
                        current_lease_state: lease_state,
                        new_lease_state: next,
                        break_reason: 0,
                        access_mask_hint: 0,
                        share_mask_hint: 0,
                    };
                    let mut notifications: Vec<LeaseBreakNotification> = Vec::new();
                    notifications.push(notification);
                    assert(notifications@ =~= seq![notification]);
                    self.act(Action::LeaseBreak { conn, notifications });
                    if ask {
                        let mut keys: Vec<[u8; 16]> = Vec::new();
                        keys.push(lease_key);
                        assert(keys@ =~= seq![lease_key]);
                        let ids: Vec<FileId> = Vec::new();
                        assert(ids@ =~= Seq::empty());
                        self.start_break_timer(keys, ids);
                        return STATUS_SUCCESS;
                    }
                },
            }
        }
        self.complete_cache_break_waits_for_lease_key(lease_key);
        STATUS_SUCCESS
    }
}

// ---------------------------------------------------------------------------
// What holds of breaks
// ---------------------------------------------------------------------------

/// A break takes rights away and never adds one: neither at once nor when it is
/// acknowledged.
pub proof fn breaks_only_take_away(
    conns: Seq<ConnectionModel>,
    lease: Lease,
    at: Option<int>,
    target: u32,
)
    ensures
        ({
            let after = leases::broken_lease(conns, lease, at, target);
            &&& after.state & lease.state == after.state
            &&& !lease.breaking ==> after.break_to & lease.state == after.break_to
            &&& !lease.breaking ==> after.break_final_to == lease.state & target
        }),
{
    let s = lease.state;
    assert((s & target) & s == s & target) by (bit_vector);
    assert(s & s == s) by (bit_vector);
    assert(0u32 & s == 0u32) by (bit_vector);
}

/// Leases give way to a break for another key: a lease that the break is meant for grants
/// nothing beyond the target, or is on its way to a state that does not.
pub proof fn broken_leases_give_way(
    m: StateModel,
    flags: Seq<bool>,
    incoming: [u8; 16],
    target: u32,
    i: int,
)
    requires
        0 <= i < m.opens.len(),
        flags[i],
    ensures
        ({
            let lease = leases::leases_broken(m, flags, incoming, target).opens[i].open.lease;
            ||| lease.version == 0
            ||| lease.key == NIL16
            ||| lease.key == incoming
            ||| lease.state & target == lease.state
            ||| lease.breaking && lease.break_final_to & target == lease.break_final_to
        }),
{
    let lease = m.opens[i].open.lease;
    let s = lease.state;
    let f = lease.break_final_to;
    assert((s & target) & target == s & target) by (bit_vector);
    assert((f & target) & target == f & target) by (bit_vector);
    assert(0u32 & target == 0u32) by (bit_vector);
}

proof fn lemma_final_target_within(
    records: Seq<OpenRecordModel>,
    key: [u8; 16],
    lease_state: u32,
    n: int,
    i: int,
)
    requires
        0 <= i < n <= records.len(),
        opens::breaks_lease(records[i], key),
    ensures
        ({
            let t = final_target(records, key, lease_state, n);
            t & records[i].open.lease.break_final_to == t
        }),
    decreases n,
{
    let before = final_target(records, key, lease_state, n - 1);
    let f = records[i].open.lease.break_final_to;
    let last = records[n - 1].open.lease.break_final_to;
    if i == n - 1 {
        assert((before & f) & f == before & f) by (bit_vector);
    } else {
        lemma_final_target_within(records, key, lease_state, n - 1, i);
        assert((before & last) & f == before & last) by (bit_vector)
            requires
                before & f == before,
        ;
    }
}

/// A lease is settled only once its client gave up all that it was asked to give up.
pub proof fn settled_leases_went_all_the_way(
    records: Seq<OpenRecordModel>,
    key: [u8; 16],
    lease_state: u32,
    i: int,
)
    requires
        0 <= i < records.len(),
        opens::breaks_lease(records[i], key),
        rules::staged_target(
            lease_state,
            final_target(records, key, lease_state, records.len() as int),
        ) == lease_state,
    ensures
        lease_state & records[i].open.lease.break_final_to == lease_state,
{
    let t = final_target(records, key, lease_state, records.len() as int);
    let f = records[i].open.lease.break_final_to;
    lemma_final_target_within(records, key, lease_state, records.len() as int, i);
    assert(lease_state & LEASE_WRITE_CACHING != 0 ==> lease_state & !LEASE_WRITE_CACHING
        != lease_state) by (bit_vector);
    assert(lease_state & LEASE_HANDLE_CACHING != 0 ==> lease_state & !LEASE_HANDLE_CACHING
        != lease_state) by (bit_vector);
    assert(lease_state & f == lease_state) by (bit_vector)
        requires
            lease_state & t == lease_state,
            t & f == t,
    ;
}

proof fn lemma_creates_keep_opens(m: StateModel, ws: Seq<WaitingModel<CreateWaitModel>>)
    ensures
        completions::creates_done(m, ws).opens == m.opens,
    decreases ws.len(),
{
    if ws.len() > 0 {
        lemma_creates_keep_opens(m, ws.drop_last());
    }
}

proof fn lemma_writes_keep_opens(m: StateModel, ws: Seq<WaitingModel<WriteWaitModel>>)
    ensures
        writes::writes_done(m, ws).opens == m.opens,
    decreases ws.len(),
{
    if ws.len() > 0 {
        lemma_writes_keep_opens(m, ws.drop_last());
    }
}

proof fn lemma_tasks_keep_opens(m: StateModel, ws: Seq<WaitingModel<TaskWaitModel>>)
    ensures
        tasks::tasks_started(m, ws).opens == m.opens,
    decreases ws.len(),
{
    if ws.len() > 0 {
        lemma_tasks_keep_opens(m, ws.drop_last());
    }
}

/// Requests that go on leave every open as it is.
pub proof fn resuming_keeps_opens(m: StateModel, key: [u8; 16], file_id: FileId)
    ensures
        timeouts::lease_waits_resumed(m, key).opens == m.opens,
        timeouts::oplock_waits_resumed(m, file_id).opens == m.opens,
{
    let lease = completions::Ended::Lease { key };
    let oplock = completions::Ended::Oplock { file_id };
    lemma_resumed_keeps_opens(m, lease);
    lemma_resumed_keeps_opens(m, oplock);
    lemma_resumed_keeps_opens(completions::creates_resumed(m, lease), lease);
    lemma_resumed_keeps_opens(completions::creates_resumed(m, oplock), oplock);
    lemma_resumed_keeps_opens(
        writes::writes_resumed(completions::creates_resumed(m, lease), lease),
        lease,
    );
}

proof fn lemma_resumed_keeps_opens(m: StateModel, ended: completions::Ended)
    ensures
        completions::creates_resumed(m, ended).opens == m.opens,
        writes::writes_resumed(m, ended).opens == m.opens,
        tasks::tasks_resumed(m, ended).opens == m.opens,
{
    let c = completions::ready_creates(m, ended);
    let w = writes::ready_writes(m, ended);
    let t = tasks::ready_tasks(m, ended);
    lemma_creates_keep_opens(
        StateModel {
            cache_break_creates: waiting::unflagged(m.cache_break_creates, c),
            ..m
        },
        waiting::flagged(m.cache_break_creates, c),
    );
    lemma_writes_keep_opens(
        StateModel { cache_break_writes: waiting::unflagged(m.cache_break_writes, w), ..m },
        waiting::flagged(m.cache_break_writes, w),
    );
    lemma_tasks_keep_opens(
        StateModel { cache_break_tasks: waiting::unflagged(m.cache_break_tasks, t), ..m },
        tasks::in_order(waiting::flagged(m.cache_break_tasks, t)),
    );
}

/// An acknowledgment of the last step settles the lease: no open has it being broken any
/// more, and those for which it was being broken have the acknowledged state.
pub proof fn last_acknowledgment_settles_the_lease(
    m: StateModel,
    key: [u8; 16],
    lease_state: u32,
    i: int,
)
    requires
        0 <= i < m.opens.len(),
        ack_status(m.opens, key, lease_state) == STATUS_SUCCESS,
        rules::staged_target(
            lease_state,
            final_target(m.opens, key, lease_state, m.opens.len() as int),
        ) == lease_state,
    ensures
        ({
            let after = lease_acked(m, key, lease_state).opens;
            &&& after.len() == m.opens.len()
            &&& !opens::breaks_lease(after[i], key)
            &&& opens::breaks_lease(m.opens[i], key) ==> after[i].open.lease.state == lease_state
        }),
{
    let settled = StateModel { opens: acked_opens(m.opens, key, lease_state), ..m };
    resuming_keeps_opens(settled, key, FileId { persistent: 0, volatile: 0 });
}

/// An acknowledgment that is not accepted changes nothing.
pub proof fn refused_acknowledgment_changes_nothing(
    m: StateModel,
    key: [u8; 16],
    lease_state: u32,
)
    requires
        ack_status(m.opens, key, lease_state) != STATUS_SUCCESS,
    ensures
        lease_acked(m, key, lease_state) == m,
{
}

} // verus!
