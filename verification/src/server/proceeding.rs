//! What goes on when a break ends, what is undone when a connection is gone, and how connections
//! get their numbers.

use crate::proto::messages::FileId;
use crate::server::completions;
use crate::server::completions::Ended;
use crate::server::connections;
use crate::server::detaching;
use crate::server::durable;
use crate::server::lease_acks;
use crate::server::lists;
use crate::server::notify;
use crate::server::rules;
use crate::server::selecting;
use crate::server::state;
use crate::server::state::StateModel;
use crate::server::tasks;
use crate::server::timeouts;
use crate::server::trees;
use crate::server::types::{
    ActionModel, ConnectionModel, CreateWaitModel, DurableModel, NotifyWaitModel, TaskWaitModel,
    TreeOpen, WriteWaitModel, NIL16,
};
use crate::server::waiting;
use crate::server::waiting::WaitingModel;
use crate::server::writes;
use vstd::prelude::*;

verus! {

/// Whether two states have the same opens and the same requests that wait for breaks.
pub open spec fn same_breaks(a: StateModel, b: StateModel) -> bool {
    &&& b.opens == a.opens
    &&& b.cache_break_creates == a.cache_break_creates
    &&& b.cache_break_writes == a.cache_break_writes
    &&& b.cache_break_tasks == a.cache_break_tasks
}

proof fn lemma_creates(m: StateModel, ws: Seq<WaitingModel<CreateWaitModel>>)
    ensures
        same_breaks(m, completions::creates_done(m, ws)),
    decreases ws.len(),
{
    if ws.len() > 0 {
        lemma_creates(m, ws.drop_last());
    }
}

proof fn lemma_writes(m: StateModel, ws: Seq<WaitingModel<WriteWaitModel>>)
    ensures
        same_breaks(m, writes::writes_done(m, ws)),
    decreases ws.len(),
{
    if ws.len() > 0 {
        lemma_writes(m, ws.drop_last());
    }
}

proof fn lemma_tasks(m: StateModel, ws: Seq<WaitingModel<TaskWaitModel>>)
    ensures
        same_breaks(m, tasks::tasks_started(m, ws)),
    decreases ws.len(),
{
    if ws.len() > 0 {
        lemma_tasks(m, ws.drop_last());
    }
}

proof fn lemma_resumed(
    m: StateModel,
    ended: Ended,
    a: WaitingModel<CreateWaitModel>,
    b: WaitingModel<WriteWaitModel>,
    c: WaitingModel<TaskWaitModel>,
)
    ensures
        ({
            let x = completions::creates_resumed(m, ended);
            &&& x.opens == m.opens
            &&& x.cache_break_writes == m.cache_break_writes
            &&& x.cache_break_tasks == m.cache_break_tasks
            &&& x.cache_break_creates.contains(a) <==> m.cache_break_creates.contains(a)
                && !completions::goes_on(m.opens, a.detail.wait, ended)
        }),
        ({
            let x = writes::writes_resumed(m, ended);
            &&& x.opens == m.opens
            &&& x.cache_break_creates == m.cache_break_creates
            &&& x.cache_break_tasks == m.cache_break_tasks
            &&& x.cache_break_writes.contains(b) <==> m.cache_break_writes.contains(b)
                && !completions::goes_on(m.opens, b.detail.wait, ended)
        }),
        ({
            let x = tasks::tasks_resumed(m, ended);
            &&& x.opens == m.opens
            &&& x.cache_break_creates == m.cache_break_creates
            &&& x.cache_break_writes == m.cache_break_writes
            &&& x.cache_break_tasks.contains(c) <==> m.cache_break_tasks.contains(c)
                && !completions::goes_on(m.opens, c.detail.wait, ended)
        }),
{
    let fa = completions::ready_creates(m, ended);
    lemma_creates(
        StateModel { cache_break_creates: waiting::unflagged(m.cache_break_creates, fa), ..m },
        waiting::flagged(m.cache_break_creates, fa),
    );
    selecting::items_are_parted_by_a_test(
        m.cache_break_creates,
        |w: WaitingModel<CreateWaitModel>| completions::goes_on(m.opens, w.detail.wait, ended),
        a,
    );
    let fb = writes::ready_writes(m, ended);
    lemma_writes(
        StateModel { cache_break_writes: waiting::unflagged(m.cache_break_writes, fb), ..m },
        waiting::flagged(m.cache_break_writes, fb),
    );
    selecting::items_are_parted_by_a_test(
        m.cache_break_writes,
        |w: WaitingModel<WriteWaitModel>| completions::goes_on(m.opens, w.detail.wait, ended),
        b,
    );
    let fc = tasks::ready_tasks(m, ended);
    lemma_tasks(
        StateModel { cache_break_tasks: waiting::unflagged(m.cache_break_tasks, fc), ..m },
        tasks::in_order(waiting::flagged(m.cache_break_tasks, fc)),
    );
    selecting::items_are_parted_by_a_test(
        m.cache_break_tasks,
        |w: WaitingModel<TaskWaitModel>| completions::goes_on(m.opens, w.detail.wait, ended),
        c,
    );
}

/// When the break of a lease ends, the creates, the writes and the tasks that wait for nothing
/// else go on, and all others go on waiting.
pub proof fn what_waits_for_a_lease_goes_on(
    m: StateModel,
    key: [u8; 16],
    a: WaitingModel<CreateWaitModel>,
    b: WaitingModel<WriteWaitModel>,
    c: WaitingModel<TaskWaitModel>,
)
    ensures
        ({
            let after = timeouts::lease_waits_resumed(m, key);
            let ended = Ended::Lease { key };
            &&& after.opens == m.opens
            &&& after.cache_break_creates.contains(a) <==> m.cache_break_creates.contains(a)
                && !completions::goes_on(m.opens, a.detail.wait, ended)
            &&& after.cache_break_writes.contains(b) <==> m.cache_break_writes.contains(b)
                && !completions::goes_on(m.opens, b.detail.wait, ended)
            &&& after.cache_break_tasks.contains(c) <==> m.cache_break_tasks.contains(c)
                && !completions::goes_on(m.opens, c.detail.wait, ended)
        }),
{
    let ended = Ended::Lease { key };
    lemma_resumed(m, ended, a, b, c);
    let m1 = completions::creates_resumed(m, ended);
    lemma_resumed(m1, ended, a, b, c);
    lemma_resumed(writes::writes_resumed(m1, ended), ended, a, b, c);
}

/// When the break of an oplock ends, the creates and the tasks that wait for nothing else go on;
/// writes wait for leases alone.
pub proof fn what_waits_for_an_oplock_goes_on(
    m: StateModel,
    file_id: FileId,
    a: WaitingModel<CreateWaitModel>,
    b: WaitingModel<WriteWaitModel>,
    c: WaitingModel<TaskWaitModel>,
)
    ensures
        ({
            let after = timeouts::oplock_waits_resumed(m, file_id);
            let ended = Ended::Oplock { file_id };
            &&& after.opens == m.opens
            &&& after.cache_break_creates.contains(a) <==> m.cache_break_creates.contains(a)
                && !completions::goes_on(m.opens, a.detail.wait, ended)
            &&& after.cache_break_writes == m.cache_break_writes
            &&& after.cache_break_tasks.contains(c) <==> m.cache_break_tasks.contains(c)
                && !completions::goes_on(m.opens, c.detail.wait, ended)
        }),
{
    let ended = Ended::Oplock { file_id };
    lemma_resumed(m, ended, a, b, c);
    lemma_resumed(completions::creates_resumed(m, ended), ended, a, b, c);
}

/// Whether no answers were added.
pub open spec fn no_more_answers(a: Seq<ActionModel>, b: Seq<ActionModel>) -> bool {
    forall|i: int| 0 <= i < b.len() && (#[trigger] b[i]) is Respond ==> a.contains(b[i])
}

proof fn lemma_pushed_no_answer(s: Seq<ActionModel>, t: Seq<ActionModel>, x: ActionModel)
    requires
        no_more_answers(s, t),
        !(x is Respond),
    ensures
        no_more_answers(s, t.push(x)),
{
    assert forall|i: int|
        0 <= i < t.push(x).len() && (#[trigger] t.push(x)[i]) is Respond implies s.contains(
        t.push(x)[i],
    ) by {
        if i < t.len() {
            assert(t[i] == t.push(x)[i]);
        }
    }
}

proof fn lemma_let_go_no_answer(s: Seq<ActionModel>, m: StateModel, open: u64)
    requires
        no_more_answers(s, m.outbox),
    ensures
        no_more_answers(s, durable::open_let_go(m, open).outbox),
{
    lemma_pushed_no_answer(s, m.outbox, ActionModel::DropHandle { open });
}

proof fn lemma_undone_no_answer(
    s: Seq<ActionModel>,
    m: StateModel,
    w: WaitingModel<CreateWaitModel>,
)
    requires
        no_more_answers(s, m.outbox),
    ensures
        no_more_answers(s, completions::create_undone(m, w).outbox),
{
    let fid = w.file_id;
    if let Some(d) = durable::durable_of(m.durable_opens, fid) {
        lemma_let_go_no_answer(s, durable::durable_dropped(m, fid), d.open);
    }
    if let Some(t) = completions::tree_of_wait(w) {
        if let Some(tree) = trees::tree_of(m.connections, t) {
            let after = StateModel {
                connections: trees::with_tree_opens(
                    m.connections,
                    t,
                    trees::without_file(tree.opens, fid),
                ),
                ..m
            };
            if let Some(d) = durable::durable_of(after.durable_opens, fid) {
                lemma_let_go_no_answer(s, durable::durable_dropped(after, fid), d.open);
            }
            if let Some(open) = trees::open_of(tree.opens, fid) {
                let dropped = durable::durable_dropped(after, fid);
                let i = state::open_index(dropped.opens, open);
                lemma_pushed_no_answer(s, dropped.outbox, ActionModel::CloseHandle { open });
                if i < dropped.opens.len() {
                    let closed = if dropped.opens[i].open.has_handle {
                        state::acted(dropped, ActionModel::CloseHandle { open })
                    } else {
                        dropped
                    };
                    lemma_let_go_no_answer(
                        s,
                        StateModel {
                            opens: dropped.opens.update(
                                i,
                                completions::without_handle(dropped.opens[i]),
                            ),
                            ..closed
                        },
                        open,
                    );
                }
            }
        }
    }
}

/// The create requests of a connection that is gone are undone without an answer.
pub proof fn abandoned_creates_are_not_answered(
    m: StateModel,
    ws: Seq<WaitingModel<CreateWaitModel>>,
)
    ensures
        no_more_answers(m.outbox, completions::creates_abandoned(m, ws).outbox),
    decreases ws.len(),
{
    if ws.len() > 0 {
        abandoned_creates_are_not_answered(m, ws.drop_last());
        let before = completions::creates_abandoned(m, ws.drop_last());
        lemma_undone_no_answer(
            m.outbox,
            state::slot_released(before, ws.last().conn),
            ws.last(),
        );
    }
}

proof fn lemma_without_number(s: Seq<u64>, id: u64, x: u64)
    ensures
        connections::without_number(s, id).contains(x) <==> s.contains(x) && x != id,
    decreases s.len(),
{
    if s.len() > 0 {
        let r = s.drop_last();
        lemma_without_number(r, id, x);
        let w = connections::without_number(r, id);
        if w.contains(x) {
            let i = choose|i: int| 0 <= i < w.len() && w[i] == x;
            assert(w.push(s.last())[i] == x);
        }
        if w.push(s.last()).contains(x) {
            let i = choose|i: int| 0 <= i < w.push(s.last()).len() && w.push(s.last())[i] == x;
            if i < w.len() {
                assert(w[i] == x);
            }
        }
        assert(w.push(s.last())[w.len() as int] == s.last());
        if s.contains(x) {
            let i = choose|i: int| 0 <= i < s.len() && s[i] == x;
            if i < r.len() {
                assert(r[i] == x);
            }
        }
        if r.contains(x) {
            let i = choose|i: int| 0 <= i < r.len() && r[i] == x;
            assert(s[i] == x);
        }
        assert(s[s.len() - 1] == s.last());
    }
}

/// A number is that of one connection: the one that gets it has it, all others lose it, and other
/// numbers stay where they are.
pub proof fn numbers_are_of_one_connection(
    conns: Seq<ConnectionModel>,
    at: int,
    id: u64,
    k: int,
    other: u64,
)
    requires
        0 <= at < conns.len(),
        0 <= k < conns.len(),
        other != id,
    ensures
        ({
            let after = connections::number_given(conns, at, id);
            &&& after.len() == conns.len()
            &&& after[k].numbers.contains(id) <==> k == at
            &&& after[k].numbers.contains(other) <==> conns[k].numbers.contains(other)
            &&& after[k].key == conns[k].key
            &&& after[k].sessions == conns[k].sessions
            &&& !connections::number_freed(conns, id)[k].numbers.contains(id)
            &&& connections::number_freed(conns, id)[k].numbers.contains(other)
                <==> conns[k].numbers.contains(other)
        }),
{
    lemma_without_number(conns[k].numbers, id, id);
    lemma_without_number(conns[k].numbers, id, other);
    let after = connections::number_given(conns, at, id);
    if k == at {
        let w = connections::without_number(conns[k].numbers, id);
        assert(after[k].numbers == w.push(id));
        assert(w.push(id)[w.len() as int] == id);
        if w.contains(other) {
            let i = choose|i: int| 0 <= i < w.len() && w[i] == other;
            assert(w.push(id)[i] == other);
        }
        if w.push(id).contains(other) {
            let i = choose|i: int| 0 <= i < w.push(id).len() && w.push(id)[i] == other;
            assert(w[i] == other);
        }
    }
}

/// A create, a write, a task or a watch that goes on is no longer counted for its connection.
pub proof fn what_goes_on_is_counted_no_longer(
    m: StateModel,
    a: WaitingModel<CreateWaitModel>,
    b: WaitingModel<WriteWaitModel>,
    c: WaitingModel<TaskWaitModel>,
    d: WaitingModel<NotifyWaitModel>,
    status: u32,
    output: Seq<u8>,
)
    ensures
        completions::create_done(m, a).connections == state::released(m.connections, a.conn),
        writes::write_done(m, b).connections == state::released(m.connections, b.conn),
        tasks::task_started(m, c).connections == state::released(m.connections, c.conn),
        notify::watch_done(m, d, status, output).connections == state::released(
            m.connections,
            d.conn,
        ),
        !state::conn_alive(m.connections, c.conn) ==> tasks::task_started(m, c).outbox == m.outbox,
{
}

/// An open that was not kept as durable before waits as one of no known owner.
pub proof fn unknown_opens_wait_without_owner(
    durables: Seq<DurableModel>,
    share: Seq<char>,
    t: TreeOpen,
    deadline: u64,
)
    requires
        forall|k: int| 0 <= k < durables.len() ==> (#[trigger] durables[k]).file_id != t.file_id,
    ensures
        ({
            let d = detaching::waiting_durable(durables, share, t, deadline);
            &&& d.file_id == t.file_id
            &&& d.share == share
            &&& d.open == t.open
            &&& d.owner.len() == 0
            &&& d.client_guid == NIL16
            &&& d.attached_conn is None
            &&& d.attached_session_id is None
            &&& d.expires_at == Some(deadline)
        }),
{
    let test = durable::durable_is(t.file_id);
    assert forall|k: int| 0 <= k < durables.len() implies !test(#[trigger] durables[k]) by {
        assert(durables[k].file_id != t.file_id);
    }
    lists::first_at(durables, test, durables.len() as int);
}

/// An acknowledgment that is refused changes nothing; one that ends the break leaves the opens with
/// the rights that were named.
pub proof fn acknowledgments_end_breaks(m: StateModel, key: [u8; 16], lease_state: u32)
    ensures
        ({
            let after = lease_acks::lease_acked(m, key, lease_state);
            let target = lease_acks::final_target(
                m.opens,
                key,
                lease_state,
                m.opens.len() as int,
            );
            &&& lease_acks::ack_status(m.opens, key, lease_state) != 0 ==> after == m
            &&& lease_acks::ack_status(m.opens, key, lease_state) == 0
                && rules::staged_target(lease_state, target) == lease_state ==> after.opens
                == lease_acks::acked_opens(m.opens, key, lease_state)
        }),
{
    let settled = StateModel { opens: lease_acks::acked_opens(m.opens, key, lease_state), ..m };
    lemma_lease_resumed(settled, key);
}

proof fn lemma_lease_resumed(m: StateModel, key: [u8; 16])
    ensures
        timeouts::lease_waits_resumed(m, key).opens == m.opens,
{
    let ended = Ended::Lease { key };
    let fa = completions::ready_creates(m, ended);
    lemma_creates(
        StateModel { cache_break_creates: waiting::unflagged(m.cache_break_creates, fa), ..m },
        waiting::flagged(m.cache_break_creates, fa),
    );
    let m1 = completions::creates_resumed(m, ended);
    let fb = writes::ready_writes(m1, ended);
    lemma_writes(
        StateModel { cache_break_writes: waiting::unflagged(m1.cache_break_writes, fb), ..m1 },
        waiting::flagged(m1.cache_break_writes, fb),
    );
    let m2 = writes::writes_resumed(m1, ended);
    let fc = tasks::ready_tasks(m2, ended);
    lemma_tasks(
        StateModel { cache_break_tasks: waiting::unflagged(m2.cache_break_tasks, fc), ..m2 },
        tasks::in_order(waiting::flagged(m2.cache_break_tasks, fc)),
    );
}

} // verus!
