//! What ends with a file, a session or a connection, request by request.

use crate::proto::messages::FileId;
use crate::server::cleanup;
use crate::server::closing;
use crate::server::completions;
use crate::server::detaching;
use crate::server::detaching::Leaving;
use crate::server::durable;
use crate::server::events;
use crate::server::locks;
use crate::server::locks::LockAnswer;
use crate::server::notify;
use crate::server::pending;
use crate::server::selecting;
use crate::server::state;
use crate::server::state::StateModel;
use crate::server::tasks;
use crate::server::trees;
use crate::server::trees::TreeRef;
use crate::server::types::{
    ActionModel, BodyModel, CreateWaitModel, LockWaitModel, NotifyWaitModel, TaskWaitModel,
    TreeOpen, WriteWaitModel,
};
use crate::server::waiting;
use crate::server::waiting::{Selector, WaitingModel};
use crate::server::writes;
use crate::text;
use vstd::prelude::*;

verus! {

/// Whether work was handed out behind what had been, and nothing was taken back.
pub open spec fn goes_on(a: Seq<ActionModel>, b: Seq<ActionModel>) -> bool {
    forall|x: ActionModel| a.contains(x) ==> #[trigger] b.contains(x)
}

/// Whether a state differs only in what connections have pending and in what was handed out.
pub open spec fn only_answers(a: StateModel, b: StateModel) -> bool {
    &&& b == (StateModel { connections: b.connections, outbox: b.outbox, ..a })
    &&& goes_on(a.outbox, b.outbox)
    &&& completions::same_alive(a, b)
}

/// The answer to a request that does not go on with a compound.
pub open spec fn answer(conn: u64, async_id: u64, status: u32, body: BodyModel) -> ActionModel {
    ActionModel::Respond { conn, async_id, status, body, compound: None }
}

proof fn lemma_pushed(s: Seq<ActionModel>, a: ActionModel)
    ensures
        goes_on(s, s.push(a)),
        s.push(a).contains(a),
{
    assert forall|x: ActionModel| s.contains(x) implies #[trigger] s.push(a).contains(x) by {
        let i = choose|i: int| 0 <= i < s.len() && s[i] == x;
        assert(s.push(a)[i] == x);
    }
    assert(s.push(a)[s.len() as int] == a);
}

proof fn lemma_answered(
    m: StateModel,
    conn: u64,
    async_id: u64,
    status: u32,
    body: BodyModel,
    compound: Option<u64>,
)
    ensures
        only_answers(m, state::answered(m, conn, async_id, status, body, compound)),
        state::conn_alive(m.connections, conn) ==> state::answered(
            m,
            conn,
            async_id,
            status,
            body,
            compound,
        ).outbox.contains(ActionModel::Respond { conn, async_id, status, body, compound }),
{
    completions::release_keeps_connections(m, conn);
    lemma_pushed(m.outbox, ActionModel::Respond { conn, async_id, status, body, compound });
}

proof fn lemma_refused<M>(m: StateModel, ws: Seq<WaitingModel<M>>, status: u32)
    ensures
        only_answers(m, pending::refused_all(m, ws, status)),
        forall|w: WaitingModel<M>|
            #[trigger] ws.contains(w) && state::conn_alive(m.connections, w.conn)
                ==> pending::refused_all(m, ws, status).outbox.contains(
                answer(w.conn, w.async_id, status, BodyModel::Error),
            ),
    decreases ws.len(),
{
    if ws.len() > 0 {
        let before = pending::refused_all(m, ws.drop_last(), status);
        lemma_refused(m, ws.drop_last(), status);
        lemma_answered(
            before,
            ws.last().conn,
            ws.last().async_id,
            status,
            BodyModel::Error,
            None,
        );
        let after = pending::refused_all(m, ws, status);
        assert forall|w: WaitingModel<M>|
            #[trigger] ws.contains(w) && state::conn_alive(m.connections, w.conn) implies after
            .outbox.contains(answer(w.conn, w.async_id, status, BodyModel::Error)) by {
            let i = choose|i: int| 0 <= i < ws.len() && ws[i] == w;
            if i < ws.len() - 1 {
                assert(ws.drop_last()[i] == w);
                assert(ws.drop_last().contains(w));
            } else {
                assert(state::conn_alive(before.connections, w.conn));
            }
        }
    }
}

proof fn lemma_watch_done(
    m: StateModel,
    w: WaitingModel<NotifyWaitModel>,
    status: u32,
    output: Seq<u8>,
)
    ensures
        only_answers(m, notify::watch_done(m, w, status, output)),
        state::conn_alive(m.connections, w.conn) ==> notify::watch_done(
            m,
            w,
            status,
            output,
        ).outbox.contains(
            answer(w.conn, w.async_id, status, BodyModel::Data(events::notify_body(output))),
        ),
        w.detail.watched ==> notify::watch_done(m, w, status, output).outbox.contains(
            ActionModel::EndWatch { conn: w.conn, async_id: w.async_id },
        ),
{
    completions::release_keeps_connections(m, w.conn);
    let end = ActionModel::EndWatch { conn: w.conn, async_id: w.async_id };
    let a = answer(w.conn, w.async_id, status, BodyModel::Data(events::notify_body(output)));
    lemma_pushed(m.outbox, end);
    lemma_pushed(m.outbox.push(end), a);
    lemma_pushed(m.outbox, a);
}

/// A watch is answered with its status and the changes, and its backend stops to watch; where the
/// connection is gone, nothing is said.
pub proof fn watches_are_answered_and_end(
    m: StateModel,
    w: WaitingModel<NotifyWaitModel>,
    status: u32,
    output: Seq<u8>,
)
    ensures
        ({
            let after = notify::watch_done(m, w, status, output);
            let a = ActionModel::Respond {
                conn: w.conn,
                async_id: w.async_id,
                status,
                body: BodyModel::Data(events::notify_body(output)),
                compound: None,
            };
            let end = ActionModel::EndWatch { conn: w.conn, async_id: w.async_id };
            let alive = state::conn_alive(m.connections, w.conn);
            &&& w.detail.watched && alive ==> after.outbox == m.outbox.push(end).push(a)
            &&& !w.detail.watched && alive ==> after.outbox == m.outbox.push(a)
            &&& w.detail.watched && !alive ==> after.outbox == m.outbox.push(end)
            &&& !w.detail.watched && !alive ==> after.outbox == m.outbox
            &&& only_answers(m, after)
        }),
{
    lemma_watch_done(m, w, status, output);
}

/// A connection is there where one of the connections has its key.
pub proof fn connections_are_there_by_key(m: StateModel, key: u64)
    ensures
        state::conn_alive(m.connections, key) <==> exists|i: int|
            0 <= i < m.connections.len() && (#[trigger] m.connections[i]).key == key,
{
    state::conn_index_is_first(m.connections, key);
}

proof fn lemma_watches(m: StateModel, ws: Seq<WaitingModel<NotifyWaitModel>>, status: u32)
    ensures
        only_answers(m, notify::watches_done(m, ws, status)),
        forall|w: WaitingModel<NotifyWaitModel>|
            #[trigger] ws.contains(w) && state::conn_alive(m.connections, w.conn)
                ==> notify::watches_done(m, ws, status).outbox.contains(
                answer(
                    w.conn,
                    w.async_id,
                    status,
                    BodyModel::Data(events::notify_body(Seq::empty())),
                ),
            ),
    decreases ws.len(),
{
    if ws.len() > 0 {
        let before = notify::watches_done(m, ws.drop_last(), status);
        lemma_watches(m, ws.drop_last(), status);
        lemma_watch_done(before, ws.last(), status, Seq::empty());
        let after = notify::watches_done(m, ws, status);
        assert forall|w: WaitingModel<NotifyWaitModel>|
            #[trigger] ws.contains(w) && state::conn_alive(m.connections, w.conn) implies after
            .outbox.contains(
            answer(
                w.conn,
                w.async_id,
                status,
                BodyModel::Data(events::notify_body(Seq::empty())),
            ),
        ) by {
            let i = choose|i: int| 0 <= i < ws.len() && ws[i] == w;
            if i < ws.len() - 1 {
                assert(ws.drop_last()[i] == w);
                assert(ws.drop_last().contains(w));
            } else {
                assert(state::conn_alive(before.connections, w.conn));
            }
        }
    }
}

proof fn lemma_locks_answered(m: StateModel, done: Seq<LockAnswer>)
    ensures
        only_answers(m, locks::lock_waits_answered(m, done)),
        forall|d: LockAnswer|
            #[trigger] done.contains(d) && state::conn_alive(m.connections, d.wait.conn)
                ==> locks::lock_waits_answered(m, done).outbox.contains(
                answer(d.wait.conn, d.wait.async_id, d.status, locks::lock_body(d.status)),
            ),
    decreases done.len(),
{
    if done.len() > 0 {
        let before = locks::lock_waits_answered(m, done.drop_last());
        let last = done.last();
        lemma_locks_answered(m, done.drop_last());
        lemma_answered(
            before,
            last.wait.conn,
            last.wait.async_id,
            last.status,
            locks::lock_body(last.status),
            None,
        );
        let after = locks::lock_waits_answered(m, done);
        assert forall|d: LockAnswer|
            #[trigger] done.contains(d) && state::conn_alive(
                m.connections,
                d.wait.conn,
            ) implies after.outbox.contains(
            answer(d.wait.conn, d.wait.async_id, d.status, locks::lock_body(d.status)),
        ) by {
            let i = choose|i: int| 0 <= i < done.len() && done[i] == d;
            if i < done.len() - 1 {
                assert(done.drop_last()[i] == d);
                assert(done.drop_last().contains(d));
            } else {
                assert(state::conn_alive(before.connections, d.wait.conn));
            }
        }
    }
}

/// When a file is closed, what waits on it is answered: watches and reads of pipes with the status
/// that the handle was closed, lock requests with the status that the range is not locked. What
/// waits on other files goes on waiting.
pub proof fn requests_on_a_closed_file_are_answered(
    m: StateModel,
    conn: u64,
    file_id: FileId,
    a: WaitingModel<NotifyWaitModel>,
    b: WaitingModel<()>,
    c: WaitingModel<LockWaitModel>,
)
    requires
        m.change_notifies.contains(a),
        m.pipe_reads.contains(b),
        m.byte_range_lock_waits.contains(c),
    ensures
        ({
            let after = closing::file_waits_ended(m, conn, file_id);
            let alive = state::conn_alive(m.connections, conn);
            &&& after.change_notifies.contains(a) <==> !(a.conn == conn && a.file_id == file_id)
            &&& after.pipe_reads.contains(b) <==> !(b.conn == conn && b.file_id == file_id)
            &&& after.byte_range_lock_waits.contains(c) <==> !(c.conn == conn && c.file_id
                == file_id)
            &&& a.conn == conn && a.file_id == file_id && alive ==> after.outbox.contains(
                answer(
                    conn,
                    a.async_id,
                    0x010B,
                    BodyModel::Data(events::notify_body(Seq::empty())),
                ),
            )
            &&& b.conn == conn && b.file_id == file_id && alive ==> after.outbox.contains(
                answer(conn, b.async_id, 0x010B, BodyModel::Error),
            )
            &&& c.conn == conn && c.file_id == file_id && alive ==> after.outbox.contains(
                answer(conn, c.async_id, 0xC000_007E, BodyModel::Error),
            )
            &&& after.cache_break_creates == m.cache_break_creates
            &&& after.cache_break_writes == m.cache_break_writes
            &&& after.cache_break_tasks == m.cache_break_tasks
            &&& after.opens == m.opens
            &&& after.byte_range_locks == m.byte_range_locks
            &&& goes_on(m.outbox, after.outbox)
        }),
{
    let sel = Selector::File { conn, file_id };
    selecting::requests_are_meant_by_what_is_named(
        m.change_notifies,
        a,
        conn,
        0,
        0,
        0,
        file_id,
    );
    selecting::requests_are_meant_by_what_is_named(m.pipe_reads, b, conn, 0, 0, 0, file_id);
    selecting::requests_are_meant_by_what_is_named(
        m.byte_range_lock_waits,
        c,
        conn,
        0,
        0,
        0,
        file_id,
    );
    selecting::requests_are_taken_or_left(m.change_notifies, sel, a);
    selecting::requests_are_taken_or_left(m.pipe_reads, sel, b);
    selecting::requests_are_taken_or_left(m.byte_range_lock_waits, sel, c);
    let m1 = StateModel { change_notifies: waiting::left(m.change_notifies, sel), ..m };
    lemma_watches(m1, waiting::taken(m.change_notifies, sel), 0x010B);
    let m2 = notify::watches_ended(m, sel, 0x010B);
    let m3 = StateModel { pipe_reads: waiting::left(m2.pipe_reads, sel), ..m2 };
    lemma_refused(m3, waiting::taken(m2.pipe_reads, sel), 0x010B);
    let m4 = pending::pipe_reads_ended(m2, sel, 0x010B);
    let m5 = StateModel {
        byte_range_lock_waits: waiting::left(m4.byte_range_lock_waits, sel),
        ..m4
    };
    let taken = waiting::taken(m4.byte_range_lock_waits, sel);
    let done = locks::with_status(taken, 0xC000_007E);
    lemma_locks_answered(m5, done);
    if taken.contains(c) {
        let i = choose|i: int| 0 <= i < taken.len() && taken[i] == c;
        assert(done[i] == LockAnswer { wait: c, status: 0xC000_007E });
        assert(done.contains(LockAnswer { wait: c, status: 0xC000_007E }));
    }
    assert(closing::file_waits_ended(m, conn, file_id) == locks::lock_waits_answered(m5, done));
}

/// What a step leaves of the requests that wait.
pub open spec fn same_waits(a: StateModel, b: StateModel) -> bool {
    &&& b.change_notifies == a.change_notifies
    &&& b.pipe_reads == a.pipe_reads
    &&& b.byte_range_lock_waits == a.byte_range_lock_waits
    &&& b.cache_break_creates == a.cache_break_creates
    &&& b.cache_break_writes == a.cache_break_writes
    &&& b.cache_break_tasks == a.cache_break_tasks
    &&& b.byte_range_locks == a.byte_range_locks
    &&& goes_on(a.outbox, b.outbox)
}

proof fn lemma_let_go(m: StateModel, open: u64)
    ensures
        same_waits(m, durable::open_let_go(m, open)),
        durable::open_let_go(m, open).connections == m.connections,
        durable::open_let_go(m, open).durable_opens == m.durable_opens,
{
    lemma_pushed(m.outbox, ActionModel::DropHandle { open });
}

proof fn lemma_create_undone(m: StateModel, w: WaitingModel<CreateWaitModel>)
    ensures
        same_waits(m, completions::create_undone(m, w)),
{
    match completions::tree_of_wait(w) {
        None => {
            lemma_released(m, w.file_id);
        },
        Some(t) => match trees::tree_of(m.connections, t) {
            None => {
                lemma_released(m, w.file_id);
            },
            Some(tree) => {
                let after = StateModel {
                    connections: trees::with_tree_opens(
                        m.connections,
                        t,
                        trees::without_file(tree.opens, w.file_id),
                    ),
                    ..m
                };
                match trees::open_of(tree.opens, w.file_id) {
                    None => {
                        lemma_released(after, w.file_id);
                    },
                    Some(open) => {
                        let d = durable::durable_dropped(after, w.file_id);
                        let i = state::open_index(d.opens, open);
                        lemma_pushed(d.outbox, ActionModel::CloseHandle { open });
                        if i < d.opens.len() {
                            let closed = if d.opens[i].open.has_handle {
                                state::acted(d, ActionModel::CloseHandle { open })
                            } else {
                                d
                            };
                            lemma_let_go(
                                StateModel {
                                    opens: d.opens.update(
                                        i,
                                        completions::without_handle(d.opens[i]),
                                    ),
                                    ..closed
                                },
                                open,
                            );
                        }
                    },
                }
            },
        },
    }
}

proof fn lemma_released(m: StateModel, file_id: FileId)
    ensures
        same_waits(m, durable::durable_released(m, file_id)),
{
    if let Some(d) = durable::durable_of(m.durable_opens, file_id) {
        lemma_let_go(durable::durable_dropped(m, file_id), d.open);
    }
}

proof fn lemma_creates_undone(m: StateModel, ws: Seq<WaitingModel<CreateWaitModel>>)
    ensures
        same_waits(m, completions::creates_undone(m, ws)),
    decreases ws.len(),
{
    if ws.len() > 0 {
        lemma_creates_undone(m, ws.drop_last());
        lemma_create_undone(completions::creates_undone(m, ws.drop_last()), ws.last());
    }
}

proof fn lemma_creates_done(m: StateModel, ws: Seq<WaitingModel<CreateWaitModel>>)
    ensures
        same_waits(m, completions::creates_done(m, ws)),
        completions::same_alive(m, completions::creates_done(m, ws)),
    decreases ws.len(),
{
    if ws.len() > 0 {
        lemma_creates_done(m, ws.drop_last());
        let before = completions::creates_done(m, ws.drop_last());
        let w = ws.last();
        let kept = if state::conn_alive(before.connections, w.conn) {
            completions::replay_kept(before, w.detail.replay, w.detail.status, w.detail.body)
        } else {
            before
        };
        lemma_answered(
            kept,
            w.conn,
            w.async_id,
            w.detail.status,
            w.detail.body,
            w.detail.compound,
        );
    }
}

/// When a session ends, its watches end on every connection, and its creates, writes and tasks on
/// its own; what waits in other sessions goes on waiting, and so do reads of pipes and locks.
pub proof fn requests_of_an_ended_session_end(
    m: StateModel,
    conn: u64,
    session_id: u64,
    a: WaitingModel<NotifyWaitModel>,
    b: WaitingModel<CreateWaitModel>,
    c: WaitingModel<WriteWaitModel>,
    d: WaitingModel<TaskWaitModel>,
)
    requires
        m.change_notifies.contains(a),
        m.cache_break_creates.contains(b),
        m.cache_break_writes.contains(c),
        m.cache_break_tasks.contains(d),
    ensures
        ({
            let after = cleanup::session_waits_ended(m, conn, session_id);
            &&& after.change_notifies.contains(a) <==> a.request.session_id != session_id
            &&& after.cache_break_creates.contains(b) <==> !(b.conn == conn && b.request.session_id
                == session_id)
            &&& after.cache_break_writes.contains(c) <==> !(c.conn == conn && c.request.session_id
                == session_id)
            &&& after.cache_break_tasks.contains(d) <==> !(d.conn == conn && d.request.session_id
                == session_id)
            &&& after.pipe_reads == m.pipe_reads
            &&& after.byte_range_lock_waits == m.byte_range_lock_waits
            &&& after.byte_range_locks == m.byte_range_locks
            &&& goes_on(m.outbox, after.outbox)
            &&& a.request.session_id == session_id && state::conn_alive(m.connections, a.conn)
                ==> after.outbox.contains(
                answer(
                    a.conn,
                    a.async_id,
                    0x010B,
                    BodyModel::Data(events::notify_body(Seq::empty())),
                ),
            )
        }),
{
    let any = Selector::AnySession { session_id };
    let sel = Selector::Session { conn, session_id };
    let id = FileId { persistent: 0, volatile: 0 };
    selecting::requests_are_meant_by_what_is_named(
        m.change_notifies,
        a,
        conn,
        0,
        session_id,
        0,
        id,
    );
    selecting::requests_are_meant_by_what_is_named(
        m.cache_break_creates,
        b,
        conn,
        0,
        session_id,
        0,
        id,
    );
    selecting::requests_are_meant_by_what_is_named(
        m.cache_break_writes,
        c,
        conn,
        0,
        session_id,
        0,
        id,
    );
    selecting::requests_are_meant_by_what_is_named(
        m.cache_break_tasks,
        d,
        conn,
        0,
        session_id,
        0,
        id,
    );
    selecting::requests_are_taken_or_left(m.change_notifies, any, a);
    selecting::requests_are_taken_or_left(m.cache_break_creates, sel, b);
    selecting::requests_are_taken_or_left(m.cache_break_writes, sel, c);
    selecting::requests_are_taken_or_left(m.cache_break_tasks, sel, d);
    let m1 = StateModel { change_notifies: waiting::left(m.change_notifies, any), ..m };
    lemma_watches(m1, waiting::taken(m.change_notifies, any), 0x010B);
    let m2 = notify::watches_ended(m, any, 0x010B);
    let taken = waiting::taken(m2.cache_break_creates, sel);
    let m3 = StateModel { cache_break_creates: waiting::left(m2.cache_break_creates, sel), ..m2 };
    lemma_creates_undone(m3, taken);
    let m4 = completions::creates_undone(m3, taken);
    lemma_creates_done(m4, completions::failed_creates(taken, 0x010B));
    let m5 = completions::creates_ended(m2, sel, 0x010B);
    let m6 = StateModel { cache_break_writes: waiting::left(m5.cache_break_writes, sel), ..m5 };
    lemma_refused(m6, waiting::taken(m5.cache_break_writes, sel), 0x010B);
    let m7 = writes::writes_ended(m5, sel, 0x010B);
    let m8 = StateModel { cache_break_tasks: waiting::left(m7.cache_break_tasks, sel), ..m7 };
    lemma_refused(m8, waiting::taken(m7.cache_break_tasks, sel), 0x010B);
    assert(cleanup::session_waits_ended(m, conn, session_id) == tasks::tasks_ended(
        m7,
        sel,
        0x010B,
    ));
}

/// Requests that are ended with a status are answered with it, and no others: writes, tasks and
/// reads of pipes with an error.
pub proof fn ended_requests_are_answered(
    m: StateModel,
    sel: Selector,
    status: u32,
    b: WaitingModel<()>,
    c: WaitingModel<WriteWaitModel>,
    d: WaitingModel<TaskWaitModel>,
)
    ensures
        waiting::taken(m.pipe_reads, sel).contains(b) && state::conn_alive(m.connections, b.conn)
            ==> pending::pipe_reads_ended(m, sel, status).outbox.contains(
            answer(b.conn, b.async_id, status, BodyModel::Error),
        ),
        waiting::taken(m.cache_break_writes, sel).contains(c) && state::conn_alive(
            m.connections,
            c.conn,
        ) ==> writes::writes_ended(m, sel, status).outbox.contains(
            answer(c.conn, c.async_id, status, BodyModel::Error),
        ),
        waiting::taken(m.cache_break_tasks, sel).contains(d) && state::conn_alive(
            m.connections,
            d.conn,
        ) ==> tasks::tasks_ended(m, sel, status).outbox.contains(
            answer(d.conn, d.async_id, status, BodyModel::Error),
        ),
        pending::pipe_reads_ended(m, sel, status).pipe_reads == waiting::left(m.pipe_reads, sel),
        writes::writes_ended(m, sel, status).cache_break_writes == waiting::left(
            m.cache_break_writes,
            sel,
        ),
        tasks::tasks_ended(m, sel, status).cache_break_tasks == waiting::left(
            m.cache_break_tasks,
            sel,
        ),
{
    lemma_refused(
        StateModel { pipe_reads: waiting::left(m.pipe_reads, sel), ..m },
        waiting::taken(m.pipe_reads, sel),
        status,
    );
    lemma_refused(
        StateModel { cache_break_writes: waiting::left(m.cache_break_writes, sel), ..m },
        waiting::taken(m.cache_break_writes, sel),
        status,
    );
    lemma_refused(
        StateModel { cache_break_tasks: waiting::left(m.cache_break_tasks, sel), ..m },
        waiting::taken(m.cache_break_tasks, sel),
        status,
    );
}

/// A request that is dropped waits no longer and is not answered: watches are looked for first,
/// then reads of pipes, then lock requests. One request fewer is pending.
pub proof fn dropped_requests_are_not_answered(m: StateModel, conn: u64, async_id: u64)
    ensures
        ({
            let after = pending::discarded(m, conn, async_id);
            let sel = Selector::Id { conn, async_id };
            let watches = waiting::taken(m.change_notifies, sel);
            let reads = waiting::taken(m.pipe_reads, sel);
            let waits = waiting::taken(m.byte_range_lock_waits, sel);
            let end = ActionModel::EndWatch { conn, async_id };
            &&& watches.len() > 0 ==> after.change_notifies == waiting::left(
                m.change_notifies,
                sel,
            ) && after.pipe_reads == m.pipe_reads && after.byte_range_lock_waits
                == m.byte_range_lock_waits && after.outbox == if watches[0].detail.watched {
                m.outbox.push(end)
            } else {
                m.outbox
            }
            &&& watches.len() == 0 ==> after.change_notifies == m.change_notifies && after.outbox
                == m.outbox
            &&& watches.len() == 0 && reads.len() > 0 ==> after.pipe_reads == waiting::left(
                m.pipe_reads,
                sel,
            ) && after.byte_range_lock_waits == m.byte_range_lock_waits
            &&& watches.len() == 0 && reads.len() == 0 ==> after.pipe_reads == m.pipe_reads
            &&& watches.len() == 0 && reads.len() == 0 && waits.len() > 0
                ==> after.byte_range_lock_waits == waiting::left(m.byte_range_lock_waits, sel)
            &&& watches.len() > 0 || reads.len() > 0 || waits.len() > 0 ==> after.connections
                == state::released(m.connections, conn)
            &&& watches.len() == 0 && reads.len() == 0 && waits.len() == 0 ==> after == m
        }),
{
}

/// When the durable opens of a tree connect are detached, it keeps exactly those that cannot wait
/// for their client.
pub proof fn detached_tree_connects_keep_the_rest(
    m: StateModel,
    t: TreeRef,
    deadline: u64,
    x: TreeOpen,
)
    requires
        trees::tree_of(m.connections, t) is Some,
    ensures
        ({
            let tree = trees::tree_of(m.connections, t)->0;
            let share = text::lowered(tree.share);
            let waits = durable::open_of(m.opens, x.open) matches Some(o) && detaching::can_wait(
                m,
                share,
                o,
            );
            let left = waiting::unflagged(
                tree.opens,
                detaching::detached_flags(m, share, tree.opens),
            );
            &&& left.contains(x) <==> tree.opens.contains(x) && !waits
            &&& detaching::tree_detached(m, t, deadline).connections == trees::with_tree_opens(
                detaching::opens_detached(m, share, tree.opens, deadline).connections,
                t,
                left,
            )
        }),
{
    let tree = trees::tree_of(m.connections, t)->0;
    let share = text::lowered(tree.share);
    selecting::items_are_parted_by_a_test(
        tree.opens,
        |y: TreeOpen| detaching::detaches(m, share, y),
        x,
    );
}

proof fn lemma_all_let_go(m: StateModel, opens: Seq<u64>)
    ensures
        same_waits(m, durable::all_let_go(m, opens)),
        durable::all_let_go(m, opens).connections == m.connections,
        durable::all_let_go(m, opens).durable_opens == m.durable_opens,
    decreases opens.len(),
{
    if opens.len() > 0 {
        lemma_all_let_go(m, opens.drop_last());
        lemma_let_go(durable::all_let_go(m, opens.drop_last()), opens.last());
    }
}

/// A connection that goes is the only one that goes, with its sessions; what waits and what is
/// durable stays.
pub proof fn one_connection_goes(m: StateModel, key: u64, c: int)
    requires
        0 <= c < m.connections.len(),
        m.connections[c].key == key,
        forall|k: int| 0 <= k < c ==> (#[trigger] m.connections[k]).key != key,
    ensures
        ({
            let after = crate::server::connections::connection_dropped(m, key);
            &&& after.connections == m.connections.remove(c)
            &&& after.durable_opens == m.durable_opens
            &&& same_waits(m, after)
        }),
{
    state::conn_index_is_first(m.connections, key);
    lemma_all_let_go(
        StateModel { connections: m.connections.remove(c), ..m },
        trees::opens_in_sessions(m.connections[c].sessions),
    );
}

/// An open that is given up has its handle closed, where it has one.
pub proof fn given_up_opens_close_their_handle(
    m: StateModel,
    share: Seq<char>,
    file_id: FileId,
    open: u64,
    why: Leaving,
)
    ensures
        (durable::open_of(m.opens, open) matches Some(o) && o.has_handle) ==> detaching::retired(
            m,
            share,
            file_id,
            open,
            why,
        ).outbox.contains(ActionModel::CloseHandle { open }),
        durable::open_of(m.opens, open) is None ==> detaching::retired(
            m,
            share,
            file_id,
            open,
            why,
        ) == m,
{
    if let Some(o) = durable::open_of(m.opens, open) {
        let gone = StateModel { opens: detaching::opens_stripped(m.opens, open, why), ..m };
        let unlocked = locks::lock_waits_retried(
            locks::locks_dropped(gone, share, o.last_path, o.stream_name, file_id),
            share,
            o.last_path,
            o.stream_name,
        );
        let resumed = if why != Leaving::Purged {
            crate::server::timeouts::oplock_waits_resumed(unlocked, file_id)
        } else {
            unlocked
        };
        lemma_pushed(resumed.outbox, ActionModel::CloseHandle { open });
        let closed = if o.has_handle {
            state::acted(resumed, ActionModel::CloseHandle { open })
        } else {
            resumed
        };
        lemma_let_go(closed, open);
    }
}

/// A durable open that is given up loses its place before anything goes on: it is registered
/// nowhere, and claims nothing.
pub proof fn given_up_opens_lose_their_place(
    m: StateModel,
    open: u64,
    why: Leaving,
    at: int,
    k: int,
)
    requires
        0 <= at < m.opens.len(),
        m.opens[at].key == open,
        forall|i: int| 0 <= i < at ==> (#[trigger] m.opens[i]).key != open,
        0 <= k < m.opens.len(),
    ensures
        ({
            let after = detaching::opens_stripped(m.opens, open, why);
            &&& after.len() == m.opens.len()
            &&& after[at].registration is None
            &&& after[at].open == detaching::stripped(m.opens[at].open, why)
            &&& m.opens[k].key != open ==> after[k] == m.opens[k]
        }),
{
    state::open_index_at(m.opens, open, at);
}

/// The opens that are looked for are those on a path or below it that wait for their client.
pub proof fn purged_opens_are_given_up(
    m: StateModel,
    share: Seq<char>,
    path: crate::path::PathModel,
    d: crate::server::types::DurableModel,
)
    ensures
        ({
            let s = text::lowered(share);
            let flags = detaching::under_flags(m, s, path);
            &&& waiting::flagged(m.durable_opens, flags).contains(d) <==> m.durable_opens.contains(
                d,
            ) && detaching::is_under(m.opens, d, s, path)
            &&& waiting::unflagged(m.durable_opens, flags).contains(d)
                <==> m.durable_opens.contains(d) && !detaching::is_under(m.opens, d, s, path)
        }),
{
    let s = text::lowered(share);
    selecting::items_are_parted_by_a_test(
        m.durable_opens,
        |x: crate::server::types::DurableModel| detaching::is_under(m.opens, x, s, path),
        d,
    );
}

} // verus!
