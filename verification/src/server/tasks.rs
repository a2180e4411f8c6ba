//! Tasks that wait for breaks of leases and oplocks.

use crate::proto::messages::FileId;
use crate::server::completions;
use crate::server::completions::Ended;
use crate::server::lists;
use crate::server::lists::{copy_file_ids, copy_keys};
use crate::server::pending;
use crate::server::state;
use crate::server::state::{ServerState, StateModel};
use crate::server::types::{
    Action, ActionModel, BodyModel, ReplayKey, ReplayKeyModel, ResponseBody, TaskWait,
    TaskWaitModel, NIL16,
};
use crate::server::waiting;
use crate::server::waiting::{
    put_waiting, take_selected, take_waiting_flagged, Selector, Waiting, WaitingModel,
};
use vstd::prelude::*;

verus! {

// ---------------------------------------------------------------------------
// The order in which tasks are run
// ---------------------------------------------------------------------------

/// Whether a waiting task comes after an asynchronous id.
pub open spec fn comes_after(async_id: u64) -> spec_fn(WaitingModel<TaskWaitModel>) -> bool {
    |w: WaitingModel<TaskWaitModel>| w.async_id > async_id
}

/// Tasks with another in its place: behind those with ids that are not greater.
pub open spec fn placed(
    ws: Seq<WaitingModel<TaskWaitModel>>,
    w: WaitingModel<TaskWaitModel>,
) -> Seq<WaitingModel<TaskWaitModel>> {
    ws.insert(lists::first(ws, comes_after(w.async_id)), w)
}

/// Tasks in the order of their ids; those with the same id stay in order.
pub open spec fn in_order(ws: Seq<WaitingModel<TaskWaitModel>>) -> Seq<
    WaitingModel<TaskWaitModel>,
>
    decreases ws.len(),
{
    if ws.len() == 0 {
        ws
    } else {
        placed(in_order(ws.drop_last()), ws.last())
    }
}

/// Tasks are run in the order of their ids, and each of them is run.
pub proof fn tasks_run_in_order(ws: Seq<WaitingModel<TaskWaitModel>>)
    ensures
        in_order(ws).to_multiset() == ws.to_multiset(),
        forall|i: int, j: int|
            0 <= i <= j < in_order(ws).len() ==> (#[trigger] in_order(ws)[i]).async_id <= (
            #[trigger] in_order(ws)[j]).async_id,
    decreases ws.len(),
{
    broadcast use vstd::seq_lib::group_to_multiset_ensures;

    if ws.len() > 0 {
        let before = in_order(ws.drop_last());
        let w = ws.last();
        let at = lists::first(before, comes_after(w.async_id));
        tasks_run_in_order(ws.drop_last());
        lists::first_is_first(before, comes_after(w.async_id));
        assert(ws.drop_last().push(w) =~= ws);
        let after = before.insert(at, w);
        assert forall|i: int,
            j: int| 0 <= i <= j < after.len() implies (#[trigger] after[i]).async_id
            <= (#[trigger] after[j]).async_id by {
            let a = if i < at {
                i
            } else {
                i - 1
            };
            let b = if j < at {
                j
            } else {
                j - 1
            };
            if i != at {
                assert(after[i] == before[a]);
            }
            if j != at {
                assert(after[j] == before[b]);
            }
            if i < at {
                assert(!comes_after(w.async_id)(before[i]));
            }
            if at < before.len() && j > at {
                assert(before[at].async_id <= before[b].async_id);
            }
        }
    }
}

// ---------------------------------------------------------------------------
// Going on
// ---------------------------------------------------------------------------

/// The state after a task went on: it is handed out.
pub open spec fn task_started(m: StateModel, w: WaitingModel<TaskWaitModel>) -> StateModel {
    let released = state::slot_released(m, w.conn);
    if state::conn_alive(m.connections, w.conn) {
        state::acted(
            released,
            ActionModel::RunTask { conn: w.conn, async_id: w.async_id, task: w.detail },
        )
    } else {
        released
    }
}

/// The state after tasks went on.
pub open spec fn tasks_started(m: StateModel, ws: Seq<WaitingModel<TaskWaitModel>>) -> StateModel
    decreases ws.len(),
{
    if ws.len() == 0 {
        m
    } else {
        task_started(tasks_started(m, ws.drop_last()), ws.last())
    }
}

/// Which tasks go on now that a break ended.
pub open spec fn ready_tasks(m: StateModel, ended: Ended) -> Seq<bool> {
    m.cache_break_tasks.map_values(
        |w: WaitingModel<TaskWaitModel>|
            completions::goes_on(m.opens, w.detail.wait, ended),
    )
}

/// The state after the tasks that waited for a break went on.
pub open spec fn tasks_resumed(m: StateModel, ended: Ended) -> StateModel {
    let flags = ready_tasks(m, ended);
    tasks_started(
        StateModel {
            cache_break_tasks: waiting::unflagged(m.cache_break_tasks, flags),
            ..m
        },
        in_order(waiting::flagged(m.cache_break_tasks, flags)),
    )
}

/// The state after a task was run: its answer is kept where the request can be repeated,
/// and goes out.
pub open spec fn task_finished(
    m: StateModel,
    conn: u64,
    async_id: u64,
    replay: ReplayKeyModel,
    compound: Option<u64>,
    status: u32,
    body: BodyModel,
) -> StateModel {
    let kept = completions::replay_kept(m, replay, status, body);
    if state::conn_alive(m.connections, conn) {
        state::acted(kept, ActionModel::Respond { conn, async_id, status, body, compound })
    } else {
        kept
    }
}

/// The state after the tasks that wait for breaks that are meant were ended with a status.
pub open spec fn tasks_ended(m: StateModel, sel: Selector, status: u32) -> StateModel {
    pending::refused_all(
        StateModel { cache_break_tasks: waiting::left(m.cache_break_tasks, sel), ..m },
        waiting::taken(m.cache_break_tasks, sel),
        status,
    )
}

fn place_task(ws: &mut Vec<Waiting<TaskWait>>, w: Waiting<TaskWait>)
    ensures
        waiting::models(final(ws)@) == placed(waiting::models(old(ws)@), w@),
{
    let ghost all = waiting::models(ws@);
    let id: u64 = w.async_id;
    let mut i: usize = 0;
    while i < ws.len() && ws[i].async_id <= id
        invariant
            i <= ws@.len(),
            all == waiting::models(ws@),
            forall|j: int| 0 <= j < i ==> !comes_after(id)(#[trigger] all[j]),
        decreases ws@.len() - i,
    {
        assert(all[i as int] == ws@[i as int]@);
        i += 1;
    }
    proof {
        if i < ws@.len() {
            assert(all[i as int] == ws@[i as int]@);
        }
        lists::first_at(all, comes_after(id), i as int);
    }
    ws.insert(i, w);
    assert(waiting::models(ws@) =~= placed(all, w@));
}

fn sort_tasks(ws: Vec<Waiting<TaskWait>>) -> (r: Vec<Waiting<TaskWait>>)
    ensures
        waiting::models(r@) == in_order(waiting::models(ws@)),
{
    let mut rest: Vec<Waiting<TaskWait>> = ws;
    let ghost all = waiting::models(rest@);
    let mut out: Vec<Waiting<TaskWait>> = Vec::new();
    let ghost mut n: int = 0;
    assert(all.skip(0) =~= all);
    assert(all.take(0) =~= Seq::empty());
    assert(waiting::models(out@) =~= Seq::empty());
    while rest.len() > 0
        invariant
            0 <= n,
            n + rest@.len() == all.len(),
            waiting::models(rest@) == all.skip(n),
            waiting::models(out@) == in_order(all.take(n)),
        decreases rest@.len(),
    {
        let ghost before = rest@;
        let w: Waiting<TaskWait> = rest.remove(0);
        proof {
            assert(waiting::models(before)[0] == all[n]);
            assert(waiting::models(rest@) =~= waiting::models(before).skip(1));
            assert(all.skip(n).skip(1) =~= all.skip(n + 1));
            assert(all.take(n + 1).drop_last() =~= all.take(n));
            assert(all.take(n + 1).last() == all[n]);
            n = n + 1;
        }
        place_task(&mut out, w);
    }
    assert(all.take(n) =~= all);
    out
}

/// The key of a task that no repeated create request is known by.
pub open spec fn no_replay() -> ReplayKeyModel {
    ReplayKeyModel { create_guid: None, client_guid: NIL16, owner: Seq::empty() }
}

/// The state after a task began to wait for breaks; no rest of a compound request waits
/// behind it yet.
pub open spec fn task_kept(m: StateModel, w: WaitingModel<TaskWaitModel>) -> StateModel {
    completions::timer_started(
        StateModel {
            cache_break_tasks: waiting::left(
                m.cache_break_tasks,
                Selector::Id { conn: w.conn, async_id: w.async_id },
            ).push(WaitingModel { detail: TaskWaitModel { compound: None, ..w.detail }, ..w }),
            ..m
        },
        w.detail.wait,
    )
}

impl ServerState {
    /// Keeps a task that waits for breaks, and that no repeated create request is known by.
    pub fn register_cache_break_task(&mut self, w: Waiting<TaskWait>)
        ensures
            final(self)@ == task_kept(
                old(self)@,
                WaitingModel {
                    detail: TaskWaitModel { replay: no_replay(), ..w@.detail },
                    ..w@
                },
            ),
    {
        let mut kept: Waiting<TaskWait> = w;
        kept.detail.replay = ReplayKey {
            create_guid: None,
            client_guid: NIL16,
            owner: String::new(),
        };
        assert(kept@.detail.replay =~= no_replay());
        self.register_cache_break_task_with_replay(kept);
    }

    /// Keeps a task that waits for breaks, and that a repeated create request is known by.
    pub fn register_cache_break_task_with_replay(&mut self, w: Waiting<TaskWait>)
        ensures
            final(self)@ == task_kept(old(self)@, w@),
    {
        let mut kept: Waiting<TaskWait> = w;
        kept.detail.compound = None;
        let keys: Vec<[u8; 16]> = copy_keys(&kept.detail.wait.lease_keys);
        let ids: Vec<FileId> = copy_file_ids(&kept.detail.wait.oplock_file_ids);
        put_waiting(&mut self.cache_break_tasks, kept);
        self.start_break_timer(keys, ids);
    }

    fn start_task(&mut self, w: Waiting<TaskWait>)
        ensures
            final(self)@ == task_started(old(self)@, w@),
    {
        let alive: bool = self.find_conn(w.conn).is_some();
        self.release_pending_async_slot(w.conn);
        if alive {
            self.act(Action::RunTask { conn: w.conn, async_id: w.async_id, task: w.detail });
        }
    }

    /// Lets the tasks go on that waited for a break.
    pub fn resume_cache_break_tasks(&mut self, ended: Ended)
        ensures
            final(self)@ == tasks_resumed(old(self)@, ended),
    {
        let mut flags: Vec<bool> = Vec::new();
        let mut i: usize = 0;
        while i < self.cache_break_tasks.len()
            invariant
                i <= self.cache_break_tasks@.len(),
                flags@.len() == i,
                forall|j: int|
                    0 <= j < i ==> flags@[j] == completions::goes_on(
                        self@.opens,
                        (#[trigger] self.cache_break_tasks@[j])@.detail.wait,
                        ended,
                    ),
            decreases self.cache_break_tasks@.len() - i,
        {
            flags.push(self.can_go_on(&self.cache_break_tasks[i].detail.wait, ended));
            i += 1;
        }
        assert(flags@ =~= ready_tasks(self@, ended));
        let ready: Vec<Waiting<TaskWait>> = take_waiting_flagged(
            &mut self.cache_break_tasks,
            &flags,
        );
        let mut ready: Vec<Waiting<TaskWait>> = sort_tasks(ready);
        let ghost all = waiting::models(ready@);
        let ghost m = self@;
        let ghost mut n: int = 0;
        assert(all.skip(0) =~= all);
        assert(all.take(0) =~= Seq::empty());
        while ready.len() > 0
            invariant
                0 <= n,
                n + ready@.len() == all.len(),
                waiting::models(ready@) == all.skip(n),
                self@ == tasks_started(m, all.take(n)),
            decreases ready@.len(),
        {
            let ghost before = ready@;
            let w: Waiting<TaskWait> = ready.remove(0);
            proof {
                assert(waiting::models(before)[0] == all[n]);
                assert(waiting::models(ready@) =~= waiting::models(before).skip(1));
                assert(all.skip(n).skip(1) =~= all.skip(n + 1));
                assert(all.take(n + 1).drop_last() =~= all.take(n));
                assert(all.take(n + 1).last() == all[n]);
                n = n + 1;
            }
            self.start_task(w);
        }
        assert(all.take(n) =~= all);
    }

    /// Takes note of what a task answered.
    pub fn finish_cache_break_task(
        &mut self,
        conn: u64,
        async_id: u64,
        replay: &ReplayKey,
        compound: Option<u64>,
        status: u32,
        body: ResponseBody,
    )
        ensures
            final(self)@ == task_finished(
                old(self)@,
                conn,
                async_id,
                replay@,
                compound,
                status,
                body@,
            ),
    {
        self.keep_replay(replay, status, &body);
        if self.find_conn(conn).is_some() {
            self.act(Action::Respond { conn, async_id, status, body, compound });
        }
    }

    fn end_cache_break_tasks(&mut self, sel: Selector, status: u32) -> (r: usize)
        ensures
            final(self)@ == tasks_ended(old(self)@, sel, status),
            r == completions::alive_count(old(self)@,
                waiting::taken(old(self)@.cache_break_tasks, sel)),
    {
        let ws: Vec<Waiting<TaskWait>> = take_selected(&mut self.cache_break_tasks, sel);
        proof {
            completions::alive_count_same(old(self)@, self@, waiting::models(ws@));
        }
        self.refuse_all(&ws, status)
    }

    /// Cancels one of the tasks that wait for breaks.
    pub fn cancel_cache_break_task(
        &mut self,
        conn: u64,
        async_id: u64,
        session_id: u64,
        status: u32,
    ) -> (r: bool)
        ensures
            ({
                let sel = Selector::Request { conn, async_id, session_id };
                final(self)@ == tasks_ended(old(self)@, sel, status) && r
                    == (completions::alive_count(
                    old(self)@,
                    waiting::taken(old(self)@.cache_break_tasks, sel),
                ) != 0)
            }),
    {
        self.end_cache_break_tasks(Selector::Request { conn, async_id, session_id }, status) != 0
    }

    /// Ends the tasks that wait for breaks of a session.
    pub fn cleanup_cache_break_tasks_for_session(
        &mut self,
        conn: u64,
        session_id: u64,
        status: u32,
    ) -> (r: usize)
        ensures
            ({
                let sel = Selector::Session { conn, session_id };
                final(self)@ == tasks_ended(old(self)@, sel, status) && r
                    == completions::alive_count(
                    old(self)@,
                    waiting::taken(old(self)@.cache_break_tasks, sel),
                )
            }),
    {
        self.end_cache_break_tasks(Selector::Session { conn, session_id }, status)
    }

    /// Ends the tasks that wait for breaks of a tree connect.
    pub fn cleanup_cache_break_tasks_for_tree(
        &mut self,
        conn: u64,
        session_id: u64,
        tree_id: u32,
        status: u32,
    ) -> (r: usize)
        ensures
            ({
                let sel = Selector::Tree { conn, session_id, tree_id };
                final(self)@ == tasks_ended(old(self)@, sel, status) && r
                    == completions::alive_count(
                    old(self)@,
                    waiting::taken(old(self)@.cache_break_tasks, sel),
                )
            }),
    {
        self.end_cache_break_tasks(Selector::Tree { conn, session_id, tree_id }, status)
    }

    /// Drops the tasks that wait for breaks of a connection; none is answered.
    pub fn cleanup_cache_break_tasks_for_connection(&mut self, conn: u64) -> (r: usize)
        ensures
            ({
                let sel = Selector::Connection { conn };
                let ws = waiting::taken(old(self)@.cache_break_tasks, sel);
                r == ws.len() && final(self)@ == completions::slots_released(
                    StateModel {
                        cache_break_tasks: waiting::left(old(self)@.cache_break_tasks, sel),
                        ..old(self)@
                    },
                    ws,
                )
            }),
    {
        let ws: Vec<Waiting<TaskWait>> = take_selected(
            &mut self.cache_break_tasks,
            Selector::Connection { conn },
        );
        self.release_all(&ws);
        ws.len()
    }
}

} // verus!
