//! Compound requests whose rest waits behind a request that waits for breaks.

use crate::server::lists;
use crate::server::state::{ServerState, StateModel};
use crate::server::types::{CreateWaitModel, TaskWaitModel, WriteWaitModel};
use crate::server::waiting;
use crate::server::waiting::{Waiting, WaitingModel};
use vstd::prelude::*;

verus! {

/// Whether a waiting request has an asynchronous id.
pub open spec fn request_is<M>(conn: u64, async_id: u64) -> spec_fn(WaitingModel<M>) -> bool {
    |w: WaitingModel<M>| w.conn == conn && w.async_id == async_id
}

/// A create request with the rest of a compound behind it.
pub open spec fn create_with(
    w: WaitingModel<CreateWaitModel>,
    compound: u64,
) -> WaitingModel<CreateWaitModel> {
    WaitingModel { detail: CreateWaitModel { compound: Some(compound), ..w.detail }, ..w }
}

/// A write with the rest of a compound behind it.
pub open spec fn write_with(
    w: WaitingModel<WriteWaitModel>,
    compound: u64,
) -> WaitingModel<WriteWaitModel> {
    WaitingModel { detail: WriteWaitModel { compound: Some(compound), ..w.detail }, ..w }
}

/// A task with the rest of a compound behind it.
pub open spec fn task_with(
    w: WaitingModel<TaskWaitModel>,
    compound: u64,
) -> WaitingModel<TaskWaitModel> {
    WaitingModel { detail: TaskWaitModel { compound: Some(compound), ..w.detail }, ..w }
}

/// The state after the rest of a compound was put behind a waiting create request, write
/// or task.
pub open spec fn compound_attached(
    m: StateModel,
    conn: u64,
    async_id: u64,
    compound: u64,
) -> StateModel {
    let c = lists::first(m.cache_break_creates, request_is(conn, async_id));
    let w = lists::first(m.cache_break_writes, request_is(conn, async_id));
    let t = lists::first(m.cache_break_tasks, request_is(conn, async_id));
    if c < m.cache_break_creates.len() {
        StateModel {
            cache_break_creates: m.cache_break_creates.update(
                c,
                create_with(m.cache_break_creates[c], compound),
            ),
            ..m
        }
    } else if w < m.cache_break_writes.len() {
        StateModel {
            cache_break_writes: m.cache_break_writes.update(
                w,
                write_with(m.cache_break_writes[w], compound),
            ),
            ..m
        }
    } else if t < m.cache_break_tasks.len() {
        StateModel {
            cache_break_tasks: m.cache_break_tasks.update(
                t,
                task_with(m.cache_break_tasks[t], compound),
            ),
            ..m
        }
    } else {
        m
    }
}

/// Where a waiting request stands.
pub fn find_request<T: View>(ws: &Vec<Waiting<T>>, conn: u64, async_id: u64) -> (r: Option<usize>)
    ensures
        match r {
            None => !lists::found(waiting::models(ws@), request_is(conn, async_id)),
            Some(i) => i < ws@.len() && i == lists::first(
                waiting::models(ws@),
                request_is(conn, async_id),
            ),
        },
{
    let ghost all = waiting::models(ws@);
    let mut i: usize = 0;
    while i < ws.len()
        invariant
            i <= ws@.len(),
            all == waiting::models(ws@),
            forall|j: int|
                0 <= j < i ==> !request_is::<T::V>(conn, async_id)(#[trigger] all[j]),
        decreases ws@.len() - i,
    {
        assert(all[i as int] == ws@[i as int]@);
        if ws[i].conn == conn && ws[i].async_id == async_id {
            proof {
                lists::first_at(all, request_is(conn, async_id), i as int);
            }
            return Some(i);
        }
        i += 1;
    }
    proof {
        lists::first_at(all, request_is(conn, async_id), i as int);
    }
    None
}

impl ServerState {
    /// Puts the rest of a compound behind a request that waits for breaks.
    pub fn attach_cache_break_compound_completion(
        &mut self,
        conn: u64,
        async_id: u64,
        compound: u64,
    ) -> (r: bool)
        ensures
            r == (lists::found(
                old(self)@.cache_break_creates,
                request_is(conn, async_id),
            ) || lists::found(old(self)@.cache_break_writes, request_is(conn, async_id))
                || lists::found(old(self)@.cache_break_tasks, request_is(conn, async_id))),
            final(self)@ == compound_attached(old(self)@, conn, async_id, compound),
    {
        match find_request(&self.cache_break_creates, conn, async_id) {
            Some(i) => {
                let ghost before = self@.cache_break_creates;
                assert(before[i as int] == self.cache_break_creates@[i as int]@);
                self.cache_break_creates[i].detail.compound = Some(compound);
                assert(self@.cache_break_creates =~= before.update(
                    i as int,
                    create_with(before[i as int], compound),
                ));
                return true;
            },
            None => {},
        }
        match find_request(&self.cache_break_writes, conn, async_id) {
            Some(i) => {
                let ghost before = self@.cache_break_writes;
                assert(before[i as int] == self.cache_break_writes@[i as int]@);
                self.cache_break_writes[i].detail.compound = Some(compound);
                assert(self@.cache_break_writes =~= before.update(
                    i as int,
                    write_with(before[i as int], compound),
                ));
                return true;
            },
            None => {},
        }
        match find_request(&self.cache_break_tasks, conn, async_id) {
            Some(i) => {
                let ghost before = self@.cache_break_tasks;
                assert(before[i as int] == self.cache_break_tasks@[i as int]@);
                self.cache_break_tasks[i].detail.compound = Some(compound);
                assert(self@.cache_break_tasks =~= before.update(
                    i as int,
                    task_with(before[i as int], compound),
                ));
                true
            },
            None => false,
        }
    }
}

} // verus!
