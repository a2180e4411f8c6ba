//! Waiting requests that are ended without going on.

use crate::proto::messages::FileId;
use crate::server::completions;
use crate::server::state;
use crate::server::state::{ServerState, StateModel};
use crate::server::types::{Action, ActionModel, BodyModel, PipeReadWait, ResponseBody};
use crate::server::waiting;
use crate::server::waiting::{put_waiting, take_selected, Selector, Waiting, WaitingModel};
use vstd::prelude::*;

verus! {

/// The state after waiting requests were all answered with an error.
pub open spec fn refused_all<M>(
    m: StateModel,
    ws: Seq<WaitingModel<M>>,
    status: u32,
) -> StateModel
    decreases ws.len(),
{
    if ws.len() == 0 {
        m
    } else {
        state::answered(
            refused_all(m, ws.drop_last(), status),
            ws.last().conn,
            ws.last().async_id,
            status,
            BodyModel::Error,
            None,
        )
    }
}

/// The state after the waiting reads of pipes that are meant were ended with a status.
pub open spec fn pipe_reads_ended(m: StateModel, sel: Selector, status: u32) -> StateModel {
    refused_all(
        StateModel { pipe_reads: waiting::left(m.pipe_reads, sel), ..m },
        waiting::taken(m.pipe_reads, sel),
        status,
    )
}

/// Whether one of some waiting requests has an asynchronous id.
pub open spec fn has_request<M>(ws: Seq<WaitingModel<M>>, conn: u64, async_id: u64) -> bool {
    waiting::taken(ws, Selector::Id { conn, async_id }).len() > 0
}

/// The state after backend watches were ended.
pub open spec fn watch_ended(m: StateModel, conn: u64, async_id: u64, watched: bool) -> StateModel {
    if watched {
        state::acted(m, ActionModel::EndWatch { conn, async_id })
    } else {
        m
    }
}

/// The state after a watch, a read of a pipe or a lock request that waits was dropped
/// without an answer.
pub open spec fn discarded(m: StateModel, conn: u64, async_id: u64) -> StateModel {
    let sel = Selector::Id { conn, async_id };
    if has_request(m.change_notifies, conn, async_id) {
        let w = waiting::taken(m.change_notifies, sel)[0];
        watch_ended(
            state::slot_released(
                StateModel { change_notifies: waiting::left(m.change_notifies, sel), ..m },
                conn,
            ),
            conn,
            async_id,
            w.detail.watched,
        )
    } else if has_request(m.pipe_reads, conn, async_id) {
        state::slot_released(
            StateModel { pipe_reads: waiting::left(m.pipe_reads, sel), ..m },
            conn,
        )
    } else if has_request(m.byte_range_lock_waits, conn, async_id) {
        state::slot_released(
            StateModel {
                byte_range_lock_waits: waiting::left(m.byte_range_lock_waits, sel),
                ..m
            },
            conn,
        )
    } else {
        m
    }
}

proof fn lemma_none_taken<M>(ws: Seq<WaitingModel<M>>, sel: Selector)
    requires
        waiting::taken(ws, sel).len() == 0,
    ensures
        waiting::left(ws, sel) == ws,
{
    let flags = waiting::selection(ws, sel);
    assert forall|i: int| 0 <= i < ws.len() implies !#[trigger] flags[i] by {
        if flags[i] {
            waiting::flagged_contains(ws, flags, ws[i]);
            assert(waiting::flagged(ws, flags).contains(ws[i]));
        }
    }
    waiting::unflagged_none(ws, flags);
}

impl ServerState {
    /// Answers waiting requests with an error.
    pub fn refuse_all<T: View>(&mut self, ws: &Vec<Waiting<T>>, status: u32) -> (r: usize)
        ensures
            final(self)@ == refused_all(old(self)@, waiting::models(ws@), status),
            r == completions::alive_count(old(self)@, waiting::models(ws@)),
    {
        let ghost all = waiting::models(ws@);
        let mut sent: usize = 0;
        let mut i: usize = 0;
        assert(all.take(0) =~= Seq::empty());
        while i < ws.len()
            invariant
                i <= ws@.len(),
                sent <= i,
                all == waiting::models(ws@),
                sent == completions::alive_count(old(self)@, all.take(i as int)),
                completions::same_alive(old(self)@, self@),
                self@ == refused_all(old(self)@, all.take(i as int), status),
            decreases ws@.len() - i,
        {
            let w: &Waiting<T> = &ws[i];
            proof {
                assert(all.take(i + 1).drop_last() =~= all.take(i as int));
                assert(all.take(i + 1).last() == w@);
                completions::release_keeps_connections(self@, w.conn);
            }
            let ghost before = self@;
            if self.answer(w.conn, w.async_id, status, ResponseBody::Error, None) {
                sent += 1;
            }
            assert(self@.connections == state::released(before.connections, w.conn));
            i += 1;
        }
        assert(all.take(i as int) =~= all);
        sent
    }

    /// Counts waiting requests no longer.
    pub fn release_all<T: View>(&mut self, ws: &Vec<Waiting<T>>)
        ensures
            final(self)@ == completions::slots_released(old(self)@, waiting::models(ws@)),
    {
        let ghost all = waiting::models(ws@);
        let mut i: usize = 0;
        assert(all.take(0) =~= Seq::empty());
        while i < ws.len()
            invariant
                i <= ws@.len(),
                all == waiting::models(ws@),
                self@ == completions::slots_released(old(self)@, all.take(i as int)),
            decreases ws@.len() - i,
        {
            proof {
                assert(all.take(i + 1).drop_last() =~= all.take(i as int));
                assert(all.take(i + 1).last() == ws@[i as int]@);
            }
            self.release_pending_async_slot(ws[i].conn);
            i += 1;
        }
        assert(all.take(i as int) =~= all);
    }

    /// Keeps a read of a pipe that waits for data.
    pub fn register_pipe_read(&mut self, w: Waiting<PipeReadWait>)
        ensures
            final(self)@ == (StateModel {
                pipe_reads: waiting::left(
                    old(self)@.pipe_reads,
                    Selector::Id { conn: w.conn, async_id: w.async_id },
                ).push(w@),
                ..old(self)@
            }),
    {
        put_waiting(&mut self.pipe_reads, w);
    }

    fn end_pipe_reads(&mut self, sel: Selector, status: u32) -> (r: usize)
        ensures
            final(self)@ == pipe_reads_ended(old(self)@, sel, status),
            r == completions::alive_count(old(self)@, waiting::taken(old(self)@.pipe_reads, sel)),
    {
        let ws: Vec<Waiting<PipeReadWait>> = take_selected(&mut self.pipe_reads, sel);
        proof {
            completions::alive_count_same(old(self)@, self@, waiting::models(ws@));
        }
        self.refuse_all(&ws, status)
    }

    /// Cancels one of the waiting reads of pipes.
    pub fn cancel_pipe_read(
        &mut self,
        conn: u64,
        async_id: u64,
        session_id: u64,
        status: u32,
    ) -> (r: bool)
        ensures
            ({
                let sel = Selector::Request { conn, async_id, session_id };
                final(self)@ == pipe_reads_ended(old(self)@, sel, status) && r
                    == (completions::alive_count(
                    old(self)@,
                    waiting::taken(old(self)@.pipe_reads, sel),
                ) != 0)
            }),
    {
        self.end_pipe_reads(Selector::Request { conn, async_id, session_id }, status) != 0
    }

    /// Ends the waiting reads of pipes of a session.
    pub fn cleanup_pipe_reads_for_session(
        &mut self,
        conn: u64,
        session_id: u64,
        status: u32,
    ) -> (r: usize)
        ensures
            ({
                let sel = Selector::Session { conn, session_id };
                final(self)@ == pipe_reads_ended(old(self)@, sel, status) && r
                    == completions::alive_count(
                    old(self)@,
                    waiting::taken(old(self)@.pipe_reads, sel),
                )
            }),
    {
        self.end_pipe_reads(Selector::Session { conn, session_id }, status)
    }

    /// Ends the waiting reads of pipes of a tree connect.
    pub fn cleanup_pipe_reads_for_tree(
        &mut self,
        conn: u64,
        session_id: u64,
        tree_id: u32,
        status: u32,
    ) -> (r: usize)
        ensures
            ({
                let sel = Selector::Tree { conn, session_id, tree_id };
                final(self)@ == pipe_reads_ended(old(self)@, sel, status) && r
                    == completions::alive_count(
                    old(self)@,
                    waiting::taken(old(self)@.pipe_reads, sel),
                )
            }),
    {
        self.end_pipe_reads(Selector::Tree { conn, session_id, tree_id }, status)
    }

    /// Ends the waiting reads of pipes on a file.
    pub fn cleanup_pipe_reads_for_file(
        &mut self,
        conn: u64,
        file_id: FileId,
        status: u32,
    ) -> (r: usize)
        ensures
            ({
                let sel = Selector::File { conn, file_id };
                final(self)@ == pipe_reads_ended(old(self)@, sel, status) && r
                    == completions::alive_count(
                    old(self)@,
                    waiting::taken(old(self)@.pipe_reads, sel),
                )
            }),
    {
        self.end_pipe_reads(Selector::File { conn, file_id }, status)
    }

    /// Drops a watch, a read of a pipe or a lock request that waits, without an answer.
    pub fn discard_pending_async(&mut self, conn: u64, async_id: u64) -> (r: bool)
        ensures
            r == (has_request(old(self)@.change_notifies, conn, async_id) || has_request(
                old(self)@.pipe_reads,
                conn,
                async_id,
            ) || has_request(old(self)@.byte_range_lock_waits, conn, async_id)),
            final(self)@ == discarded(old(self)@, conn, async_id),
    {
        let sel = Selector::Id { conn, async_id };
        let notifies = take_selected(&mut self.change_notifies, sel);
        if notifies.len() > 0 {
            assert(waiting::models(notifies@)[0] == notifies@[0]@);
            self.release_pending_async_slot(conn);
            if notifies[0].detail.watched {
                self.act(Action::EndWatch { conn, async_id });
            }
            return true;
        }
        proof {
            lemma_none_taken(old(self)@.change_notifies, sel);
        }
        let reads = take_selected(&mut self.pipe_reads, sel);
        if reads.len() > 0 {
            self.release_pending_async_slot(conn);
            return true;
        }
        proof {
            lemma_none_taken(old(self)@.pipe_reads, sel);
        }
        let waits = take_selected(&mut self.byte_range_lock_waits, sel);
        if waits.len() > 0 {
            self.release_pending_async_slot(conn);
            return true;
        }
        proof {
            lemma_none_taken(old(self)@.byte_range_lock_waits, sel);
        }
        false
    }
}

} // verus!
