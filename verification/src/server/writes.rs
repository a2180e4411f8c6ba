//! Writes that wait for breaks of leases.

use crate::ntstatus::{STATUS_FILE_CLOSED, STATUS_SUCCESS};
use crate::proto::messages::{FileId, WriteResponse};
use crate::server::changes;
use crate::server::completions;
use crate::server::completions::Ended;
use crate::server::events::{FILE_NOTIFY_CHANGE_LAST_WRITE, FILE_NOTIFY_CHANGE_SIZE};
use crate::server::files;
use crate::server::lists::copy_keys;
use crate::server::locks;
use crate::server::pending;
use crate::server::state;
use crate::server::state::{ServerState, StateModel};
use crate::server::table::key_of;
use crate::server::types;
use crate::server::types::{
    Action, ActionModel, BodyModel, BreakWaitModel, OpenModel, OpenRecordModel, ResponseBody,
        WriteWait,
    WriteWaitModel,
};
use crate::server::waiting;
use crate::server::waiting::{
    put_waiting, take_selected, take_waiting_flagged, Selector, Waiting, WaitingModel,
};
use crate::text;
use crate::text::lower_string;
use vstd::prelude::*;

verus! {

/// The status with which a write fails before anything is written; success where it may
/// be tried.
pub open spec fn write_refusal(m: StateModel, w: WaitingModel<WriteWaitModel>) -> u32 {
    let i = state::open_index(m.opens, w.detail.open);
    let status = locks::write_status(
        m.byte_range_locks,
        locks::lock_key(w.detail.share, w.detail.path, w.detail.stream_name),
        w.file_id,
        w.detail.offset,
        w.detail.data.len() as u64,
    );
    if i >= m.opens.len() {
        STATUS_FILE_CLOSED
    } else if status != STATUS_SUCCESS {
        status
    } else if !m.opens[i].open.has_handle {
        STATUS_FILE_CLOSED
    } else {
        STATUS_SUCCESS
    }
}

/// The state after a write went on: it is handed out, or refused.
pub open spec fn write_done(m: StateModel, w: WaitingModel<WriteWaitModel>) -> StateModel {
    let status = write_refusal(m, w);
    let released = state::slot_released(m, w.conn);
    if !state::conn_alive(m.connections, w.conn) {
        released
    } else if status != STATUS_SUCCESS {
        state::acted(
            released,
            ActionModel::Respond {
                conn: w.conn,
                async_id: w.async_id,
                status,
                body: BodyModel::Error,
                compound: w.detail.compound,
            },
        )
    } else {
        state::acted(
            released,
            ActionModel::Write {
                conn: w.conn,
                async_id: w.async_id,
                file_id: w.file_id,
                write: w.detail,
            },
        )
    }
}

/// The state after writes went on.
pub open spec fn writes_done(m: StateModel, ws: Seq<WaitingModel<WriteWaitModel>>) -> StateModel
    decreases ws.len(),
{
    if ws.len() == 0 {
        m
    } else {
        write_done(writes_done(m, ws.drop_last()), ws.last())
    }
}

/// Which writes go on now that a break ended.
pub open spec fn ready_writes(m: StateModel, ended: Ended) -> Seq<bool> {
    m.cache_break_writes.map_values(
        |w: WaitingModel<WriteWaitModel>|
            completions::goes_on(m.opens, w.detail.wait, ended),
    )
}

/// The state after the writes that waited for a break went on.
pub open spec fn writes_resumed(m: StateModel, ended: Ended) -> StateModel {
    let flags = ready_writes(m, ended);
    writes_done(
        StateModel {
            cache_break_writes: waiting::unflagged(m.cache_break_writes, flags),
            ..m
        },
        waiting::flagged(m.cache_break_writes, flags),
    )
}

/// The state after the writes that wait for breaks that are meant were ended with a status.
pub open spec fn writes_ended(m: StateModel, sel: Selector, status: u32) -> StateModel {
    pending::refused_all(
        StateModel { cache_break_writes: waiting::left(m.cache_break_writes, sel), ..m },
        waiting::taken(m.cache_break_writes, sel),
        status,
    )
}

/// A write as it is kept: its share is known in lower case, it waits for leases alone, and
/// no rest of a compound request waits behind it yet.
pub open spec fn kept_write(w: WaitingModel<WriteWaitModel>) -> WaitingModel<WriteWaitModel> {
    WaitingModel {
        detail: WriteWaitModel {
            wait: BreakWaitModel { oplock_file_ids: Seq::empty(), ..w.detail.wait },
            share: text::lowered(w.detail.share),
            compound: None,
            ..w.detail
        },
        ..w
    }
}

impl ServerState {
    /// Keeps a write that waits for breaks of leases.
    pub fn register_cache_break_write(&mut self, w: Waiting<WriteWait>)
        ensures
            final(self)@ == completions::timer_started(
                (StateModel {
                    cache_break_writes: waiting::left(
                        old(self)@.cache_break_writes,
                        Selector::Id { conn: w.conn, async_id: w.async_id },
                    ).push(kept_write(w@)),
                    ..old(self)@
                }),
                kept_write(w@).detail.wait,
            ),
    {
        let mut kept: Waiting<WriteWait> = w;
        let share: String = lower_string(kept.detail.share.as_str());
        kept.detail.share = share;
        kept.detail.wait.oplock_file_ids = Vec::new();
        kept.detail.compound = None;
        let keys: Vec<[u8; 16]> = copy_keys(&kept.detail.wait.lease_keys);
        let ids: Vec<FileId> = Vec::new();
        assert(ids@ =~= Seq::empty());
        assert(kept@ == kept_write(w@));
        put_waiting(&mut self.cache_break_writes, kept);
        self.start_break_timer(keys, ids);
    }

    fn write_refused(&self, w: &Waiting<WriteWait>) -> (r: u32)
        ensures
            r == write_refusal(self@, w@),
    {
        match self.find_open(w.detail.open) {
            None => STATUS_FILE_CLOSED,
            Some(i) => {
                assert(self@.opens[i as int] == self.opens@[i as int]@);
                let status: u32 = self.check_write_lock(
                    w.detail.share.as_str(),
                    &w.detail.path,
                    types::as_opt_str(&w.detail.stream_name),
                    w.file_id,
                    w.detail.offset,
                    w.detail.data.len() as u64,
                );
                if status != STATUS_SUCCESS {
                    status
                } else if !self.opens[i].open.has_handle {
                    STATUS_FILE_CLOSED
                } else {
                    STATUS_SUCCESS
                }
            },
        }
    }

    fn complete_cache_break_write(&mut self, w: Waiting<WriteWait>)
        ensures
            final(self)@ == write_done(old(self)@, w@),
    {
        let alive: bool = self.find_conn(w.conn).is_some();
        let status: u32 = self.write_refused(&w);
        self.release_pending_async_slot(w.conn);
        if alive {
            if status != STATUS_SUCCESS {
                self.act(
                    Action::Respond {
                        conn: w.conn,
                        async_id: w.async_id,
                        status,
                        body: ResponseBody::Error,
                        compound: w.detail.compound,
                    },
                );
            } else {
                self.act(
                    Action::Write {
                        conn: w.conn,
                        async_id: w.async_id,
                        file_id: w.file_id,
                        write: w.detail,
                    },
                );
            }
        }
    }

    /// Lets the writes go on that waited for a break.
    pub fn resume_cache_break_writes(&mut self, ended: Ended)
        ensures
            final(self)@ == writes_resumed(old(self)@, ended),
    {
        let mut flags: Vec<bool> = Vec::new();
        let mut i: usize = 0;
        while i < self.cache_break_writes.len()
            invariant
                i <= self.cache_break_writes@.len(),
                flags@.len() == i,
                forall|j: int|
                    0 <= j < i ==> flags@[j] == completions::goes_on(
                        self@.opens,
                        (#[trigger] self.cache_break_writes@[j])@.detail.wait,
                        ended,
                    ),
            decreases self.cache_break_writes@.len() - i,
        {
            flags.push(self.can_go_on(&self.cache_break_writes[i].detail.wait, ended));
            i += 1;
        }
        assert(flags@ =~= ready_writes(self@, ended));
        let mut ready: Vec<Waiting<WriteWait>> = take_waiting_flagged(
            &mut self.cache_break_writes,
            &flags,
        );
        let ghost all = waiting::models(ready@);
        let ghost m = self@;
        let ghost mut n: int = 0;
        assert(all.skip(0) =~= all);
        assert(all.take(0) =~= Seq::empty());
        while ready.len() > 0
            invariant
                0 <= n,
                n + ready@.len() == all.len(),
                waiting::models(ready@) == all.skip(n),
                self@ == writes_done(m, all.take(n)),
            decreases ready@.len(),
        {
            let ghost before = ready@;
            let w: Waiting<WriteWait> = ready.remove(0);
            proof {
                assert(waiting::models(before)[0] == all[n]);
                assert(waiting::models(ready@) =~= waiting::models(before).skip(1));
                assert(all.skip(n).skip(1) =~= all.skip(n + 1));
                assert(all.take(n + 1).drop_last() =~= all.take(n));
                assert(all.take(n + 1).last() == all[n]);
                n = n + 1;
            }
            self.complete_cache_break_write(w);
        }
        assert(all.take(n) =~= all);
    }

    fn end_cache_break_writes(&mut self, sel: Selector, status: u32) -> (r: usize)
        ensures
            final(self)@ == writes_ended(old(self)@, sel, status),
            r == completions::alive_count(old(self)@,
                waiting::taken(old(self)@.cache_break_writes, sel)),
    {
        let ws: Vec<Waiting<WriteWait>> = take_selected(&mut self.cache_break_writes, sel);
        proof {
            completions::alive_count_same(old(self)@, self@, waiting::models(ws@));
        }
        self.refuse_all(&ws, status)
    }

    /// Cancels one of the writes that wait for breaks.
    pub fn cancel_cache_break_write(
        &mut self,
        conn: u64,
        async_id: u64,
        session_id: u64,
        status: u32,
    ) -> (r: bool)
        ensures
            ({
                let sel = Selector::Request { conn, async_id, session_id };
                final(self)@ == writes_ended(old(self)@, sel, status) && r
                    == (completions::alive_count(
                    old(self)@,
                    waiting::taken(old(self)@.cache_break_writes, sel),
                ) != 0)
            }),
    {
        self.end_cache_break_writes(Selector::Request { conn, async_id, session_id }, status) != 0
    }

    /// Ends the writes that wait for breaks of a session.
    pub fn cleanup_cache_break_writes_for_session(
        &mut self,
        conn: u64,
        session_id: u64,
        status: u32,
    ) -> (r: usize)
        ensures
            ({
                let sel = Selector::Session { conn, session_id };
                final(self)@ == writes_ended(old(self)@, sel, status) && r
                    == completions::alive_count(
                    old(self)@,
                    waiting::taken(old(self)@.cache_break_writes, sel),
                )
            }),
    {
        self.end_cache_break_writes(Selector::Session { conn, session_id }, status)
    }

    /// Ends the writes that wait for breaks of a tree connect.
    pub fn cleanup_cache_break_writes_for_tree(
        &mut self,
        conn: u64,
        session_id: u64,
        tree_id: u32,
        status: u32,
    ) -> (r: usize)
        ensures
            ({
                let sel = Selector::Tree { conn, session_id, tree_id };
                final(self)@ == writes_ended(old(self)@, sel, status) && r
                    == completions::alive_count(
                    old(self)@,
                    waiting::taken(old(self)@.cache_break_writes, sel),
                )
            }),
    {
        self.end_cache_break_writes(Selector::Tree { conn, session_id, tree_id }, status)
    }

    /// Drops the writes that wait for breaks of a connection; none is answered.
    pub fn cleanup_cache_break_writes_for_connection(&mut self, conn: u64) -> (r: usize)
        ensures
            ({
                let sel = Selector::Connection { conn };
                let ws = waiting::taken(old(self)@.cache_break_writes, sel);
                r == ws.len() && final(self)@ == completions::slots_released(
                    StateModel {
                        cache_break_writes: waiting::left(old(self)@.cache_break_writes, sel),
                        ..old(self)@
                    },
                    ws,
                )
            }),
    {
        let ws: Vec<Waiting<WriteWait>> = take_selected(
            &mut self.cache_break_writes,
            Selector::Connection { conn },
        );
        self.release_all(&ws);
        ws.len()
    }
}

// ---------------------------------------------------------------------------
// Writes that were handed out
// ---------------------------------------------------------------------------

/// The state after an open was left at an offset.
pub open spec fn left_at(m: StateModel, open: u64, offset: u64) -> StateModel {
    let i = state::open_index(m.opens, open);
    if i < m.opens.len() {
        StateModel {
            opens: m.opens.update(
                i,
                OpenRecordModel {
                    open: OpenModel { current_offset: offset, ..m.opens[i].open },
                    ..m.opens[i]
                },
            ),
            ..m
        }
    } else {
        m
    }
}

/// The state after data of a file was written.
pub open spec fn data_written(
    m: StateModel,
    w: WriteWaitModel,
    file_id: FileId,
    count: u32,
    now: u64,
) -> StateModel {
    let left = left_at(m, w.open, (w.offset + count) as u64);
    if count == 0 {
        left
    } else {
        changes::modification_notified(
            if w.stream_name is None {
                files::times_after_write(left, key_of(w.share, w.path), file_id, now)
            } else {
                left
            },
            w.share,
            w.path,
            w.is_directory,
            FILE_NOTIFY_CHANGE_SIZE | FILE_NOTIFY_CHANGE_LAST_WRITE,
        )
    }
}

/// The body of the answer to a write of some bytes.
pub open spec fn write_body(count: u32) -> Seq<u8> {
    (WriteResponse {
        structure_size: 17,
        reserved: 0,
        count,
        remaining: 0,
        write_channel_info_offset: 0,
        write_channel_info_length: 0,
    }).encoding()
}

/// The state after it is known what came of a write: the number of bytes, or a status.
pub open spec fn write_finished(
    m: StateModel,
    conn: u64,
    async_id: u64,
    file_id: FileId,
    w: WriteWaitModel,
    outcome: Result<u32, u32>,
    now: u64,
) -> StateModel {
    let (after, status, body) = match outcome {
        Err(status) => (m, status, BodyModel::Error),
        Ok(count) => (
            data_written(m, w, file_id, count, now),
            STATUS_SUCCESS,
            BodyModel::Data(write_body(count)),
        ),
    };
    if state::conn_alive(m.connections, conn) {
        state::acted(
            after,
            ActionModel::Respond { conn, async_id, status, body, compound: w.compound },
        )
    } else {
        after
    }
}

impl ServerState {
    fn leave_at(&mut self, open: u64, offset: u64)
        ensures
            final(self)@ == left_at(old(self)@, open, offset),
    {
        match self.find_open(open) {
            None => {},
            Some(i) => {
                let ghost before = self@.opens;
                assert(before[i as int] == self.opens@[i as int]@);
                self.opens[i].open.current_offset = offset;
                assert(self@.opens =~= before.update(
                    i as int,
                    OpenRecordModel {
                        open: OpenModel { current_offset: offset, ..before[i as int].open },
                        ..before[i as int]
                    },
                ));
            },
        }
    }

    fn note_written_data(&mut self, w: &WriteWait, file_id: FileId, count: u32, now: u64)
        requires
            w.offset + count <= u64::MAX,
        ensures
            final(self)@ == data_written(old(self)@, w@, file_id, count, now),
    {
        self.leave_at(w.open, w.offset + count as u64);
        if count != 0 {
            if w.stream_name.is_none() {
                self.update_file_times_after_write(w.share.as_str(), &w.path, file_id, now);
            }
            self.notify_data_modified(w.share.as_str(), &w.path, w.is_directory);
        }
    }

    /// Takes note of what came of a write that was handed out, and answers it.
    pub fn finish_cache_break_write(
        &mut self,
        conn: u64,
        async_id: u64,
        file_id: FileId,
        w: &WriteWait,
        outcome: Result<u32, u32>,
        now: u64,
    )
        requires
            outcome matches Ok(count) ==> w.offset + count <= u64::MAX,
        ensures
            final(self)@ == write_finished(
                old(self)@,
                conn,
                async_id,
                file_id,
                w@,
                outcome,
                now,
            ),
    {
        let alive: bool = self.find_conn(conn).is_some();
        let (status, body) = match outcome {
            Err(status) => (status, ResponseBody::Error),
            Ok(count) => {
                self.note_written_data(w, file_id, count, now);
                let mut body: Vec<u8> = Vec::new();
                let _ = WriteResponse::new(count).write_to(&mut body);
                assert(body@ =~= write_body(count));
                (STATUS_SUCCESS, ResponseBody::Data(body))
            },
        };
        if alive {
            self.act(Action::Respond { conn, async_id, status, body, compound: w.compound });
        }
    }
}

} // verus!
