//! Watches on directories: who hears of a change, and when.

use crate::ntstatus::{STATUS_NOTIFY_ENUM_DIR, STATUS_SUCCESS};
use crate::path;
use crate::path::{path_is_descendant, PathModel, SmbPath};
use crate::proto::messages::FileId;
use crate::server::completions;
use crate::server::events;
use crate::server::events::encode_change_notify_response_body;
use crate::server::lists;
use crate::server::pending;
use crate::server::state;
use crate::server::state::{ServerState, StateModel};
use crate::server::types::{
    Action, ActionModel, BodyModel, NotifyWait, NotifyWaitModel, OpenModel, OpenRecordModel,
    ResponseBody, WatchState,
};
use crate::server::waiting;
use crate::server::waiting::{
    put_waiting, take_selected, take_waiting_flagged, Selector, Waiting, WaitingModel,
};
use crate::text;
use crate::text::lower_string;
use vstd::prelude::*;

verus! {

// ---------------------------------------------------------------------------
// Answers to watches
// ---------------------------------------------------------------------------

/// The state after a watch was answered: its backend watch ends, and the answer goes to
/// the connection, where it is still there.
pub open spec fn watch_done(
    m: StateModel,
    w: WaitingModel<NotifyWaitModel>,
    status: u32,
    output: Seq<u8>,
) -> StateModel {
    let ended = pending::watch_ended(
        state::slot_released(m, w.conn),
        w.conn,
        w.async_id,
        w.detail.watched,
    );
    if state::conn_alive(m.connections, w.conn) {
        state::acted(
            ended,
            ActionModel::Respond {
                conn: w.conn,
                async_id: w.async_id,
                status,
                body: BodyModel::Data(events::notify_body(output)),
                compound: None,
            },
        )
    } else {
        ended
    }
}

/// The state after watches were answered with a status.
pub open spec fn watches_done(
    m: StateModel,
    ws: Seq<WaitingModel<NotifyWaitModel>>,
    status: u32,
) -> StateModel
    decreases ws.len(),
{
    if ws.len() == 0 {
        m
    } else {
        watch_done(watches_done(m, ws.drop_last(), status), ws.last(), status, Seq::empty())
    }
}

/// The state after the watches that are meant were ended with a status.
pub open spec fn watches_ended(m: StateModel, sel: Selector, status: u32) -> StateModel {
    watches_done(
        StateModel { change_notifies: waiting::left(m.change_notifies, sel), ..m },
        waiting::taken(m.change_notifies, sel),
        status,
    )
}

/// Whether changes fit the buffer of a watch.
pub open spec fn fits(w: NotifyWaitModel, output: Seq<u8>) -> bool {
    !w.notify_force_enum_dir && w.output_buffer_length > 0 && output.len()
        <= w.output_buffer_length
}

/// An open that reports no more changes one by one; the next watch is told so where the
/// first one could not be told the changes.
pub open spec fn overrun(r: OpenRecordModel, w: NotifyWaitModel) -> OpenRecordModel {
    if r.key == w.open {
        OpenRecordModel {
            open: OpenModel {
                watch: WatchState {
                    buffer_suppressed: true,
                    enum_dir: r.open.watch.enum_dir || (w.notify_first
                        && !w.notify_force_enum_dir),
                    ..r.open.watch
                },
                ..r.open
            },
            ..r
        }
    } else {
        r
    }
}

/// The state after a watch was told changes, or that the directory is to be listed anew
/// where they do not fit its buffer.
pub open spec fn watch_told(
    m: StateModel,
    w: WaitingModel<NotifyWaitModel>,
    output: Seq<u8>,
) -> StateModel {
    if fits(w.detail, output) {
        watch_done(m, w, STATUS_SUCCESS, output)
    } else {
        watch_done(
            StateModel {
                opens: m.opens.map_values(|r: OpenRecordModel| overrun(r, w.detail)),
                ..m
            },
            w,
            STATUS_NOTIFY_ENUM_DIR,
            Seq::empty(),
        )
    }
}

/// Which watches are on a path or below it.
pub open spec fn watches_below(
    ws: Seq<WaitingModel<NotifyWaitModel>>,
    share: Seq<char>,
    path: PathModel,
) -> Seq<bool> {
    ws.map_values(
        |w: WaitingModel<NotifyWaitModel>|
            w.detail.share == text::lowered(share) && (w.detail.path == path || path::is_below(
                w.detail.path,
                path,
            )),
    )
}

/// The state after the watches on a deleted path and below it were ended with a status.
pub open spec fn deleted_watches_ended(
    m: StateModel,
    share: Seq<char>,
    path: PathModel,
    status: u32,
) -> StateModel {
    let flags = watches_below(m.change_notifies, share, path);
    watches_done(
        StateModel { change_notifies: waiting::unflagged(m.change_notifies, flags), ..m },
        waiting::flagged(m.change_notifies, flags),
        status,
    )
}

/// Whether a watch is a request with a message id.
pub open spec fn message_is(conn: u64, message_id: u64, session_id: u64) -> spec_fn(
    WaitingModel<NotifyWaitModel>,
) -> bool {
    |w: WaitingModel<NotifyWaitModel>|
        w.conn == conn && w.request.session_id == session_id && w.request.message_id == message_id
}

/// A watch as it is kept: its share is known in lower case, and no change was heard of yet.
pub open spec fn kept_watch(w: WaitingModel<NotifyWaitModel>) -> WaitingModel<NotifyWaitModel> {
    WaitingModel {
        detail: NotifyWaitModel {
            share: text::lowered(w.detail.share),
            events: Seq::empty(),
            scheduled: false,
            ..w.detail
        },
        ..w
    }
}

impl ServerState {
    /// Keeps a watch that waits for changes. It starts with no events, and nothing is
    /// scheduled for it.
    pub fn register_change_notify(&mut self, w: Waiting<NotifyWait>)
        ensures
            final(self)@ == (StateModel {
                change_notifies: waiting::left(
                    old(self)@.change_notifies,
                    Selector::Id { conn: w.conn, async_id: w.async_id },
                ).push(kept_watch(w@)),
                ..old(self)@
            }),
    {
        let mut kept: Waiting<NotifyWait> = w;
        let share: String = lower_string(kept.detail.share.as_str());
        kept.detail.share = share;
        kept.detail.events = Vec::new();
        kept.detail.scheduled = false;
        assert(kept@.detail.events =~= Seq::empty());
        assert(kept@ == kept_watch(w@));
        put_waiting(&mut self.change_notifies, kept);
    }

    /// Answers a watch.
    pub fn complete_change_notify_response(
        &mut self,
        w: &Waiting<NotifyWait>,
        status: u32,
        output: &Vec<u8>,
    ) -> (sent: bool)
        ensures
            sent == state::conn_alive(old(self)@.connections, w.conn),
            final(self)@ == watch_done(old(self)@, w@, status, output@),
    {
        let alive: bool = self.find_conn(w.conn).is_some();
        self.release_pending_async_slot(w.conn);
        if w.detail.watched {
            self.act(Action::EndWatch { conn: w.conn, async_id: w.async_id });
        }
        if alive {
            let body: Vec<u8> = encode_change_notify_response_body(output.as_slice());
            self.act(
                Action::Respond {
                    conn: w.conn,
                    async_id: w.async_id,
                    status,
                    body: ResponseBody::Data(body),
                    compound: None,
                },
            );
        }
        alive
    }

    fn complete_change_notifies(&mut self, ws: &Vec<Waiting<NotifyWait>>, status: u32) -> (r: usize)
        ensures
            final(self)@ == watches_done(old(self)@, waiting::models(ws@), status),
            r == completions::alive_count(old(self)@, waiting::models(ws@)),
    {
        let ghost all = waiting::models(ws@);
        let none: Vec<u8> = Vec::new();
        let mut sent: usize = 0;
        let mut i: usize = 0;
        assert(none@ =~= Seq::empty());
        assert(all.take(0) =~= Seq::empty());
        while i < ws.len()
            invariant
                i <= ws@.len(),
                sent <= i,
                none@ == Seq::<u8>::empty(),
                all == waiting::models(ws@),
                sent == completions::alive_count(old(self)@, all.take(i as int)),
                completions::same_alive(old(self)@, self@),
                self@ == watches_done(old(self)@, all.take(i as int), status),
            decreases ws@.len() - i,
        {
            proof {
                assert(all.take(i + 1).drop_last() =~= all.take(i as int));
                assert(all.take(i + 1).last() == ws@[i as int]@);
                completions::release_keeps_connections(self@, ws@[i as int].conn);
            }
            let ghost before = self@;
            if self.complete_change_notify_response(&ws[i], status, &none) {
                sent += 1;
            }
            assert(self@.connections == state::released(
                before.connections,
                ws@[i as int].conn,
            ));
            i += 1;
        }
        assert(all.take(i as int) =~= all);
        sent
    }

    fn mark_overrun(&mut self, w: &NotifyWait)
        ensures
            final(self)@ == (StateModel {
                opens: old(self)@.opens.map_values(|r: OpenRecordModel| overrun(r, w@)),
                ..old(self)@
            }),
    {
        let ghost m = self@;
        let mut i: usize = 0;
        while i < self.opens.len()
            invariant
                i <= self.opens@.len(),
                self@.opens.len() == m.opens.len(),
                self@ == (StateModel { opens: self@.opens, ..m }),
                forall|j: int|
                    0 <= j < i ==> (#[trigger] self@.opens[j]) == overrun(m.opens[j], w@),
                forall|j: int|
                    i <= j < self@.opens.len() ==> (#[trigger] self@.opens[j]) == m.opens[j],
            decreases self.opens@.len() - i,
        {
            assert(self@.opens[i as int] == self.opens@[i as int]@);
            if self.opens[i].key == w.open {
                let watch: WatchState = self.opens[i].open.watch;
                let ghost before = self@.opens;
                self.opens[i].open.watch = WatchState {
                    buffer_suppressed: true,
                    enum_dir: watch.enum_dir || (w.notify_first && !w.notify_force_enum_dir),
                    ..watch
                };
                assert(self@.opens =~= before.update(i as int, overrun(m.opens[i as int], w@)));
            }
            i += 1;
        }
        assert(self@.opens =~= m.opens.map_values(|r: OpenRecordModel| overrun(r, w@)));
    }

    /// Tells a watch changes, or that the directory is to be listed anew.
    pub fn complete_file_notify_output(&mut self, w: &Waiting<NotifyWait>, output: &Vec<u8>)
        ensures
            final(self)@ == watch_told(old(self)@, w@, output@),
    {
        if !w.detail.notify_force_enum_dir && w.detail.output_buffer_length > 0
            && output.len() as u64 <= w.detail.output_buffer_length as u64 {
            let _ = self.complete_change_notify_response(w, STATUS_SUCCESS, output);
        } else {
            self.mark_overrun(&w.detail);
            let none: Vec<u8> = Vec::new();
            assert(none@ =~= Seq::empty());
            let _ = self.complete_change_notify_response(w, STATUS_NOTIFY_ENUM_DIR, &none);
        }
    }

    fn end_change_notifies(&mut self, sel: Selector, status: u32) -> (r: usize)
        ensures
            final(self)@ == watches_ended(old(self)@, sel, status),
            r == completions::alive_count(
                old(self)@,
                waiting::taken(old(self)@.change_notifies, sel),
            ),
    {
        let ws: Vec<Waiting<NotifyWait>> = take_selected(&mut self.change_notifies, sel);
        proof {
            completions::alive_count_same(old(self)@, self@, waiting::models(ws@));
        }
        self.complete_change_notifies(&ws, status)
    }

    /// Cancels a watch.
    pub fn cancel_change_notify(
        &mut self,
        conn: u64,
        async_id: u64,
        session_id: u64,
        status: u32,
    ) -> (r: bool)
        ensures
            ({
                let sel = Selector::Request { conn, async_id, session_id };
                final(self)@ == watches_ended(old(self)@, sel, status)
                    && r == (completions::alive_count(
                    old(self)@,
                    waiting::taken(old(self)@.change_notifies, sel),
                ) != 0)
            }),
    {
        self.end_change_notifies(Selector::Request { conn, async_id, session_id }, status) != 0
    }

    /// Ends the watches of a session.
    pub fn cleanup_change_notifies_for_session(
        &mut self,
        conn: u64,
        session_id: u64,
        status: u32,
    ) -> (r: usize)
        ensures
            ({
                let sel = Selector::Session { conn, session_id };
                final(self)@ == watches_ended(old(self)@, sel, status)
                    && r == completions::alive_count(
                    old(self)@,
                    waiting::taken(old(self)@.change_notifies, sel),
                )
            }),
    {
        self.end_change_notifies(Selector::Session { conn, session_id }, status)
    }

    /// Ends the watches of a session on any connection.
    pub fn cleanup_change_notifies_for_session_id(
        &mut self,
        session_id: u64,
        status: u32,
    ) -> (r: usize)
        ensures
            ({
                let sel = Selector::AnySession { session_id };
                final(self)@ == watches_ended(old(self)@, sel, status)
                    && r == completions::alive_count(
                    old(self)@,
                    waiting::taken(old(self)@.change_notifies, sel),
                )
            }),
    {
        self.end_change_notifies(Selector::AnySession { session_id }, status)
    }

    /// Ends the watches of a tree connect.
    pub fn cleanup_change_notifies_for_tree(
        &mut self,
        conn: u64,
        session_id: u64,
        tree_id: u32,
        status: u32,
    ) -> (r: usize)
        ensures
            ({
                let sel = Selector::Tree { conn, session_id, tree_id };
                final(self)@ == watches_ended(old(self)@, sel, status)
                    && r == completions::alive_count(
                    old(self)@,
                    waiting::taken(old(self)@.change_notifies, sel),
                )
            }),
    {
        self.end_change_notifies(Selector::Tree { conn, session_id, tree_id }, status)
    }

    /// Ends the watches on a file.
    pub fn cleanup_change_notifies_for_file(
        &mut self,
        conn: u64,
        file_id: FileId,
        status: u32,
    ) -> (r: usize)
        ensures
            ({
                let sel = Selector::File { conn, file_id };
                final(self)@ == watches_ended(old(self)@, sel, status)
                    && r == completions::alive_count(
                    old(self)@,
                    waiting::taken(old(self)@.change_notifies, sel),
                )
            }),
    {
        self.end_change_notifies(Selector::File { conn, file_id }, status)
    }

    /// Cancels a watch by the id of its message.
    pub fn cancel_change_notify_by_message_id(
        &mut self,
        conn: u64,
        message_id: u64,
        session_id: u64,
        status: u32,
    ) -> (r: bool)
        ensures
            ({
                let m = old(self)@;
                let at = lists::first(
                    m.change_notifies,
                    message_is(conn, message_id, session_id),
                );
                &&& r == (at < m.change_notifies.len() && state::conn_alive(m.connections, conn))
                &&& final(self)@ == if at < m.change_notifies.len() {
                    watch_done(
                        StateModel { change_notifies: m.change_notifies.remove(at), ..m },
                        m.change_notifies[at],
                        status,
                        Seq::empty(),
                    )
                } else {
                    m
                }
            }),
    {
        let ghost test = message_is(conn, message_id, session_id);
        let mut i: usize = 0;
        while i < self.change_notifies.len()
            invariant
                i <= self.change_notifies@.len(),
                *self == *old(self),
                test == message_is(conn, message_id, session_id),
                forall|j: int| 0 <= j < i ==> !test(#[trigger] self@.change_notifies[j]),
            decreases self.change_notifies@.len() - i,
        {
            assert(self@.change_notifies[i as int] == self.change_notifies@[i as int]@);
            let hit: bool = self.change_notifies[i].conn == conn
                && self.change_notifies[i].request.session_id == session_id
                && self.change_notifies[i].request.message_id == message_id;
            if hit {
                proof {
                    lists::first_at(self@.change_notifies, test, i as int);
                }
                let w: Waiting<NotifyWait> = self.change_notifies.remove(i);
                assert(self@.change_notifies =~= old(self)@.change_notifies.remove(i as int));
                let none: Vec<u8> = Vec::new();
                assert(none@ =~= Seq::empty());
                return self.complete_change_notify_response(&w, status, &none);
            }
            i += 1;
        }
        proof {
            lists::first_at(self@.change_notifies, test, i as int);
        }
        false
    }

    /// Ends the watches on a deleted path and below it.
    pub fn cleanup_change_notifies_for_deleted_path(
        &mut self,
        share: &str,
        path: &SmbPath,
        status: u32,
    ) -> (r: usize)
        ensures
            final(self)@ == deleted_watches_ended(old(self)@, share@, path@, status),
            r == completions::alive_count(
                old(self)@,
                waiting::flagged(
                    old(self)@.change_notifies,
                    watches_below(old(self)@.change_notifies, share@, path@),
                ),
            ),
    {
        let share_key: String = lower_string(share);
        let mut flags: Vec<bool> = Vec::new();
        let mut i: usize = 0;
        while i < self.change_notifies.len()
            invariant
                i <= self.change_notifies@.len(),
                share_key@ == text::lowered(share@),
                flags@.len() == i,
                forall|j: int|
                    0 <= j < i ==> flags@[j] == watches_below(
                        self@.change_notifies,
                        share@,
                        path@,
                    )[j],
            decreases self.change_notifies@.len() - i,
        {
            let w: &NotifyWait = &self.change_notifies[i].detail;
            assert(self@.change_notifies[i as int].detail == w@);
            flags.push(
                w.share == share_key && (w.path.same(path) || path_is_descendant(&w.path, path)),
            );
            i += 1;
        }
        assert(flags@ =~= watches_below(self@.change_notifies, share@, path@));
        let ws: Vec<Waiting<NotifyWait>> = take_waiting_flagged(&mut self.change_notifies, &flags);
        proof {
            completions::alive_count_same(old(self)@, self@, waiting::models(ws@));
        }
        self.complete_change_notifies(&ws, status)
    }
}

} // verus!
