//! Every operation leaves a sound state sound.

use crate::backend::WatchEvent;
use crate::ntstatus::{STATUS_DELETE_PENDING, STATUS_NOTIFY_ENUM_DIR, STATUS_SUCCESS};
use crate::path;
use crate::path::PathModel;
use crate::proto::messages::FileId;
use crate::server::changes;
use crate::server::changes::ChangeModel;
use crate::server::completions;
use crate::server::completions::Ended;
use crate::server::compounds;
use crate::server::connections;
use crate::server::distinct;
use crate::server::durable;
use crate::server::events;
use crate::server::events::{
    FILE_ACTION_MODIFIED, FILE_ACTION_REMOVED, FILE_NOTIFY_CHANGE_LAST_WRITE,
    FILE_NOTIFY_CHANGE_SIZE,
};
use crate::server::files;
use crate::server::lists;
use crate::server::locks;
use crate::server::moves;
use crate::server::notify;
use crate::server::opens;
use crate::server::pending;
use crate::server::shares;
use crate::server::shares::{Access, ShareModel, ShareUserModel, UserModel};
use crate::server::soundness;
use crate::server::state;
use crate::server::state::{CompletedReplayModel, StateModel};
use crate::server::table;
use crate::server::tasks;
use crate::server::timeouts;
use crate::server::trees;
use crate::server::types::{
    ActionModel, BodyModel, ByteRangeLockRequest, CreateWaitModel, DurableModel, HeldLockModel,
    LockKeyModel, NotifyWaitModel, OpenModel, OpenRecordModel, RegistrationModel, ReplayKeyModel, TaskWaitModel,
    WriteWaitModel,
};
use crate::server::waiting;
use crate::server::waiting::{Selector, WaitingModel};
use crate::server::writes;
use crate::text;
use vstd::prelude::*;

verus! {

// ---------------------------------------------------------------------------
// Answers
// ---------------------------------------------------------------------------

/// A state stays sound when a waiting request is answered.
pub proof fn answers_keep_soundness(
    m: StateModel,
    conn: u64,
    async_id: u64,
    status: u32,
    body: BodyModel,
    compound: Option<u64>,
)
    requires
        soundness::sound(m),
    ensures
        soundness::sound(state::answered(m, conn, async_id, status, body, compound)),
{
    soundness::lemma_released(m.connections, conn);
}

proof fn lemma_refused_all<M>(m: StateModel, ws: Seq<WaitingModel<M>>, status: u32)
    requires
        soundness::sound(m),
    ensures
        soundness::sound(pending::refused_all(m, ws, status)),
    decreases ws.len(),
{
    if ws.len() > 0 {
        let before = pending::refused_all(m, ws.drop_last(), status);
        lemma_refused_all(m, ws.drop_last(), status);
        soundness::lemma_released(before.connections, ws.last().conn);
    }
}

pub(crate) proof fn lemma_left<M>(s: Seq<WaitingModel<M>>, sel: Selector)
    requires
        distinct::distinct(s, soundness::request_key()),
    ensures
        distinct::distinct(waiting::left(s, sel), soundness::request_key()),
{
    distinct::left_are_distinct(s, waiting::selection(s, sel), soundness::request_key());
}

/// A state stays sound when waiting reads of pipes, writes and tasks are ended.
pub proof fn ended_waits_keep_soundness(m: StateModel, sel: Selector, status: u32)
    requires
        soundness::sound(m),
    ensures
        soundness::sound(pending::pipe_reads_ended(m, sel, status)),
        soundness::sound(writes::writes_ended(m, sel, status)),
        soundness::sound(tasks::tasks_ended(m, sel, status)),
{
    lemma_left(m.pipe_reads, sel);
    lemma_left(m.cache_break_writes, sel);
    lemma_left(m.cache_break_tasks, sel);
    lemma_refused_all(
        StateModel { pipe_reads: waiting::left(m.pipe_reads, sel), ..m },
        waiting::taken(m.pipe_reads, sel),
        status,
    );
    lemma_refused_all(
        StateModel { cache_break_writes: waiting::left(m.cache_break_writes, sel), ..m },
        waiting::taken(m.cache_break_writes, sel),
        status,
    );
    lemma_refused_all(
        StateModel { cache_break_tasks: waiting::left(m.cache_break_tasks, sel), ..m },
        waiting::taken(m.cache_break_tasks, sel),
        status,
    );
}

/// A state stays sound when an answer to a create request is kept.
pub proof fn kept_answers_are_sound(
    m: StateModel,
    key: ReplayKeyModel,
    status: u32,
    body: BodyModel,
)
    requires
        soundness::sound(m),
    ensures
        soundness::sound(completions::replay_kept(m, key, status, body)),
{
    let s = m.completed_create_replays;
    distinct::put_are_distinct(
        s,
        s.map_values(|r: CompletedReplayModel| r.key == key),
        CompletedReplayModel { key, body },
        soundness::answer_key(),
    );
}

// ---------------------------------------------------------------------------
// Requests that go on
// ---------------------------------------------------------------------------

proof fn lemma_creates_done(m: StateModel, ws: Seq<WaitingModel<CreateWaitModel>>)
    requires
        soundness::sound(m),
    ensures
        soundness::sound(completions::creates_done(m, ws)),
    decreases ws.len(),
{
    if ws.len() > 0 {
        let before = completions::creates_done(m, ws.drop_last());
        let w = ws.last();
        lemma_creates_done(m, ws.drop_last());
        kept_answers_are_sound(before, w.detail.replay, w.detail.status, w.detail.body);
        let kept = if state::conn_alive(before.connections, w.conn) {
            completions::replay_kept(before, w.detail.replay, w.detail.status, w.detail.body)
        } else {
            before
        };
        soundness::lemma_released(kept.connections, w.conn);
    }
}

proof fn lemma_writes_done(m: StateModel, ws: Seq<WaitingModel<WriteWaitModel>>)
    requires
        soundness::sound(m),
    ensures
        soundness::sound(writes::writes_done(m, ws)),
    decreases ws.len(),
{
    if ws.len() > 0 {
        lemma_writes_done(m, ws.drop_last());
        soundness::lemma_released(
            writes::writes_done(m, ws.drop_last()).connections,
            ws.last().conn,
        );
    }
}

proof fn lemma_tasks_started(m: StateModel, ws: Seq<WaitingModel<TaskWaitModel>>)
    requires
        soundness::sound(m),
    ensures
        soundness::sound(tasks::tasks_started(m, ws)),
    decreases ws.len(),
{
    if ws.len() > 0 {
        lemma_tasks_started(m, ws.drop_last());
        soundness::lemma_released(
            tasks::tasks_started(m, ws.drop_last()).connections,
            ws.last().conn,
        );
    }
}

/// A state stays sound when the requests go on that waited for a break.
pub proof fn resuming_keeps_soundness(m: StateModel, ended: Ended)
    requires
        soundness::sound(m),
    ensures
        soundness::sound(completions::creates_resumed(m, ended)),
        soundness::sound(writes::writes_resumed(m, ended)),
        soundness::sound(tasks::tasks_resumed(m, ended)),
{
    let c = completions::ready_creates(m, ended);
    let w = writes::ready_writes(m, ended);
    let t = tasks::ready_tasks(m, ended);
    distinct::left_are_distinct(m.cache_break_creates, c, soundness::request_key());
    distinct::left_are_distinct(m.cache_break_writes, w, soundness::request_key());
    distinct::left_are_distinct(m.cache_break_tasks, t, soundness::request_key());
    lemma_creates_done(
        StateModel { cache_break_creates: waiting::unflagged(m.cache_break_creates, c), ..m },
        waiting::flagged(m.cache_break_creates, c),
    );
    lemma_writes_done(
        StateModel { cache_break_writes: waiting::unflagged(m.cache_break_writes, w), ..m },
        waiting::flagged(m.cache_break_writes, w),
    );
    lemma_tasks_started(
        StateModel { cache_break_tasks: waiting::unflagged(m.cache_break_tasks, t), ..m },
        tasks::in_order(waiting::flagged(m.cache_break_tasks, t)),
    );
}

pub(crate) proof fn lemma_lease_waits_resumed(m: StateModel, key: [u8; 16])
    requires
        soundness::sound(m),
    ensures
        soundness::sound(timeouts::lease_waits_resumed(m, key)),
{
    let ended = Ended::Lease { key };
    resuming_keeps_soundness(m, ended);
    let a = completions::creates_resumed(m, ended);
    resuming_keeps_soundness(a, ended);
    resuming_keeps_soundness(writes::writes_resumed(a, ended), ended);
}

pub(crate) proof fn lemma_oplock_waits_resumed(m: StateModel, file_id: FileId)
    requires
        soundness::sound(m),
    ensures
        soundness::sound(timeouts::oplock_waits_resumed(m, file_id)),
{
    let ended = Ended::Oplock { file_id };
    resuming_keeps_soundness(m, ended);
    resuming_keeps_soundness(completions::creates_resumed(m, ended), ended);
}

pub(crate) proof fn lemma_all_leases_resumed(m: StateModel, keys: Seq<[u8; 16]>)
    requires
        soundness::sound(m),
    ensures
        soundness::sound(timeouts::all_leases_resumed(m, keys)),
    decreases keys.len(),
{
    if keys.len() > 0 {
        lemma_all_leases_resumed(m, keys.drop_last());
        lemma_lease_waits_resumed(
            timeouts::all_leases_resumed(m, keys.drop_last()),
            keys.last(),
        );
    }
}

pub(crate) proof fn lemma_all_oplocks_resumed(m: StateModel, ids: Seq<FileId>)
    requires
        soundness::sound(m),
    ensures
        soundness::sound(timeouts::all_oplocks_resumed(m, ids)),
    decreases ids.len(),
{
    if ids.len() > 0 {
        lemma_all_oplocks_resumed(m, ids.drop_last());
        lemma_oplock_waits_resumed(
            timeouts::all_oplocks_resumed(m, ids.drop_last()),
            ids.last(),
        );
    }
}

// ---------------------------------------------------------------------------
// Opens
// ---------------------------------------------------------------------------

pub(crate) proof fn lemma_opens_mapped(s: Seq<OpenRecordModel>, t: Seq<OpenRecordModel>)
    requires
        distinct::distinct(s, soundness::open_key()),
        t.len() == s.len(),
        forall|i: int| 0 <= i < s.len() ==> (#[trigger] t[i]).key == s[i].key,
    ensures
        distinct::distinct(t, soundness::open_key()),
{
    distinct::same_keys_are_distinct(s, t, soundness::open_key());
}

pub(crate) proof fn lemma_open_discarded(m: StateModel, open: u64)
    requires
        soundness::sound(m),
    ensures
        soundness::sound(completions::open_discarded(m, open)),
{
    let i = state::open_index(m.opens, open);
    state::open_index_is_first(m.opens, open);
    if i < m.opens.len() {
        let closed = if m.opens[i].open.has_handle {
            state::acted(m, ActionModel::CloseHandle { open })
        } else {
            m
        };
        let empty = m.opens.update(i, completions::without_handle(m.opens[i]));
        lemma_opens_mapped(m.opens, empty);
        lemma_open_let_go(StateModel { opens: empty, ..closed }, open);
    }
}

pub(crate) proof fn lemma_durable_dropped(m: StateModel, file_id: FileId)
    requires
        soundness::sound(m),
    ensures
        soundness::sound(durable::durable_dropped(m, file_id)),
{
    distinct::left_are_distinct(
        m.durable_opens,
        durable::filed(m.durable_opens, file_id),
        soundness::durable_key(),
    );
}

pub(crate) proof fn lemma_open_let_go(m: StateModel, open: u64)
    requires
        soundness::sound(m),
    ensures
        soundness::sound(durable::open_let_go(m, open)),
{
    distinct::left_are_distinct(m.opens, opens::keyed(m.opens, open), soundness::open_key());
}

proof fn lemma_all_let_go(m: StateModel, list: Seq<u64>)
    requires
        soundness::sound(m),
    ensures
        soundness::sound(durable::all_let_go(m, list)),
    decreases list.len(),
{
    if list.len() > 0 {
        lemma_all_let_go(m, list.drop_last());
        lemma_open_let_go(durable::all_let_go(m, list.drop_last()), list.last());
    }
}

/// A state stays sound when a connection goes.
pub proof fn dropped_connections_leave_soundness(m: StateModel, key: u64)
    requires
        soundness::sound(m),
    ensures
        soundness::sound(connections::connection_dropped(m, key)),
{
    if state::conn_alive(m.connections, key) {
        let i = state::conn_index(m.connections, key);
        soundness::lemma_connection_removed(m, key);
        lemma_all_let_go(
            StateModel { connections: m.connections.remove(i), ..m },
            trees::opens_in_sessions(m.connections[i].sessions),
        );
    }
}

pub(crate) proof fn lemma_durable_released(m: StateModel, file_id: FileId)
    requires
        soundness::sound(m),
    ensures
        soundness::sound(durable::durable_released(m, file_id)),
{
    lemma_durable_dropped(m, file_id);
    match durable::durable_of(m.durable_opens, file_id) {
        None => {},
        Some(d) => {
            lemma_open_let_go(durable::durable_dropped(m, file_id), d.open);
        },
    }
}

pub(crate) proof fn lemma_with_durable(s: Seq<DurableModel>, d: DurableModel)
    requires
        distinct::distinct(s, soundness::durable_key()),
    ensures
        distinct::distinct(durable::with_durable(s, d), soundness::durable_key()),
{
    distinct::replaced_are_distinct(s, durable::durable_is(d.file_id), d, soundness::durable_key());
}

pub(crate) proof fn lemma_attached(
    m: StateModel,
    file_id: FileId,
    conn: u64,
    session_id: u64,
)
    requires
        soundness::sound(m),
    ensures
        soundness::sound(
            StateModel {
                durable_opens: durable::attached(m.durable_opens, file_id, conn, session_id),
                ..m
            },
        ),
{
    match durable::durable_of(m.durable_opens, file_id) {
        None => {},
        Some(d) => {
            lemma_with_durable(
                m.durable_opens,
                DurableModel {
                    attached_conn: Some(conn),
                    attached_session_id: Some(session_id),
                    expires_at: None,
                    ..d
                },
            );
        },
    }
}

pub(crate) proof fn lemma_detached_for_good(m: StateModel, file_id: FileId)
    requires
        soundness::sound(m),
    ensures
        soundness::sound(durable::detached_for_good(m, file_id)),
{
    match durable::durable_of(m.durable_opens, file_id) {
        None => {},
        Some(d) => {
            lemma_with_durable(
                m.durable_opens,
                DurableModel {
                    attached_conn: None,
                    attached_session_id: None,
                    expires_at: None,
                    ..d
                },
            );
        },
    }
}

/// A state stays sound when a durable open is kept, attached, detached for good and
/// dropped.
pub proof fn durable_opens_are_sound(
    m: StateModel,
    d: DurableModel,
    file_id: FileId,
    conn: u64,
    session_id: u64,
)
    requires
        soundness::sound(m),
    ensures
        soundness::sound(durable::durable_kept(m, d)),
        soundness::sound(
            StateModel {
                durable_opens: durable::attached(m.durable_opens, file_id, conn, session_id),
                ..m
            },
        ),
        soundness::sound(durable::detached_for_good(m, file_id)),
        soundness::sound(durable::durable_released(m, file_id)),
{
    lemma_with_durable(m.durable_opens, d);
    match durable::durable_of(m.durable_opens, d.file_id) {
        None => {},
        Some(before) => {
            lemma_open_let_go(
                StateModel { durable_opens: durable::with_durable(m.durable_opens, d), ..m },
                before.open,
            );
        },
    }
    lemma_durable_released(m, file_id);
    lemma_attached(m, file_id, conn, session_id);
    lemma_detached_for_good(m, file_id);
}

// ---------------------------------------------------------------------------
// Create requests that do not go on
// ---------------------------------------------------------------------------

pub(crate) proof fn lemma_create_undone(m: StateModel, w: WaitingModel<CreateWaitModel>)
    requires
        soundness::sound(m),
    ensures
        soundness::sound(completions::create_undone(m, w)),
{
    lemma_durable_released(m, w.file_id);
    match completions::tree_of_wait(w) {
        None => {},
        Some(t) => match trees::tree_of(m.connections, t) {
            None => {},
            Some(tree) => {
                soundness::lemma_tree_is_sound(m.connections, t);
                soundness::lemma_without_file(tree.opens, w.file_id);
                soundness::lemma_tree_opens_set(
                    m.connections,
                    t,
                    trees::without_file(tree.opens, w.file_id),
                );
                let after = StateModel {
                    connections: trees::with_tree_opens(
                        m.connections,
                        t,
                        trees::without_file(tree.opens, w.file_id),
                    ),
                    ..m
                };
                match trees::open_of(tree.opens, w.file_id) {
                    None => {
                        lemma_durable_released(after, w.file_id);
                    },
                    Some(open) => {
                        lemma_durable_dropped(after, w.file_id);
                        lemma_open_discarded(durable::durable_dropped(after, w.file_id), open);
                    },
                }
            },
        },
    }
}

proof fn lemma_creates_undone(m: StateModel, ws: Seq<WaitingModel<CreateWaitModel>>)
    requires
        soundness::sound(m),
    ensures
        soundness::sound(completions::creates_undone(m, ws)),
    decreases ws.len(),
{
    if ws.len() > 0 {
        lemma_creates_undone(m, ws.drop_last());
        lemma_create_undone(completions::creates_undone(m, ws.drop_last()), ws.last());
    }
}

/// A state stays sound when create requests are ended, or given up with their connection.
pub proof fn ended_creates_keep_soundness(
    m: StateModel,
    sel: Selector,
    status: u32,
    ws: Seq<WaitingModel<CreateWaitModel>>,
)
    requires
        soundness::sound(m),
    ensures
        soundness::sound(completions::creates_ended(m, sel, status)),
        soundness::sound(completions::creates_abandoned(m, ws)),
    decreases ws.len(),
{
    lemma_left(m.cache_break_creates, sel);
    let gone = waiting::taken(m.cache_break_creates, sel);
    let left = StateModel {
        cache_break_creates: waiting::left(m.cache_break_creates, sel),
        ..m
    };
    lemma_creates_undone(left, gone);
    lemma_creates_done(
        completions::creates_undone(left, gone),
        completions::failed_creates(gone, status),
    );
    if ws.len() > 0 {
        ended_creates_keep_soundness(m, sel, status, ws.drop_last());
        let before = completions::creates_abandoned(m, ws.drop_last());
        soundness::lemma_released(before.connections, ws.last().conn);
        lemma_create_undone(state::slot_released(before, ws.last().conn), ws.last());
    }
}

// ---------------------------------------------------------------------------
// Watches and changes
// ---------------------------------------------------------------------------

proof fn lemma_watch_done(
    m: StateModel,
    w: WaitingModel<NotifyWaitModel>,
    status: u32,
    output: Seq<u8>,
)
    requires
        soundness::sound(m),
    ensures
        soundness::sound(notify::watch_done(m, w, status, output)),
{
    soundness::lemma_released(m.connections, w.conn);
}

proof fn lemma_watches_done(
    m: StateModel,
    ws: Seq<WaitingModel<NotifyWaitModel>>,
    status: u32,
)
    requires
        soundness::sound(m),
    ensures
        soundness::sound(notify::watches_done(m, ws, status)),
    decreases ws.len(),
{
    if ws.len() > 0 {
        lemma_watches_done(m, ws.drop_last(), status);
        lemma_watch_done(
            notify::watches_done(m, ws.drop_last(), status),
            ws.last(),
            status,
            Seq::empty(),
        );
    }
}

proof fn lemma_watch_told(
    m: StateModel,
    w: WaitingModel<NotifyWaitModel>,
    output: Seq<u8>,
)
    requires
        soundness::sound(m),
    ensures
        soundness::sound(notify::watch_told(m, w, output)),
{
    let over = m.opens.map_values(|r: OpenRecordModel| notify::overrun(r, w.detail));
    lemma_opens_mapped(m.opens, over);
    lemma_watch_done(m, w, STATUS_SUCCESS, output);
    lemma_watch_done(
        StateModel { opens: over, ..m },
        w,
        STATUS_NOTIFY_ENUM_DIR,
        Seq::empty(),
    );
}

/// A state stays sound when watches are ended.
pub proof fn ended_watches_keep_soundness(
    m: StateModel,
    sel: Selector,
    share: Seq<char>,
    path: PathModel,
    status: u32,
)
    requires
        soundness::sound(m),
    ensures
        soundness::sound(notify::watches_ended(m, sel, status)),
        soundness::sound(notify::deleted_watches_ended(m, share, path, status)),
{
    let ws = m.change_notifies;
    lemma_left(ws, sel);
    lemma_watches_done(
        StateModel { change_notifies: waiting::left(ws, sel), ..m },
        waiting::taken(ws, sel),
        status,
    );
    let flags = notify::watches_below(ws, share, path);
    distinct::left_are_distinct(ws, flags, soundness::request_key());
    lemma_watches_done(
        StateModel { change_notifies: waiting::unflagged(ws, flags), ..m },
        waiting::flagged(ws, flags),
        status,
    );
}

proof fn lemma_watches_told(
    m: StateModel,
    ch: ChangeModel,
    ws: Seq<WaitingModel<NotifyWaitModel>>,
)
    requires
        soundness::sound(m),
    ensures
        soundness::sound(changes::watches_told(m, ch, ws)),
    decreases ws.len(),
{
    if ws.len() > 0 {
        lemma_watches_told(m, ch, ws.drop_last());
        lemma_watch_told(
            changes::watches_told(m, ch, ws.drop_last()),
            ws.last(),
            events::written_events(changes::change_events(ch, ws.last().detail.path)),
        );
    }
}

/// A state stays sound when a change is made known.
pub proof fn changes_keep_soundness(m: StateModel, ch: ChangeModel)
    requires
        soundness::sound(m),
    ensures
        soundness::sound(changes::changed(m, ch)),
{
    let ws = m.change_notifies;
    let after = changes::all_collected(ch, ws);
    let flags = changes::answered_flags(ch, ws);
    distinct::same_keys_are_distinct(ws, after, soundness::request_key());
    distinct::left_are_distinct(after, flags, soundness::request_key());
    let records = changes::buffered_opens(ch, ws, m.opens);
    lemma_opens_mapped(m.opens, records);
    lemma_watches_told(
        StateModel {
            change_notifies: waiting::unflagged(after, flags),
            opens: records,
            outbox: m.outbox + changes::started_timers(ch, ws, ws.len() as int),
            ..m
        },
        ch,
        waiting::flagged(after, flags),
    );
}

pub(crate) proof fn lemma_simply_changed(
    m: StateModel,
    share: Seq<char>,
    wanted: u32,
    path: PathModel,
    is_directory: bool,
    not_itself: bool,
    action: u32,
)
    requires
        soundness::sound(m),
    ensures
        soundness::sound(
            changes::simply_changed(m, share, wanted, path, is_directory, not_itself, action),
        ),
{
    changes_keep_soundness(
        m,
        changes::simple_change(share, wanted, path, is_directory, not_itself, action),
    );
}

pub(crate) proof fn lemma_removal_notified(
    m: StateModel,
    share: Seq<char>,
    path: PathModel,
    is_directory: bool,
)
    requires
        soundness::sound(m),
    ensures
        soundness::sound(changes::removal_notified(m, share, path, is_directory)),
{
    lemma_simply_changed(
        m,
        share,
        events::name_filter(is_directory),
        path,
        is_directory,
        false,
        FILE_ACTION_REMOVED,
    );
}

/// A state stays sound when a rename is made known.
pub proof fn renames_keep_soundness(
    m: StateModel,
    share: Seq<char>,
    from: PathModel,
    to: PathModel,
    is_directory: bool,
)
    requires
        soundness::sound(m),
    ensures
        soundness::sound(changes::rename_notified(m, share, from, to, is_directory)),
{
    let ch = changes::rename_change(share, from, to, is_directory);
    changes_keep_soundness(m, ch);
    changes_keep_soundness(
        changes::changed(m, ch),
        changes::rename_attributes_change(share, from, to),
    );
}

proof fn lemma_collections_told(m: StateModel, ws: Seq<WaitingModel<NotifyWaitModel>>)
    requires
        soundness::sound(m),
    ensures
        soundness::sound(changes::collections_told(m, ws)),
    decreases ws.len(),
{
    if ws.len() > 0 {
        lemma_collections_told(m, ws.drop_last());
        lemma_watch_told(
            changes::collections_told(m, ws.drop_last()),
            ws.last(),
            events::written_events(ws.last().detail.events),
        );
    }
}

/// A state stays sound when the timer of a watch goes off and when a backend reports.
pub proof fn reports_keep_soundness(
    m: StateModel,
    conn: u64,
    async_id: u64,
    event: WatchEvent,
)
    requires
        soundness::sound(m),
    ensures
        soundness::sound(changes::notify_timer_fired(m, conn, async_id)),
        soundness::sound(changes::backend_reported(m, conn, async_id, event)),
{
    let ws = m.change_notifies;
    let sel = Selector::Id { conn, async_id };
    lemma_left(ws, sel);
    lemma_collections_told(
        StateModel { change_notifies: waiting::left(ws, sel), ..m },
        waiting::taken(ws, sel),
    );
    let at = changes::reporting_at(m, conn, async_id);
    lists::first_is_first(ws, compounds::request_is(conn, async_id));
    if at < ws.len() {
        distinct::removed_are_distinct(ws, at, soundness::request_key());
        let left = StateModel { change_notifies: ws.remove(at), ..m };
        lemma_watch_done(left, ws[at], STATUS_DELETE_PENDING, Seq::empty());
        lemma_watch_told(
            left,
            ws[at],
            events::written_events(changes::reported_events(ws[at].detail, event)),
        );
    }
}

// ---------------------------------------------------------------------------
// Locks
// ---------------------------------------------------------------------------

proof fn lemma_lock_waits_answered(m: StateModel, done: Seq<locks::LockAnswer>)
    requires
        soundness::sound(m),
    ensures
        soundness::sound(locks::lock_waits_answered(m, done)),
    decreases done.len(),
{
    if done.len() > 0 {
        lemma_lock_waits_answered(m, done.drop_last());
        soundness::lemma_released(
            locks::lock_waits_answered(m, done.drop_last()).connections,
            done.last().wait.conn,
        );
    }
}

/// A state stays sound when locks are granted, taken away and waited for: no two opens
/// ever hold locks that stand in each other's way.
pub proof fn locks_keep_soundness(
    m: StateModel,
    share: Seq<char>,
    path: PathModel,
    stream_name: Option<Seq<char>>,
    fid: FileId,
    requests: Seq<ByteRangeLockRequest>,
)
    requires
        soundness::sound(m),
    ensures
        soundness::sound(
            StateModel {
                byte_range_locks: locks::locks_after(
                    m.byte_range_locks,
                    locks::lock_key(share, path, stream_name),
                    requests,
                ),
                ..m
            },
        ),
        soundness::sound(locks::locks_dropped(m, share, path, stream_name, fid)),
        soundness::sound(locks::lock_waits_retried(m, share, path, stream_name)),
{
    let key = locks::lock_key(share, path, stream_name);
    soundness::granted_locks_agree(m.byte_range_locks, key, requests);
    soundness::lemma_locks_left(
        m.byte_range_locks,
        m.byte_range_locks.map_values(|l: HeldLockModel| locks::held_by(l, key, fid)),
    );
    let waits = m.byte_range_lock_waits;
    let flags = locks::waits_on(waits, key);
    let tried = waiting::flagged(waits, flags);
    distinct::taken_are_distinct(waits, flags, soundness::request_key());
    soundness::lemma_retried(m, tried);
    let r = locks::retried(m, tried);
    let alive = locks::waits_alive(m, r.still);
    let again = waiting::flagged(r.still, alive);
    distinct::taken_are_distinct(r.still, alive, soundness::request_key());
    assert forall|j: int| 0 <= j < again.len() implies distinct::stands(
        waits,
        flags,
        true,
        #[trigger] again[j],
    ) by {
        assert(distinct::stands(r.still, alive, true, again[j]));
        let k = choose|k: int|
            0 <= k < r.still.len() && alive[k] == true && #[trigger] r.still[k] == again[j];
        assert(tried.contains(r.still[k]));
        let i = choose|i: int| 0 <= i < tried.len() && tried[i] == r.still[k];
        assert(distinct::stands(waits, flags, true, tried[i]));
    }
    distinct::left_and_taken_are_distinct(waits, flags, again, soundness::request_key());
    lemma_lock_waits_answered(
        StateModel {
            byte_range_locks: r.locks,
            byte_range_lock_waits: waiting::unflagged(waits, flags) + again,
            outbox: m.outbox + r.actions,
            ..m
        },
        r.done,
    );
}

/// A state stays sound when lock requests that wait are ended, and when ranges are
/// unlocked.
pub proof fn unlocking_keeps_soundness(
    m: StateModel,
    sel: Selector,
    status: u32,
    key: LockKeyModel,
    fid: FileId,
    ranges: Seq<(u64, u64)>,
    n: int,
)
    requires
        soundness::sound(m),
    ensures
        soundness::sound(locks::lock_waits_ended(m, sel, status)),
        locks::unlocked(m.byte_range_locks, key, fid, ranges, n) matches Some(left) ==>
            soundness::sound(
            StateModel { byte_range_locks: left, ..m },
        ),
{
    lemma_left(m.byte_range_lock_waits, sel);
    lemma_lock_waits_answered(
        StateModel {
            byte_range_lock_waits: waiting::left(m.byte_range_lock_waits, sel),
            ..m
        },
        locks::with_status(waiting::taken(m.byte_range_lock_waits, sel), status),
    );
    soundness::unlocking_keeps_agreement(m.byte_range_locks, key, fid, ranges, n);
}

// ---------------------------------------------------------------------------
// Requests that begin to wait
// ---------------------------------------------------------------------------

/// Requests that begin to wait take the place of those with the same id.
pub proof fn new_waits_are_distinct<M>(s: Seq<WaitingModel<M>>, w: WaitingModel<M>)
    requires
        distinct::distinct(s, soundness::request_key()),
    ensures
        distinct::distinct(
            waiting::left(s, Selector::Id { conn: w.conn, async_id: w.async_id }).push(w),
            soundness::request_key(),
        ),
{
    let sel = Selector::Id { conn: w.conn, async_id: w.async_id };
    distinct::put_are_distinct(s, waiting::selection(s, sel), w, soundness::request_key());
}

/// A state stays sound when a request is dropped without an answer, and when the rest of a
/// compound is put behind one.
pub proof fn discarding_keeps_soundness(m: StateModel, conn: u64, async_id: u64, compound: u64)
    requires
        soundness::sound(m),
    ensures
        soundness::sound(pending::discarded(m, conn, async_id)),
        soundness::sound(compounds::compound_attached(m, conn, async_id, compound)),
{
    let sel = Selector::Id { conn, async_id };
    lemma_left(m.change_notifies, sel);
    lemma_left(m.pipe_reads, sel);
    lemma_left(m.byte_range_lock_waits, sel);
    soundness::lemma_released(m.connections, conn);
    lists::first_is_first(m.cache_break_creates, compounds::request_is(conn, async_id));
    lists::first_is_first(m.cache_break_writes, compounds::request_is(conn, async_id));
    lists::first_is_first(m.cache_break_tasks, compounds::request_is(conn, async_id));
    let after = compounds::compound_attached(m, conn, async_id, compound);
    distinct::same_keys_are_distinct(
        m.cache_break_creates,
        after.cache_break_creates,
        soundness::request_key(),
    );
    distinct::same_keys_are_distinct(
        m.cache_break_writes,
        after.cache_break_writes,
        soundness::request_key(),
    );
    distinct::same_keys_are_distinct(
        m.cache_break_tasks,
        after.cache_break_tasks,
        soundness::request_key(),
    );
}

// ---------------------------------------------------------------------------
// Writes and tasks that were carried out
// ---------------------------------------------------------------------------

/// A state stays sound when it is known what came of a write or a task.
pub proof fn outcomes_keep_soundness(
    m: StateModel,
    conn: u64,
    async_id: u64,
    file_id: FileId,
    w: WriteWaitModel,
    outcome: Result<u32, u32>,
    now: u64,
    replay: ReplayKeyModel,
    compound: Option<u64>,
    status: u32,
    body: BodyModel,
)
    requires
        soundness::sound(m),
    ensures
        soundness::sound(writes::write_finished(m, conn, async_id, file_id, w, outcome, now)),
        soundness::sound(tasks::task_finished(m, conn, async_id, replay, compound, status, body)),
{
    kept_answers_are_sound(m, replay, status, body);
    match outcome {
        Err(_) => {},
        Ok(count) => {
            let offset = (w.offset + count) as u64;
            let i = state::open_index(m.opens, w.open);
            state::open_index_is_first(m.opens, w.open);
            let left = writes::left_at(m, w.open, offset);
            lemma_opens_mapped(m.opens, left.opens);
            let timed = if w.stream_name is None {
                files::times_after_write(left, table::key_of(w.share, w.path), file_id, now)
            } else {
                left
            };
            lemma_simply_changed(
                timed,
                w.share,
                FILE_NOTIFY_CHANGE_SIZE | FILE_NOTIFY_CHANGE_LAST_WRITE,
                w.path,
                w.is_directory,
                true,
                FILE_ACTION_MODIFIED,
            );
        },
    }
}

// ---------------------------------------------------------------------------
// Opens that are made, changed and moved
// ---------------------------------------------------------------------------

/// A state stays sound when an open is registered, new or known, and when opens change under
/// their keys.
pub proof fn registered_opens_are_sound(
    m: StateModel,
    key: u64,
    open: OpenModel,
    place: RegistrationModel,
    changed: Seq<OpenRecordModel>,
)
    requires
        soundness::sound(m),
        changed.len() == m.opens.len(),
        forall|i: int| 0 <= i < changed.len() ==> (#[trigger] changed[i]).key == m.opens[i].key,
    ensures
        soundness::sound(
            StateModel { opens: opens::registered(m.opens, key, open, place), ..m },
        ),
        soundness::sound(StateModel { opens: changed, ..m }),
{
    let i = state::open_index(m.opens, key);
    state::open_index_is_first(m.opens, key);
    if i < m.opens.len() {
        reveal(distinct::distinct);
        let rest = m.opens.remove(i);
        let k = soundness::open_key();
        distinct::removed_are_distinct(m.opens, i, k);
        assert forall|j: int| 0 <= j < rest.len() implies k(#[trigger] rest[j]) != key by {
            if j < i {
                assert(rest[j] == m.opens[j]);
                assert(k(m.opens[j]) != k(m.opens[i]));
            } else {
                assert(rest[j] == m.opens[j + 1]);
                assert(k(m.opens[i]) != k(m.opens[j + 1]));
            }
        }
        distinct::pushed_are_distinct(
            rest,
            OpenRecordModel { registration: Some(place), ..m.opens[i] },
            k,
        );
    } else {
        distinct::pushed_are_distinct(
            m.opens,
            OpenRecordModel { key, registration: Some(place), open },
            soundness::open_key(),
        );
    }
    lemma_opens_mapped(m.opens, changed);
}

proof fn lemma_rebased_apart(a: Seq<char>, b: Seq<char>, from: Seq<char>, to: Seq<char>)
    requires
        path::rebased(a, from, to) is Some,
        path::rebased(b, from, to) is Some,
        path::rebased(a, from, to) == path::rebased(b, from, to),
        from.len() > 0,
        to.len() > 0,
    ensures
        a == b,
{
    path::rebase_there_and_back(a, from, to);
    path::rebase_there_and_back(b, from, to);
}

proof fn lemma_rebased_below(a: Seq<char>, from: Seq<char>, to: Seq<char>)
    requires
        path::rebased(a, from, to) is Some,
        to.len() > 0,
    ensures
        path::rebased(path::rebased(a, from, to)->0, to, to) is Some,
{
    let there = path::rebased(a, from, to)->0;
    if a != from {
        assert(there.take(to.len() as int) =~= to);
    }
}

/// Locks agree after a rename from one name to another, where nothing else is locked on
/// the new name or below it.
pub proof fn moved_locks_agree(
    held: Seq<HeldLockModel>,
    share: Seq<char>,
    from: PathModel,
    to: PathModel,
)
    requires
        soundness::locks_agree(held),
        text::lowered(path::displayed(from)).len() > 0,
        text::lowered(path::displayed(to)).len() > 0,
        forall|i: int|
            0 <= i < held.len() && (#[trigger] held[i]).key.share == text::lowered(share)
                && !locks::lock_renames(
                held[i],
                text::lowered(share),
                text::lowered(path::displayed(from)),
                text::lowered(path::displayed(to)),
            ) ==> path::rebased(
                held[i].key.path,
                text::lowered(path::displayed(to)),
                text::lowered(path::displayed(to)),
            ) is None,
    ensures
        soundness::locks_agree(locks::locks_rekeyed(held, share, from, to)),
{
    let s = text::lowered(share);
    let f = text::lowered(path::displayed(from));
    let t = text::lowered(path::displayed(to));
    let flags = held.map_values(|l: HeldLockModel| locks::lock_renames(l, s, f, t));
    let stay = waiting::unflagged(held, flags);
    let go = waiting::flagged(held, flags);
    let moved = go.map_values(|l: HeldLockModel| locks::renamed_lock(l, f, t));
    let all = locks::locks_rekeyed(held, share, from, to);
    soundness::lemma_locks_left(held, flags);
    soundness::lemma_locks_taken(held, flags);
    assert forall|i: int| 0 <= i < held.len() && !flags[i] implies (|l: HeldLockModel|
        l.key.share == s ==> path::rebased(l.key.path, t, t) is None)(#[trigger] held[i]) by {}
    distinct::left_are_from(
        held,
        flags,
        |l: HeldLockModel| l.key.share == s ==> path::rebased(l.key.path, t, t) is None,
    );
    assert forall|j: int| 0 <= j < go.len() implies locks::lock_renames(
        #[trigger] go[j],
        s,
        f,
        t,
    ) by {
        waiting::flagged_contains(held, flags, go[j]);
        assert(go.contains(go[j]));
    }
    reveal(soundness::locks_agree);
    assert forall|i: int, j: int| 0 <= i < j < all.len() implies soundness::agree(
        #[trigger] all[i],
        #[trigger] all[j],
    ) by {
        let n = stay.len();
        if j < n {
            assert(soundness::agree(stay[i], stay[j]));
        } else if i >= n {
            let a = go[i - n];
            let b = go[j - n];
            assert(all[i] == locks::renamed_lock(a, f, t));
            assert(all[j] == locks::renamed_lock(b, f, t));
            assert(soundness::agree(a, b));
            assert(locks::lock_renames(a, s, f, t) && locks::lock_renames(b, s, f, t));
            if all[i].key == all[j].key {
                lemma_rebased_apart(a.key.path, b.key.path, f, t);
            }
        } else {
            let b = go[j - n];
            assert(all[i] == stay[i]);
            assert(all[j] == locks::renamed_lock(b, f, t));
            assert(locks::lock_renames(b, s, f, t));
            lemma_rebased_below(b.key.path, f, t);
            assert((|l: HeldLockModel|
                l.key.share == s ==> path::rebased(l.key.path, t, t) is None)(stay[i]));
        }
    }
}

/// A state stays sound when a path is renamed, where nothing else is locked on the new
/// name or below it.
pub proof fn moves_keep_soundness(
    m: StateModel,
    share: Seq<char>,
    from: PathModel,
    to: PathModel,
)
    requires
        soundness::sound(m),
        text::lowered(path::displayed(from)).len() > 0,
        text::lowered(path::displayed(to)).len() > 0,
        forall|i: int|
            0 <= i < m.byte_range_locks.len() && (#[trigger] m.byte_range_locks[i]).key.share
                == text::lowered(share) && !locks::lock_renames(
                m.byte_range_locks[i],
                text::lowered(share),
                text::lowered(path::displayed(from)),
                text::lowered(path::displayed(to)),
            ) ==> path::rebased(
                m.byte_range_locks[i].key.path,
                text::lowered(path::displayed(to)),
                text::lowered(path::displayed(to)),
            ) is None,
    ensures
        soundness::sound(moves::opens_moved(m, share, from, to)),
{
    moved_locks_agree(m.byte_range_locks, share, from, to);
    lemma_opens_mapped(m.opens, moves::opens_moved(m, share, from, to).opens);
}

// ---------------------------------------------------------------------------
// Users and shares
// ---------------------------------------------------------------------------

/// The users of a share that is set up are distinct: a later one takes the place of an
/// earlier one with its name.
pub proof fn configured_users_are_distinct(users: Seq<ShareUserModel>)
    ensures
        distinct::distinct(shares::all_with(users), soundness::share_user_key()),
    decreases users.len(),
{
    if users.len() == 0 {
        assert(users =~= Seq::empty());
        distinct::none_are_distinct(soundness::share_user_key());
    } else {
        configured_users_are_distinct(users.drop_last());
        distinct::replaced_are_distinct(
            shares::all_with(users.drop_last()),
            shares::share_user_is(users.last().name),
            users.last(),
            soundness::share_user_key(),
        );
    }
}

/// A share stays sound when a user is granted access, and when access is taken away.
pub proof fn granting_keeps_shares_sound(s: ShareModel, u: ShareUserModel, name: Seq<char>)
    requires
        soundness::share_sound(s),
    ensures
        soundness::share_sound(
            shares::share_with_users(s, shares::with_user(s.acl.users, u)),
        ),
        soundness::share_sound(
            shares::share_with_users(s, shares::without_user(s.acl.users, name)),
        ),
{
    distinct::replaced_are_distinct(
        s.acl.users,
        shares::share_user_is(u.name),
        u,
        soundness::share_user_key(),
    );
    lists::first_is_first(s.acl.users, shares::share_user_is(name));
    let i = lists::first(s.acl.users, shares::share_user_is(name));
    if i < s.acl.users.len() {
        distinct::removed_are_distinct(s.acl.users, i, soundness::share_user_key());
    }
}

/// A user whose access to a share was taken away is not among its users any more, and the
/// other users stay.
pub proof fn revoked_users_are_gone(s: ShareModel, name: Seq<char>, u: ShareUserModel)
    requires
        soundness::share_sound(s),
    ensures
        !lists::found(shares::without_user(s.acl.users, name), shares::share_user_is(name)),
        u.name != name ==> shares::without_user(s.acl.users, name).contains(u)
            == s.acl.users.contains(u),
{
    reveal(distinct::distinct);
    let users = s.acl.users;
    let test = shares::share_user_is(name);
    let key = soundness::share_user_key();
    let left = shares::without_user(users, name);
    let i = lists::first(users, test);
    lists::first_is_first(users, test);
    if i < users.len() {
        assert(test(users[i]));
        assert forall|j: int| 0 <= j < left.len() implies !test(#[trigger] left[j]) by {
            let k = if j < i {
                j
            } else {
                j + 1
            };
            assert(left[j] == users[k]);
            if j < i {
                assert(key(users[k]) != key(users[i]));
            } else {
                assert(key(users[i]) != key(users[k]));
            }
        }
        if u.name != name && users.contains(u) {
            let k = choose|k: int| 0 <= k < users.len() && users[k] == u;
            assert(left[if k < i {
                k
            } else {
                k - 1
            }] == u);
        }
        if left.contains(u) {
            let j = choose|j: int| 0 <= j < left.len() && left[j] == u;
            assert(users[if j < i {
                j
            } else {
                j + 1
            }] == u);
        }
    }
    lists::first_at(left, test, left.len() as int);
}

/// A state stays sound when users and shares are added, changed and taken away.
pub proof fn configuring_keeps_soundness(m: StateModel, u: UserModel, s: ShareModel, at: int)
    requires
        soundness::sound(m),
        soundness::share_sound(s),
    ensures
        soundness::sound(StateModel { users: shares::user_put(m.users, u), ..m }),
        0 <= at < m.users.len() ==> soundness::sound(
            StateModel {
                users: m.users.remove(at),
                shares: shares::user_revoked(m.shares, u.name),
                ..m
            },
        ),
        shares::add_share_error(m, s) is None ==> soundness::sound(
            StateModel { shares: m.shares.push(s), ..m },
        ),
        0 <= at < m.shares.len() ==>
            soundness::sound(StateModel { shares: m.shares.remove(at), ..m }),
        0 <= at < m.shares.len() && s.name == m.shares[at].name ==> soundness::sound(
            StateModel { shares: m.shares.update(at, s), ..m },
        ),
{
    reveal(soundness::shares_sound);
    let revoked = shares::user_revoked(m.shares, u.name);
    distinct::replaced_are_distinct(m.users, shares::user_is(u.name), u, soundness::user_key());
    distinct::same_keys_are_distinct(m.shares, revoked, soundness::share_key());
    assert forall|i: int| 0 <= i < revoked.len() implies soundness::share_sound(
        #[trigger] revoked[i],
    ) by {
        let user = ShareUserModel { name: u.name, access: Access::Read };
        granting_keeps_shares_sound(m.shares[i], user, u.name);
    }
    if 0 <= at < m.users.len() {
        distinct::removed_are_distinct(m.users, at, soundness::user_key());
    }
    if 0 <= at < m.shares.len() {
        distinct::removed_are_distinct(m.shares, at, soundness::share_key());
        let left = m.shares.remove(at);
        assert forall|i: int| 0 <= i < left.len() implies soundness::share_sound(
            #[trigger] left[i],
        ) by {
            assert(left[i] == m.shares[if i < at {
                i
            } else {
                i + 1
            }]);
        }
        if s.name == m.shares[at].name {
            distinct::same_keys_are_distinct(
                m.shares,
                m.shares.update(at, s),
                soundness::share_key(),
            );
        }
    }
    distinct::replaced_are_distinct(m.shares, shares::share_is(s.name), s, soundness::share_key());
}

/// Shares that are set up together are sound where each of them is, for a later one takes
/// the place of an earlier one with its name.
pub proof fn configured_shares_are_sound(list: Seq<ShareModel>)
    requires
        forall|i: int| 0 <= i < list.len() ==> soundness::share_sound(#[trigger] list[i]),
    ensures
        soundness::shares_sound(shares::all_put(list)),
    decreases list.len(),
{
    reveal(soundness::shares_sound);
    if list.len() == 0 {
        assert(list =~= Seq::empty());
        distinct::none_are_distinct(soundness::share_key());
    } else {
        let rest = list.drop_last();
        assert forall|i: int| 0 <= i < rest.len() implies soundness::share_sound(
            #[trigger] rest[i],
        ) by {
            assert(rest[i] == list[i]);
        }
        configured_shares_are_sound(rest);
        distinct::replaced_are_distinct(
            shares::all_put(rest),
            shares::share_is(list.last().name),
            list.last(),
            soundness::share_key(),
        );
        lists::first_is_first(shares::all_put(rest), shares::share_is(list.last().name));
        assert(soundness::share_sound(list[list.len() - 1]));
    }
}

} // verus!
