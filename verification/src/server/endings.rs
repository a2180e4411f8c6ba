//! Opens, tree connects, sessions and connections that end leave a sound state sound.

use crate::ntstatus::{STATUS_DELETE_PENDING, STATUS_NOTIFY_CLEANUP};
use crate::path::PathModel;
use crate::proto::messages::FileId;
use crate::server::breaking;
use crate::server::cleanup;
use crate::server::cleanup::WorkModel;
use crate::server::closing;
use crate::server::closing::{UnlinkModel, UnlinkOutcome, UnlinkReason};
use crate::server::completions;
use crate::server::connections;
use crate::server::detaching;
use crate::server::detaching::{Leaving, Reconnect};
use crate::server::distinct;
use crate::server::durable;
use crate::server::files;
use crate::server::keeping;
use crate::server::leases;
use crate::server::lists;
use crate::server::locks;
use crate::server::notify;
use crate::server::opens;
use crate::server::oplocks;
use crate::server::pending;
use crate::server::rules;
use crate::server::rules::LEASE_READ_CACHING;
use crate::server::soundness;
use crate::server::state;
use crate::server::state::StateModel;
use crate::server::table;
use crate::server::timeouts;
use crate::server::trees;
use crate::server::trees::TreeRef;
use crate::server::types::{ActionModel, DurableModel, OpenModel, TreeModel, TreeOpen};
use crate::server::waiting;
use crate::server::waiting::Selector;
use crate::server::writes;
use crate::text;
use vstd::prelude::*;

verus! {

// ---------------------------------------------------------------------------
// Files that are gone
// ---------------------------------------------------------------------------

proof fn lemma_unlinked_forgotten(
    m: StateModel,
    share: Seq<char>,
    path: PathModel,
    is_directory: bool,
)
    requires
        soundness::sound(m),
    ensures
        soundness::sound(closing::unlinked_forgotten(m, share, path, is_directory)),
{
    let key = table::key_of(share, path);
    keeping::ended_watches_keep_soundness(
        m,
        Selector::AnySession { session_id: 0 },
        share,
        path,
        STATUS_DELETE_PENDING,
    );
    let watched = notify::deleted_watches_ended(m, share, path, STATUS_DELETE_PENDING);
    let secured = files::attributes_dropped(files::security_dropped(watched, key), key);
    let sized = files::file_attributes_dropped(files::allocation_dropped(secured, key), key);
    let timed = files::posix_metadata_dropped(files::times_dropped(sized, key), key);
    keeping::lemma_removal_notified(timed, share, path, is_directory);
}

proof fn lemma_deleted_forgotten(
    m: StateModel,
    share: Seq<char>,
    path: PathModel,
    is_directory: bool,
    unmark: bool,
)
    requires
        soundness::sound(m),
    ensures
        soundness::sound(closing::deleted_forgotten(m, share, path, is_directory, unmark)),
{
    let key = table::key_of(share, path);
    keeping::ended_watches_keep_soundness(
        m,
        Selector::AnySession { session_id: 0 },
        share,
        path,
        STATUS_DELETE_PENDING,
    );
    let watched = notify::deleted_watches_ended(m, share, path, STATUS_DELETE_PENDING);
    let secured = files::attributes_dropped(files::security_dropped(watched, key), key);
    let sized = files::file_attributes_dropped(files::allocation_dropped(secured, key), key);
    let timed = files::streams_dropped(files::times_dropped(sized, key), key);
    let forgotten = files::posix_metadata_dropped(timed, key);
    let unmarked = if unmark {
        opens::delete_unmarked(forgotten, share, path)
    } else {
        forgotten
    };
    keeping::lemma_removal_notified(unmarked, share, path, is_directory);
}

proof fn lemma_deletion_announced(m: StateModel, share: Seq<char>, path: PathModel)
    requires
        soundness::sound(m),
    ensures
        soundness::sound(closing::deletion_announced(m, share, path)),
{
    keeping::ended_watches_keep_soundness(
        opens::delete_marked(m, share, path),
        Selector::AnySession { session_id: 0 },
        share,
        path,
        STATUS_DELETE_PENDING,
    );
}

proof fn lemma_name_gone(m: StateModel, share: Seq<char>, path: PathModel, is_directory: bool)
    requires
        soundness::sound(m),
    ensures
        soundness::sound(closing::name_gone(m, share, path, is_directory)),
{
    let marked = opens::delete_marked(m, share, path);
    let deleted = opens::posix_deleted(marked, share, path);
    keeping::lemma_opens_mapped(m.opens, deleted.opens);
    lemma_unlinked_forgotten(deleted, share, path, is_directory);
}

/// A state stays sound when it is known what came of unlinking a file.
pub proof fn unlinking_keeps_soundness(m: StateModel, u: UnlinkModel, outcome: UnlinkOutcome)
    requires
        soundness::sound(m),
    ensures
        soundness::sound(closing::unlink_finished(m, u, outcome)),
{
    lemma_name_gone(m, u.share, u.path, u.is_directory);
    lemma_deletion_announced(m, u.share, u.path);
    lemma_deleted_forgotten(m, u.share, u.path, u.is_directory, true);
    lemma_deleted_forgotten(m, u.share, u.path, u.is_directory, false);
}

proof fn lemma_deleted_with(
    m: StateModel,
    share: Seq<char>,
    o: OpenModel,
    open: u64,
    last: UnlinkReason,
)
    requires
        soundness::sound(m),
    ensures
        soundness::sound(closing::deleted_with(m, share, o, open, last).state),
{
    breaking::lost_oplocks_keep_soundness(m, share, o.last_path, o.stream_name, o.file_id);
    lemma_deletion_announced(
        oplocks::level_ii_lost(m, share, o.last_path, o.stream_name),
        share,
        o.last_path,
    );
}

// ---------------------------------------------------------------------------
// Opens that are closed
// ---------------------------------------------------------------------------

proof fn lemma_file_waits_ended(m: StateModel, conn: u64, file_id: FileId)
    requires
        soundness::sound(m),
    ensures
        soundness::sound(closing::file_waits_ended(m, conn, file_id)),
{
    let sel = Selector::File { conn, file_id };
    keeping::ended_watches_keep_soundness(
        m,
        sel,
        Seq::empty(),
        Seq::empty(),
        STATUS_NOTIFY_CLEANUP,
    );
    let a = notify::watches_ended(m, sel, STATUS_NOTIFY_CLEANUP);
    keeping::ended_waits_keep_soundness(a, sel, STATUS_NOTIFY_CLEANUP);
    keeping::unlocking_keeps_soundness(
        pending::pipe_reads_ended(a, sel, STATUS_NOTIFY_CLEANUP),
        sel,
        rules::lock_wait_status(STATUS_NOTIFY_CLEANUP),
        locks::lock_key(Seq::empty(), Seq::empty(), None),
        file_id,
        Seq::empty(),
        0,
    );
}

proof fn lemma_leases_yielded(m: StateModel, share: Seq<char>, o: OpenModel)
    requires
        soundness::sound(m),
    ensures
        soundness::sound(closing::leases_yielded(m, share, o)),
{
    breaking::lease_breaks_keep_soundness(
        m,
        leases::on_stream_flags(m.opens, share, o.last_path, o.stream_name),
        o.lease.key,
        LEASE_READ_CACHING,
    );
}

proof fn lemma_unlocked(
    m: StateModel,
    share: Seq<char>,
    o: OpenModel,
    file_id: FileId,
)
    requires
        soundness::sound(m),
    ensures
        soundness::sound(
            locks::lock_waits_retried(
                locks::locks_dropped(m, share, o.last_path, o.stream_name, file_id),
                share,
                o.last_path,
                o.stream_name,
            ),
        ),
{
    keeping::locks_keep_soundness(m, share, o.last_path, o.stream_name, file_id, Seq::empty());
    keeping::locks_keep_soundness(
        locks::locks_dropped(m, share, o.last_path, o.stream_name, file_id),
        share,
        o.last_path,
        o.stream_name,
        file_id,
        Seq::empty(),
    );
}

proof fn lemma_open_closed(m: StateModel, share: Seq<char>, t: TreeOpen, preserve: bool)
    requires
        soundness::sound(m),
        state::open_alive(m.opens, t.open),
    ensures
        soundness::sound(closing::open_closed(m, share, t, preserve)),
{
    let i = state::open_index(m.opens, t.open);
    state::open_index_is_first(m.opens, t.open);
    let o = m.opens[i].open;
    let emptied = m.opens.update(
        i,
        closing::emptied(m.opens[i], preserve && o.durability.enabled),
    );
    keeping::lemma_opens_mapped(m.opens, emptied);
    let empty = StateModel { opens: emptied, ..m };
    keeping::lemma_detached_for_good(empty, t.file_id);
    keeping::lemma_durable_dropped(empty, t.file_id);
    let detached = if closing::stays(o, preserve) {
        durable::detached_for_good(empty, t.file_id)
    } else {
        durable::durable_dropped(empty, t.file_id)
    };
    let closed = if o.has_handle {
        state::acted(detached, ActionModel::CloseHandle { open: t.open })
    } else {
        detached
    };
    let left = opens::without_registration(closed.opens, t.open);
    keeping::lemma_opens_mapped(closed.opens, left);
    let gone = StateModel { opens: left, ..closed };
    lemma_unlocked(gone, share, o, t.file_id);
    keeping::lemma_oplock_waits_resumed(
        locks::lock_waits_retried(
            locks::locks_dropped(gone, share, o.last_path, o.stream_name, t.file_id),
            share,
            o.last_path,
            o.stream_name,
        ),
        t.file_id,
    );
}

proof fn lemma_yielding_keeps_opens(m: StateModel, share: Seq<char>, o: OpenModel, open: u64)
    requires
        state::open_alive(m.opens, open),
    ensures
        state::open_alive(closing::leases_yielded(m, share, o).opens, open),
{
    let after = closing::leases_yielded(m, share, o).opens;
    state::open_index_is_first(m.opens, open);
    state::open_index_is_first(after, open);
    let i = state::open_index(m.opens, open);
    assert(after[i].key == m.opens[i].key);
}

/// A state stays sound when an open is closed.
pub proof fn closing_keeps_soundness(
    m: StateModel,
    conn: u64,
    share: Seq<char>,
    t: TreeOpen,
    preserve: bool,
)
    requires
        soundness::sound(m),
    ensures
        soundness::sound(closing::closed_one(m, conn, share, t, preserve).state),
{
    reveal(closing::closed_one);
    lemma_file_waits_ended(m, conn, t.file_id);
    let ended = closing::file_waits_ended(m, conn, t.file_id);
    match durable::open_of(ended.opens, t.open) {
        None => {},
        Some(o) => {
            lemma_leases_yielded(ended, share, o);
            lemma_yielding_keeps_opens(ended, share, o, t.open);
            let yielded = closing::leases_yielded(ended, share, o);
            lemma_open_closed(yielded, share, t, preserve);
            let closed = closing::open_closed(yielded, share, t, preserve);
            lemma_deleted_with(closed, share, o, t.open, UnlinkReason::LastClosed);
            let after = closing::file_after(closed, share, o, t.open, preserve);
            keeping::lemma_open_let_go(after.state, t.open);
        },
    }
}

// ---------------------------------------------------------------------------
// Tree connects that end
// ---------------------------------------------------------------------------

proof fn lemma_tree_drained(m: StateModel, w: WorkModel)
    requires
        soundness::sound(m),
    ensures
        soundness::sound(cleanup::tree_drained(m, w).0),
{
    distinct::none_are_distinct(soundness::file_key());
    soundness::lemma_tree_opens_set(m.connections, w.trees[0], Seq::empty());
}

/// A state stays sound when opens are closed until a file is to be unlinked.
pub proof fn cleanup_keeps_soundness(m: StateModel, w: WorkModel)
    requires
        soundness::sound(m),
    ensures
        soundness::sound(cleanup::closed_some(m, w).state),
    decreases
            w.trees.len(),
            w.batches.len(),
            if w.batches.len() > 0 {
                w.batches[0].opens.len()
            } else {
                0
            },
{
    if w.batches.len() > 0 {
        let b = w.batches[0];
        if b.opens.len() == 0 {
            cleanup_keeps_soundness(m, WorkModel { batches: w.batches.skip(1), ..w });
        } else {
            closing_keeps_soundness(m, w.conn, b.share, b.opens[0], w.preserve);
            let c = closing::closed_one(m, w.conn, b.share, b.opens[0], w.preserve);
            let rest = WorkModel { batches: cleanup::first_gone(w.batches), ..w };
            if c.unlink is None {
                cleanup_keeps_soundness(c.state, rest);
            }
        }
    } else if w.trees.len() > 0 {
        lemma_tree_drained(m, w);
        let (s, rest) = cleanup::tree_drained(m, w);
        cleanup_keeps_soundness(s, rest);
    }
}

// ---------------------------------------------------------------------------
// Durable opens that are detached
// ---------------------------------------------------------------------------

proof fn lemma_durability_lost(m: StateModel, share: Seq<char>, t: TreeOpen)
    requires
        soundness::sound(m),
    ensures
        soundness::sound(detaching::durability_lost(m, share, t)),
{
    match durable::open_of(m.opens, t.open) {
        None => {},
        Some(o) => {
            keeping::lemma_durable_dropped(m, t.file_id);
            let dropped = durable::durable_dropped(m, t.file_id);
            let left = opens::without_file_registration(dropped.opens, t.file_id);
            keeping::lemma_opens_mapped(dropped.opens, left);
            lemma_unlocked(StateModel { opens: left, ..dropped }, share, o, t.file_id);
        },
    }
}

proof fn lemma_all_lost(m: StateModel, share: Seq<char>, list: Seq<TreeOpen>)
    requires
        soundness::sound(m),
    ensures
        soundness::sound(detaching::all_lost(m, share, list)),
    decreases list.len(),
{
    if list.len() > 0 {
        lemma_all_lost(m, share, list.drop_last());
        lemma_durability_lost(
            detaching::all_lost(m, share, list.drop_last()),
            share,
            list.last(),
        );
    }
}

proof fn lemma_all_waiting(
    s: Seq<DurableModel>,
    share: Seq<char>,
    list: Seq<TreeOpen>,
    deadline: u64,
)
    requires
        distinct::distinct(s, soundness::durable_key()),
    ensures
        distinct::distinct(
            detaching::all_waiting(s, share, list, deadline),
            soundness::durable_key(),
        ),
    decreases list.len(),
{
    if list.len() > 0 {
        lemma_all_waiting(s, share, list.drop_last(), deadline);
        let before = detaching::all_waiting(s, share, list.drop_last(), deadline);
        keeping::lemma_with_durable(
            before,
            detaching::waiting_durable(before, share, list.last(), deadline),
        );
    }
}

proof fn lemma_opens_detached(
    m: StateModel,
    share: Seq<char>,
    list: Seq<TreeOpen>,
    deadline: u64,
)
    requires
        soundness::sound(m),
    ensures
        soundness::sound(detaching::opens_detached(m, share, list, deadline)),
{
    let gone = waiting::flagged(list, detaching::lost_flags(m, share, list));
    lemma_all_lost(m, share, gone);
    lemma_all_waiting(
        detaching::all_lost(m, share, gone).durable_opens,
        share,
        waiting::flagged(list, detaching::detached_flags(m, share, list)),
        deadline,
    );
}

/// A state stays sound when the durable opens of a tree connect are detached.
pub proof fn detaching_keeps_soundness(m: StateModel, t: TreeRef, deadline: u64)
    requires
        soundness::sound(m),
    ensures
        soundness::sound(detaching::tree_detached(m, t, deadline)),
{
    match trees::tree_of(m.connections, t) {
        None => {},
        Some(tree) => {
            let share = text::lowered(tree.share);
            let flags = detaching::detached_flags(m, share, tree.opens);
            lemma_opens_detached(m, share, tree.opens, deadline);
            soundness::lemma_tree_is_sound(m.connections, t);
            distinct::left_are_distinct(tree.opens, flags, soundness::file_key());
            soundness::lemma_tree_opens_set(
                detaching::opens_detached(m, share, tree.opens, deadline).connections,
                t,
                waiting::unflagged(tree.opens, flags),
            );
        },
    }
}

proof fn lemma_trees_detached(
    m: StateModel,
    conn: u64,
    session_id: u64,
    ids: Seq<u32>,
    deadline: u64,
)
    requires
        soundness::sound(m),
    ensures
        soundness::sound(detaching::trees_detached(m, conn, session_id, ids, deadline)),
    decreases ids.len(),
{
    if ids.len() > 0 {
        lemma_trees_detached(m, conn, session_id, ids.drop_last(), deadline);
        detaching_keeps_soundness(
            detaching::trees_detached(m, conn, session_id, ids.drop_last(), deadline),
            TreeRef { conn, session_id, tree_id: ids.last() },
            deadline,
        );
    }
}

/// A state stays sound when the durable opens of sessions are detached.
pub proof fn detached_sessions_keep_soundness(
    m: StateModel,
    conn: u64,
    ids: Seq<u64>,
    deadline: u64,
)
    requires
        soundness::sound(m),
    ensures
        soundness::sound(detaching::sessions_detached(m, conn, ids, deadline)),
    decreases ids.len(),
{
    if ids.len() > 0 {
        detached_sessions_keep_soundness(m, conn, ids.drop_last(), deadline);
        let before = detaching::sessions_detached(m, conn, ids.drop_last(), deadline);
        lemma_trees_detached(
            before,
            conn,
            ids.last(),
            detaching::tree_ids(before.connections, conn, ids.last()),
            deadline,
        );
    }
}

proof fn lemma_tree_open_added(m: StateModel, t: TreeRef, x: TreeOpen)
    requires
        soundness::sound(m),
        trees::has_tree(m.connections, t),
        !detaching::is_taken(m, t, x.file_id),
    ensures
        soundness::sound(
            StateModel {
                connections: trees::with_tree_opens(
                    m.connections,
                    t,
                    trees::tree_of(m.connections, t)->0.opens.push(x),
                ),
                ..m
            },
        ),
{
    soundness::lemma_tree_is_sound(m.connections, t);
    let opens = trees::tree_of(m.connections, t)->0.opens;
    lists::first_is_first(opens, trees::open_is(x.file_id));
    assert forall|i: int| 0 <= i < opens.len() implies soundness::file_key()(#[trigger] opens[i])
        != soundness::file_key()(x) by {
        assert(!trees::open_is(x.file_id)(opens[i]));
    }
    distinct::pushed_are_distinct(opens, x, soundness::file_key());
    soundness::lemma_tree_opens_set(m.connections, t, opens.push(x));
}

/// A state stays sound when a client comes back for a durable open.
pub proof fn reconnecting_keeps_soundness(m: StateModel, t: TreeRef, r: Reconnect, now: u64)
    requires
        soundness::sound(m),
    ensures
        soundness::sound(detaching::after_reconnect(m, t, r, now)),
{
    match detaching::offered(m, t, r) {
        None => {},
        Some(d) => {
            keeping::lemma_attached(m, r.file_id, t.conn, t.session_id);
            keeping::lemma_durable_dropped(m, r.file_id);
            keeping::lemma_open_discarded(durable::durable_dropped(m, r.file_id), d.open);
            if !detaching::is_taken(m, t, r.file_id) {
                lemma_tree_open_added(m, t, TreeOpen { file_id: r.file_id, open: d.open });
            }
        },
    }
}

/// A state stays sound when a durable open is attached to a tree connect that does not
/// have its file open.
pub proof fn attaching_keeps_soundness(m: StateModel, t: TreeRef, file_id: FileId, open: u64)
    requires
        soundness::sound(m),
        trees::tree_of(m.connections, t) matches Some(tree) && !lists::found(
            tree.opens,
            trees::open_is(file_id),
        ),
    ensures
        soundness::sound(
            StateModel {
                connections: trees::with_tree_opens(
                    m.connections,
                    t,
                    trees::tree_of(m.connections, t)->0.opens.push(TreeOpen { file_id, open }),
                ),
                durable_opens: durable::attached(m.durable_opens, file_id, t.conn, t.session_id),
                ..m
            },
        ),
{
    let opens = trees::tree_of(m.connections, t)->0.opens;
    let x = TreeOpen { file_id, open };
    keeping::lemma_attached(m, file_id, t.conn, t.session_id);
    soundness::lemma_tree_is_sound(m.connections, t);
    lemma_tree_open_added(m, t, x);
}

// ---------------------------------------------------------------------------
// Durable opens that are given up
// ---------------------------------------------------------------------------

/// A state stays sound when a durable open is given up for good.
pub proof fn retiring_keeps_soundness(
    m: StateModel,
    share: Seq<char>,
    file_id: FileId,
    open: u64,
    why: Leaving,
)
    requires
        soundness::sound(m),
    ensures
        soundness::sound(detaching::retired(m, share, file_id, open, why)),
{
    match durable::open_of(m.opens, open) {
        None => {},
        Some(o) => {
            state::open_index_is_first(m.opens, open);
            let left = detaching::opens_stripped(m.opens, open, why);
            keeping::lemma_opens_mapped(m.opens, left);
            let gone = StateModel { opens: left, ..m };
            lemma_unlocked(gone, share, o, file_id);
            let unlocked = locks::lock_waits_retried(
                locks::locks_dropped(gone, share, o.last_path, o.stream_name, file_id),
                share,
                o.last_path,
                o.stream_name,
            );
            keeping::lemma_oplock_waits_resumed(unlocked, file_id);
            let resumed = if why != Leaving::Purged {
                timeouts::oplock_waits_resumed(unlocked, file_id)
            } else {
                unlocked
            };
            let closed = if o.has_handle {
                state::acted(resumed, ActionModel::CloseHandle { open })
            } else {
                resumed
            };
            keeping::lemma_open_let_go(closed, open);
        },
    }
}

/// A state stays sound when the durable opens of an application instance are closed.
pub proof fn instances_keep_soundness(m: StateModel, id: [u8; 16], n: nat)
    requires
        soundness::sound(m),
    ensures
        soundness::sound(detaching::instances_closed(m, id, n)),
    decreases n,
{
    let i = lists::first(m.durable_opens, detaching::instance_is(m.opens, id));
    if n > 0 && i < m.durable_opens.len() {
        let d = m.durable_opens[i];
        keeping::lemma_durable_dropped(m, d.file_id);
        soundness::lemma_taken_live(m.connections, d.file_id, d.open);
        retiring_keeps_soundness(
            StateModel {
                connections: trees::taken_live(m.connections, d.file_id, d.open),
                ..durable::durable_dropped(m, d.file_id)
            },
            d.share,
            d.file_id,
            d.open,
            Leaving::Replaced,
        );
        instances_keep_soundness(detaching::instance_closed(m, d), id, (n - 1) as nat);
    }
}

proof fn lemma_all_retired(m: StateModel, share: Seq<char>, list: Seq<DurableModel>)
    requires
        soundness::sound(m),
    ensures
        soundness::sound(detaching::all_retired(m, share, list)),
    decreases list.len(),
{
    if list.len() > 0 {
        lemma_all_retired(m, share, list.drop_last());
        retiring_keeps_soundness(
            detaching::all_retired(m, share, list.drop_last()),
            share,
            list.last().file_id,
            list.last().open,
            Leaving::Purged,
        );
    }
}

/// A state stays sound when the detached opens below a path are given up.
pub proof fn purging_keeps_soundness(m: StateModel, share: Seq<char>, path: PathModel)
    requires
        soundness::sound(m),
    ensures
        soundness::sound(detaching::purged(m, share, path)),
{
    let s = text::lowered(share);
    let flags = detaching::under_flags(m, s, path);
    distinct::left_are_distinct(m.durable_opens, flags, soundness::durable_key());
    lemma_all_retired(
        StateModel { durable_opens: waiting::unflagged(m.durable_opens, flags), ..m },
        s,
        waiting::flagged(m.durable_opens, flags),
    );
}

/// A state stays sound when detached opens give way to a new one.
pub proof fn giving_way_keeps_soundness(
    m: StateModel,
    flags: Seq<bool>,
    share: Seq<char>,
    list: Seq<TreeOpen>,
)
    requires
        soundness::sound(m),
    ensures
        soundness::sound(
            StateModel { durable_opens: waiting::unflagged(m.durable_opens, flags), ..m },
        ),
        soundness::sound(cleanup::stale_closed(m, share, list).state),
    decreases list.len(),
{
    distinct::left_are_distinct(m.durable_opens, flags, soundness::durable_key());
    if list.len() > 0 {
        let t = list[0];
        let c = cleanup::gone_for_good(m, share, t);
        assert(soundness::sound(c.state)) by {
            reveal(cleanup::gone_for_good);
            retiring_keeps_soundness(m, share, t.file_id, t.open, Leaving::Stale);
            match durable::open_of(m.opens, t.open) {
                None => {},
                Some(o) => {
                    lemma_deleted_with(
                        detaching::retired(m, share, t.file_id, t.open, Leaving::Stale),
                        share,
                        o,
                        t.open,
                        UnlinkReason::LastDetached,
                    );
                },
            }
        }
        giving_way_keeps_soundness(c.state, flags, share, list.skip(1));
    }
}

// ---------------------------------------------------------------------------
// Sessions that are taken over
// ---------------------------------------------------------------------------

proof fn lemma_trees_left(m: StateModel, list: Seq<TreeModel>, deadline: u64)
    requires
        soundness::sound(m),
    ensures
        soundness::sound(cleanup::trees_left(m, list, deadline).0),
    decreases list.len(),
{
    if list.len() > 0 {
        lemma_trees_left(m, list.drop_last(), deadline);
        let tree = list.last();
        lemma_opens_detached(
            cleanup::trees_left(m, list.drop_last(), deadline).0,
            text::lowered(tree.share),
            tree.opens,
            deadline,
        );
    }
}

proof fn lemma_session_waits_ended(m: StateModel, conn: u64, session_id: u64)
    requires
        soundness::sound(m),
    ensures
        soundness::sound(cleanup::session_waits_ended(m, conn, session_id)),
{
    let sel = Selector::Session { conn, session_id };
    let any = Selector::AnySession { session_id };
    keeping::ended_watches_keep_soundness(
        m,
        any,
        Seq::empty(),
        Seq::empty(),
        STATUS_NOTIFY_CLEANUP,
    );
    let a = notify::watches_ended(m, any, STATUS_NOTIFY_CLEANUP);
    keeping::ended_creates_keep_soundness(a, sel, STATUS_NOTIFY_CLEANUP, Seq::empty());
    let b = completions::creates_ended(a, sel, STATUS_NOTIFY_CLEANUP);
    keeping::ended_waits_keep_soundness(b, sel, STATUS_NOTIFY_CLEANUP);
    keeping::ended_waits_keep_soundness(
        writes::writes_ended(b, sel, STATUS_NOTIFY_CLEANUP),
        sel,
        STATUS_NOTIFY_CLEANUP,
    );
}

/// A state stays sound when a session is taken over.
pub proof fn takeovers_keep_soundness(m: StateModel, session_id: u64, deadline: u64)
    requires
        soundness::sound(m),
        connections::live_session(m.connections, session_id) is Some,
    ensures
        soundness::sound(cleanup::taken_over(m, session_id, deadline).0),
{
    let at = connections::carrier(m.connections, session_id);
    lists::first_is_first(m.connections, connections::carries(session_id));
    let c = m.connections[at];
    assert(connections::carries(session_id)(c));
    soundness::lemma_without_session(m.connections, at, session_id);
    let gone = StateModel {
        connections: connections::without_session(m.connections, at, session_id),
        ..m
    };
    lemma_session_waits_ended(gone, c.key, session_id);
    lemma_trees_left(
        cleanup::session_waits_ended(gone, c.key, session_id),
        c.sessions[trees::session_at(c, session_id)].trees,
        deadline,
    );
}

} // verus!
