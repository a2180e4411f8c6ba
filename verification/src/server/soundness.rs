//! What every operation keeps: nothing is there twice, no connection has too many pending
//! requests, and no two opens hold locks that stand in each other's way.

use crate::ntstatus::STATUS_SUCCESS;
use crate::proto::messages::FileId;
use crate::server::connections;
use crate::server::distinct;
use crate::server::lists;
use crate::server::locks;
use crate::server::rules;
use crate::server::rules::MAX_PENDING_ASYNC_REQUESTS;
use crate::server::shares::{ShareModel, ShareUserModel, UserModel};
use crate::server::state;
use crate::server::state::{CompletedReplayModel, ServerConfig, StateModel};
use crate::server::timeouts;
use crate::server::trees;
use crate::server::types::{
    ByteRangeLockRequest, ConnectionModel, CreateWaitModel, DurableModel, HeldLockModel,
    LeaseGeneration, LockKeyModel, LockWaitModel, NotifyWaitModel, OpenRecordModel, ReplayKeyModel,
    SessionModel, TaskWaitModel, TreeModel, TreeOpen, WriteWaitModel,
};
use crate::server::waiting;
use crate::server::waiting::WaitingModel;
use crate::text;
use vstd::prelude::*;

verus! {

// ---------------------------------------------------------------------------
// Keys
// ---------------------------------------------------------------------------

/// What a connection is known by.
pub open spec fn connection_key() -> spec_fn(ConnectionModel) -> u64 {
    |c: ConnectionModel| c.key
}

/// What a session of a connection is known by.
pub open spec fn session_key() -> spec_fn(SessionModel) -> u64 {
    |s: SessionModel| s.id
}

/// What a tree connect of a session is known by.
pub open spec fn tree_key() -> spec_fn(TreeModel) -> u32 {
    |t: TreeModel| t.id
}

/// What an open of a tree connect is known by.
pub open spec fn file_key() -> spec_fn(TreeOpen) -> FileId {
    |o: TreeOpen| o.file_id
}

/// What an open is known by.
pub open spec fn open_key() -> spec_fn(OpenRecordModel) -> u64 {
    |r: OpenRecordModel| r.key
}

/// What a durable open is known by.
pub open spec fn durable_key() -> spec_fn(DurableModel) -> FileId {
    |d: DurableModel| d.file_id
}

/// What a waiting request is known by.
pub open spec fn request_key<M>() -> spec_fn(WaitingModel<M>) -> (u64, u64) {
    |w: WaitingModel<M>| (w.conn, w.async_id)
}

/// What an answered create request is known by.
pub open spec fn answer_key() -> spec_fn(CompletedReplayModel) -> ReplayKeyModel {
    |r: CompletedReplayModel| r.key
}

/// What the count of the breaks of a lease is known by.
pub open spec fn generation_key() -> spec_fn(LeaseGeneration) -> [u8; 16] {
    |g: LeaseGeneration| g.key
}

/// What a user is known by.
pub open spec fn user_key() -> spec_fn(UserModel) -> Seq<char> {
    |u: UserModel| u.name
}

/// What a user of a share is known by.
pub open spec fn share_user_key() -> spec_fn(ShareUserModel) -> Seq<char> {
    |u: ShareUserModel| u.name
}

/// What a share is known by.
pub open spec fn share_key() -> spec_fn(ShareModel) -> Seq<char> {
    |s: ShareModel| text::lowered(s.name)
}

// ---------------------------------------------------------------------------
// Soundness
// ---------------------------------------------------------------------------

/// Whether a tree connect has each file open once.
pub open spec fn tree_sound(t: TreeModel) -> bool {
    distinct::distinct(t.opens, file_key())
}

/// Whether a session has each tree connect once.
pub open spec fn session_sound(s: SessionModel) -> bool {
    distinct::distinct(s.trees, tree_key()) && forall|i: int|
        0 <= i < s.trees.len() ==> tree_sound(#[trigger] s.trees[i])
}

/// Whether a connection has each session once, and not too many pending requests.
pub open spec fn connection_sound(c: ConnectionModel) -> bool {
    c.pending_async <= MAX_PENDING_ASYNC_REQUESTS && distinct::distinct(c.sessions, session_key())
        && forall|i: int| 0 <= i < c.sessions.len() ==> session_sound(#[trigger] c.sessions[i])
}

/// Whether each connection is there once and is sound.
#[verifier::opaque]
pub open spec fn connections_sound(conns: Seq<ConnectionModel>) -> bool {
    distinct::distinct(conns, connection_key()) && forall|i: int|
        0 <= i < conns.len() ==> connection_sound(#[trigger] conns[i])
}

/// Whether a share names each user once.
pub open spec fn share_sound(s: ShareModel) -> bool {
    distinct::distinct(s.acl.users, share_user_key())
}

/// Whether each share is there once and is sound.
#[verifier::opaque]
pub open spec fn shares_sound(list: Seq<ShareModel>) -> bool {
    distinct::distinct(list, share_key()) && forall|i: int|
        0 <= i < list.len() ==> share_sound(#[trigger] list[i])
}

/// Whether two locks may be held at the same time: they are on different streams or of the
/// same open, or neither stands in the way of the other.
pub open spec fn agree(a: HeldLockModel, b: HeldLockModel) -> bool {
    a.key != b.key || a.lock.fid == b.lock.fid || !locks::stands_in_way(a.lock, b.lock)
}

/// Whether all locks may be held at the same time.
#[verifier::opaque]
pub open spec fn locks_agree(held: Seq<HeldLockModel>) -> bool {
    forall|i: int, j: int|
        0 <= i < j < held.len() ==> agree(#[trigger] held[i], #[trigger] held[j])
}

/// Whether a state is sound: nothing is there twice, no connection has too many pending
/// requests, and no two opens hold locks that stand in each other's way.
pub open spec fn sound(m: StateModel) -> bool {
    &&& connections_sound(m.connections)
    &&& distinct::distinct(m.opens, open_key())
    &&& distinct::distinct(m.durable_opens, durable_key())
    &&& distinct::distinct(m.change_notifies, request_key())
    &&& distinct::distinct(m.pipe_reads, request_key())
    &&& distinct::distinct(m.byte_range_lock_waits, request_key())
    &&& distinct::distinct(m.cache_break_creates, request_key())
    &&& distinct::distinct(m.cache_break_writes, request_key())
    &&& distinct::distinct(m.cache_break_tasks, request_key())
    &&& distinct::distinct(m.completed_create_replays, answer_key())
    &&& distinct::distinct(m.lease_break_generations, generation_key())
    &&& locks_agree(m.byte_range_locks)
    &&& distinct::distinct(m.users, user_key())
    &&& shares_sound(m.shares)
}

/// A server that was just set up is sound where its users are distinct and its shares are
/// sound.
pub proof fn fresh_states_are_sound(
    config: ServerConfig,
    users: Seq<UserModel>,
    list: Seq<ShareModel>,
    now: u64,
)
    requires
        distinct::distinct(users, user_key()),
        shares_sound(list),
    ensures
        sound(state::fresh(config, users, list, now)),
{
    reveal(connections_sound);
    reveal(locks_agree);
    distinct::none_are_distinct(connection_key());
    distinct::none_are_distinct(open_key());
    distinct::none_are_distinct(durable_key());
    distinct::none_are_distinct(request_key::<NotifyWaitModel>());
    distinct::none_are_distinct(request_key::<()>());
    distinct::none_are_distinct(request_key::<LockWaitModel>());
    distinct::none_are_distinct(request_key::<CreateWaitModel>());
    distinct::none_are_distinct(request_key::<WriteWaitModel>());
    distinct::none_are_distinct(request_key::<TaskWaitModel>());
    distinct::none_are_distinct(answer_key());
    distinct::none_are_distinct(generation_key());
}

// ---------------------------------------------------------------------------
// Connections
// ---------------------------------------------------------------------------

pub(crate) proof fn lemma_connection_changed(
    conns: Seq<ConnectionModel>,
    at: int,
    c: ConnectionModel,
)
    requires
        connections_sound(conns),
        0 <= at < conns.len(),
        c.key == conns[at].key,
        connection_sound(c),
    ensures
        connections_sound(conns.update(at, c)),
{
    reveal(connections_sound);
    distinct::same_keys_are_distinct(conns, conns.update(at, c), connection_key());
}

pub(crate) proof fn lemma_sessions_kept(conns: Seq<ConnectionModel>, at: int, c: ConnectionModel)
    requires
        connections_sound(conns),
        0 <= at < conns.len(),
        c.key == conns[at].key,
        c.sessions == conns[at].sessions,
        c.pending_async <= MAX_PENDING_ASYNC_REQUESTS,
    ensures
        connections_sound(conns.update(at, c)),
{
    reveal(connections_sound);
    assert(connection_sound(conns[at]));
    lemma_connection_changed(conns, at, c);
}

pub(crate) proof fn lemma_pending(conns: Seq<ConnectionModel>, at: int)
    requires
        connections_sound(conns),
        0 <= at < conns.len(),
    ensures
        connection_sound(conns[at]),
{
    reveal(connections_sound);
}

pub(crate) proof fn lemma_opens_changed(c: ConnectionModel, s: int, t: int, opens: Seq<TreeOpen>)
    requires
        connection_sound(c),
        0 <= s < c.sessions.len(),
        0 <= t < c.sessions[s].trees.len(),
        distinct::distinct(opens, file_key()),
    ensures
        connection_sound(trees::connection_with(c, s, t, opens)),
{
    let old_session = c.sessions[s];
    let session = trees::session_with(old_session, t, opens);
    assert(session_sound(old_session));
    distinct::same_keys_are_distinct(old_session.trees, session.trees, tree_key());
    assert forall|i: int| 0 <= i < session.trees.len() implies tree_sound(
        #[trigger] session.trees[i],
    ) by {
        assert(tree_sound(old_session.trees[i]));
    }
    let after = trees::connection_with(c, s, t, opens);
    distinct::same_keys_are_distinct(c.sessions, after.sessions, session_key());
    assert forall|i: int| 0 <= i < after.sessions.len() implies session_sound(
        #[trigger] after.sessions[i],
    ) by {
        assert(session_sound(c.sessions[i]));
    }
}

pub(crate) proof fn lemma_tree_opens_set(
    conns: Seq<ConnectionModel>,
    t: trees::TreeRef,
    opens: Seq<TreeOpen>,
)
    requires
        connections_sound(conns),
        distinct::distinct(opens, file_key()),
    ensures
        connections_sound(trees::with_tree_opens(conns, t, opens)),
{
    if trees::has_tree(conns, t) {
        state::conn_index_is_first(conns, t.conn);
        let c = state::conn_index(conns, t.conn);
        lists::first_is_first(conns[c].sessions, trees::session_is(t.session_id));
        let s = trees::session_at(conns[c], t.session_id);
        lists::first_is_first(conns[c].sessions[s].trees, trees::tree_is(t.tree_id));
        let x = trees::tree_at(conns[c].sessions[s], t.tree_id);
        lemma_pending(conns, c);
        lemma_opens_changed(conns[c], s, x, opens);
        lemma_connection_changed(conns, c, trees::connection_with(conns[c], s, x, opens));
    }
}

pub(crate) proof fn lemma_tree_is_sound(conns: Seq<ConnectionModel>, t: trees::TreeRef)
    requires
        connections_sound(conns),
        trees::has_tree(conns, t),
    ensures
        distinct::distinct(trees::tree_of(conns, t)->0.opens, file_key()),
{
    state::conn_index_is_first(conns, t.conn);
    let c = state::conn_index(conns, t.conn);
    lists::first_is_first(conns[c].sessions, trees::session_is(t.session_id));
    let s = trees::session_at(conns[c], t.session_id);
    lists::first_is_first(conns[c].sessions[s].trees, trees::tree_is(t.tree_id));
    let x = trees::tree_at(conns[c].sessions[s], t.tree_id);
    lemma_pending(conns, c);
    assert(session_sound(conns[c].sessions[s]));
    assert(tree_sound(conns[c].sessions[s].trees[x]));
}

pub(crate) proof fn lemma_without_file(opens: Seq<TreeOpen>, file_id: FileId)
    requires
        distinct::distinct(opens, file_key()),
    ensures
        distinct::distinct(trees::without_file(opens, file_id), file_key()),
{
    let i = lists::first(opens, trees::open_is(file_id));
    lists::first_is_first(opens, trees::open_is(file_id));
    if i < opens.len() {
        distinct::removed_are_distinct(opens, i, file_key());
    }
}

pub(crate) proof fn lemma_connection_without(c: ConnectionModel, w: trees::Wanted)
    requires
        connection_sound(c),
    ensures
        connection_sound(trees::connection_without(c, w)),
        trees::connection_without(c, w).key == c.key,
{
    lists::first_is_first(c.sessions, trees::session_holds(w));
    if lists::found(c.sessions, trees::session_holds(w)) {
        let s = lists::first(c.sessions, trees::session_holds(w));
        assert(trees::session_holds(w)(c.sessions[s]));
        lists::first_is_first(c.sessions[s].trees, trees::tree_holds(w));
        let t = lists::first(c.sessions[s].trees, trees::tree_holds(w));
        assert(session_sound(c.sessions[s]));
        assert(tree_sound(c.sessions[s].trees[t]));
        lemma_without_file(trees::held_opens(c, w), w.file_id);
        lemma_opens_changed(
            c,
            s,
            t,
            trees::without_file(trees::held_opens(c, w), w.file_id),
        );
    }
}

pub(crate) proof fn lemma_taken_on(conns: Seq<ConnectionModel>, conn: u64, file_id: FileId)
    requires
        connections_sound(conns),
    ensures
        connections_sound(trees::taken_on(conns, conn, file_id)),
{
    state::conn_index_is_first(conns, conn);
    if state::conn_alive(conns, conn) {
        let i = state::conn_index(conns, conn);
        let w = trees::Wanted { file_id, open: None };
        lemma_pending(conns, i);
        lemma_connection_without(conns[i], w);
        lemma_connection_changed(conns, i, trees::connection_without(conns[i], w));
    }
}

pub(crate) proof fn lemma_taken_live(conns: Seq<ConnectionModel>, file_id: FileId, open: u64)
    requires
        connections_sound(conns),
    ensures
        connections_sound(trees::taken_live(conns, file_id, open)),
{
    let w = trees::Wanted { file_id, open: Some(open) };
    let i = lists::first(conns, trees::connection_holds(w));
    lists::first_is_first(conns, trees::connection_holds(w));
    if i < conns.len() {
        lemma_pending(conns, i);
        lemma_connection_without(conns[i], w);
        lemma_connection_changed(conns, i, trees::connection_without(conns[i], w));
    }
}

pub(crate) proof fn lemma_released(conns: Seq<ConnectionModel>, key: u64)
    requires
        connections_sound(conns),
    ensures
        connections_sound(state::released(conns, key)),
{
    state::conn_index_is_first(conns, key);
    let i = state::conn_index(conns, key);
    if i < conns.len() && conns[i].pending_async > 0 {
        lemma_pending(conns, i);
        let c = ConnectionModel {
            pending_async: (conns[i].pending_async - 1) as usize,
            ..conns[i]
        };
        lemma_sessions_kept(conns, i, c);
    }
}

pub(crate) proof fn lemma_force_taken(conns: Seq<ConnectionModel>, key: u64)
    requires
        connections_sound(conns),
    ensures
        connections_sound(timeouts::force_taken(conns, key)),
{
    state::conn_index_is_first(conns, key);
    let i = state::conn_index(conns, key);
    if i < conns.len() {
        lemma_pending(conns, i);
        lemma_sessions_kept(conns, i, ConnectionModel { force_unacked: false, ..conns[i] });
    }
}

proof fn lemma_number_freed(conns: Seq<ConnectionModel>, id: u64)
    requires
        connections_sound(conns),
    ensures
        connections_sound(connections::number_freed(conns, id)),
{
    reveal(connections_sound);
    let after = connections::number_freed(conns, id);
    distinct::same_keys_are_distinct(conns, after, connection_key());
    assert forall|i: int| 0 <= i < after.len() implies connection_sound(#[trigger] after[i]) by {
        assert(connection_sound(conns[i]));
    }
}

proof fn lemma_number_given(conns: Seq<ConnectionModel>, at: int, id: u64)
    requires
        connections_sound(conns),
    ensures
        connections_sound(connections::number_given(conns, at, id)),
{
    if 0 <= at < conns.len() {
        let freed = connections::number_freed(conns, id);
        lemma_number_freed(conns, id);
        lemma_pending(freed, at);
        let c = freed[at];
        lemma_sessions_kept(freed, at, ConnectionModel { numbers: c.numbers.push(id), ..c });
    }
}

pub(crate) proof fn lemma_without_session(conns: Seq<ConnectionModel>, at: int, session_id: u64)
    requires
        connections_sound(conns),
        0 <= at < conns.len(),
        trees::session_at(conns[at], session_id) < conns[at].sessions.len(),
    ensures
        connections_sound(connections::without_session(conns, at, session_id)),
{
    let c = conns[at];
    lemma_pending(conns, at);
    lists::first_is_first(c.sessions, trees::session_is(session_id));
    let i = trees::session_at(c, session_id);
    let left = c.sessions.remove(i);
    distinct::removed_are_distinct(c.sessions, i, session_key());
    assert forall|j: int| 0 <= j < left.len() implies session_sound(#[trigger] left[j]) by {
        if j < i {
            assert(session_sound(c.sessions[j]));
        } else {
            assert(session_sound(c.sessions[j + 1]));
        }
    }
    lemma_connection_changed(conns, at, ConnectionModel { sessions: left, ..c });
}

/// A state stays sound when a connection is taken in that is not there yet.
pub proof fn new_connections_are_sound(m: StateModel, c: ConnectionModel)
    requires
        sound(m),
        !state::conn_alive(m.connections, c.key),
        c.sessions.len() == 0,
        c.pending_async == 0,
    ensures
        sound(StateModel { connections: m.connections.push(c), ..m }),
{
    reveal(connections_sound);
    state::conn_index_is_first(m.connections, c.key);
    distinct::pushed_are_distinct(m.connections, c, connection_key());
    assert(c.sessions =~= Seq::empty());
    distinct::none_are_distinct(session_key());
}

pub(crate) proof fn lemma_connection_removed(m: StateModel, key: u64)
    requires
        sound(m),
        state::conn_alive(m.connections, key),
    ensures
        sound(
            StateModel {
                connections: m.connections.remove(state::conn_index(m.connections, key)),
                ..m
            },
        ),
{
    reveal(connections_sound);
    state::conn_index_is_first(m.connections, key);
    let i = state::conn_index(m.connections, key);
    distinct::removed_are_distinct(m.connections, i, connection_key());
    let left = m.connections.remove(i);
    assert forall|j: int| 0 <= j < left.len() implies connection_sound(#[trigger] left[j]) by {
        if j < i {
            assert(connection_sound(m.connections[j]));
        } else {
            assert(connection_sound(m.connections[j + 1]));
        }
    }
}

/// A state stays sound when a session is added that the connection does not have.
pub proof fn new_sessions_are_sound(m: StateModel, conn: u64, s: SessionModel)
    requires
        sound(m),
        state::conn_alive(m.connections, conn),
        !lists::found(
            m.connections[state::conn_index(m.connections, conn)].sessions,
            trees::session_is(s.id),
        ),
        s.trees.len() == 0,
    ensures
        ({
            let i = state::conn_index(m.connections, conn);
            let c = m.connections[i];
            sound(
                StateModel {
                    connections: m.connections.update(
                        i,
                        ConnectionModel { sessions: c.sessions.push(s), ..c },
                    ),
                    ..m
                },
            )
        }),
{
    state::conn_index_is_first(m.connections, conn);
    let i = state::conn_index(m.connections, conn);
    let c = m.connections[i];
    lemma_pending(m.connections, i);
    lists::first_is_first(c.sessions, trees::session_is(s.id));
    assert forall|j: int| 0 <= j < c.sessions.len() implies session_key()(
        #[trigger] c.sessions[j],
    ) != session_key()(s) by {
        assert(!trees::session_is(s.id)(c.sessions[j]));
    }
    distinct::pushed_are_distinct(c.sessions, s, session_key());
    assert(s.trees =~= Seq::empty());
    distinct::none_are_distinct(tree_key());
    let after = ConnectionModel { sessions: c.sessions.push(s), ..c };
    assert forall|j: int| 0 <= j < after.sessions.len() implies session_sound(
        #[trigger] after.sessions[j],
    ) by {
        if j < c.sessions.len() {
            assert(session_sound(c.sessions[j]));
        }
    }
    lemma_connection_changed(m.connections, i, after);
}

/// A state stays sound when a tree connect is added that the session does not have.
pub proof fn new_trees_are_sound(m: StateModel, at: int, s: int, t: TreeModel)
    requires
        sound(m),
        0 <= at < m.connections.len(),
        0 <= s < m.connections[at].sessions.len(),
        !lists::found(m.connections[at].sessions[s].trees, trees::tree_is(t.id)),
        t.opens.len() == 0,
    ensures
        sound(
            StateModel {
                connections: m.connections.update(
                    at,
                    connections::with_tree(m.connections[at], s, t),
                ),
                ..m
            },
        ),
{
    let c = m.connections[at];
    let old_session = c.sessions[s];
    lemma_pending(m.connections, at);
    assert(session_sound(old_session));
    lists::first_is_first(old_session.trees, trees::tree_is(t.id));
    assert forall|j: int| 0 <= j < old_session.trees.len() implies tree_key()(
        #[trigger] old_session.trees[j],
    ) != tree_key()(t) by {
        assert(!trees::tree_is(t.id)(old_session.trees[j]));
    }
    distinct::pushed_are_distinct(old_session.trees, t, tree_key());
    assert(t.opens =~= Seq::empty());
    distinct::none_are_distinct(file_key());
    let session = SessionModel { trees: old_session.trees.push(t), ..old_session };
    assert forall|j: int| 0 <= j < session.trees.len() implies tree_sound(
        #[trigger] session.trees[j],
    ) by {
        if j < old_session.trees.len() {
            assert(tree_sound(old_session.trees[j]));
        }
    }
    let after = connections::with_tree(c, s, t);
    distinct::same_keys_are_distinct(c.sessions, after.sessions, session_key());
    assert forall|j: int| 0 <= j < after.sessions.len() implies session_sound(
        #[trigger] after.sessions[j],
    ) by {
        if j != s {
            assert(session_sound(c.sessions[j]));
        }
    }
    lemma_connection_changed(m.connections, at, after);
}

/// A state stays sound when a tree connect is given other opens, each once.
pub proof fn other_opens_are_sound(m: StateModel, t: trees::TreeRef, opens: Seq<TreeOpen>)
    requires
        sound(m),
        distinct::distinct(opens, file_key()),
    ensures
        sound(
            StateModel { connections: trees::with_tree_opens(m.connections, t, opens), ..m },
        ),
{
    lemma_tree_opens_set(m.connections, t, opens);
}

/// A state stays sound when connections are numbered and when a request is counted.
pub proof fn counting_keeps_soundness(m: StateModel, key: u64)
    requires
        sound(m),
    ensures
        sound(connections::registered(m, key)),
        sound(connections::unregistered(m, key)),
        sound(connections::slot_reserved(m, key)),
        sound(state::slot_released(m, key)),
{
    let conns = m.connections;
    lemma_number_given(conns, state::conn_index(conns, key), m.next_connection_id);
    lemma_number_freed(conns, key);
    lemma_released(conns, key);
    state::conn_index_is_first(conns, key);
    if connections::has_room(conns, key) {
        let i = state::conn_index(conns, key);
        lemma_pending(conns, i);
        let c = ConnectionModel {
            pending_async: (conns[i].pending_async + 1) as usize,
            ..conns[i]
        };
        lemma_sessions_kept(conns, i, c);
    }
}

// ---------------------------------------------------------------------------
// Locks
// ---------------------------------------------------------------------------

pub(crate) proof fn lemma_locks_left(held: Seq<HeldLockModel>, flags: Seq<bool>)
    requires
        locks_agree(held),
    ensures
        locks_agree(waiting::unflagged(held, flags)),
    decreases held.len(),
{
    reveal(locks_agree);
    if held.len() > 0 {
        let head = held.drop_last();
        assert forall|i: int, j: int| 0 <= i < j < head.len() implies agree(
            #[trigger] head[i],
            #[trigger] head[j],
        ) by {
            assert(agree(held[i], held[j]));
        }
        lemma_locks_left(head, flags);
        let before = waiting::unflagged(head, flags);
        let last = held.last();
        assert forall|i: int| 0 <= i < head.len() && !flags[i] implies agree(
            #[trigger] head[i],
            last,
        ) by {
            assert(agree(held[i], held[held.len() - 1]));
        }
        distinct::left_are_from(head, flags, |l: HeldLockModel| agree(l, last));
        if !flags[held.len() - 1] {
            let all = before.push(last);
            assert forall|i: int, j: int| 0 <= i < j < all.len() implies agree(
                #[trigger] all[i],
                #[trigger] all[j],
            ) by {
                if j < before.len() {
                    assert(agree(before[i], before[j]));
                } else {
                    assert((|l: HeldLockModel| agree(l, last))(before[i]));
                }
            }
        }
    }
}

pub(crate) proof fn lemma_locks_taken(held: Seq<HeldLockModel>, flags: Seq<bool>)
    requires
        locks_agree(held),
    ensures
        locks_agree(waiting::flagged(held, flags)),
    decreases held.len(),
{
    reveal(locks_agree);
    if held.len() > 0 {
        let head = held.drop_last();
        assert forall|i: int, j: int| 0 <= i < j < head.len() implies agree(
            #[trigger] head[i],
            #[trigger] head[j],
        ) by {
            assert(agree(held[i], held[j]));
        }
        lemma_locks_taken(head, flags);
        let before = waiting::flagged(head, flags);
        let last = held.last();
        if flags[held.len() - 1] {
            let all = before.push(last);
            assert forall|i: int, j: int| 0 <= i < j < all.len() implies agree(
                #[trigger] all[i],
                #[trigger] all[j],
            ) by {
                if j < before.len() {
                    assert(agree(before[i], before[j]));
                } else {
                    waiting::flagged_contains(head, flags, before[i]);
                    assert(before.contains(before[i]));
                    let k = choose|k: int|
                        0 <= k < head.len() && head[k] == before[i] && flags[k];
                    assert(agree(held[k], held[held.len() - 1]));
                }
            }
        }
    }
}

pub(crate) proof fn lemma_lock_added(
    held: Seq<HeldLockModel>,
    key: LockKeyModel,
    next: ByteRangeLockRequest,
)
    requires
        locks_agree(held),
        !locks::refused(held, key, next),
    ensures
        locks_agree(held.push(HeldLockModel { key, lock: next })),
{
    reveal(locks_agree);
    let all = held.push(HeldLockModel { key, lock: next });
    assert forall|i: int, j: int| 0 <= i < j < all.len() implies agree(
        #[trigger] all[i],
        #[trigger] all[j],
    ) by {
        if j == held.len() {
            assert(!locks::refuses(held[i], key, next));
        } else {
            assert(agree(held[i], held[j]));
        }
    }
}

pub(crate) proof fn lemma_locks_granted(
    held: Seq<HeldLockModel>,
    key: LockKeyModel,
    requests: Seq<ByteRangeLockRequest>,
    from: int,
    n: int,
)
    requires
        0 <= from <= n <= locks::first_refused(held, key, requests, from),
        n <= requests.len(),
        locks_agree(locks::with_locks(held, key, requests, from)),
    ensures
        locks_agree(locks::with_locks(held, key, requests, n)),
    decreases n - from,
{
    if from < n {
        let before = locks::with_locks(held, key, requests, from);
        assert(!locks::refused(before, key, requests[from]));
        lemma_lock_added(before, key, requests[from]);
        assert(requests.take(from + 1) =~= requests.take(from).push(requests[from]));
        assert(before.push(HeldLockModel { key, lock: requests[from] }) =~= locks::with_locks(
            held,
            key,
            requests,
            from + 1,
        ));
        lemma_locks_granted(held, key, requests, from + 1, n);
    }
}

pub(crate) proof fn lemma_first_refused(
    held: Seq<HeldLockModel>,
    key: LockKeyModel,
    requests: Seq<ByteRangeLockRequest>,
    n: int,
)
    requires
        0 <= n <= requests.len(),
    ensures
        n <= locks::first_refused(held, key, requests, n) <= requests.len(),
    decreases requests.len() - n,
{
    if n < requests.len() {
        lemma_first_refused(held, key, requests, n + 1);
    }
}

/// Locks that are granted agree with those that are held, whether or not all that is asked
/// for is granted.
pub proof fn granted_locks_agree(
    held: Seq<HeldLockModel>,
    key: LockKeyModel,
    requests: Seq<ByteRangeLockRequest>,
)
    requires
        locks_agree(held),
    ensures
        locks_agree(locks::locks_after(held, key, requests)),
{
    let n = locks::first_refused(held, key, requests, 0);
    lemma_first_refused(held, key, requests, 0);
    assert(requests.take(0) =~= Seq::empty());
    assert(locks::with_locks(held, key, requests, 0) =~= held);
    lemma_locks_granted(held, key, requests, 0, n);
    let all = locks::with_locks(held, key, requests, n);
    let some = requests.take(n);
    lemma_locks_left(
        all,
        all.map_values(|l: HeldLockModel| locks::is_one_of(l, key, some)),
    );
}

/// Who holds an exclusive lock may write all of its range, where the open holds no shared
/// lock there.
pub proof fn exclusive_holders_may_write(
    held: Seq<HeldLockModel>,
    i: int,
    offset: u64,
    length: u64,
)
    requires
        locks_agree(held),
        0 <= i < held.len(),
        held[i].lock.exclusive,
        held[i].lock.offset <= offset,
        offset + length <= held[i].lock.offset + held[i].lock.length <= 0x1_0000_0000_0000_0000,
        length > 0,
        forall|j: int|
            0 <= j < held.len() && (#[trigger] held[j]).key == held[i].key && held[j].lock.fid
                == held[i].lock.fid && rules::overlap(
                held[j].lock.offset,
                held[j].lock.length,
                offset,
                length,
            ) ==> held[j].lock.exclusive,
    ensures
        locks::write_status(held, held[i].key, held[i].lock.fid, offset, length)
            == STATUS_SUCCESS,
{
    reveal(locks_agree);
    let mine = held[i];
    assert forall|j: int| 0 <= j < held.len() implies !locks::forbids_write(
        #[trigger] held[j],
        mine.key,
        mine.lock.fid,
        offset,
        length,
    ) by {
        let other = held[j];
        if locks::forbids_write(other, mine.key, mine.lock.fid, offset, length) {
            assert(other.lock.fid != mine.lock.fid);
            assert(rules::overlap(
                other.lock.offset,
                other.lock.length,
                mine.lock.offset,
                mine.lock.length,
            ));
            if i < j {
                assert(agree(held[i], held[j]));
                locks::lock_conflicts_are_mutual(mine.lock, other.lock);
            } else {
                assert(agree(held[j], held[i]));
            }
        }
    }
}

/// Locks that are left after ranges were unlocked agree.
pub proof fn unlocking_keeps_agreement(
    held: Seq<HeldLockModel>,
    key: LockKeyModel,
    fid: FileId,
    ranges: Seq<(u64, u64)>,
    n: int,
)
    requires
        locks_agree(held),
    ensures
        locks::unlocked(held, key, fid, ranges, n) matches Some(left) ==> locks_agree(left),
    decreases n,
{
    if n > 0 {
        unlocking_keeps_agreement(held, key, fid, ranges, n - 1);
        match locks::unlocked(held, key, fid, ranges, n - 1) {
            None => {},
            Some(before) => {
                let at = locks::range_index(before, key, fid, ranges[n - 1]);
                lemma_range_index_bound(before, key, fid, ranges[n - 1]);
                if at < before.len() {
                    reveal(locks_agree);
                    let left = before.remove(at);
                    assert forall|i: int, j: int| 0 <= i < j < left.len() implies agree(
                        #[trigger] left[i],
                        #[trigger] left[j],
                    ) by {
                        let a = if i < at {
                            i
                        } else {
                            i + 1
                        };
                        let b = if j < at {
                            j
                        } else {
                            j + 1
                        };
                        assert(agree(before[a], before[b]));
                    }
                }
            },
        }
    }
}

pub(crate) proof fn lemma_range_index_bound(
    held: Seq<HeldLockModel>,
    key: LockKeyModel,
    fid: FileId,
    range: (u64, u64),
)
    ensures
        locks::range_index(held, key, fid, range) >= 0,
    decreases held.len(),
{
    if held.len() > 0 {
        lemma_range_index_bound(held.skip(1), key, fid, range);
    }
}

pub(crate) proof fn lemma_retried(m: StateModel, waits: Seq<WaitingModel<LockWaitModel>>)
    requires
        locks_agree(m.byte_range_locks),
        distinct::distinct(waits, request_key()),
    ensures
        ({
            let r = locks::retried(m, waits);
            &&& locks_agree(r.locks)
            &&& distinct::distinct(r.still, request_key())
            &&& forall|j: int| 0 <= j < r.still.len() ==> waits.contains(#[trigger] r.still[j])
        }),
    decreases waits.len(),
{
    let r = locks::retried(m, waits);
    if waits.len() == 0 {
        assert(r.still =~= Seq::empty());
        distinct::none_are_distinct(request_key::<LockWaitModel>());
    } else {
        let head = waits.drop_last();
        let w = waits.last();
        let before = locks::retried(m, head);
        assert(distinct::distinct(head, request_key())) by {
            reveal(distinct::distinct);
            assert forall|i: int, j: int| 0 <= i < j < head.len() implies request_key()(
                #[trigger] head[i],
            ) != request_key()(#[trigger] head[j]) by {
                assert(request_key()(waits[i]) != request_key()(waits[j]));
            }
        }
        lemma_retried(m, head);
        granted_locks_agree(before.locks, locks::wait_key(w), w.detail.locks);
        assert forall|j: int| 0 <= j < before.still.len() implies request_key()(
            #[trigger] before.still[j],
        ) != request_key()(w) by {
            assert(head.contains(before.still[j]));
            let i = choose|i: int| 0 <= i < head.len() && head[i] == before.still[j];
            reveal(distinct::distinct);
            assert(request_key()(waits[i]) != request_key()(waits[waits.len() - 1]));
        }
        distinct::pushed_are_distinct(before.still, w, request_key());
        assert forall|j: int| 0 <= j < r.still.len() implies waits.contains(
            #[trigger] r.still[j],
        ) by {
            if j < before.still.len() {
                assert(head.contains(before.still[j]));
                let i = choose|i: int| 0 <= i < head.len() && head[i] == before.still[j];
                assert(waits[i] == r.still[j]);
            } else {
                assert(waits[waits.len() - 1] == r.still[j]);
            }
        }
    }
}

} // verus!
