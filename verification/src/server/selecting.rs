//! Which waiting requests are meant, and what is left when they are answered.

use crate::proto::messages::FileId;
use crate::server::state;
use crate::server::state::StateModel;
use crate::server::types::{ActionModel, BodyModel};
use crate::server::waiting;
use crate::server::waiting::{Selector, WaitingModel};
use vstd::prelude::*;

verus! {

proof fn lemma_parted<A>(s: Seq<A>, all: Seq<A>, test: spec_fn(A) -> bool, x: A)
    requires
        s.len() <= all.len(),
        s == all.take(s.len() as int),
    ensures
        waiting::unflagged(s, all.map_values(test)).contains(x) <==> s.contains(x) && !test(x),
        waiting::flagged(s, all.map_values(test)).contains(x) <==> s.contains(x) && test(x),
    decreases s.len(),
{
    let flags = all.map_values(test);
    if s.len() > 0 {
        let head = s.drop_last();
        assert(head =~= all.take(head.len() as int));
        lemma_parted(head, all, test, x);
        let u = waiting::unflagged(head, flags);
        let f = waiting::flagged(head, flags);
        assert(flags[s.len() - 1] == test(s.last()));
        assert(s =~= head.push(s.last()));
        lemma_pushed(head, s.last(), x);
        lemma_pushed(u, s.last(), x);
        lemma_pushed(f, s.last(), x);
    }
}

proof fn lemma_pushed<A>(s: Seq<A>, y: A, x: A)
    ensures
        s.push(y).contains(x) <==> s.contains(x) || x == y,
{
    let w = s.push(y);
    if w.contains(x) {
        let i = choose|i: int| 0 <= i < w.len() && w[i] == x;
        if i < s.len() {
            assert(s[i] == x);
        }
    }
    if s.contains(x) {
        let i = choose|i: int| 0 <= i < s.len() && s[i] == x;
        assert(w[i] == x);
    }
    assert(w[s.len() as int] == y);
}

/// A test parts a list: the items that pass are taken, the others are left, and none is lost or
/// made up.
pub proof fn items_are_parted_by_a_test<A>(s: Seq<A>, test: spec_fn(A) -> bool, x: A)
    ensures
        waiting::unflagged(s, s.map_values(test)).contains(x) <==> s.contains(x) && !test(x),
        waiting::flagged(s, s.map_values(test)).contains(x) <==> s.contains(x) && test(x),
{
    assert(s.take(s.len() as int) =~= s);
    lemma_parted(s, s, test, x);
}

/// Requests are meant by their connection and asynchronous id, their session, their tree
/// connect, their file or their connection, as the name of the selection says; the others are
/// left.
pub proof fn requests_are_meant_by_what_is_named<M>(
    s: Seq<WaitingModel<M>>,
    w: WaitingModel<M>,
    conn: u64,
    async_id: u64,
    session_id: u64,
    tree_id: u32,
    file_id: FileId,
)
    requires
        s.contains(w),
    ensures
        waiting::taken(s, Selector::Id { conn, async_id }).contains(w) <==> w.conn == conn
            && w.async_id == async_id,
        waiting::taken(s, Selector::Request { conn, async_id, session_id }).contains(w) <==> w.conn
            == conn && w.async_id == async_id && w.request.session_id == session_id,
        waiting::taken(s, Selector::Session { conn, session_id }).contains(w) <==> w.conn == conn
            && w.request.session_id == session_id,
        waiting::taken(s, Selector::AnySession { session_id }).contains(w)
            <==> w.request.session_id == session_id,
        waiting::taken(s, Selector::Tree { conn, session_id, tree_id }).contains(w) <==> w.conn
            == conn && w.request.session_id == session_id && w.request.tree_id == Some(tree_id),
        waiting::taken(s, Selector::File { conn, file_id }).contains(w) <==> w.conn == conn
            && w.file_id == file_id,
        waiting::taken(s, Selector::Connection { conn }).contains(w) <==> w.conn == conn,
{
    lemma_selected(s, Selector::Id { conn, async_id }, w);
    lemma_selected(s, Selector::Request { conn, async_id, session_id }, w);
    lemma_selected(s, Selector::Session { conn, session_id }, w);
    lemma_selected(s, Selector::AnySession { session_id }, w);
    lemma_selected(s, Selector::Tree { conn, session_id, tree_id }, w);
    lemma_selected(s, Selector::File { conn, file_id }, w);
    lemma_selected(s, Selector::Connection { conn }, w);
}

proof fn lemma_selected<M>(s: Seq<WaitingModel<M>>, sel: Selector, w: WaitingModel<M>)
    ensures
        waiting::taken(s, sel).contains(w) <==> s.contains(w) && waiting::selects(sel, w),
        waiting::left(s, sel).contains(w) <==> s.contains(w) && !waiting::selects(sel, w),
{
    let test = |w: WaitingModel<M>| waiting::selects(sel, w);
    assert(waiting::selection(s, sel) =~= s.map_values(test));
    items_are_parted_by_a_test(s, test, w);
}

/// What is not taken is left, and nothing else.
pub proof fn requests_are_taken_or_left<M>(
    s: Seq<WaitingModel<M>>,
    sel: Selector,
    w: WaitingModel<M>,
)
    ensures
        s.contains(w) <==> waiting::taken(s, sel).contains(w) || waiting::left(s, sel).contains(w),
        !(waiting::taken(s, sel).contains(w) && waiting::left(s, sel).contains(w)),
{
    lemma_selected(s, sel, w);
}

/// An answer goes out behind what went out before, to the connection and request that it is for,
/// where the connection is still there; else nothing goes out. One request fewer is pending for
/// the connection, and for no other.
pub proof fn answers_go_to_who_asked(
    m: StateModel,
    conn: u64,
    async_id: u64,
    status: u32,
    body: BodyModel,
    compound: Option<u64>,
    c: int,
)
    requires
        0 <= c < m.connections.len(),
        m.connections[c].key == conn,
        forall|k: int| 0 <= k < c ==> (#[trigger] m.connections[k]).key != conn,
    ensures
        ({
            let after = state::answered(m, conn, async_id, status, body, compound);
            &&& after.outbox == m.outbox.push(
                ActionModel::Respond { conn, async_id, status, body, compound },
            )
            &&& after.connections.len() == m.connections.len()
            &&& m.connections[c].pending_async > 0 ==> after.connections[c].pending_async
                == m.connections[c].pending_async - 1
            &&& m.connections[c].pending_async == 0 ==> after.connections[c].pending_async == 0
            &&& after.connections[c].sessions == m.connections[c].sessions
            &&& forall|k: int|
                0 <= k < m.connections.len() && k != c ==> #[trigger] after.connections[k]
                    == m.connections[k]
        }),
{
    state::conn_index_is_first(m.connections, conn);
    let at = state::conn_index(m.connections, conn);
    if at < c {
        assert(m.connections[at].key != conn);
    }
}

/// Nothing goes out to a connection that is gone.
pub proof fn gone_connections_get_no_answers(
    m: StateModel,
    conn: u64,
    async_id: u64,
    status: u32,
    body: BodyModel,
    compound: Option<u64>,
)
    requires
        forall|k: int| 0 <= k < m.connections.len() ==> (#[trigger] m.connections[k]).key != conn,
    ensures
        state::answered(m, conn, async_id, status, body, compound) == m,
{
    state::conn_index_is_first(m.connections, conn);
}

} // verus!
