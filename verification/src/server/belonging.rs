//! What belongs to a connection, a session and a tree connect, and what follows a rename.

use crate::path::PathModel;
use crate::proto::messages::FileId;
use crate::server::cleanup;
use crate::server::cleanup::FreshOpen;
use crate::server::connections;
use crate::server::detaching;
use crate::server::lists;
use crate::server::moves;
use crate::server::rules;
use crate::server::state;
use crate::server::state::StateModel;
use crate::server::trees;
use crate::server::trees::TreeRef;
use crate::server::types;
use crate::server::types::{
    ConnectionModel, DurableModel, OpenRecordModel, TreeOpen,
};
use crate::text;
use vstd::prelude::*;

verus! {

/// Whether a tree connect stands in a session of a connection at these places, and is the first
/// with its id there.
pub open spec fn stands_at(
    conns: Seq<ConnectionModel>,
    t: TreeRef,
    c: int,
    s: int,
    k: int,
) -> bool {
    &&& 0 <= c < conns.len()
    &&& conns[c].key == t.conn
    &&& forall|i: int| 0 <= i < c ==> (#[trigger] conns[i]).key != t.conn
    &&& 0 <= s < conns[c].sessions.len()
    &&& conns[c].sessions[s].id == t.session_id
    &&& forall|i: int| 0 <= i < s ==> (#[trigger] conns[c].sessions[i]).id != t.session_id
    &&& 0 <= k < conns[c].sessions[s].trees.len()
    &&& conns[c].sessions[s].trees[k].id == t.tree_id
    &&& forall|i: int|
        0 <= i < k ==> (#[trigger] conns[c].sessions[s].trees[i]).id != t.tree_id
}

/// A tree connect is found by connection, session and tree id; giving it other opens changes
/// these, and nothing else of it or of any other tree connect, session or connection.
pub proof fn trees_are_found_by_their_ids(
    conns: Seq<ConnectionModel>,
    t: TreeRef,
    opens: Seq<TreeOpen>,
    c: int,
    s: int,
    k: int,
)
    requires
        stands_at(conns, t, c, s, k),
    ensures
        trees::tree_of(conns, t) == Some(conns[c].sessions[s].trees[k]),
        ({
            let after = trees::with_tree_opens(conns, t, opens);
            &&& after.len() == conns.len()
            &&& after[c].key == conns[c].key && after[c].numbers == conns[c].numbers
                && after[c].pending_async == conns[c].pending_async && after[c].negotiated
                == conns[c].negotiated
            &&& after[c].sessions.len() == conns[c].sessions.len()
            &&& after[c].sessions[s].id == t.session_id && after[c].sessions[s].trees.len()
                == conns[c].sessions[s].trees.len()
            &&& after[c].sessions[s].trees[k].opens == opens
            &&& after[c].sessions[s].trees[k].id == t.tree_id
                && after[c].sessions[s].trees[k].share == conns[c].sessions[s].trees[k].share
            &&& forall|i: int| 0 <= i < conns.len() && i != c ==> #[trigger] after[i] == conns[i]
            &&& forall|i: int|
                0 <= i < conns[c].sessions.len() && i != s ==> #[trigger] after[c].sessions[i]
                    == conns[c].sessions[i]
            &&& forall|i: int|
                0 <= i < conns[c].sessions[s].trees.len() && i != k
                    ==> #[trigger] after[c].sessions[s].trees[i] == conns[c].sessions[s].trees[i]
        }),
{
    state::conn_index_is_first(conns, t.conn);
    let at = state::conn_index(conns, t.conn);
    if at < c {
        assert(conns[at].key != t.conn);
    }
    lists::first_at(conns[c].sessions, trees::session_is(t.session_id), s);
    lists::first_at(conns[c].sessions[s].trees, trees::tree_is(t.tree_id), k);
}

/// An open of a tree connect is found by its file id, the first where there are several, and
/// taken out alone.
pub proof fn tree_opens_are_found_by_file_id(opens: Seq<TreeOpen>, file_id: FileId, i: int)
    requires
        0 <= i < opens.len(),
        opens[i].file_id == file_id,
        forall|k: int| 0 <= k < i ==> (#[trigger] opens[k]).file_id != file_id,
    ensures
        trees::open_of(opens, file_id) == Some(opens[i].open),
        trees::without_file(opens, file_id) == opens.remove(i),
{
    lists::first_at(opens, trees::open_is(file_id), i);
}

/// A file id that a tree connect does not have finds nothing and takes nothing out.
pub proof fn unknown_file_ids_find_nothing(opens: Seq<TreeOpen>, file_id: FileId)
    requires
        forall|k: int| 0 <= k < opens.len() ==> (#[trigger] opens[k]).file_id != file_id,
    ensures
        trees::open_of(opens, file_id) is None,
        trees::without_file(opens, file_id) == opens,
{
    lists::first_at(opens, trees::open_is(file_id), opens.len() as int);
}

/// An open is kept as long as some tree connect of some session of some connection has it.
pub proof fn opens_are_kept_by_tree_connects(
    conns: Seq<ConnectionModel>,
    open: u64,
    c: int,
    s: int,
    k: int,
    o: int,
)
    requires
        0 <= c < conns.len(),
        0 <= s < conns[c].sessions.len(),
        0 <= k < conns[c].sessions[s].trees.len(),
        0 <= o < conns[c].sessions[s].trees[k].opens.len(),
        conns[c].sessions[s].trees[k].opens[o].open == open,
    ensures
        trees::is_kept(conns, open),
{
    let tree = conns[c].sessions[s].trees[k];
    lists::first_is_first(tree.opens, trees::refers_to(open));
    assert(trees::refers_to(open)(tree.opens[o]));
    assert(lists::found(tree.opens, trees::refers_to(open)));
    let session = conns[c].sessions[s];
    lists::first_is_first(session.trees, trees::tree_keeps(open));
    assert(trees::tree_keeps(open)(session.trees[k]));
    assert(lists::found(session.trees, trees::tree_keeps(open)));
    lists::first_is_first(conns[c].sessions, trees::session_keeps(open));
    assert(trees::session_keeps(open)(conns[c].sessions[s]));
    assert(lists::found(conns[c].sessions, trees::session_keeps(open)));
    lists::first_is_first(conns, trees::connection_keeps(open));
    assert(trees::connection_keeps(open)(conns[c]));
}

/// An open that no tree connect has is not kept.
pub proof fn opens_of_no_tree_connect_are_not_kept(
    conns: Seq<ConnectionModel>,
    open: u64,
) -> (at: (int, int, int, int))
    requires
        trees::is_kept(conns, open),
    ensures
        0 <= at.0 < conns.len(),
        0 <= at.1 < conns[at.0].sessions.len(),
        0 <= at.2 < conns[at.0].sessions[at.1].trees.len(),
        0 <= at.3 < conns[at.0].sessions[at.1].trees[at.2].opens.len(),
        conns[at.0].sessions[at.1].trees[at.2].opens[at.3].open == open,
{
    lists::first_is_first(conns, trees::connection_keeps(open));
    let c = lists::first(conns, trees::connection_keeps(open));
    lists::first_is_first(conns[c].sessions, trees::session_keeps(open));
    let s = lists::first(conns[c].sessions, trees::session_keeps(open));
    let session = conns[c].sessions[s];
    lists::first_is_first(session.trees, trees::tree_keeps(open));
    let k = lists::first(session.trees, trees::tree_keeps(open));
    lists::first_is_first(session.trees[k].opens, trees::refers_to(open));
    (c, s, k, lists::first(session.trees[k].opens, trees::refers_to(open)))
}

/// A session is carried by the first active connection that has it; one that only an inactive
/// connection has is carried by none.
pub proof fn sessions_are_carried_by_active_connections(
    conns: Seq<ConnectionModel>,
    session_id: u64,
    c: int,
    s: int,
)
    requires
        0 <= c < conns.len(),
        conns[c].numbers.len() > 0,
        0 <= s < conns[c].sessions.len(),
        conns[c].sessions[s].id == session_id,
        forall|i: int| 0 <= i < s ==> (#[trigger] conns[c].sessions[i]).id != session_id,
        forall|i: int|
            0 <= i < c ==> (#[trigger] conns[i]).numbers.len() == 0 || forall|k: int|
                0 <= k < conns[i].sessions.len() ==> (#[trigger] conns[i].sessions[k]).id
                    != session_id,
    ensures
        connections::carrier(conns, session_id) == c,
        connections::live_session(conns, session_id) == Some(conns[c].sessions[s]),
        connections::without_session(conns, c, session_id)[c].sessions == conns[c].sessions.remove(
            s,
        ),
        forall|i: int|
            0 <= i < conns.len() && i != c ==> #[trigger] connections::without_session(
                conns,
                c,
                session_id,
            )[i] == conns[i],
{
    let is = trees::session_is(session_id);
    lists::first_at(conns[c].sessions, is, s);
    assert forall|i: int| 0 <= i < c implies !connections::carries(session_id)(
        #[trigger] conns[i],
    ) by {
        lists::first_is_first(conns[i].sessions, is);
        let n = lists::first(conns[i].sessions, is);
        if conns[i].numbers.len() > 0 && n < conns[i].sessions.len() {
            assert(conns[i].sessions[n].id != session_id);
        }
    }
    lists::first_at(conns, connections::carries(session_id), c);
}

/// A connection has room for pending requests below the most that it may have, and each that is
/// counted is one more, for it alone.
pub proof fn pending_requests_are_counted(m: StateModel, conn: u64, c: int)
    requires
        0 <= c < m.connections.len(),
        m.connections[c].key == conn,
        forall|k: int| 0 <= k < c ==> (#[trigger] m.connections[k]).key != conn,
    ensures
        m.connections[c].pending_async < 511 ==> connections::slot_reserved(
            m,
            conn,
        ).connections[c].pending_async == m.connections[c].pending_async + 1,
        m.connections[c].pending_async >= 511 ==> connections::slot_reserved(m, conn) == m,
        connections::slot_reserved(m, conn).connections.len() == m.connections.len(),
        forall|k: int|
            0 <= k < m.connections.len() && k != c ==> #[trigger] connections::slot_reserved(
                m,
                conn,
            ).connections[k] == m.connections[k],
{
    state::conn_index_is_first(m.connections, conn);
    let at = state::conn_index(m.connections, conn);
    if at < c {
        assert(m.connections[at].key != conn);
    }
}

/// Numbers of connections count up and start again at zero.
pub proof fn connection_numbers_count_up(id: u64)
    ensures
        id < u64::MAX ==> connections::next_number(id) == id + 1,
        connections::next_number(u64::MAX) == 0,
{
}

/// An open in the share whose registered path starts, but for case, with the renamed one has the
/// new path in its place, with the rest behind it; its own path becomes the same where it
/// started so too. Other opens, and opens of other shares, stay.
pub proof fn opens_follow_a_rename(
    r: OpenRecordModel,
    share: Seq<char>,
    from: PathModel,
    to: PathModel,
)
    requires
        r.registration is Some,
    ensures
        ({
            let g = r.registration->0;
            let after = moves::open_moved(r, text::lowered(share), from, to);
            let follows = g.share == text::lowered(share) && g.path.len() >= from.len() && forall|
                i: int,
            |
                0 <= i < from.len() ==> text::same_ignoring_case(#[trigger] g.path[i], from[i]);
            let own = r.open.last_path.len() >= from.len() && forall|i: int|
                0 <= i < from.len() ==> text::same_ignoring_case(
                    #[trigger] r.open.last_path[i],
                    from[i],
                );
            &&& !follows ==> after == r
            &&& follows ==> {
                &&& after.registration->0.path == to + g.path.skip(from.len() as int)
                &&& after.registration->0.share == g.share
                &&& after.registration->0.stream_name == g.stream_name
                &&& after.registration->0.conn == g.conn
                &&& own ==> after.open.last_path == to + g.path.skip(from.len() as int)
                &&& !own ==> after.open.last_path == r.open.last_path
                &&& after.open.lease == r.open.lease && after.open.file_id == r.open.file_id
                &&& after.key == r.key
            }
        }),
{
}

/// A durable open that nobody has gives way to a new open of the same share, path and stream: it
/// waits for its client, or deletes its file and is attached to nobody, and the new open's lease
/// does not spare it.
pub proof fn detached_opens_give_way(
    m: StateModel,
    d: DurableModel,
    fresh: FreshOpen<'_>,
    j: int,
)
    requires
        0 <= j < m.opens.len(),
        m.opens[j].key == d.open,
        forall|k: int| 0 <= k < j ==> (#[trigger] m.opens[k]).key != d.open,
    ensures
        ({
            let o = m.opens[j].open;
            cleanup::gives_way(m, d, fresh) <==> {
                &&& d.share == text::lowered(fresh.share@)
                &&& o.last_path == fresh.path@
                &&& types::opt_lowered(o.stream_name) == types::opt_lowered(
                    types::opt_str(fresh.stream_name),
                )
                &&& d.expires_at is Some || (o.delete_on_close && d.attached_conn is None
                    && d.attached_session_id is None)
                &&& !rules::spares_detached(
                    o.durability.version,
                    o.lease.state,
                    o.lease.key,
                    fresh.lease,
                )
            }
        }),
{
    state::open_index_at(m.opens, d.open, j);
}

/// No open gives way to one that only looks at attributes.
pub proof fn nothing_gives_way_to_a_look(m: StateModel, fresh: FreshOpen<'_>, i: int)
    requires
        0 <= i < m.durable_opens.len(),
        rules::stat_open(fresh.access),
    ensures
        !cleanup::giving_way(m, fresh)[i],
{
}

/// The tree connects of a session are those that it has, by their ids.
pub proof fn session_trees_are_all_named(
    conns: Seq<ConnectionModel>,
    conn: u64,
    session_id: u64,
    c: int,
    s: int,
    k: int,
)
    requires
        0 <= c < conns.len(),
        conns[c].key == conn,
        forall|i: int| 0 <= i < c ==> (#[trigger] conns[i]).key != conn,
        0 <= s < conns[c].sessions.len(),
        conns[c].sessions[s].id == session_id,
        forall|i: int| 0 <= i < s ==> (#[trigger] conns[c].sessions[i]).id != session_id,
        0 <= k < conns[c].sessions[s].trees.len(),
    ensures
        detaching::tree_ids(conns, conn, session_id).len() == conns[c].sessions[s].trees.len(),
        detaching::tree_ids(conns, conn, session_id)[k] == conns[c].sessions[s].trees[k].id,
        cleanup::session_trees(conns, conn, session_id)[k] == (TreeRef {
            conn,
            session_id,
            tree_id: conns[c].sessions[s].trees[k].id,
        }),
        detaching::session_ids(conns, conn).len() == conns[c].sessions.len(),
        detaching::session_ids(conns, conn)[s] == session_id,
{
    state::conn_index_is_first(conns, conn);
    let at = state::conn_index(conns, conn);
    if at < c {
        assert(conns[at].key != conn);
    }
    lists::first_at(conns[c].sessions, trees::session_is(session_id), s);
}

} // verus!
