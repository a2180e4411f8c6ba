//! How the opens of tree connects are cleared away, step by step.

use crate::proto::messages::FileId;
use crate::server::belonging;
use crate::server::cleanup;
use crate::server::cleanup::WorkModel;
use crate::server::closing;
use crate::server::completions;
use crate::server::connections;
use crate::server::detaching;
use crate::server::lasting;
use crate::server::lists;
use crate::server::state::StateModel;
use crate::server::trees;
use crate::server::trees::{TreeRef, Wanted};
use crate::server::types::{ConnectionModel, CreateWaitModel, DurableModel, TreeOpen};
use crate::server::waiting::WaitingModel;
use vstd::prelude::*;

verus! {

/// A create request that is undone takes its open out of its tree connect, and the open is durable
/// no longer.
pub proof fn undone_creates_leave_nothing(
    m: StateModel,
    w: WaitingModel<CreateWaitModel>,
    tree_id: u32,
    c: int,
    s: int,
    k: int,
    i: int,
    d: DurableModel,
)
    requires
        w.request.tree_id == Some(tree_id),
        belonging::stands_at(
            m.connections,
            TreeRef { conn: w.conn, session_id: w.request.session_id, tree_id },
            c,
            s,
            k,
        ),
        0 <= i < m.connections[c].sessions[s].trees[k].opens.len(),
        m.connections[c].sessions[s].trees[k].opens[i].file_id == w.file_id,
        forall|j: int|
            0 <= j < i ==> (#[trigger] m.connections[c].sessions[s].trees[k].opens[j]).file_id
                != w.file_id,
    ensures
        ({
            let after = completions::create_undone(m, w);
            &&& after.connections[c].sessions[s].trees[k].opens
                == m.connections[c].sessions[s].trees[k].opens.remove(i)
            &&& after.durable_opens.contains(d) <==> m.durable_opens.contains(d) && d.file_id
                != w.file_id
        }),
{
    let t = TreeRef { conn: w.conn, session_id: w.request.session_id, tree_id };
    let tree = m.connections[c].sessions[s].trees[k];
    belonging::tree_opens_are_found_by_file_id(tree.opens, w.file_id, i);
    belonging::trees_are_found_by_their_ids(
        m.connections,
        t,
        trees::without_file(tree.opens, w.file_id),
        c,
        s,
        k,
    );
    lasting::dropped_opens_are_kept_no_longer(
        StateModel {
            connections: trees::with_tree_opens(
                m.connections,
                t,
                trees::without_file(tree.opens, w.file_id),
            ),
            ..m
        },
        w.file_id,
        d,
    );
}

/// Opens are closed in order: those of the first batch, with its share and as the work says about
/// durable ones, until a file is to be unlinked; then the tree connects are drained in order.
pub proof fn opens_are_closed_in_order(m: StateModel, w: WorkModel)
    ensures
        ({
            let p = cleanup::closed_some(m, w);
            let b = w.batches[0];
            let one = closing::closed_one(m, w.conn, b.share, b.opens[0], w.preserve);
            let rest = WorkModel { batches: cleanup::first_gone(w.batches), ..w };
            let (drained, later) = cleanup::tree_drained(m, w);
            &&& w.batches.len() > 0 && b.opens.len() > 0 && one.unlink is Some ==> p.state
                == one.state && p.unlink == one.unlink && p.closed == 1 && p.work == rest
            &&& w.batches.len() > 0 && b.opens.len() > 0 && one.unlink is None ==> ({
                let q = cleanup::closed_some(one.state, rest);
                p.state == q.state && p.unlink == q.unlink && p.closed == q.closed + 1 && p.work
                    == q.work
            })
            &&& w.batches.len() > 0 && b.opens.len() == 0 ==> p == cleanup::closed_some(
                m,
                WorkModel { batches: w.batches.skip(1), ..w },
            )
            &&& w.batches.len() == 0 && w.trees.len() > 0 ==> p == cleanup::closed_some(
                drained,
                later,
            )
            &&& w.batches.len() == 0 && w.trees.len() == 0 ==> p.state == m && p.closed == 0
                && p.unlink is None
        }),
        w.batches.len() > 0 && w.batches[0].opens.len() > 0 ==> ({
            let g = cleanup::first_gone(w.batches);
            &&& g.len() == w.batches.len()
            &&& g[0].opens == w.batches[0].opens.skip(1)
            &&& g[0].share == w.batches[0].share
            &&& forall|i: int| 0 < i < g.len() ==> #[trigger] g[i] == w.batches[i]
        }),
{
}

/// Durable opens that gave way are closed in order until a file is to be unlinked.
pub proof fn stale_opens_are_closed_in_order(
    m: StateModel,
    share: Seq<char>,
    first: TreeOpen,
    rest: Seq<TreeOpen>,
)
    ensures
        ({
            let p = cleanup::stale_closed(m, share, seq![first] + rest);
            let one = cleanup::gone_for_good(m, share, first);
            &&& one.unlink is Some ==> p.state == one.state && p.unlink == one.unlink && p.left
                == rest
            &&& one.unlink is None ==> p == cleanup::stale_closed(one.state, share, rest)
        }),
        cleanup::stale_closed(m, share, Seq::empty()).state == m,
        cleanup::stale_closed(m, share, Seq::empty()).unlink is None,
{
    let all = seq![first] + rest;
    assert(all.skip(1) =~= rest);
}

/// The work of a tree connect, a session or a connection is that of its tree connects, all of them
/// and in order.
pub proof fn work_is_that_of_the_tree_connects(
    conns: Seq<ConnectionModel>,
    conn: u64,
    ids: Seq<u64>,
    id: u64,
    list: Seq<TreeRef>,
    preserve: bool,
)
    ensures
        cleanup::trees_work(conn, list, preserve).trees == list,
        cleanup::trees_work(conn, list, preserve).conn == conn,
        cleanup::trees_work(conn, list, preserve).preserve == preserve,
        cleanup::trees_work(conn, list, preserve).batches.len() == 0,
        cleanup::sessions_trees(conns, conn, ids.push(id)) == cleanup::sessions_trees(
            conns,
            conn,
            ids,
        ) + cleanup::session_trees(conns, conn, id),
        cleanup::sessions_trees(conns, conn, Seq::empty()).len() == 0,
{
    assert(ids.push(id).drop_last() =~= ids);
}

/// A session that is taken over is gone from the connection that carried it, and from no other.
pub proof fn sessions_are_taken_from_their_connection(
    conns: Seq<ConnectionModel>,
    at: int,
    session_id: u64,
    s: int,
    k: int,
)
    requires
        0 <= at < conns.len(),
        0 <= s < conns[at].sessions.len(),
        conns[at].sessions[s].id == session_id,
        forall|j: int| 0 <= j < s ==> (#[trigger] conns[at].sessions[j]).id != session_id,
        0 <= k < conns.len(),
    ensures
        ({
            let after = connections::without_session(conns, at, session_id);
            &&& after.len() == conns.len()
            &&& after[at].sessions == conns[at].sessions.remove(s)
            &&& after[at].key == conns[at].key
            &&& after[at].numbers == conns[at].numbers
            &&& k != at ==> after[k] == conns[k]
        }),
{
    let test = trees::session_is(session_id);
    assert(test(conns[at].sessions[s]));
    assert forall|j: int| 0 <= j < s implies !test(#[trigger] conns[at].sessions[j]) by {
        assert(conns[at].sessions[j].id != session_id);
    }
    lists::first_at(conns[at].sessions, test, s);
}

/// An open is taken from the first active connection that holds it; all other connections stay as
/// they are, and so do all where none holds it.
pub proof fn opens_are_taken_from_one_connection(
    conns: Seq<ConnectionModel>,
    file_id: FileId,
    open: u64,
    at: int,
    k: int,
)
    requires
        0 <= at <= conns.len(),
        0 <= k < conns.len(),
        at < conns.len() ==> trees::connection_holds(Wanted { file_id, open: Some(open) })(
            conns[at],
        ),
        forall|j: int|
            0 <= j < at ==> !trees::connection_holds(Wanted { file_id, open: Some(open) })(
                #[trigger] conns[j],
            ),
    ensures
        ({
            let after = trees::taken_live(conns, file_id, open);
            let w = Wanted { file_id, open: Some(open) };
            &&& after.len() == conns.len()
            &&& k != at ==> after[k] == conns[k]
            &&& k == at ==> after[k] == trees::connection_without(conns[k], w)
        }),
        trees::connection_holds(Wanted { file_id, open: Some(open) })(conns[k])
            ==> conns[k].numbers.len() > 0,
{
    let test = trees::connection_holds(Wanted { file_id, open: Some(open) });
    lists::first_at(conns, test, at);
}

/// Within a connection, an open is taken from the first tree connect that holds it.
pub proof fn opens_are_taken_from_one_tree_connect(
    c: ConnectionModel,
    w: Wanted,
    s: int,
    k: int,
    i: int,
)
    requires
        0 <= s < c.sessions.len(),
        0 <= k < c.sessions[s].trees.len(),
        trees::holds(c.sessions[s].trees[k].opens, w),
        forall|j: int|
            0 <= j < k ==> !trees::holds((#[trigger] c.sessions[s].trees[j]).opens, w),
        forall|j: int|
            0 <= j < s ==> !trees::session_holds(w)(#[trigger] c.sessions[j]),
        0 <= i < c.sessions[s].trees[k].opens.len(),
        c.sessions[s].trees[k].opens[i].file_id == w.file_id,
        forall|j: int|
            0 <= j < i ==> (#[trigger] c.sessions[s].trees[k].opens[j]).file_id != w.file_id,
    ensures
        trees::connection_without(c, w).sessions.len() == c.sessions.len(),
        trees::connection_without(c, w).sessions[s].trees[k].opens
            == c.sessions[s].trees[k].opens.remove(i),
        trees::connection_without(c, w).key == c.key,
        trees::connection_without(c, w).numbers == c.numbers,
{
    let tree_test = trees::tree_holds(w);
    assert(tree_test(c.sessions[s].trees[k]));
    assert forall|j: int| 0 <= j < k implies !tree_test(#[trigger] c.sessions[s].trees[j]) by {
        assert(!trees::holds(c.sessions[s].trees[j].opens, w));
    }
    lists::first_at(c.sessions[s].trees, tree_test, k);
    let test = trees::session_holds(w);
    assert(test(c.sessions[s]));
    lists::first_at(c.sessions, test, s);
    belonging::tree_opens_are_found_by_file_id(c.sessions[s].trees[k].opens, w.file_id, i);
}

/// The durable opens of an application instance are closed one after the other, each taken from
/// its tree connect and kept no longer.
pub proof fn instances_are_closed_one_by_one(m: StateModel, id: [u8; 16], n: nat, i: int)
    requires
        n > 0,
        0 <= i <= m.durable_opens.len(),
        i < m.durable_opens.len() ==> detaching::instance_is(m.opens, id)(m.durable_opens[i]),
        forall|j: int|
            0 <= j < i ==> !detaching::instance_is(m.opens, id)(#[trigger] m.durable_opens[j]),
    ensures
        i == m.durable_opens.len() ==> detaching::instances_closed(m, id, n) == m
            && detaching::instances_count(m, id, n) == 0,
        i < m.durable_opens.len() ==> ({
            let next = detaching::instance_closed(m, m.durable_opens[i]);
            &&& detaching::instances_closed(m, id, n) == detaching::instances_closed(
                next,
                id,
                (n - 1) as nat,
            )
            &&& detaching::instances_count(m, id, n) == 1 + detaching::instances_count(
                next,
                id,
                (n - 1) as nat,
            )
        }),
{
    lists::first_at(m.durable_opens, detaching::instance_is(m.opens, id), i);
}

} // verus!
