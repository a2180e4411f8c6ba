//! Sessions, their tree connects, and the opens that these hold.

use crate::proto::messages::FileId;
use crate::server::lists;
use crate::server::state;
use crate::server::state::{ServerState, StateModel};
use crate::server::types::{
    Connection, ConnectionModel, Session, SessionModel, TreeConnect, TreeModel, TreeOpen,
};
use vstd::prelude::*;

verus! {

/// Which tree connect is meant.
#[derive(Debug, Clone, Copy, PartialEq, Eq, Structural)]
pub struct TreeRef {
    pub conn: u64,
    pub session_id: u64,
    pub tree_id: u32,
}

/// Whether a session has an id.
pub open spec fn session_is(id: u64) -> spec_fn(SessionModel) -> bool {
    |s: SessionModel| s.id == id
}

/// Whether a tree connect has an id.
pub open spec fn tree_is(id: u32) -> spec_fn(TreeModel) -> bool {
    |t: TreeModel| t.id == id
}

/// Whether an open of a tree connect has a file id.
pub open spec fn open_is(file_id: FileId) -> spec_fn(TreeOpen) -> bool {
    |o: TreeOpen| o.file_id == file_id
}

/// Where a session stands in a connection.
pub open spec fn session_at(c: ConnectionModel, id: u64) -> int {
    lists::first(c.sessions, session_is(id))
}

/// Where a tree connect stands in a session.
pub open spec fn tree_at(s: SessionModel, id: u32) -> int {
    lists::first(s.trees, tree_is(id))
}

/// Whether a tree connect is there.
pub open spec fn has_tree(conns: Seq<ConnectionModel>, t: TreeRef) -> bool {
    let c = state::conn_index(conns, t.conn);
    let s = session_at(conns[c], t.session_id);
    c < conns.len() && s < conns[c].sessions.len() && tree_at(conns[c].sessions[s], t.tree_id)
        < conns[c].sessions[s].trees.len()
}

/// A tree connect.
pub open spec fn tree_of(conns: Seq<ConnectionModel>, t: TreeRef) -> Option<TreeModel> {
    let c = state::conn_index(conns, t.conn);
    let s = session_at(conns[c], t.session_id);
    if has_tree(conns, t) {
        Some(conns[c].sessions[s].trees[tree_at(conns[c].sessions[s], t.tree_id)])
    } else {
        None
    }
}

/// A session in which a tree connect holds other opens.
pub open spec fn session_with(s: SessionModel, at: int, opens: Seq<TreeOpen>) -> SessionModel {
    SessionModel { trees: s.trees.update(at, TreeModel { opens, ..s.trees[at] }), ..s }
}

/// A connection in which a tree connect holds other opens.
pub open spec fn connection_with(
    c: ConnectionModel,
    session: int,
    tree: int,
    opens: Seq<TreeOpen>,
) -> ConnectionModel {
    ConnectionModel {
        sessions: c.sessions.update(session, session_with(c.sessions[session], tree, opens)),
        ..c
    }
}

/// Connections in which a tree connect holds other opens, where it is there.
pub open spec fn with_tree_opens(
    conns: Seq<ConnectionModel>,
    t: TreeRef,
    opens: Seq<TreeOpen>,
) -> Seq<ConnectionModel> {
    let c = state::conn_index(conns, t.conn);
    let s = session_at(conns[c], t.session_id);
    if has_tree(conns, t) {
        conns.update(c,
            connection_with(conns[c], s, tree_at(conns[c].sessions[s], t.tree_id), opens))
    } else {
        conns
    }
}

/// Opens of a tree connect without the one that has a file id.
pub open spec fn without_file(opens: Seq<TreeOpen>, file_id: FileId) -> Seq<TreeOpen> {
    let i = lists::first(opens, open_is(file_id));
    if i < opens.len() {
        opens.remove(i)
    } else {
        opens
    }
}

/// The open of a tree connect that has a file id.
pub open spec fn open_of(opens: Seq<TreeOpen>, file_id: FileId) -> Option<u64> {
    let i = lists::first(opens, open_is(file_id));
    if i < opens.len() {
        Some(opens[i].open)
    } else {
        None
    }
}

/// Where the open with a file id stands in the opens of a tree connect.
pub fn find_tree_open(opens: &Vec<TreeOpen>, file_id: FileId) -> (r: Option<usize>)
    ensures
        match r {
            None => !lists::found(opens@, open_is(file_id)),
            Some(i) => i < opens@.len() && i == lists::first(opens@, open_is(file_id)),
        },
{
    let mut i: usize = 0;
    while i < opens.len()
        invariant
            i <= opens@.len(),
            forall|j: int| 0 <= j < i ==> (#[trigger] opens@[j]).file_id != file_id,
        decreases opens@.len() - i,
    {
        if opens[i].file_id == file_id {
            proof {
                lists::first_at(opens@, open_is(file_id), i as int);
            }
            return Some(i);
        }
        i += 1;
    }
    proof {
        lists::first_at(opens@, open_is(file_id), i as int);
    }
    None
}

/// Takes the open with a file id out of the opens of a tree connect.
pub fn take_tree_open(opens: &mut Vec<TreeOpen>, file_id: FileId) -> (r: Option<u64>)
    ensures
        r == open_of(old(opens)@, file_id),
        final(opens)@ == without_file(old(opens)@, file_id),
{
    match find_tree_open(opens, file_id) {
        None => None,
        Some(i) => {
            let o: TreeOpen = opens.remove(i);
            Some(o.open)
        },
    }
}

impl Session {
    /// Where a tree connect stands.
    pub fn find_tree(&self, id: u32) -> (r: Option<usize>)
        ensures
            match r {
                None => tree_at(self@, id) >= self@.trees.len(),
                Some(i) => i < self.trees@.len() && i == tree_at(self@, id),
            },
    {
        let mut i: usize = 0;
        while i < self.trees.len()
            invariant
                i <= self.trees@.len(),
                forall|j: int| 0 <= j < i ==> (#[trigger] self@.trees[j]).id != id,
            decreases self.trees@.len() - i,
        {
            assert(self@.trees[i as int] == self.trees@[i as int]@);
            if self.trees[i].id == id {
                proof {
                    lists::first_at(self@.trees, tree_is(id), i as int);
                }
                return Some(i);
            }
            i += 1;
        }
        proof {
            lists::first_at(self@.trees, tree_is(id), i as int);
        }
        None
    }

    fn set_opens(&mut self, at: usize, opens: Vec<TreeOpen>)
        requires
            at < old(self).trees@.len(),
        ensures
            final(self)@ == session_with(old(self)@, at as int, opens@),
    {
        self.trees[at].opens = opens;
        assert(self@.trees =~= session_with(old(self)@, at as int, opens@).trees);
    }
}

impl Connection {
    /// Where a session stands.
    pub fn find_session(&self, id: u64) -> (r: Option<usize>)
        ensures
            match r {
                None => session_at(self@, id) >= self@.sessions.len(),
                Some(i) => i < self.sessions@.len() && i == session_at(self@, id),
            },
    {
        let mut i: usize = 0;
        while i < self.sessions.len()
            invariant
                i <= self.sessions@.len(),
                forall|j: int| 0 <= j < i ==> (#[trigger] self@.sessions[j]).id != id,
            decreases self.sessions@.len() - i,
        {
            assert(self@.sessions[i as int] == self.sessions@[i as int]@);
            if self.sessions[i].id == id {
                proof {
                    lists::first_at(self@.sessions, session_is(id), i as int);
                }
                return Some(i);
            }
            i += 1;
        }
        proof {
            lists::first_at(self@.sessions, session_is(id), i as int);
        }
        None
    }

    fn set_opens(&mut self, session: usize, tree: usize, opens: Vec<TreeOpen>)
        requires
            session < old(self).sessions@.len(),
            tree < old(self).sessions@[session as int].trees@.len(),
        ensures
            final(self)@ == connection_with(old(self)@, session as int, tree as int, opens@),
    {
        self.sessions[session].set_opens(tree, opens);
        assert(self@.sessions =~= connection_with(
            old(self)@,
            session as int,
            tree as int,
            opens@,
        ).sessions);
    }
}

/// Copies the opens of a tree connect.
pub fn copy_opens(opens: &Vec<TreeOpen>) -> (r: Vec<TreeOpen>)
    ensures
        r@ == opens@,
{
    let mut r: Vec<TreeOpen> = Vec::new();
    let mut i: usize = 0;
    while i < opens.len()
        invariant
            i <= opens@.len(),
            r@ == opens@.take(i as int),
        decreases opens@.len() - i,
    {
        r.push(opens[i]);
        assert(r@ =~= opens@.take(i + 1));
        i += 1;
    }
    assert(r@ =~= opens@);
    r
}

impl ServerState {
    fn find_tree(&self, t: TreeRef) -> (r: Option<(usize, usize, usize)>)
        ensures
            match r {
                None => !has_tree(self@.connections, t),
                Some((c, s, x)) => has_tree(self@.connections, t) && c == state::conn_index(
                    self@.connections,
                    t.conn,
                ) && c < self.connections@.len() && s == session_at(
                    self@.connections[c as int],
                    t.session_id,
                ) && s < self.connections@[c as int].sessions@.len() && x == tree_at(
                    self@.connections[c as int].sessions[s as int],
                    t.tree_id,
                ) && x < self.connections@[c as int].sessions@[s as int].trees@.len(),
            },
    {
        match self.find_conn(t.conn) {
            None => None,
            Some(c) => {
                assert(self@.connections[c as int] == self.connections@[c as int]@);
                match self.connections[c].find_session(t.session_id) {
                    None => None,
                    Some(s) => {
                        assert(self@.connections[c as int].sessions[s as int]
                            == self.connections@[c as int].sessions@[s as int]@);
                        match self.connections[c].sessions[s].find_tree(t.tree_id) {
                            None => None,
                            Some(x) => Some((c, s, x)),
                        }
                    },
                }
            },
        }
    }

    /// The share and the opens of a tree connect.
    pub fn tree_opens(&self, t: TreeRef) -> (r: Option<(String, Vec<TreeOpen>)>)
        ensures
            match r {
                None => tree_of(self@.connections, t) is None,
                Some((share, opens)) => tree_of(self@.connections, t) matches Some(tree)
                    && tree.share == share@ && tree.opens == opens@,
            },
    {
        match self.find_tree(t) {
            None => None,
            Some((c, s, x)) => {
                let tree: &TreeConnect = &self.connections[c].sessions[s].trees[x];
                assert(self@.connections[c as int].sessions[s as int].trees[x as int] == tree@);
                Some((tree.share.clone(), copy_opens(&tree.opens)))
            },
        }
    }

    /// Gives a tree connect other opens.
    pub fn set_tree_opens(&mut self, t: TreeRef, opens: Vec<TreeOpen>)
        ensures
            final(self)@ == (StateModel {
                connections: with_tree_opens(old(self)@.connections, t, opens@),
                ..old(self)@
            }),
    {
        match self.find_tree(t) {
            None => {},
            Some((c, s, x)) => {
                self.connections[c].set_opens(s, x, opens);
                assert(self@.connections =~= with_tree_opens(old(self)@.connections, t, opens@));
            },
        }
    }
}

// ---------------------------------------------------------------------------
// Who keeps an open
// ---------------------------------------------------------------------------

/// Whether an open of a tree connect is a given one.
pub open spec fn refers_to(open: u64) -> spec_fn(TreeOpen) -> bool {
    |o: TreeOpen| o.open == open
}

/// Whether a tree connect keeps an open.
pub open spec fn tree_keeps(open: u64) -> spec_fn(TreeModel) -> bool {
    |t: TreeModel| lists::found(t.opens, refers_to(open))
}

/// Whether a session keeps an open.
pub open spec fn session_keeps(open: u64) -> spec_fn(SessionModel) -> bool {
    |s: SessionModel| lists::found(s.trees, tree_keeps(open))
}

/// Whether a connection keeps an open.
pub open spec fn connection_keeps(open: u64) -> spec_fn(ConnectionModel) -> bool {
    |c: ConnectionModel| lists::found(c.sessions, session_keeps(open))
}

/// Whether a tree connect, of any connection, keeps an open.
pub open spec fn is_kept(conns: Seq<ConnectionModel>, open: u64) -> bool {
    lists::found(conns, connection_keeps(open))
}

fn tree_refers(opens: &Vec<TreeOpen>, open: u64) -> (r: bool)
    ensures
        r == lists::found(opens@, refers_to(open)),
{
    let mut i: usize = 0;
    while i < opens.len()
        invariant
            i <= opens@.len(),
            forall|j: int| 0 <= j < i ==> !refers_to(open)(#[trigger] opens@[j]),
        decreases opens@.len() - i,
    {
        if opens[i].open == open {
            proof {
                lists::first_at(opens@, refers_to(open), i as int);
            }
            return true;
        }
        i += 1;
    }
    proof {
        lists::first_at(opens@, refers_to(open), i as int);
    }
    false
}

impl Session {
    fn keeps(&self, open: u64) -> (r: bool)
        ensures
            r == session_keeps(open)(self@),
    {
        let mut i: usize = 0;
        while i < self.trees.len()
            invariant
                i <= self.trees@.len(),
                forall|j: int| 0 <= j < i ==> !tree_keeps(open)(#[trigger] self@.trees[j]),
            decreases self.trees@.len() - i,
        {
            assert(self@.trees[i as int] == self.trees@[i as int]@);
            if tree_refers(&self.trees[i].opens, open) {
                proof {
                    lists::first_at(self@.trees, tree_keeps(open), i as int);
                }
                return true;
            }
            i += 1;
        }
        proof {
            lists::first_at(self@.trees, tree_keeps(open), i as int);
        }
        false
    }
}

impl Connection {
    fn keeps(&self, open: u64) -> (r: bool)
        ensures
            r == connection_keeps(open)(self@),
    {
        let mut i: usize = 0;
        while i < self.sessions.len()
            invariant
                i <= self.sessions@.len(),
                forall|j: int| 0 <= j < i ==> !session_keeps(open)(#[trigger] self@.sessions[j]),
            decreases self.sessions@.len() - i,
        {
            assert(self@.sessions[i as int] == self.sessions@[i as int]@);
            if self.sessions[i].keeps(open) {
                proof {
                    lists::first_at(self@.sessions, session_keeps(open), i as int);
                }
                return true;
            }
            i += 1;
        }
        proof {
            lists::first_at(self@.sessions, session_keeps(open), i as int);
        }
        false
    }
}

impl ServerState {
    /// Whether a tree connect, of any connection, keeps an open.
    pub fn is_open_kept(&self, open: u64) -> (r: bool)
        ensures
            r == is_kept(self@.connections, open),
    {
        let mut i: usize = 0;
        while i < self.connections.len()
            invariant
                i <= self.connections@.len(),
                forall|j: int|
                    0 <= j < i ==> !connection_keeps(open)(#[trigger] self@.connections[j]),
            decreases self.connections@.len() - i,
        {
            assert(self@.connections[i as int] == self.connections@[i as int]@);
            if self.connections[i].keeps(open) {
                proof {
                    lists::first_at(self@.connections, connection_keeps(open), i as int);
                }
                return true;
            }
            i += 1;
        }
        proof {
            lists::first_at(self@.connections, connection_keeps(open), i as int);
        }
        false
    }
}

/// The opens that tree connects keep.
pub open spec fn opens_in_trees(trees: Seq<TreeModel>) -> Seq<u64>
    decreases trees.len(),
{
    if trees.len() == 0 {
        Seq::empty()
    } else {
        opens_in_trees(trees.drop_last()) + trees.last().opens.map_values(|o: TreeOpen| o.open)
    }
}

/// The opens that sessions keep.
pub open spec fn opens_in_sessions(sessions: Seq<SessionModel>) -> Seq<u64>
    decreases sessions.len(),
{
    if sessions.len() == 0 {
        Seq::empty()
    } else {
        opens_in_sessions(sessions.drop_last()) + opens_in_trees(sessions.last().trees)
    }
}

impl Session {
    fn add_opens(&self, out: &mut Vec<u64>)
        ensures
            final(out)@ == old(out)@ + opens_in_trees(self@.trees),
    {
        let ghost all = self@.trees;
        let ghost start = out@;
        let mut i: usize = 0;
        assert(all.take(0) =~= Seq::empty());
        assert(out@ =~= start + opens_in_trees(all.take(0)));
        while i < self.trees.len()
            invariant
                i <= self.trees@.len(),
                all == self@.trees,
                out@ == start + opens_in_trees(all.take(i as int)),
            decreases self.trees@.len() - i,
        {
            let t: &TreeConnect = &self.trees[i];
            let ghost before = out@;
            let ghost own = t@.opens.map_values(|o: TreeOpen| o.open);
            proof {
                assert(all.take(i + 1).drop_last() =~= all.take(i as int));
                assert(all.take(i + 1).last() == t@);
            }
            let mut k: usize = 0;
            assert(before + own.take(0) =~= before);
            while k < t.opens.len()
                invariant
                    k <= t.opens@.len(),
                    own == t@.opens.map_values(|o: TreeOpen| o.open),
                    out@ == before + own.take(k as int),
                decreases t.opens@.len() - k,
            {
                out.push(t.opens[k].open);
                assert(out@ =~= before + own.take(k + 1));
                k += 1;
            }
            assert(own.take(k as int) =~= own);
            i += 1;
            assert(out@ =~= start + opens_in_trees(all.take(i as int)));
        }
        assert(all.take(i as int) =~= all);
    }
}

impl Connection {
    /// The opens that the tree connects of a connection keep.
    pub fn opens(&self) -> (r: Vec<u64>)
        ensures
            r@ == opens_in_sessions(self@.sessions),
    {
        let ghost all = self@.sessions;
        let mut r: Vec<u64> = Vec::new();
        let mut i: usize = 0;
        assert(all.take(0) =~= Seq::empty());
        while i < self.sessions.len()
            invariant
                i <= self.sessions@.len(),
                all == self@.sessions,
                r@ == opens_in_sessions(all.take(i as int)),
            decreases self.sessions@.len() - i,
        {
            proof {
                assert(all.take(i + 1).drop_last() =~= all.take(i as int));
                assert(all.take(i + 1).last() == self.sessions@[i as int]@);
            }
            self.sessions[i].add_opens(&mut r);
            i += 1;
        }
        assert(all.take(i as int) =~= all);
        r
    }
}

// ---------------------------------------------------------------------------
// Taking opens out of tree connects
// ---------------------------------------------------------------------------

/// Which open is looked for: one with a file id, or this open with a file id.
#[derive(Debug, Clone, Copy, PartialEq, Eq)]
pub struct Wanted {
    pub file_id: FileId,
    pub open: Option<u64>,
}

/// Whether opens of a tree connect hold an open that is looked for.
pub open spec fn holds(opens: Seq<TreeOpen>, w: Wanted) -> bool {
    open_of(opens, w.file_id) is Some && (w.open is None || w.open == open_of(opens, w.file_id))
}

/// Whether a tree connect holds an open that is looked for.
pub open spec fn tree_holds(w: Wanted) -> spec_fn(TreeModel) -> bool {
    |t: TreeModel| holds(t.opens, w)
}

/// Whether a session holds an open that is looked for.
pub open spec fn session_holds(w: Wanted) -> spec_fn(SessionModel) -> bool {
    |s: SessionModel| lists::found(s.trees, tree_holds(w))
}

/// Whether an active connection holds an open that is looked for.
pub open spec fn connection_holds(w: Wanted) -> spec_fn(ConnectionModel) -> bool {
    |c: ConnectionModel| c.numbers.len() > 0 && lists::found(c.sessions, session_holds(w))
}

/// The opens of the first tree connect of a connection that holds an open.
pub open spec fn held_opens(c: ConnectionModel, w: Wanted) -> Seq<TreeOpen> {
    let s = lists::first(c.sessions, session_holds(w));
    c.sessions[s].trees[lists::first(c.sessions[s].trees, tree_holds(w))].opens
}

/// The open of a connection that is looked for.
pub open spec fn held_open(c: ConnectionModel, w: Wanted) -> Option<u64> {
    if lists::found(c.sessions, session_holds(w)) {
        open_of(held_opens(c, w), w.file_id)
    } else {
        None
    }
}

/// A connection after an open was taken out of the first tree connect that holds it.
pub open spec fn connection_without(c: ConnectionModel, w: Wanted) -> ConnectionModel {
    let s = lists::first(c.sessions, session_holds(w));
    if lists::found(c.sessions, session_holds(w)) {
        connection_with(
            c,
            s,
            lists::first(c.sessions[s].trees, tree_holds(w)),
            without_file(held_opens(c, w), w.file_id),
        )
    } else {
        c
    }
}

impl Session {
    fn find_holder(&self, w: Wanted) -> (r: Option<usize>)
        ensures
            match r {
                None => !lists::found(self@.trees, tree_holds(w)),
                Some(i) => i < self.trees@.len() && i == lists::first(self@.trees, tree_holds(w)),
            },
    {
        let mut i: usize = 0;
        while i < self.trees.len()
            invariant
                i <= self.trees@.len(),
                forall|j: int| 0 <= j < i ==> !holds((#[trigger] self@.trees[j]).opens, w),
            decreases self.trees@.len() - i,
        {
            assert(self@.trees[i as int] == self.trees@[i as int]@);
            let hit: bool = match find_tree_open(&self.trees[i].opens, w.file_id) {
                None => false,
                Some(k) => match w.open {
                    None => true,
                    Some(open) => self.trees[i].opens[k].open == open,
                },
            };
            if hit {
                proof {
                    lists::first_at(self@.trees, tree_holds(w), i as int);
                }
                return Some(i);
            }
            i += 1;
        }
        proof {
            lists::first_at(self@.trees, tree_holds(w), i as int);
        }
        None
    }
}

impl Connection {
    fn find_holder(&self, w: Wanted) -> (r: Option<(usize, usize)>)
        ensures
            match r {
                None => !lists::found(self@.sessions, session_holds(w)),
                Some((s, t)) => s < self.sessions@.len() && s == lists::first(
                    self@.sessions,
                    session_holds(w),
                ) && t < self.sessions@[s as int].trees@.len() && t == lists::first(
                    self@.sessions[s as int].trees,
                    tree_holds(w),
                ),
            },
    {
        let mut i: usize = 0;
        while i < self.sessions.len()
            invariant
                i <= self.sessions@.len(),
                forall|j: int|
                    0 <= j < i ==> !lists::found(
                        (#[trigger] self@.sessions[j]).trees,
                        tree_holds(w),
                    ),
            decreases self.sessions@.len() - i,
        {
            assert(self@.sessions[i as int] == self.sessions@[i as int]@);
            match self.sessions[i].find_holder(w) {
                Some(t) => {
                    proof {
                        lists::first_at(self@.sessions, session_holds(w), i as int);
                    }
                    return Some((i, t));
                },
                None => {},
            }
            i += 1;
        }
        proof {
            lists::first_at(self@.sessions, session_holds(w), i as int);
        }
        None
    }

    fn take_held(&mut self, w: Wanted) -> (r: Option<u64>)
        ensures
            r == held_open(old(self)@, w),
            final(self)@ == connection_without(old(self)@, w),
    {
        match self.find_holder(w) {
            None => None,
            Some((s, t)) => {
                assert(self@.sessions[s as int].trees[t as int]
                    == self.sessions@[s as int].trees@[t as int]@);
                let mut opens: Vec<TreeOpen> = copy_opens(&self.sessions[s].trees[t].opens);
                let r: Option<u64> = take_tree_open(&mut opens, w.file_id);
                self.set_opens(s, t, opens);
                r
            },
        }
    }
}

/// The open with a file id that a connection holds.
pub open spec fn open_on(conns: Seq<ConnectionModel>, conn: u64, file_id: FileId) -> Option<u64> {
    match state::conn_of(conns, conn) {
        Some(c) => held_open(c, Wanted { file_id, open: None }),
        None => None,
    }
}

/// Connections after the open with a file id was taken from one.
pub open spec fn taken_on(conns: Seq<ConnectionModel>, conn: u64, file_id: FileId) -> Seq<
    ConnectionModel,
> {
    let i = state::conn_index(conns, conn);
    if state::conn_alive(conns, conn) {
        conns.update(i, connection_without(conns[i], Wanted { file_id, open: None }))
    } else {
        conns
    }
}

/// Connections after an open was taken from the first active one that holds it.
pub open spec fn taken_live(conns: Seq<ConnectionModel>, file_id: FileId, open: u64) -> Seq<
    ConnectionModel,
> {
    let w = Wanted { file_id, open: Some(open) };
    let i = lists::first(conns, connection_holds(w));
    if i < conns.len() {
        conns.update(i, connection_without(conns[i], w))
    } else {
        conns
    }
}

impl ServerState {
    /// Takes the open with a file id from a connection.
    pub fn take_open_on_connection(&mut self, conn: u64, file_id: FileId) -> (r: Option<u64>)
        ensures
            r == open_on(old(self)@.connections, conn, file_id),
            final(self)@ == (StateModel {
                connections: taken_on(old(self)@.connections, conn, file_id),
                ..old(self)@
            }),
    {
        match self.find_conn(conn) {
            None => None,
            Some(c) => {
                assert(self@.connections[c as int] == self.connections@[c as int]@);
                let w = Wanted { file_id, open: None };
                let r: Option<u64> = self.connections[c].take_held(w);
                assert(self@.connections =~= taken_on(old(self)@.connections, conn, file_id));
                r
            },
        }
    }

    /// Takes an open from the first active connection that holds it.
    pub fn remove_open_from_live_trees(&mut self, file_id: FileId, open: u64) -> (r: bool)
        ensures
            r == lists::found(
                old(self)@.connections,
                connection_holds(Wanted { file_id, open: Some(open) }),
            ),
            final(self)@ == (StateModel {
                connections: taken_live(old(self)@.connections, file_id, open),
                ..old(self)@
            }),
    {
        let w = Wanted { file_id, open: Some(open) };
        let mut i: usize = 0;
        while i < self.connections.len()
            invariant
                i <= self.connections@.len(),
                *self == *old(self),
                w == (Wanted { file_id, open: Some(open) }),
                forall|j: int|
                    0 <= j < i ==> !connection_holds(w)(#[trigger] self@.connections[j]),
            decreases self.connections@.len() - i,
        {
            assert(self@.connections[i as int] == self.connections@[i as int]@);
            if self.connections[i].numbers.len() > 0
                && self.connections[i].find_holder(w).is_some() {
                proof {
                    lists::first_at(self@.connections, connection_holds(w), i as int);
                }
                let _ = self.connections[i].take_held(w);
                assert(self@.connections =~= taken_live(old(self)@.connections, file_id, open));
                return true;
            }
            i += 1;
        }
        proof {
            lists::first_at(self@.connections, connection_holds(w), i as int);
        }
        false
    }
}

} // verus!
