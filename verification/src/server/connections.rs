//! Connections, and the sessions and tree connects that they carry.

use crate::server::durable;
use crate::server::lists;
use crate::server::rules::MAX_PENDING_ASYNC_REQUESTS;
use crate::server::state;
use crate::server::state::{ServerState, StateModel};
use crate::server::trees;
use crate::server::types::{
    Connection, ConnectionModel, Negotiated, Session, SessionModel, TreeConnect, TreeModel,
};
use vstd::prelude::*;

verus! {

// ---------------------------------------------------------------------------
// Active connections
// ---------------------------------------------------------------------------

/// The number that comes after another.
pub open spec fn next_number(id: u64) -> u64 {
    if id == u64::MAX {
        0
    } else {
        (id + 1) as u64
    }
}

/// Numbers without one of them.
pub open spec fn without_number(s: Seq<u64>, id: u64) -> Seq<u64>
    decreases s.len(),
{
    if s.len() == 0 {
        s
    } else if s.last() == id {
        without_number(s.drop_last(), id)
    } else {
        without_number(s.drop_last(), id).push(s.last())
    }
}

/// Connections after a number was taken from the one that had it.
pub open spec fn number_freed(conns: Seq<ConnectionModel>, id: u64) -> Seq<ConnectionModel> {
    conns.map_values(
        |c: ConnectionModel| ConnectionModel { numbers: without_number(c.numbers, id), ..c },
    )
}

/// Connections after one of them got a number. A number that comes round again is no
/// longer that of the connection that had it.
pub open spec fn number_given(conns: Seq<ConnectionModel>, at: int, id: u64) -> Seq<
    ConnectionModel,
> {
    if 0 <= at < conns.len() {
        let c = conns[at];
        number_freed(conns, id).update(
            at,
            ConnectionModel { numbers: without_number(c.numbers, id).push(id), ..c },
        )
    } else {
        conns
    }
}

/// An active connection: its number and its key.
#[derive(Debug, Clone, Copy, PartialEq, Eq)]
pub struct Live {
    pub id: u64,
    pub key: u64,
}

/// The active connections.
pub open spec fn live_of(conns: Seq<ConnectionModel>) -> Seq<Live>
    decreases conns.len(),
{
    if conns.len() == 0 {
        Seq::empty()
    } else {
        let c = conns.last();
        live_of(conns.drop_last()) + c.numbers.map_values(|id: u64| Live { id, key: c.key })
    }
}

/// Whether an active connection has a greater number.
pub open spec fn comes_after(id: u64) -> spec_fn(Live) -> bool {
    |l: Live| l.id > id
}

/// Active connections in the order of their numbers.
pub open spec fn by_number(s: Seq<Live>) -> Seq<Live>
    decreases s.len(),
{
    if s.len() == 0 {
        s
    } else {
        let before = by_number(s.drop_last());
        before.insert(lists::first(before, comes_after(s.last().id)), s.last())
    }
}

/// Active connections come in the order of their numbers, and each of them comes.
pub proof fn live_connections_are_ordered(s: Seq<Live>)
    ensures
        by_number(s).to_multiset() == s.to_multiset(),
        forall|i: int, j: int|
            0 <= i <= j < by_number(s).len() ==> (#[trigger] by_number(s)[i]).id <= (
            #[trigger] by_number(s)[j]).id,
    decreases s.len(),
{
    broadcast use vstd::seq_lib::group_to_multiset_ensures;

    if s.len() > 0 {
        let before = by_number(s.drop_last());
        let l = s.last();
        let at = lists::first(before, comes_after(l.id));
        live_connections_are_ordered(s.drop_last());
        lists::first_is_first(before, comes_after(l.id));
        assert(s.drop_last().push(l) =~= s);
        let after = before.insert(at, l);
        assert forall|i: int, j: int| 0 <= i <= j < after.len() implies (#[trigger] after[i]).id
            <= (#[trigger] after[j]).id by {
            let a = if i < at {
                i
            } else {
                i - 1
            };
            let b = if j < at {
                j
            } else {
                j - 1
            };
            if i != at {
                assert(after[i] == before[a]);
            }
            if j != at {
                assert(after[j] == before[b]);
            }
            if i < at {
                assert(!comes_after(l.id)(before[i]));
            }
            if j > at {
                assert(comes_after(l.id)(before[at]));
                assert(before[at].id <= before[b].id);
            }
        }
    }
}

/// The state after a connection went, with the opens that only its tree connects kept.
pub open spec fn connection_dropped(m: StateModel, key: u64) -> StateModel {
    let i = state::conn_index(m.connections, key);
    if state::conn_alive(m.connections, key) {
        durable::all_let_go(
            StateModel { connections: m.connections.remove(i), ..m },
            trees::opens_in_sessions(m.connections[i].sessions),
        )
    } else {
        m
    }
}

/// The state after a connection was given a number.
pub open spec fn registered(m: StateModel, key: u64) -> StateModel {
    StateModel {
        next_connection_id: next_number(m.next_connection_id),
        connections: number_given(
            m.connections,
            state::conn_index(m.connections, key),
            m.next_connection_id,
        ),
        ..m
    }
}

/// The state after a number was taken back.
pub open spec fn unregistered(m: StateModel, id: u64) -> StateModel {
    StateModel { connections: number_freed(m.connections, id), ..m }
}

proof fn lemma_without_number(s: Seq<u64>, id: u64, n: u64)
    ensures
        without_number(s, id).contains(n) == (n != id && s.contains(n)),
    decreases s.len(),
{
    if s.len() > 0 {
        let rest = s.drop_last();
        let before = without_number(rest, id);
        lemma_without_number(rest, id, n);
        assert(s =~= rest.push(s.last()));
        if s.contains(n) && n != s.last() {
            let i = choose|i: int| 0 <= i < s.len() && s[i] == n;
            assert(rest[i] == n);
        }
        if rest.contains(n) {
            let i = choose|i: int| 0 <= i < rest.len() && rest[i] == n;
            assert(s[i] == n);
        }
        if s.last() != id {
            let after = before.push(s.last());
            assert(after[before.len() as int] == s.last());
            if before.contains(n) {
                let i = choose|i: int| 0 <= i < before.len() && before[i] == n;
                assert(after[i] == n);
            }
            if after.contains(n) && n != s.last() {
                let i = choose|i: int| 0 <= i < after.len() && after[i] == n;
                assert(before[i] == n);
            }
        }
        assert(s[s.len() - 1] == s.last());
    }
}

proof fn lemma_live(conns: Seq<ConnectionModel>, l: Live)
    ensures
        live_of(conns).contains(l) == exists|i: int|
            0 <= i < conns.len() && (#[trigger] conns[i]).key == l.key && conns[i].numbers.contains(
                l.id,
            ),
    decreases conns.len(),
{
    if conns.len() > 0 {
        let rest = conns.drop_last();
        let c = conns.last();
        let before = live_of(rest);
        let own = c.numbers.map_values(|id: u64| Live { id, key: c.key });
        lemma_live(rest, l);
        let all = before + own;
        assert(conns[conns.len() - 1] == c);
        if all.contains(l) {
            let k = choose|k: int| 0 <= k < all.len() && all[k] == l;
            if k < before.len() {
                assert(before[k] == l);
                let i = choose|i: int|
                    0 <= i < rest.len() && (#[trigger] rest[i]).key == l.key
                        && rest[i].numbers.contains(l.id);
                assert(conns[i] == rest[i]);
            } else {
                assert(c.numbers[k - before.len()] == l.id);
            }
        }
        if exists|i: int|
            0 <= i < conns.len() && (#[trigger] conns[i]).key == l.key
                && conns[i].numbers.contains(l.id) {
            let i = choose|i: int|
                0 <= i < conns.len() && (#[trigger] conns[i]).key == l.key
                    && conns[i].numbers.contains(l.id);
            if i < rest.len() {
                assert(rest[i] == conns[i]);
                let k = choose|k: int| 0 <= k < before.len() && before[k] == l;
                assert(all[k] == l);
            } else {
                let k = choose|k: int| 0 <= k < c.numbers.len() && c.numbers[k] == l.id;
                assert(own[k] == l);
                assert(all[before.len() + k] == l);
            }
        }
    }
}

/// A connection that is given a number is active with that number, no other connection has
/// the number, and the other numbers stay as they were.
pub proof fn registered_connections_are_live(m: StateModel, key: u64, l: Live)
    requires
        state::conn_alive(m.connections, key),
    ensures
        live_of(registered(m, key).connections).contains(l) == if l.id == m.next_connection_id {
            l.key == key
        } else {
            live_of(m.connections).contains(l)
        },
{
    let conns = m.connections;
    let id = m.next_connection_id;
    let at = state::conn_index(conns, key);
    let after = registered(m, key).connections;
    state::conn_index_is_first(conns, key);
    lemma_live(conns, l);
    lemma_live(after, l);
    assert forall|i: int| 0 <= i < conns.len() implies (#[trigger] after[i]).key == conns[i].key
        && after[i].numbers.contains(l.id) == if l.id == id {
        i == at
    } else {
        conns[i].numbers.contains(l.id)
    } by {
        let left = without_number(conns[i].numbers, id);
        lemma_without_number(conns[i].numbers, id, l.id);
        if i == at {
            let mine = left.push(id);
            assert(mine[left.len() as int] == id);
            if left.contains(l.id) {
                let k = choose|k: int| 0 <= k < left.len() && left[k] == l.id;
                assert(mine[k] == l.id);
            }
            if mine.contains(l.id) && l.id != id {
                let k = choose|k: int| 0 <= k < mine.len() && mine[k] == l.id;
                assert(left[k] == l.id);
            }
        }
    }
    assert(after[at].key == key);
    if l.id != id && live_of(conns).contains(l) {
        let i = choose|i: int|
            0 <= i < conns.len() && (#[trigger] conns[i]).key == l.key && conns[i].numbers.contains(
                l.id,
            );
        assert(after[i].key == l.key);
    }
    if live_of(after).contains(l) {
        let i = choose|i: int|
            0 <= i < after.len() && (#[trigger] after[i]).key == l.key && after[i].numbers.contains(
                l.id,
            );
        assert(conns[i].key == l.key);
    }
}

/// No connection has a number that was taken back, and the other numbers stay as they were.
pub proof fn unregistered_numbers_are_gone(m: StateModel, id: u64, l: Live)
    ensures
        live_of(unregistered(m, id).connections).contains(l) == (l.id != id && live_of(
            m.connections,
        ).contains(l)),
{
    let conns = m.connections;
    let after = unregistered(m, id).connections;
    lemma_live(conns, l);
    lemma_live(after, l);
    assert forall|i: int| 0 <= i < conns.len() implies (#[trigger] after[i]).key == conns[i].key
        && after[i].numbers.contains(l.id) == (l.id != id && conns[i].numbers.contains(l.id)) by {
        lemma_without_number(conns[i].numbers, id, l.id);
    }
    if l.id != id && live_of(conns).contains(l) {
        let i = choose|i: int|
            0 <= i < conns.len() && (#[trigger] conns[i]).key == l.key && conns[i].numbers.contains(
                l.id,
            );
        assert(after[i].key == l.key);
    }
    if live_of(after).contains(l) {
        let i = choose|i: int|
            0 <= i < after.len() && (#[trigger] after[i]).key == l.key && after[i].numbers.contains(
                l.id,
            );
        assert(conns[i].key == l.key);
    }
}

fn drop_number(numbers: &Vec<u64>, id: u64) -> (r: Vec<u64>)
    ensures
        r@ == without_number(numbers@, id),
{
    let mut r: Vec<u64> = Vec::new();
    let ghost all = numbers@;
    let mut i: usize = 0;
    assert(all.take(0) =~= Seq::empty());
    while i < numbers.len()
        invariant
            i <= numbers@.len(),
            all == numbers@,
            r@ == without_number(all.take(i as int), id),
        decreases numbers@.len() - i,
    {
        assert(all.take(i + 1).drop_last() =~= all.take(i as int));
        if numbers[i] != id {
            r.push(numbers[i]);
        }
        i += 1;
    }
    assert(all.take(i as int) =~= all);
    r
}

fn place_live(out: &mut Vec<Live>, l: Live)
    ensures
        final(out)@ == old(out)@.insert(lists::first(old(out)@, comes_after(l.id)), l),
{
    let mut at: usize = 0;
    while at < out.len() && out[at].id <= l.id
        invariant
            at <= out@.len(),
            *out == *old(out),
            forall|j: int| 0 <= j < at ==> !comes_after(l.id)(#[trigger] out@[j]),
        decreases out@.len() - at,
    {
        at += 1;
    }
    proof {
        lists::first_at(out@, comes_after(l.id), at as int);
    }
    out.insert(at, l);
}

impl ServerState {
    /// Takes a connection in that none has the key of; returns whether it did.
    pub fn add_connection(
        &mut self,
        key: u64,
        negotiated: Negotiated,
        has_sender: bool,
    ) -> (r: bool)
        ensures
            r == !state::conn_alive(old(self)@.connections, key),
            final(self)@ == if r {
                StateModel {
                    connections: old(self)@.connections.push(
                        ConnectionModel {
                            key,
                            numbers: Seq::empty(),
                            negotiated,
                            has_sender,
                            force_unacked: false,
                            pending_async: 0,
                            sessions: Seq::empty(),
                        },
                    ),
                    ..old(self)@
                }
            } else {
                old(self)@
            },
    {
        if self.find_conn(key).is_some() {
            return false;
        }
        let c = Connection {
            key,
            numbers: Vec::new(),
            negotiated,
            has_sender,
            force_unacked: false,
            pending_async: 0,
            sessions: Vec::new(),
        };
        assert(c@.sessions =~= Seq::empty());
        assert(c@.numbers =~= Seq::empty());
        let ghost before = self@.connections;
        self.connections.push(c);
        assert(self@.connections =~= before.push(c@));
        true
    }

    /// Forgets a connection, with its sessions and tree connects, and the opens that nothing
    /// else refers to.
    pub fn drop_connection(&mut self, key: u64)
        ensures
            final(self)@ == connection_dropped(old(self)@, key),
    {
        proof {
            state::conn_index_is_first(self@.connections, key);
        }
        match self.find_conn(key) {
            None => {},
            Some(i) => {
                let ghost before = self@.connections;
                assert(before[i as int] == self.connections@[i as int]@);
                let opens: Vec<u64> = self.connections[i].opens();
                let _ = self.connections.remove(i);
                assert(self@.connections =~= before.remove(i as int));
                self.let_opens_go(&opens);
            },
        }
    }

    /// Gives a connection the next number among the active ones, beside those that it has.
    pub fn register(&mut self, key: u64) -> (r: u64)
        ensures
            r == old(self)@.next_connection_id,
            final(self)@ == registered(old(self)@, key),
    {
        proof {
            state::conn_index_is_first(self@.connections, key);
        }
        let id: u64 = self.next_connection_id;
        self.next_connection_id = if id == u64::MAX {
            0
        } else {
            id + 1
        };
        match self.find_conn(key) {
            None => {},
            Some(i) => {
                let ghost before = self@.connections;
                self.unregister(id);
                let ghost freed = self@.connections;
                assert(freed.len() == self.connections@.len());
                assert(freed[i as int] == self.connections@[i as int]@);
                self.connections[i].numbers.push(id);
                assert(self@.connections =~= freed.update(
                    i as int,
                    ConnectionModel {
                        numbers: freed[i as int].numbers.push(id),
                        ..freed[i as int]
                    },
                ));
                assert(self@.connections =~= number_given(before, i as int, id));
            },
        }
        id
    }

    /// Takes a number among the active connections back.
    pub fn unregister(&mut self, id: u64)
        ensures
            final(self)@ == unregistered(old(self)@, id),
    {
        let ghost m = self@;
        let ghost freed = number_freed(m.connections, id);
        let mut i: usize = 0;
        while i < self.connections.len()
            invariant
                i <= self.connections@.len(),
                self@.connections.len() == m.connections.len() == freed.len(),
                self@ == (StateModel { connections: self@.connections, ..m }),
                freed == number_freed(m.connections, id),
                forall|j: int| 0 <= j < i ==> (#[trigger] self@.connections[j]) == freed[j],
                forall|j: int|
                    i <= j < self@.connections.len() ==> (#[trigger] self@.connections[j])
                        == m.connections[j],
            decreases self.connections@.len() - i,
        {
            let ghost before = self@.connections;
            assert(before[i as int] == self.connections@[i as int]@);
            let left: Vec<u64> = drop_number(&self.connections[i].numbers, id);
            self.connections[i].numbers = left;
            assert(self@.connections =~= before.update(i as int, freed[i as int]));
            i += 1;
        }
        assert(self@.connections =~= freed);
    }

    fn live_list(&self) -> (r: Vec<Live>)
        ensures
            r@ == live_of(self@.connections),
    {
        let mut r: Vec<Live> = Vec::new();
        let ghost all = self@.connections;
        let mut i: usize = 0;
        assert(all.take(0) =~= Seq::empty());
        while i < self.connections.len()
            invariant
                i <= self.connections@.len(),
                all == self@.connections,
                r@ == live_of(all.take(i as int)),
            decreases self.connections@.len() - i,
        {
            proof {
                assert(all.take(i + 1).drop_last() =~= all.take(i as int));
                assert(all.take(i + 1).last() == self.connections@[i as int]@);
            }
            let c: &Connection = &self.connections[i];
            let ghost before = r@;
            let ghost own = c@.numbers.map_values(|id: u64| Live { id, key: c@.key });
            let mut k: usize = 0;
            assert(before + own.take(0) =~= before);
            while k < c.numbers.len()
                invariant
                    k <= c.numbers@.len(),
                    own == c@.numbers.map_values(|id: u64| Live { id, key: c@.key }),
                    r@ == before + own.take(k as int),
                decreases c.numbers@.len() - k,
            {
                r.push(Live { id: c.numbers[k], key: c.key });
                assert(r@ =~= before + own.take(k + 1));
                k += 1;
            }
            assert(own.take(k as int) =~= own);
            i += 1;
        }
        assert(all.take(i as int) =~= all);
        r
    }

    /// The keys of the active connections.
    pub fn live(&self) -> (r: Vec<u64>)
        ensures
            r@ == live_of(self@.connections).map_values(|l: Live| l.key),
    {
        let list: Vec<Live> = self.live_list();
        let mut r: Vec<u64> = Vec::new();
        let mut i: usize = 0;
        while i < list.len()
            invariant
                i <= list@.len(),
                r@.len() == i,
                forall|j: int| 0 <= j < i ==> r@[j] == list@[j].key,
            decreases list@.len() - i,
        {
            r.push(list[i].key);
            i += 1;
        }
        assert(r@ =~= live_of(self@.connections).map_values(|l: Live| l.key));
        r
    }

    /// The active connections in the order of their numbers.
    pub fn live_with_ids(&self) -> (r: Vec<Live>)
        ensures
            r@ == by_number(live_of(self@.connections)),
    {
        let list: Vec<Live> = self.live_list();
        let mut r: Vec<Live> = Vec::new();
        let mut i: usize = 0;
        assert(list@.take(0) =~= Seq::empty());
        while i < list.len()
            invariant
                i <= list@.len(),
                r@ == by_number(list@.take(i as int)),
            decreases list@.len() - i,
        {
            proof {
                assert(list@.take(i + 1).drop_last() =~= list@.take(i as int));
                assert(list@.take(i + 1).last() == list@[i as int]);
            }
            place_live(&mut r, list[i]);
            i += 1;
        }
        assert(list@.take(i as int) =~= list@);
        r
    }
}

// ---------------------------------------------------------------------------
// Sessions
// ---------------------------------------------------------------------------

/// Whether an active connection carries a session.
pub open spec fn carries(session_id: u64) -> spec_fn(ConnectionModel) -> bool {
    |c: ConnectionModel|
        c.numbers.len() > 0 && lists::found(c.sessions, trees::session_is(session_id))
}

/// Where the active connection that carries a session stands.
pub open spec fn carrier(conns: Seq<ConnectionModel>, session_id: u64) -> int {
    lists::first(conns, carries(session_id))
}

/// The session with an id on an active connection.
pub open spec fn live_session(
    conns: Seq<ConnectionModel>,
    session_id: u64,
) -> Option<SessionModel> {
    let i = carrier(conns, session_id);
    if i < conns.len() {
        Some(conns[i].sessions[trees::session_at(conns[i], session_id)])
    } else {
        None
    }
}

/// Connections without a session of one of them.
pub open spec fn without_session(conns: Seq<ConnectionModel>, at: int, session_id: u64) -> Seq<
    ConnectionModel,
> {
    let c = conns[at];
    conns.update(
        at,
        ConnectionModel { sessions: c.sessions.remove(trees::session_at(c, session_id)), ..c },
    )
}

/// What signatures of a session are made with.
#[derive(Debug, Clone, Copy, PartialEq, Eq)]
pub struct SigningMaterial {
    pub key: [u8; 16],
    pub negotiated: Negotiated,
}

impl ServerState {
    /// Where the active connection that carries a session stands, and the session in it.
    pub fn find_live_session(&self, session_id: u64) -> (r: Option<(usize, usize)>)
        ensures
            match r {
                None => carrier(self@.connections, session_id) >= self@.connections.len(),
                Some((i, s)) => i < self.connections@.len() && i == carrier(
                    self@.connections,
                    session_id,
                ) && s < self.connections@[i as int].sessions@.len() && s == trees::session_at(
                    self@.connections[i as int],
                    session_id,
                ),
            },
    {
        let ghost conns = self@.connections;
        let mut i: usize = 0;
        while i < self.connections.len()
            invariant
                i <= self.connections@.len(),
                conns == self@.connections,
                forall|j: int| 0 <= j < i ==> !carries(session_id)(#[trigger] conns[j]),
            decreases self.connections@.len() - i,
        {
            assert(conns[i as int] == self.connections@[i as int]@);
            if self.connections[i].numbers.len() > 0 {
                match self.connections[i].find_session(session_id) {
                    Some(s) => {
                        proof {
                            lists::first_at(conns, carries(session_id), i as int);
                        }
                        return Some((i, s));
                    },
                    None => {},
                }
            }
            i += 1;
        }
        proof {
            lists::first_at(conns, carries(session_id), i as int);
        }
        None
    }

    /// What signatures of a session are made with, where an active connection carries it.
    pub fn session_signing_material(&self, session_id: u64) -> (r: Option<SigningMaterial>)
        ensures
            match live_session(self@.connections, session_id) {
                None => r is None,
                Some(s) => r == Some(
                    SigningMaterial {
                        key: s.signing_key,
                        negotiated: self@.connections[carrier(
                            self@.connections,
                            session_id,
                        )].negotiated,
                    },
                ),
            },
    {
        match self.find_live_session(session_id) {
            None => None,
            Some((i, s)) => {
                assert(self@.connections[i as int] == self.connections@[i as int]@);
                assert(self@.connections[i as int].sessions[s as int]
                    == self.connections@[i as int].sessions@[s as int]@);
                Some(
                    SigningMaterial {
                        key: self.connections[i].sessions[s].signing_key,
                        negotiated: self.connections[i].negotiated,
                    },
                )
            },
        }
    }

    /// The session with an id, where an active connection carries it.
    pub fn session_state(&self, session_id: u64) -> (r: Option<&Session>)
        ensures
            match r {
                None => live_session(self@.connections, session_id) is None,
                Some(s) => live_session(self@.connections, session_id) == Some(s@),
            },
    {
        match self.find_live_session(session_id) {
            None => None,
            Some((i, s)) => {
                assert(self@.connections[i as int] == self.connections@[i as int]@);
                assert(self@.connections[i as int].sessions[s as int]
                    == self.connections@[i as int].sessions@[s as int]@);
                Some(&self.connections[i].sessions[s])
            },
        }
    }

    /// Adds a session to a connection that has none with its id; returns whether it did.
    pub fn add_session(&mut self, conn: u64, session_id: u64, signing_key: [u8; 16]) -> (r: bool)
        ensures
            ({
                let conns = old(self)@.connections;
                let i = state::conn_index(conns, conn);
                r == (state::conn_alive(conns, conn) && !lists::found(
                    conns[i].sessions,
                    trees::session_is(session_id),
                )) && final(self)@ == if r {
                    StateModel {
                        connections: conns.update(
                            i,
                            ConnectionModel {
                                sessions: conns[i].sessions.push(
                                    SessionModel {
                                        id: session_id,
                                        signing_key,
                                        trees: Seq::empty(),
                                    },
                                ),
                                ..conns[i]
                            },
                        ),
                        ..old(self)@
                    }
                } else {
                    old(self)@
                }
            }),
    {
        match self.find_conn(conn) {
            None => false,
            Some(i) => {
                let ghost before = self@.connections;
                assert(before[i as int] == self.connections@[i as int]@);
                if self.connections[i].find_session(session_id).is_some() {
                    return false;
                }
                let s = Session { id: session_id, signing_key, trees: Vec::new() };
                assert(s@.trees =~= Seq::empty());
                self.connections[i].sessions.push(s);
                assert(self.connections@[i as int]@.sessions =~= before[i as int].sessions.push(s@));
                assert(self@.connections =~= before.update(
                    i as int,
                    ConnectionModel {
                        sessions: before[i as int].sessions.push(s@),
                        ..before[i as int]
                    },
                ));
                true
            },
        }
    }

    /// Adds a tree connect to a session that has none with its id; returns whether it did.
    pub fn add_tree(&mut self, t: trees::TreeRef, share: String) -> (r: bool)
        ensures
            ({
                let conns = old(self)@.connections;
                let i = state::conn_index(conns, t.conn);
                let s = trees::session_at(conns[i], t.session_id);
                r == (state::conn_alive(conns, t.conn) && s < conns[i].sessions.len()
                    && !lists::found(conns[i].sessions[s].trees, trees::tree_is(t.tree_id)))
                    && final(self)@ == if r {
                    StateModel {
                        connections: conns.update(
                            i,
                            with_tree(
                                conns[i],
                                s,
                                TreeModel { id: t.tree_id, share: share@, opens: Seq::empty() },
                            ),
                        ),
                        ..old(self)@
                    }
                } else {
                    old(self)@
                }
            }),
    {
        match self.find_conn(t.conn) {
            None => false,
            Some(i) => {
                let ghost before = self@.connections;
                assert(before[i as int] == self.connections@[i as int]@);
                match self.connections[i].find_session(t.session_id) {
                    None => false,
                    Some(s) => {
                        assert(before[i as int].sessions[s as int]
                            == self.connections@[i as int].sessions@[s as int]@);
                        if self.connections[i].sessions[s].find_tree(t.tree_id).is_some() {
                            return false;
                        }
                        let tree = TreeConnect { id: t.tree_id, share, opens: Vec::new() };
                        assert(tree@.opens =~= Seq::empty());
                        self.connections[i].sessions[s].trees.push(tree);
                        assert(self.connections@[i as int].sessions@[s as int]@.trees
                            =~= before[i as int].sessions[s as int].trees.push(tree@));
                        assert(self.connections@[i as int]@.sessions =~= with_tree(
                            before[i as int],
                            s as int,
                            tree@,
                        ).sessions);
                        assert(self@.connections =~= before.update(
                            i as int,
                            with_tree(before[i as int], s as int, tree@),
                        ));
                        true
                    },
                }
            },
        }
    }
}

/// A connection with one more tree connect in a session.
pub open spec fn with_tree(c: ConnectionModel, at: int, tree: TreeModel) -> ConnectionModel {
    let s = c.sessions[at];
    ConnectionModel {
        sessions: c.sessions.update(at, SessionModel { trees: s.trees.push(tree), ..s }),
        ..c
    }
}

// ---------------------------------------------------------------------------
// Pending requests
// ---------------------------------------------------------------------------

/// Whether a connection may have one more pending request.
pub open spec fn has_room(conns: Seq<ConnectionModel>, conn: u64) -> bool {
    state::conn_alive(conns, conn) && conns[state::conn_index(conns, conn)].pending_async
        < MAX_PENDING_ASYNC_REQUESTS
}

/// The state after one more pending request of a connection was counted, where it may have
/// one more.
pub open spec fn slot_reserved(m: StateModel, conn: u64) -> StateModel {
    let i = state::conn_index(m.connections, conn);
    if has_room(m.connections, conn) {
        StateModel {
            connections: m.connections.update(
                i,
                ConnectionModel {
                    pending_async: (m.connections[i].pending_async + 1) as usize,
                    ..m.connections[i]
                },
            ),
            ..m
        }
    } else {
        m
    }
}

/// A pending request that is counted and then not any more leaves the count as it was.
pub proof fn released_slot_is_as_before(m: StateModel, conn: u64)
    requires
        has_room(m.connections, conn),
    ensures
        state::slot_released(slot_reserved(m, conn), conn) == m,
{
    let after = slot_reserved(m, conn).connections;
    let i = state::conn_index(m.connections, conn);
    state::conn_index_is_first(m.connections, conn);
    state::conn_index_is_first(after, conn);
    let j = state::conn_index(after, conn);
    assert(after[i].key == conn);
    if j < i {
        assert(after[j] == m.connections[j]);
    }
    assert(j == i);
    assert(state::released(after, conn) =~= m.connections);
}

impl ServerState {
    /// Counts a change notification among the pending requests of a connection.
    pub fn reserve_change_notify_async_slot(&mut self, conn: u64) -> (r: bool)
        ensures
            r == has_room(old(self)@.connections, conn),
            final(self)@ == slot_reserved(old(self)@, conn),
    {
        self.reserve_pending_async_slot(conn)
    }

    /// Counts a read of a pipe among the pending requests of a connection.
    pub fn reserve_pipe_read_async_slot(&mut self, conn: u64) -> (r: bool)
        ensures
            r == has_room(old(self)@.connections, conn),
            final(self)@ == slot_reserved(old(self)@, conn),
    {
        self.reserve_pending_async_slot(conn)
    }

    /// Counts a lock among the pending requests of a connection.
    pub fn reserve_byte_range_lock_wait_async_slot(&mut self, conn: u64) -> (r: bool)
        ensures
            r == has_room(old(self)@.connections, conn),
            final(self)@ == slot_reserved(old(self)@, conn),
    {
        self.reserve_pending_async_slot(conn)
    }

    /// Counts a create request that waits for breaks among the pending requests of
    /// a connection.
    pub fn reserve_cache_break_create_async_slot(&mut self, conn: u64) -> (r: bool)
        ensures
            r == has_room(old(self)@.connections, conn),
            final(self)@ == slot_reserved(old(self)@, conn),
    {
        self.reserve_pending_async_slot(conn)
    }

    /// Counts a write request that waits for breaks among the pending requests of a connection.
    pub fn reserve_cache_break_write_async_slot(&mut self, conn: u64) -> (r: bool)
        ensures
            r == has_room(old(self)@.connections, conn),
            final(self)@ == slot_reserved(old(self)@, conn),
    {
        self.reserve_pending_async_slot(conn)
    }

    /// Counts a task that waits for breaks among the pending requests of a connection.
    pub fn reserve_cache_break_task_async_slot(&mut self, conn: u64) -> (r: bool)
        ensures
            r == has_room(old(self)@.connections, conn),
            final(self)@ == slot_reserved(old(self)@, conn),
    {
        self.reserve_pending_async_slot(conn)
    }
}

} // verus!
