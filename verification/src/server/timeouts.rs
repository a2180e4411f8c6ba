//! Breaks that are ended, by force where nobody acknowledges them.

use crate::proto::messages::FileId;
use crate::server::completions;
use crate::server::completions::Ended;
use crate::server::durable;
use crate::server::leases;
use crate::server::lists::{contains_file_id, contains_key};
use crate::server::rules::OPLOCK_NONE;
use crate::server::state;
use crate::server::state::{ServerState, StateModel};
use crate::server::tasks;
use crate::server::trees;
use crate::server::types::{
    ConnectionModel, Lease, LeaseGeneration, OpenModel, OpenRecord, OpenRecordModel, Oplock,
};
use crate::server::writes;
use vstd::prelude::*;

verus! {

/// The state after a lease is no longer being broken: what waited for it goes on.
pub open spec fn lease_waits_resumed(m: StateModel, key: [u8; 16]) -> StateModel {
    let ended = Ended::Lease { key };
    tasks::tasks_resumed(writes::writes_resumed(completions::creates_resumed(m, ended), ended),
        ended)
}

/// The state after an oplock is no longer being broken: what waited for it goes on.
pub open spec fn oplock_waits_resumed(m: StateModel, file_id: FileId) -> StateModel {
    let ended = Ended::Oplock { file_id };
    tasks::tasks_resumed(completions::creates_resumed(m, ended), ended)
}

/// Connections after one was found to want its next break ended by force.
pub open spec fn force_taken(conns: Seq<ConnectionModel>, key: u64) -> Seq<ConnectionModel> {
    let i = state::conn_index(conns, key);
    if i < conns.len() {
        conns.update(i, ConnectionModel { force_unacked: false, ..conns[i] })
    } else {
        conns
    }
}

/// Whether a connection wants its next break ended by force.
pub open spec fn wants_force(conns: Seq<ConnectionModel>, key: u64) -> bool {
    state::conn_of(conns, key) matches Some(c) && c.force_unacked
}

/// Whether an open is registered for a connection that is still there.
pub open spec fn is_connected(conns: Seq<ConnectionModel>, r: OpenRecordModel) -> bool {
    r.registration matches Some(g) && state::conn_alive(conns, g.conn)
}

/// Whether the lease of an open is being broken and is one of some keys.
pub open spec fn breaks_one_of(r: OpenRecordModel, keys: Seq<[u8; 16]>) -> bool {
    r.open.lease.version != 0 && r.open.lease.breaking && keys.contains(r.open.lease.key)
}

/// Whether the lease of an open is to be ended by force.
pub open spec fn is_forced(
    conns: Seq<ConnectionModel>,
    r: OpenRecordModel,
    keys: Seq<[u8; 16]>,
) -> bool {
    is_connected(conns, r) && breaks_one_of(r, keys)
}

/// An open whose lease was ended by force: nothing is left of it.
pub open spec fn forced(r: OpenRecordModel) -> OpenRecordModel {
    OpenRecordModel {
        open: OpenModel {
            lease: Lease {
                state: 0,
                breaking: false,
                break_to: 0,
                break_final_to: 0,
                ..r.open.lease
            },
            ..r.open
        },
        ..r
    }
}

/// Connections after the leases of the first `n` opens were ended by force.
pub open spec fn force_taken_for(m: StateModel, keys: Seq<[u8; 16]>, n: int) -> Seq<
    ConnectionModel,
>
    decreases n,
{
    if n <= 0 {
        m.connections
    } else {
        let before = force_taken_for(m, keys, n - 1);
        if is_forced(m.connections, m.opens[n - 1], keys) {
            force_taken(before, m.opens[n - 1].registration->0.conn)
        } else {
            before
        }
    }
}

/// The state after leases that are being broken were ended by force.
pub open spec fn leases_forced(m: StateModel, keys: Seq<[u8; 16]>) -> StateModel {
    StateModel {
        opens: m.opens.map_values(
            |r: OpenRecordModel|
                if is_forced(m.connections, r, keys) {
                    forced(r)
                } else {
                    r
                },
        ),
        connections: force_taken_for(m, keys, m.opens.len() as int),
        ..m
    }
}

proof fn lemma_force_keeps(conns: Seq<ConnectionModel>, key: u64, other: u64)
    ensures
        force_taken(conns, key).len() == conns.len(),
        state::conn_alive(force_taken(conns, key), other) == state::conn_alive(conns, other),
{
    let after = force_taken(conns, key);
    state::conn_index_is_first(conns, key);
    state::conn_index_is_first(conns, other);
    state::conn_index_is_first(after, other);
    let a = state::conn_index(conns, other);
    let b = state::conn_index(after, other);
    assert(forall|i: int| 0 <= i < conns.len() ==> (#[trigger] after[i]).key == conns[i].key);
    if a < b {
        assert(after[a].key != other);
    }
    if b < a {
        assert(conns[b].key != other);
    }
}

/// An open whose oplock is no longer being broken.
pub open spec fn with_oplock(r: OpenRecordModel, level: u8) -> OpenRecordModel {
    OpenRecordModel {
        open: OpenModel {
            oplock: Oplock { level, breaking: false, break_to: OPLOCK_NONE },
            ..r.open
        },
        ..r
    }
}

/// The state after the oplock of an open is no longer being broken.
pub open spec fn oplock_settled(m: StateModel, open: u64) -> StateModel {
    let i = state::open_index(m.opens, open);
    if i < m.opens.len() {
        let r = m.opens[i];
        StateModel { opens: m.opens.update(i, with_oplock(r, r.open.oplock.level)), ..m }
    } else {
        m
    }
}

/// The state after an open was closed by force on a connection. One that no tree connect of
/// the connection holds is no longer durable, and is forgotten unless another holds it.
pub open spec fn force_closed(m: StateModel, conn: u64, file_id: FileId) -> StateModel {
    let taken = StateModel { connections: trees::taken_on(m.connections, conn, file_id), ..m };
    match trees::open_on(m.connections, conn, file_id) {
        None => durable::durable_released(taken, file_id),
        Some(open) => completions::open_discarded(
            oplock_settled(durable::durable_dropped(taken, file_id), open),
            open,
        ),
    }
}

/// Opens that are registered for connections that are still there, with these.
pub open spec fn entries(m: StateModel, n: int) -> Seq<(u64, u64)>
    decreases n,
{
    if n <= 0 {
        Seq::empty()
    } else {
        let before = entries(m, n - 1);
        if is_connected(m.connections, m.opens[n - 1]) {
            before.push((m.opens[n - 1].key, m.opens[n - 1].registration->0.conn))
        } else {
            before
        }
    }
}

/// The state after the oplock of an open was ended by force, where it is being broken and
/// is one of some: the open is closed where its connection wants that, else it keeps what
/// the break left it.
pub open spec fn oplock_forced(m: StateModel, entry: (u64, u64), ids: Seq<FileId>) -> StateModel {
    let i = state::open_index(m.opens, entry.0);
    let r = m.opens[i];
    if i >= m.opens.len() || !r.open.oplock.breaking || !ids.contains(r.open.file_id) {
        m
    } else {
        let taken = StateModel { connections: force_taken(m.connections, entry.1), ..m };
        if wants_force(m.connections, entry.1) {
            force_closed(taken, entry.1, r.open.file_id)
        } else {
            StateModel {
                opens: m.opens.update(i, with_oplock(r, r.open.oplock.break_to)),
                ..taken
            }
        }
    }
}

/// The state after the oplocks of opens were ended by force.
pub open spec fn oplocks_forced(
    m: StateModel,
    list: Seq<(u64, u64)>,
    ids: Seq<FileId>,
) -> StateModel
    decreases list.len(),
{
    if list.len() == 0 {
        m
    } else {
        oplock_forced(oplocks_forced(m, list.drop_last(), ids), list.last(), ids)
    }
}

/// The keys of leases that were not broken again since.
pub open spec fn unchanged_keys(gens: Seq<LeaseGeneration>, list: Seq<LeaseGeneration>) -> Seq<
    [u8; 16],
>
    decreases list.len(),
{
    if list.len() == 0 {
        Seq::empty()
    } else {
        let before = unchanged_keys(gens, list.drop_last());
        if leases::generation_of(gens, list.last().key) == list.last().generation {
            before.push(list.last().key)
        } else {
            before
        }
    }
}

/// The state after what waited for some leases went on.
pub open spec fn all_leases_resumed(m: StateModel, keys: Seq<[u8; 16]>) -> StateModel
    decreases keys.len(),
{
    if keys.len() == 0 {
        m
    } else {
        lease_waits_resumed(all_leases_resumed(m, keys.drop_last()), keys.last())
    }
}

/// The state after what waited for some oplocks went on.
pub open spec fn all_oplocks_resumed(m: StateModel, ids: Seq<FileId>) -> StateModel
    decreases ids.len(),
{
    if ids.len() == 0 {
        m
    } else {
        oplock_waits_resumed(all_oplocks_resumed(m, ids.drop_last()), ids.last())
    }
}

/// The state after the time for breaks has run out: those that were not broken again
/// since are ended by force, and what waited for them goes on.
pub open spec fn timed_out(
    m: StateModel,
    list: Seq<LeaseGeneration>,
    ids: Seq<FileId>,
) -> StateModel {
    let keys = unchanged_keys(m.lease_break_generations, list);
    let freed = leases_forced(m, keys);
    let closed = oplocks_forced(freed, entries(freed, freed.opens.len() as int), ids);
    all_oplocks_resumed(all_leases_resumed(closed, keys), ids)
}

/// Whether an open that waits to be broken is on a connection that wants force.
pub open spec fn waits_for_force(
    m: StateModel,
    r: OpenRecordModel,
    keys: Seq<[u8; 16]>,
    ids: Seq<FileId>,
) -> bool {
    is_connected(m.connections, r) && wants_force(m.connections, r.registration->0.conn) && (
    breaks_one_of(r, keys) || (r.open.oplock.breaking && ids.contains(r.open.file_id)))
}

/// Whether some break that is waited for is to be ended at once.
pub open spec fn force_awaited(m: StateModel, keys: Seq<[u8; 16]>, ids: Seq<FileId>) -> bool {
    exists|i: int| 0 <= i < m.opens.len() && waits_for_force(m, #[trigger] m.opens[i], keys, ids)
}

/// How long breaks are waited for, in milliseconds.
pub open spec fn break_patience(m: StateModel, keys: Seq<[u8; 16]>, ids: Seq<FileId>) -> u64 {
    if force_awaited(m, keys, ids) {
        1
    } else {
        m.config.cache_break_timeout
    }
}

/// Whether an open of a connection has a lease that is being broken and waited for.
pub open spec fn breaks_own(r: OpenRecordModel, keys: Seq<[u8; 16]>, conn: u64) -> bool {
    r.registration matches Some(g) && g.conn == conn && r.open.lease.breaking && keys.contains(
        r.open.lease.key,
    )
}

impl ServerState {
    /// Lets what waited for a lease go on.
    pub fn complete_cache_break_waits_for_lease_key(&mut self, lease_key: [u8; 16])
        ensures
            final(self)@ == lease_waits_resumed(old(self)@, lease_key),
    {
        let ended = Ended::Lease { key: lease_key };
        self.resume_cache_break_creates(ended);
        self.resume_cache_break_writes(ended);
        self.resume_cache_break_tasks(ended);
    }

    /// Lets what waited for an oplock go on.
    pub fn complete_cache_break_waits_for_oplock_file_id(&mut self, file_id: FileId)
        ensures
            final(self)@ == oplock_waits_resumed(old(self)@, file_id),
    {
        let ended = Ended::Oplock { file_id };
        self.resume_cache_break_creates(ended);
        self.resume_cache_break_tasks(ended);
    }

    fn take_force_unacked_timeout(&mut self, conn: u64) -> (r: bool)
        ensures
            r == wants_force(old(self)@.connections, conn),
            final(self)@ == (StateModel {
                connections: force_taken(old(self)@.connections, conn),
                ..old(self)@
            }),
    {
        match self.find_conn(conn) {
            None => false,
            Some(i) => {
                assert(self@.connections[i as int] == self.connections@[i as int]@);
                let r: bool = self.connections[i].force_unacked;
                self.connections[i].force_unacked = false;
                assert(self@.connections =~= force_taken(old(self)@.connections, conn));
                r
            },
        }
    }

    fn force_unacked_timeout(&self, conn: u64) -> (r: bool)
        ensures
            r == wants_force(self@.connections, conn),
    {
        match self.find_conn(conn) {
            None => false,
            Some(i) => {
                assert(self@.connections[i as int] == self.connections@[i as int]@);
                self.connections[i].force_unacked
            },
        }
    }

    fn open_connection(&self, r: &OpenRecord) -> (c: Option<u64>)
        ensures
            c == (if is_connected(self@.connections, r@) {
                Some(r@.registration->0.conn)
            } else {
                None
            }),
    {
        match &r.registration {
            None => None,
            Some(g) => {
                if self.find_conn(g.conn).is_some() {
                    Some(g.conn)
                } else {
                    None
                }
            },
        }
    }

    /// Ends leases by force that are being broken.
    pub fn force_complete_cache_break_leases(&mut self, keys: &Vec<[u8; 16]>)
        ensures
            final(self)@ == leases_forced(old(self)@, keys@),
    {
        let ghost m = self@;
        let mut i: usize = 0;
        while i < self.opens.len()
            invariant
                i <= self.opens@.len(),
                m == old(self)@,
                self@.opens.len() == m.opens.len(),
                self@ == (StateModel {
                    opens: self@.opens,
                    connections: force_taken_for(m, keys@, i as int),
                    ..m
                }),
                forall|k: u64|
                    #![trigger state::conn_alive(self@.connections, k)]
                    state::conn_alive(self@.connections, k) == state::conn_alive(m.connections, k),
                forall|j: int|
                    0 <= j < i ==> (#[trigger] self@.opens[j]) == leases_forced(m, keys@).opens[j],
                forall|j: int|
                    i <= j < self@.opens.len() ==> (#[trigger] self@.opens[j]) == m.opens[j],
            decreases self.opens@.len() - i,
        {
            let r: &OpenRecord = &self.opens[i];
            let ghost conns = self@.connections;
            assert(self@.opens[i as int] == r@);
            match self.open_connection(r) {
                None => {},
                Some(conn) => {
                    if r.open.lease.version != 0 && r.open.lease.breaking && contains_key(
                        keys,
                        &r.open.lease.key,
                    ) {
                        let _ = self.take_force_unacked_timeout(conn);
                        let ghost before = self@.opens;
                        assert(self@.opens[i as int] == self.opens@[i as int]@);
                        self.opens[i].open.lease.state = 0;
                        self.opens[i].open.lease.breaking = false;
                        self.opens[i].open.lease.break_to = 0;
                        self.opens[i].open.lease.break_final_to = 0;
                        assert(self@.opens =~= before.update(i as int, forced(m.opens[i as int])));
                        proof {
                            assert forall|k: u64| state::conn_alive(self@.connections, k)
                                == state::conn_alive(m.connections, k) by {
                                lemma_force_keeps(conns, conn, k);
                                assert(state::conn_alive(conns, k) == state::conn_alive(
                                    m.connections,
                                    k,
                                ));
                            }
                        }
                    }
                },
            }
            i += 1;
        }
        assert(self@.opens =~= leases_forced(m, keys@).opens);
    }

    fn settle_oplock(&mut self, open: u64)
        ensures
            final(self)@ == oplock_settled(old(self)@, open),
    {
        match self.find_open(open) {
            None => {},
            Some(i) => {
                let ghost before = self@.opens;
                assert(before[i as int] == self.opens@[i as int]@);
                let level: u8 = self.opens[i].open.oplock.level;
                self.opens[i].open.oplock = Oplock {
                    level,
                    breaking: false,
                    break_to: OPLOCK_NONE,
                };
                assert(self@.opens =~= before.update(
                    i as int,
                    with_oplock(before[i as int], level),
                ));
            },
        }
    }

    /// Closes an open by force on a connection.
    pub fn force_close_open_on_connection(&mut self, conn: u64, file_id: FileId)
        ensures
            final(self)@ == force_closed(old(self)@, conn, file_id),
    {
        let removed: Option<u64> = self.take_open_on_connection(conn, file_id);
        match removed {
            None => {
                self.remove_durable_open(file_id);
            },
            Some(open) => {
                self.drop_durable_entry(file_id);
                self.settle_oplock(open);
                self.discard_open(open);
            },
        }
    }

    fn force_oplock(&mut self, entry: (u64, u64), ids: &Vec<FileId>)
        ensures
            final(self)@ == oplock_forced(old(self)@, entry, ids@),
    {
        match self.find_open(entry.0) {
            None => {},
            Some(i) => {
                assert(self@.opens[i as int] == self.opens@[i as int]@);
                let file_id: FileId = self.opens[i].open.file_id;
                let target: u8 = self.opens[i].open.oplock.break_to;
                if self.opens[i].open.oplock.breaking && contains_file_id(ids, file_id) {
                    if self.take_force_unacked_timeout(entry.1) {
                        self.force_close_open_on_connection(entry.1, file_id);
                    } else {
                        self.opens[i].open.oplock = Oplock {
                            level: target,
                            breaking: false,
                            break_to: OPLOCK_NONE,
                        };
                        assert(self@.opens =~= old(self)@.opens.update(
                            i as int,
                            with_oplock(old(self)@.opens[i as int], target),
                        ));
                    }
                }
            },
        }
    }

    fn connected_entries(&self) -> (r: Vec<(u64, u64)>)
        ensures
            r@ == entries(self@, self@.opens.len() as int),
    {
        let mut r: Vec<(u64, u64)> = Vec::new();
        let mut i: usize = 0;
        while i < self.opens.len()
            invariant
                i <= self.opens@.len(),
                r@ == entries(self@, i as int),
            decreases self.opens@.len() - i,
        {
            assert(self@.opens[i as int] == self.opens@[i as int]@);
            match self.open_connection(&self.opens[i]) {
                None => {},
                Some(conn) => {
                    r.push((self.opens[i].key, conn));
                },
            }
            i += 1;
        }
        r
    }

    /// Ends oplocks by force that are being broken.
    pub fn force_complete_cache_break_oplocks(&mut self, ids: &Vec<FileId>)
        ensures
            final(self)@ == oplocks_forced(
                old(self)@,
                entries(old(self)@, old(self)@.opens.len() as int),
                ids@,
            ),
    {
        let list: Vec<(u64, u64)> = self.connected_entries();
        let mut i: usize = 0;
        assert(list@.take(0) =~= Seq::empty());
        while i < list.len()
            invariant
                i <= list@.len(),
                self@ == oplocks_forced(old(self)@, list@.take(i as int), ids@),
            decreases list@.len() - i,
        {
            proof {
                assert(list@.take(i + 1).drop_last() =~= list@.take(i as int));
                assert(list@.take(i + 1).last() == list@[i as int]);
            }
            self.force_oplock(list[i], ids);
            i += 1;
        }
        assert(list@.take(i as int) =~= list@);
    }

    fn unchanged_lease_keys(&self, leases: &Vec<LeaseGeneration>) -> (r: Vec<[u8; 16]>)
        ensures
            r@ == unchanged_keys(self@.lease_break_generations, leases@),
    {
        let mut r: Vec<[u8; 16]> = Vec::new();
        let mut i: usize = 0;
        assert(leases@.take(0) =~= Seq::empty());
        while i < leases.len()
            invariant
                i <= leases@.len(),
                r@ == unchanged_keys(self@.lease_break_generations, leases@.take(i as int)),
            decreases leases@.len() - i,
        {
            proof {
                assert(leases@.take(i + 1).drop_last() =~= leases@.take(i as int));
                assert(leases@.take(i + 1).last() == leases@[i as int]);
            }
            let g: LeaseGeneration = leases[i];
            if self.lease_break_generation_matches(g.key, g.generation) {
                r.push(g.key);
            }
            i += 1;
        }
        assert(leases@.take(i as int) =~= leases@);
        r
    }

    /// Ends the breaks of a timer by force, now that its time has run out.
    pub fn cache_break_timed_out(&mut self, leases: &Vec<LeaseGeneration>, oplocks: &Vec<FileId>)
        ensures
            final(self)@ == timed_out(old(self)@, leases@, oplocks@),
    {
        let keys: Vec<[u8; 16]> = self.unchanged_lease_keys(leases);
        self.force_complete_cache_break_leases(&keys);
        self.force_complete_cache_break_oplocks(oplocks);
        let ghost m = self@;
        let mut i: usize = 0;
        assert(keys@.take(0) =~= Seq::empty());
        while i < keys.len()
            invariant
                i <= keys@.len(),
                self@ == all_leases_resumed(m, keys@.take(i as int)),
            decreases keys@.len() - i,
        {
            proof {
                assert(keys@.take(i + 1).drop_last() =~= keys@.take(i as int));
                assert(keys@.take(i + 1).last() == keys@[i as int]);
            }
            self.complete_cache_break_waits_for_lease_key(keys[i]);
            i += 1;
        }
        assert(keys@.take(i as int) =~= keys@);
        let ghost resumed = self@;
        let mut k: usize = 0;
        assert(oplocks@.take(0) =~= Seq::empty());
        while k < oplocks.len()
            invariant
                k <= oplocks@.len(),
                self@ == all_oplocks_resumed(resumed, oplocks@.take(k as int)),
            decreases oplocks@.len() - k,
        {
            proof {
                assert(oplocks@.take(k + 1).drop_last() =~= oplocks@.take(k as int));
                assert(oplocks@.take(k + 1).last() == oplocks@[k as int]);
            }
            self.complete_cache_break_waits_for_oplock_file_id(oplocks[k]);
            k += 1;
        }
        assert(oplocks@.take(k as int) =~= oplocks@);
    }

    /// Whether some break that is waited for is to be ended at once.
    pub fn cache_break_wait_has_force_unacked(
        &self,
        lease_keys: &Vec<[u8; 16]>,
        oplock_file_ids: &Vec<FileId>,
    ) -> (r: bool)
        ensures
            r == force_awaited(self@, lease_keys@, oplock_file_ids@),
    {
        let mut i: usize = 0;
        while i < self.opens.len()
            invariant
                i <= self.opens@.len(),
                forall|j: int|
                    0 <= j < i ==> !waits_for_force(
                        self@,
                        #[trigger] self@.opens[j],
                        lease_keys@,
                        oplock_file_ids@,
                    ),
            decreases self.opens@.len() - i,
        {
            let r: &OpenRecord = &self.opens[i];
            assert(self@.opens[i as int] == r@);
            match self.open_connection(r) {
                None => {},
                Some(conn) => {
                    if self.force_unacked_timeout(conn) && ((r.open.lease.version != 0
                        && r.open.lease.breaking && contains_key(lease_keys, &r.open.lease.key))
                        || (r.open.oplock.breaking && contains_file_id(
                        oplock_file_ids,
                        r.open.file_id,
                    ))) {
                        assert(waits_for_force(
                            self@,
                            self@.opens[i as int],
                            lease_keys@,
                            oplock_file_ids@,
                        ));
                        return true;
                    }
                },
            }
            i += 1;
        }
        false
    }

    /// How long breaks are waited for, in milliseconds.
    pub fn cache_break_patience(
        &self,
        lease_keys: &Vec<[u8; 16]>,
        oplock_file_ids: &Vec<FileId>,
    ) -> (r: u64)
        ensures
            r == break_patience(self@, lease_keys@, oplock_file_ids@),
    {
        if self.cache_break_wait_has_force_unacked(lease_keys, oplock_file_ids) {
            1
        } else {
            self.config.cache_break_timeout
        }
    }

    /// Whether one of the breaks that are waited for is of a connection's own open.
    pub fn lease_break_wait_includes_connection(&self, lease_keys: &Vec<[u8; 16]>, conn: u64) -> (r:
        bool)
        ensures
            r == (state::conn_alive(self@.connections, conn) && exists|i: int|
                0 <= i < self@.opens.len() && breaks_own(
                    #[trigger] self@.opens[i],
                    lease_keys@,
                    conn,
                )),
    {
        if self.find_conn(conn).is_none() {
            return false;
        }
        let mut i: usize = 0;
        while i < self.opens.len()
            invariant
                i <= self.opens@.len(),
                state::conn_alive(self@.connections, conn),
                forall|j: int|
                    0 <= j < i ==> !breaks_own(#[trigger] self@.opens[j], lease_keys@, conn),
            decreases self.opens@.len() - i,
        {
            let r: &OpenRecord = &self.opens[i];
            assert(self@.opens[i as int] == r@);
            let own: bool = match &r.registration {
                None => false,
                Some(g) => g.conn == conn,
            };
            if own && r.open.lease.breaking && contains_key(lease_keys, &r.open.lease.key) {
                assert(breaks_own(self@.opens[i as int], lease_keys@, conn));
                return true;
            }
            i += 1;
        }
        false
    }

    /// Looks whether leases are still being broken, after a wait of some milliseconds: the
    /// wait is over where none is, and where it lasted long enough, which ends the breaks
    /// by force.
    pub fn poll_lease_breaks(&mut self, lease_keys: &Vec<[u8; 16]>, waited: u64, patience: u64) -> (
    r: bool)
        ensures
            ({
                let breaking = completions::some_lease_breaking(old(self)@.opens, lease_keys@);
                r == (!breaking || waited >= patience) && final(self)@ == if breaking && waited
                    >= patience {
                    leases_forced(old(self)@, lease_keys@)
                } else {
                    old(self)@
                }
            }),
    {
        if !self.some_lease_key_is_breaking(lease_keys) {
            return true;
        }
        if waited >= patience {
            self.force_complete_cache_break_leases(lease_keys);
            return true;
        }
        false
    }
}

} // verus!
