//! Breaks of leases.

use crate::path;
use crate::path::{path_is_descendant, PathModel, SmbPath};
use crate::proto::messages::oplock_break::LeaseBreakNotification;
use crate::proto::messages::Dialect;
use crate::server::lists;
use crate::server::lists::contains_key;
use crate::server::rules::{
    LEASE_BREAK_ACK_REQUIRED, LEASE_HANDLE_CACHING, LEASE_READ_CACHING, LEASE_WRITE_CACHING,
};
use crate::server::state;
use crate::server::state::{Place, ServerState, StateModel};
use crate::server::types;
use crate::server::types::{
    Action, ActionModel, Connection, ConnectionModel, Lease, LeaseGeneration, OpenModel, OpenRecord,
    OpenRecordModel, NIL16,
};
use crate::text;
use crate::wire::array16_equal;
use vstd::prelude::*;

verus! {

// ---------------------------------------------------------------------------
// Generations
// ---------------------------------------------------------------------------

/// Whether a generation is that of a lease key.
pub open spec fn generation_is(key: [u8; 16]) -> spec_fn(LeaseGeneration) -> bool {
    |g: LeaseGeneration| g.key == key
}

/// How often the lease of a key was broken; zero where it was not yet.
pub open spec fn generation_of(gens: Seq<LeaseGeneration>, key: [u8; 16]) -> u64 {
    let i = lists::first(gens, generation_is(key));
    if key != NIL16 && i < gens.len() {
        gens[i].generation
    } else {
        0
    }
}

/// The generation after another: zero is passed over.
pub open spec fn next_generation(g: u64) -> u64 {
    if g == u64::MAX {
        1
    } else {
        (g + 1) as u64
    }
}

/// Generations after the lease of a key was broken once more.
pub open spec fn advanced(gens: Seq<LeaseGeneration>, key: [u8; 16]) -> Seq<LeaseGeneration> {
    let i = lists::first(gens, generation_is(key));
    let next = LeaseGeneration { key, generation: next_generation(generation_of(gens, key)) };
    if key == NIL16 {
        gens
    } else if i < gens.len() {
        gens.update(i, next)
    } else {
        gens.push(next)
    }
}

/// The generations of some lease keys.
pub open spec fn generations_of(gens: Seq<LeaseGeneration>, keys: Seq<[u8; 16]>) -> Seq<
    LeaseGeneration,
> {
    keys.map_values(
        |k: [u8; 16]| LeaseGeneration { key: k, generation: generation_of(gens, k) },
    )
}

/// A break gives its key another generation, which is not that of a lease that was never
/// broken, and leaves the generations of other keys alone.
pub proof fn advancing_changes_one_generation(
    gens: Seq<LeaseGeneration>,
    key: [u8; 16],
    other: [u8; 16],
)
    requires
        key != NIL16,
    ensures
        generation_of(advanced(gens, key), key) != generation_of(gens, key),
        generation_of(advanced(gens, key), key) != 0,
        other != key ==> generation_of(advanced(gens, key), other) == generation_of(gens, other),
{
    let after = advanced(gens, key);
    let i = lists::first(gens, generation_is(key));
    lists::first_is_first(gens, generation_is(key));
    assert forall|j: int| 0 <= j < i implies !generation_is(key)(#[trigger] after[j]) by {
        assert(after[j] == gens[j]);
        assert(!generation_is(key)(gens[j]));
    }
    lists::first_at(after, generation_is(key), i);
    if other != key {
        let k = lists::first(gens, generation_is(other));
        lists::first_is_first(gens, generation_is(other));
        let at = if k < gens.len() {
            k
        } else {
            after.len() as int
        };
        assert forall|j: int| 0 <= j < at implies !generation_is(other)(#[trigger] after[j]) by {
            if j != i {
                assert(after[j] == gens[j]);
                assert(!generation_is(other)(gens[j]));
            }
        }
        lists::first_at(after, generation_is(other), at);
    }
}

impl ServerState {
    fn find_generation(&self, key: &[u8; 16]) -> (r: Option<usize>)
        ensures
            match r {
                None => !lists::found(self@.lease_break_generations, generation_is(*key)),
                Some(i) => i < self.lease_break_generations@.len() && i == lists::first(
                    self@.lease_break_generations,
                    generation_is(*key),
                ),
            },
    {
        let mut i: usize = 0;
        while i < self.lease_break_generations.len()
            invariant
                i <= self.lease_break_generations@.len(),
                forall|j: int|
                    0 <= j < i ==> !generation_is(*key)(
                        #[trigger] self.lease_break_generations@[j],
                    ),
            decreases self.lease_break_generations@.len() - i,
        {
            if array16_equal(&self.lease_break_generations[i].key, key) {
                proof {
                    lists::first_at(
                        self.lease_break_generations@,
                        generation_is(*key),
                        i as int,
                    );
                }
                return Some(i);
            }
            i += 1;
        }
        proof {
            lists::first_at(self.lease_break_generations@, generation_is(*key), i as int);
        }
        None
    }

    /// How often the lease of a key was broken.
    pub fn lease_break_generation(&self, lease_key: [u8; 16]) -> (r: u64)
        ensures
            r == generation_of(self@.lease_break_generations, lease_key),
    {
        if ServerState::is_nil(&lease_key) {
            return 0;
        }
        match self.find_generation(&lease_key) {
            None => 0,
            Some(i) => self.lease_break_generations[i].generation,
        }
    }

    /// Whether the lease of a key was not broken since.
    pub fn lease_break_generation_matches(&self, lease_key: [u8; 16], generation: u64) -> (r: bool)
        ensures
            r == (generation_of(self@.lease_break_generations, lease_key) == generation),
    {
        self.lease_break_generation(lease_key) == generation
    }

    /// Counts a break of the lease of a key.
    pub fn advance_lease_break_generation(&mut self, lease_key: [u8; 16]) -> (r: u64)
        ensures
            final(self)@ == (StateModel {
                lease_break_generations: advanced(old(self)@.lease_break_generations, lease_key),
                ..old(self)@
            }),
            r == generation_of(final(self)@.lease_break_generations, lease_key),
    {
        if ServerState::is_nil(&lease_key) {
            return 0;
        }
        let before: u64 = self.lease_break_generation(lease_key);
        let generation: u64 = if before == u64::MAX {
            1
        } else {
            before + 1
        };
        let next = LeaseGeneration { key: lease_key, generation };
        proof {
            let gens = self.lease_break_generations@;
            let i = lists::first(gens, generation_is(lease_key));
            let after = advanced(gens, lease_key);
            lists::first_is_first(gens, generation_is(lease_key));
            assert forall|j: int| 0 <= j < i implies !generation_is(lease_key)(
                #[trigger] after[j],
            ) by {
                assert(after[j] == gens[j]);
                assert(!generation_is(lease_key)(gens[j]));
            }
            lists::first_at(after, generation_is(lease_key), i);
        }
        match self.find_generation(&lease_key) {
            None => {
                self.lease_break_generations.push(next);
            },
            Some(i) => {
                self.lease_break_generations[i] = next;
            },
        }
        generation
    }

    /// The generations of some lease keys.
    pub fn current_generations(&self, keys: &Vec<[u8; 16]>) -> (r: Vec<LeaseGeneration>)
        ensures
            r@ == generations_of(self@.lease_break_generations, keys@),
    {
        let mut r: Vec<LeaseGeneration> = Vec::new();
        let mut i: usize = 0;
        while i < keys.len()
            invariant
                i <= keys@.len(),
                r@.len() == i,
                forall|j: int|
                    0 <= j < i ==> r@[j] == generations_of(
                        self@.lease_break_generations,
                        keys@,
                    )[j],
            decreases keys@.len() - i,
        {
            let key: [u8; 16] = keys[i];
            r.push(LeaseGeneration { key, generation: self.lease_break_generation(key) });
            i += 1;
        }
        assert(r@ =~= generations_of(self@.lease_break_generations, keys@));
        r
    }
}

// ---------------------------------------------------------------------------
// Who is told of a break
// ---------------------------------------------------------------------------

/// The lowest of some numbers.
pub open spec fn lowest(s: Seq<u64>) -> u64
    decreases s.len(),
{
    if s.len() <= 1 {
        s[0]
    } else {
        let before = lowest(s.drop_last());
        if s.last() < before {
            s.last()
        } else {
            before
        }
    }
}

/// The lowest of some numbers is one of them, and none of them is lower.
pub proof fn lowest_is_lowest(s: Seq<u64>)
    requires
        s.len() > 0,
    ensures
        s.contains(lowest(s)),
        forall|i: int| 0 <= i < s.len() ==> lowest(s) <= #[trigger] s[i],
    decreases s.len(),
{
    if s.len() > 1 {
        let rest = s.drop_last();
        lowest_is_lowest(rest);
        let k = choose|k: int| 0 <= k < rest.len() && rest[k] == lowest(rest);
        assert(s[k] == lowest(rest));
        assert forall|i: int| 0 <= i < s.len() implies lowest(s) <= #[trigger] s[i] by {
            if i < rest.len() {
                assert(rest[i] == s[i]);
            }
        }
    }
}

fn lowest_of(numbers: &Vec<u64>) -> (r: u64)
    requires
        numbers@.len() > 0,
    ensures
        r == lowest(numbers@),
{
    let ghost all = numbers@;
    let mut r: u64 = numbers[0];
    let mut i: usize = 1;
    while i < numbers.len()
        invariant
            1 <= i <= numbers@.len(),
            all == numbers@,
            r == lowest(all.take(i as int)),
        decreases numbers@.len() - i,
    {
        assert(all.take(i + 1).drop_last() =~= all.take(i as int));
        if numbers[i] < r {
            r = numbers[i];
        }
        i += 1;
    }
    assert(all.take(i as int) =~= all);
    r
}

/// The active connection of a client with the lowest number, among the first `n`.
pub open spec fn primary(conns: Seq<ConnectionModel>, guid: [u8; 16], n: int) -> Option<int>
    decreases n,
{
    if n <= 0 {
        None
    } else {
        let best = primary(conns, guid, n - 1);
        let c = conns[n - 1];
        if c.numbers.len() > 0 && c.negotiated.client_guid == guid && (best is None || lowest(
            c.numbers,
        ) < lowest(conns[best->0].numbers)) {
            Some(n - 1)
        } else {
            best
        }
    }
}

/// The active connection of a client that came first.
pub open spec fn primary_of(conns: Seq<ConnectionModel>, guid: [u8; 16]) -> Option<int> {
    if guid == NIL16 {
        None
    } else {
        primary(conns, guid, conns.len() as int)
    }
}

/// The connection that is told of a break of a lease that was granted over another: of
/// leases of the second version, the client's first.
pub open spec fn break_connection(conns: Seq<ConnectionModel>, conn: u64, version: u8) -> Option<
    int,
> {
    if !state::conn_alive(conns, conn) {
        None
    } else {
        let at = state::conn_index(conns, conn);
        let first = primary_of(conns, conns[at].negotiated.client_guid);
        if version >= 2 && first is Some {
            first
        } else {
            Some(at)
        }
    }
}

/// The first connection of a client is an active one of that client, and no active
/// connection of that client has a lower number.
pub proof fn primary_is_lowest(conns: Seq<ConnectionModel>, guid: [u8; 16], n: int)
    requires
        0 <= n <= conns.len(),
    ensures
        primary(conns, guid, n) matches Some(i) ==> 0 <= i < n && conns[i].numbers.len() > 0
            && conns[i].negotiated.client_guid == guid,
        forall|j: int|
            #![trigger conns[j]]
            0 <= j < n && conns[j].numbers.len() > 0 && conns[j].negotiated.client_guid == guid
                ==> primary(conns, guid, n) is Some && lowest(
                conns[primary(conns, guid, n)->0].numbers,
            ) <= lowest(conns[j].numbers),
    decreases n,
{
    if n > 0 {
        primary_is_lowest(conns, guid, n - 1);
    }
}

impl ServerState {
    fn primary_connection_for_client_guid(&self, guid: [u8; 16]) -> (r: Option<usize>)
        ensures
            match r {
                None => primary_of(self@.connections, guid) is None,
                Some(i) => primary_of(self@.connections, guid) == Some(i as int) && i
                    < self.connections@.len(),
            },
    {
        if ServerState::is_nil(&guid) {
            return None;
        }
        let mut best: Option<usize> = None;
        let mut i: usize = 0;
        while i < self.connections.len()
            invariant
                i <= self.connections@.len(),
                match best {
                    None => primary(self@.connections, guid, i as int) is None,
                    Some(b) => primary(self@.connections, guid, i as int) == Some(b as int) && b
                        < i && self.connections@[b as int].numbers@.len() > 0,
                },
            decreases self.connections@.len() - i,
        {
            let c: &Connection = &self.connections[i];
            assert(self@.connections[i as int] == c@);
            if c.numbers.len() > 0 && array16_equal(&c.negotiated.client_guid, &guid) {
                let lower: bool = match best {
                    None => true,
                    Some(b) => {
                        assert(self@.connections[b as int] == self.connections@[b as int]@);
                        lowest_of(&c.numbers) < lowest_of(&self.connections[b].numbers)
                    },
                };
                if lower {
                    best = Some(i);
                }
            }
            i += 1;
        }
        best
    }

    fn lease_break_connection(&self, conn: u64, lease_version: u8) -> (r: Option<usize>)
        ensures
            match r {
                None => break_connection(self@.connections, conn, lease_version) is None,
                Some(i) => break_connection(self@.connections, conn, lease_version) == Some(
                    i as int,
                ) && i < self.connections@.len(),
            },
    {
        match self.find_conn(conn) {
            None => None,
            Some(at) => {
                assert(self@.connections[at as int] == self.connections@[at as int]@);
                if lease_version >= 2 {
                    let guid: [u8; 16] = self.connections[at].negotiated.client_guid;
                    match self.primary_connection_for_client_guid(guid) {
                        Some(i) => {
                            return Some(i);
                        },
                        None => {},
                    }
                }
                Some(at)
            },
        }
    }
}

// ---------------------------------------------------------------------------
// Breaking
// ---------------------------------------------------------------------------

/// Whether a lease stands against a break to a state for another lease key.
pub open spec fn stands_against(lease: Lease, incoming: [u8; 16], target: u32) -> bool {
    lease.version != 0 && lease.key != NIL16 && lease.key != incoming && lease.state != 0
        && lease.state & target != lease.state
}

/// Whether a connection can be told of a break.
pub open spec fn can_tell(conns: Seq<ConnectionModel>, at: Option<int>) -> bool {
    at matches Some(i) && conns[i].has_sender
}

/// Whether a lease state is broken only once the client agrees: it covers writes or
/// handles, and the client can be told.
pub open spec fn needs_ack(told: bool, lease_state: u32) -> bool {
    told && lease_state & (LEASE_WRITE_CACHING | LEASE_HANDLE_CACHING) != 0
}

/// Whether a dialect is of the third generation.
pub open spec fn is_third(dialect: Option<Dialect>) -> bool {
    match dialect {
        Some(Dialect::Smb300) | Some(Dialect::Smb302) | Some(Dialect::Smb311) => true,
        _ => false,
    }
}

/// The epoch of a lease after a break, by the dialect of the connection that is told.
pub open spec fn next_epoch(lease: Lease, dialect: Option<Dialect>) -> u16 {
    if lease.version == 2 && is_third(dialect) {
        if lease.epoch == u16::MAX {
            u16::MAX
        } else {
            (lease.epoch + 1) as u16
        }
    } else {
        0
    }
}

/// A lease after a break to a state. One that is being broken already is to go further;
/// one that needs the client's word starts to be broken; another changes at once.
pub open spec fn broken_lease(
    conns: Seq<ConnectionModel>,
    lease: Lease,
    at: Option<int>,
    target: u32,
) -> Lease {
    let left = lease.state & target;
    let epoch = next_epoch(
        lease,
        if at is Some {
            conns[at->0].negotiated.dialect
        } else {
            None
        },
    );
    if lease.breaking {
        Lease { break_final_to: lease.break_final_to & target, ..lease }
    } else if needs_ack(can_tell(conns, at), lease.state) {
        Lease { epoch, breaking: true, break_to: left, break_final_to: left, ..lease }
    } else {
        Lease {
            epoch,
            state: left,
            breaking: false,
            break_to: 0,
            break_final_to: left,
            ..lease
        }
    }
}

/// The connection that is told of a break of an open's lease.
pub open spec fn told_connection(conns: Seq<ConnectionModel>, r: OpenRecordModel) -> Option<int> {
    match r.registration {
        Some(g) => break_connection(conns, g.conn, r.open.lease.version),
        None => None,
    }
}

/// An open after its lease was broken.
pub open spec fn with_lease(r: OpenRecordModel, lease: Lease) -> OpenRecordModel {
    OpenRecordModel { open: OpenModel { lease, ..r.open }, ..r }
}

/// An open after a break to a state for another lease key.
pub open spec fn broken(
    conns: Seq<ConnectionModel>,
    r: OpenRecordModel,
    incoming: [u8; 16],
    target: u32,
) -> OpenRecordModel {
    if stands_against(r.open.lease, incoming, target) {
        with_lease(r, broken_lease(conns, r.open.lease, told_connection(conns, r), target))
    } else {
        r
    }
}

/// Whether the break of a lease is to be waited for.
pub open spec fn is_awaited(
    conns: Seq<ConnectionModel>,
    r: OpenRecordModel,
    incoming: [u8; 16],
    target: u32,
    force: bool,
) -> bool {
    let lease = r.open.lease;
    stands_against(lease, incoming, target) && (lease.breaking || needs_ack(
        can_tell(conns, told_connection(conns, r)),
        lease.state,
    )) && (force || lease.state & LEASE_WRITE_CACHING != 0 || lease.state & target != 0)
}

/// The keys of the leases that are to be waited for, among the first `n` opens.
pub open spec fn awaited_keys(
    m: StateModel,
    flags: Seq<bool>,
    incoming: [u8; 16],
    target: u32,
    force: bool,
    n: int,
) -> Seq<[u8; 16]>
    decreases n,
{
    if n <= 0 {
        Seq::empty()
    } else {
        let before = awaited_keys(m, flags, incoming, target, force, n - 1);
        let r = m.opens[n - 1];
        if flags[n - 1] && is_awaited(m.connections, r, incoming, target, force)
            && !before.contains(r.open.lease.key) {
            before.push(r.open.lease.key)
        } else {
            before
        }
    }
}

/// A break that a connection is told of.
#[verifier::ext_equal]
pub struct Notice {
    pub conn: u64,
    pub notification: LeaseBreakNotification,
}

/// What a connection is told of a break.
pub open spec fn break_notification(
    key: [u8; 16],
    epoch: u16,
    ack: bool,
    current: u32,
    left: u32,
) -> LeaseBreakNotification {
    LeaseBreakNotification {
        structure_size: 44,
        new_epoch: epoch,
        flags: if ack {
            LEASE_BREAK_ACK_REQUIRED
        } else {
            0
        },
        lease_key: key,
        current_lease_state: current,
        new_lease_state: left,
        break_reason: 0,
        access_mask_hint: 0,
        share_mask_hint: 0,
    }
}

/// Whether one of some notices is of a lease key.
pub open spec fn is_noticed(notices: Seq<Notice>, key: [u8; 16]) -> bool {
    exists|i: int| 0 <= i < notices.len() && (#[trigger] notices[i]).notification.lease_key == key
}

/// The notices of breaks of the first `n` opens, one for each lease key.
pub open spec fn notices(
    m: StateModel,
    flags: Seq<bool>,
    incoming: [u8; 16],
    target: u32,
    n: int,
) -> Seq<Notice>
    decreases n,
{
    if n <= 0 {
        Seq::empty()
    } else {
        let before = notices(m, flags, incoming, target, n - 1);
        let r = m.opens[n - 1];
        let lease = r.open.lease;
        let at = told_connection(m.connections, r);
        if flags[n - 1] && stands_against(lease, incoming, target) && !lease.breaking && can_tell(
            m.connections,
            at,
        ) && !is_noticed(before, lease.key) {
            before.push(
                Notice {
                    conn: m.connections[at->0].key,
                    notification: break_notification(
                        lease.key,
                        broken_lease(m.connections, lease, at, target).epoch,
                        needs_ack(true, lease.state),
                        lease.state,
                        lease.state & target,
                    ),
                },
            )
        } else {
            before
        }
    }
}

/// Generations after breaks were announced that need an acknowledgment.
pub open spec fn noticed_generations(
    gens: Seq<LeaseGeneration>,
    list: Seq<Notice>,
) -> Seq<LeaseGeneration>
    decreases list.len(),
{
    if list.len() == 0 {
        gens
    } else {
        let before = noticed_generations(gens, list.drop_last());
        if list.last().notification.flags == LEASE_BREAK_ACK_REQUIRED {
            advanced(before, list.last().notification.lease_key)
        } else {
            before
        }
    }
}

/// Breaks that go to one connection in one payload.
#[verifier::ext_equal]
pub struct Batch {
    pub conn: u64,
    pub notifications: Seq<LeaseBreakNotification>,
}

/// Whether a batch goes to a connection.
pub open spec fn batch_is(conn: u64) -> spec_fn(Batch) -> bool {
    |b: Batch| b.conn == conn
}

/// Notices by connection, in the order in which the connections are first told.
pub open spec fn batches(list: Seq<Notice>) -> Seq<Batch>
    decreases list.len(),
{
    if list.len() == 0 {
        Seq::empty()
    } else {
        let before = batches(list.drop_last());
        let n = list.last();
        let i = lists::first(before, batch_is(n.conn));
        if i < before.len() {
            before.update(
                i,
                Batch {
                    notifications: before[i].notifications.push(n.notification),
                    ..before[i]
                },
            )
        } else {
            before.push(Batch { conn: n.conn, notifications: seq![n.notification] })
        }
    }
}

/// The payload of a batch. Breaks to reading and writing that go together to one
/// connection all repeat the first.
pub open spec fn payload(b: Batch, target: u32) -> ActionModel {
    ActionModel::LeaseBreak {
        conn: b.conn,
        notifications: if target == LEASE_READ_CACHING | LEASE_WRITE_CACHING
            && b.notifications.len() > 1 {
            Seq::new(b.notifications.len(), |i: int| b.notifications[0])
        } else {
            b.notifications
        },
    }
}

/// The payloads of batches.
pub open spec fn payloads(list: Seq<Batch>, target: u32) -> Seq<ActionModel> {
    list.map_values(|b: Batch| payload(b, target))
}

/// The state after the leases of flagged opens were broken to a state for another key.
pub open spec fn leases_broken(
    m: StateModel,
    flags: Seq<bool>,
    incoming: [u8; 16],
    target: u32,
) -> StateModel {
    let told = notices(m, flags, incoming, target, m.opens.len() as int);
    StateModel {
        opens: Seq::new(
            m.opens.len(),
            |i: int|
                if flags[i] {
                    broken(m.connections, m.opens[i], incoming, target)
                } else {
                    m.opens[i]
                },
        ),
        lease_break_generations: noticed_generations(m.lease_break_generations, told),
        outbox: m.outbox + payloads(batches(told), target),
        ..m
    }
}

/// Which opens are registered on a path and stream.
pub open spec fn on_stream_flags(
    records: Seq<OpenRecordModel>,
    share: Seq<char>,
    path: PathModel,
    stream_name: Option<Seq<char>>,
) -> Seq<bool> {
    records.map_values(|r: OpenRecordModel| state::on_stream(r, share, path, stream_name))
}

/// Which opens are registered below a directory.
pub open spec fn below_flags(
    records: Seq<OpenRecordModel>,
    share: Seq<char>,
    directory: PathModel,
) -> Seq<bool> {
    records.map_values(
        |r: OpenRecordModel|
            state::in_share(r, share) && path::is_below(r.registration->0.path, directory),
    )
}

struct LeaseBatch {
    conn: u64,
    notifications: Vec<LeaseBreakNotification>,
}

impl View for LeaseBatch {
    type V = Batch;

    closed spec fn view(&self) -> Batch {
        Batch { conn: self.conn, notifications: self.notifications@ }
    }
}

spec fn batch_models(s: Seq<LeaseBatch>) -> Seq<Batch> {
    s.map_values(|b: LeaseBatch| b@)
}

spec fn notice_models(s: Seq<(u64, LeaseBreakNotification)>) -> Seq<Notice> {
    s.map_values(
        |p: (u64, LeaseBreakNotification)| Notice { conn: p.0, notification: p.1 },
    )
}

fn find_batch(list: &Vec<LeaseBatch>, conn: u64) -> (r: Option<usize>)
    ensures
        match r {
            None => !lists::found(batch_models(list@), batch_is(conn)),
            Some(i) => i < list@.len() && i == lists::first(batch_models(list@), batch_is(conn)),
        },
{
    let ghost all = batch_models(list@);
    let mut i: usize = 0;
    while i < list.len()
        invariant
            i <= list@.len(),
            all == batch_models(list@),
            forall|j: int| 0 <= j < i ==> !batch_is(conn)(#[trigger] all[j]),
        decreases list@.len() - i,
    {
        assert(all[i as int] == list@[i as int]@);
        if list[i].conn == conn {
            proof {
                lists::first_at(all, batch_is(conn), i as int);
            }
            return Some(i);
        }
        i += 1;
    }
    proof {
        lists::first_at(all, batch_is(conn), i as int);
    }
    None
}

fn make_batches(told: &Vec<(u64, LeaseBreakNotification)>) -> (r: Vec<LeaseBatch>)
    ensures
        batch_models(r@) == batches(notice_models(told@)),
{
    let ghost all = notice_models(told@);
    let mut out: Vec<LeaseBatch> = Vec::new();
    let mut i: usize = 0;
    assert(all.take(0) =~= Seq::empty());
    assert(batch_models(out@) =~= Seq::empty());
    while i < told.len()
        invariant
            i <= told@.len(),
            all == notice_models(told@),
            batch_models(out@) == batches(all.take(i as int)),
        decreases told@.len() - i,
    {
        let conn: u64 = told[i].0;
        let notification: LeaseBreakNotification = told[i].1;
        let ghost before = batch_models(out@);
        proof {
            assert(all.take(i + 1).drop_last() =~= all.take(i as int));
            assert(all.take(i + 1).last() == Notice { conn, notification });
        }
        match find_batch(&out, conn) {
            Some(k) => {
                assert(before[k as int] == out@[k as int]@);
                out[k].notifications.push(notification);
                assert(batch_models(out@) =~= before.update(
                    k as int,
                    Batch {
                        notifications: before[k as int].notifications.push(notification),
                        ..before[k as int]
                    },
                ));
            },
            None => {
                let mut notifications: Vec<LeaseBreakNotification> = Vec::new();
                notifications.push(notification);
                assert(notifications@ =~= seq![notification]);
                let batch = LeaseBatch { conn, notifications };
                out.push(batch);
                assert(batch_models(out@) =~= before.push(batch@));
            },
        }
        i += 1;
    }
    assert(all.take(i as int) =~= all);
    out
}

fn contains_notice(told: &Vec<(u64, LeaseBreakNotification)>, key: &[u8; 16]) -> (r: bool)
    ensures
        r == is_noticed(notice_models(told@), *key),
{
    let ghost all = notice_models(told@);
    let mut i: usize = 0;
    while i < told.len()
        invariant
            i <= told@.len(),
            all == notice_models(told@),
            forall|j: int|
                0 <= j < i ==> (#[trigger] all[j]).notification.lease_key != *key,
        decreases told@.len() - i,
    {
        assert(all[i as int].notification == told@[i as int].1);
        if array16_equal(&told[i].1.lease_key, key) {
            return true;
        }
        i += 1;
    }
    false
}

/// The lease state after a break was decided, with what is told of it.
struct Decision {
    lease: Lease,
    told: Option<u64>,
    awaited: bool,
    ack: bool,
}

impl ServerState {
    fn send_lease_breaks(&mut self, told: &Vec<(u64, LeaseBreakNotification)>, target: u32)
        ensures
            final(self)@ == (StateModel {
                outbox: old(self)@.outbox + payloads(batches(notice_models(told@)), target),
                ..old(self)@
            }),
    {
        let mut rest: Vec<LeaseBatch> = make_batches(told);
        let ghost all = batch_models(rest@);
        let ghost mut n: int = 0;
        assert(all.skip(0) =~= all);
        assert(self@.outbox =~= old(self)@.outbox + payloads(all.take(0), target));
        while rest.len() > 0
            invariant
                0 <= n,
                n + rest@.len() == all.len(),
                batch_models(rest@) == all.skip(n),
                self@ == (StateModel {
                    outbox: old(self)@.outbox + payloads(all.take(n), target),
                    ..old(self)@
                }),
            decreases rest@.len(),
        {
            let ghost before = rest@;
            let b: LeaseBatch = rest.remove(0);
            proof {
                assert(batch_models(before)[0] == all[n]);
                assert(batch_models(rest@) =~= batch_models(before).skip(1));
                assert(all.skip(n).skip(1) =~= all.skip(n + 1));
                assert(all.take(n + 1) =~= all.take(n).push(all[n]));
                assert(payloads(all.take(n + 1), target) =~= payloads(all.take(n), target).push(
                    payload(all[n], target),
                ));
            }
            let conn: u64 = b.conn;
            let mut notifications: Vec<LeaseBreakNotification> = b.notifications;
            let ghost list = notifications@;
            if target == (LEASE_READ_CACHING | LEASE_WRITE_CACHING) && notifications.len() > 1 {
                let first: LeaseBreakNotification = notifications[0];
                let mut k: usize = 1;
                while k < notifications.len()
                    invariant
                        1 <= k <= notifications@.len(),
                        notifications@.len() == list.len(),
                        forall|j: int| 0 <= j < k ==> notifications@[j] == first,
                    decreases notifications@.len() - k,
                {
                    notifications[k] = first;
                    k += 1;
                }
                assert(notifications@ =~= Seq::new(list.len(), |i: int| list[0]));
            }
            let ghost outbox = self@.outbox;
            let a = Action::LeaseBreak { conn, notifications };
            self.act(a);
            proof {
                assert(a@ == payload(all[n], target));
                assert(self@.outbox =~= old(self)@.outbox + payloads(all.take(n + 1), target));
                n = n + 1;
            }
        }
        assert(all.take(n) =~= all);
    }

    fn decide_lease_break(
        &self,
        r: &OpenRecord,
        incoming: &[u8; 16],
        target: u32,
        force: bool,
    ) -> (d: Option<Decision>)
        ensures
            match d {
                None => !stands_against(r@.open.lease, *incoming, target),
                Some(d) => ({
                    let lease = r@.open.lease;
                    let at = told_connection(self@.connections, r@);
                    &&& stands_against(lease, *incoming, target)
                    &&& d.lease == broken_lease(self@.connections, lease, at, target)
                    &&& d.told == (if !lease.breaking && can_tell(self@.connections, at) {
                        Some(self@.connections[at->0].key)
                    } else {
                        None
                    })
                    &&& d.awaited == is_awaited(self@.connections, r@, *incoming, target, force)
                    &&& d.ack == needs_ack(can_tell(self@.connections, at), lease.state)
                }),
            },
    {
        let lease: Lease = r.open.lease;
        if lease.version == 0 || ServerState::is_nil(&lease.key) || array16_equal(
            &lease.key,
            incoming,
        ) || lease.state == 0 || lease.state & target == lease.state {
            return None;
        }
        let left: u32 = lease.state & target;
        let at: Option<usize> = match &r.registration {
            Some(g) => self.lease_break_connection(g.conn, lease.version),
            None => None,
        };
        let mut sender: bool = false;
        let mut dialect: Option<Dialect> = None;
        let mut key: u64 = 0;
        match at {
            Some(i) => {
                assert(self@.connections[i as int] == self.connections@[i as int]@);
                sender = self.connections[i].has_sender;
                dialect = self.connections[i].negotiated.dialect;
                key = self.connections[i].key;
            },
            None => {},
        }
        let ack: bool = sender && lease.state & (LEASE_WRITE_CACHING | LEASE_HANDLE_CACHING) != 0;
        let wait: bool = force || lease.state & LEASE_WRITE_CACHING != 0 || left != 0;
        if lease.breaking {
            let next = Lease { break_final_to: lease.break_final_to & target, ..lease };
            return Some(Decision { lease: next, told: None, awaited: wait, ack });
        }
        let third: bool = match dialect {
            Some(Dialect::Smb300) | Some(Dialect::Smb302) | Some(Dialect::Smb311) => true,
            _ => false,
        };
        let epoch: u16 = if lease.version == 2 && third {
            if lease.epoch == u16::MAX {
                u16::MAX
            } else {
                lease.epoch + 1
            }
        } else {
            0
        };
        let next = if ack {
            Lease { epoch, breaking: true, break_to: left, break_final_to: left, ..lease }
        } else {
            Lease { epoch, state: left, breaking: false, break_to: 0, break_final_to: left,
                ..lease }
        };
        let told: Option<u64> = if sender {
            Some(key)
        } else {
            None
        };
        Some(Decision { lease: next, told, awaited: ack && wait, ack })
    }

    /// Breaks the leases of flagged opens to a state, but for those of one key; returns the
    /// keys of the leases that are to be waited for.
    pub fn break_conflicting_leases_for_entries_with_wait(
        &mut self,
        flags: &Vec<bool>,
        incoming_lease_key: [u8; 16],
        target_state: u32,
        force_wait_on_ack: bool,
    ) -> (r: Vec<[u8; 16]>)
        requires
            flags@.len() == old(self)@.opens.len(),
        ensures
            final(self)@ == leases_broken(
                old(self)@,
                flags@,
                incoming_lease_key,
                target_state,
            ),
            r@ == awaited_keys(
                old(self)@,
                flags@,
                incoming_lease_key,
                target_state,
                force_wait_on_ack,
                old(self)@.opens.len() as int,
            ),
    {
        let ghost m = self@;
        let ghost after = leases_broken(m, flags@, incoming_lease_key, target_state);
        let mut waits: Vec<[u8; 16]> = Vec::new();
        let mut told: Vec<(u64, LeaseBreakNotification)> = Vec::new();
        let mut i: usize = 0;
        assert(notice_models(told@) =~= Seq::empty());
        while i < flags.len()
            invariant
                i <= flags@.len(),
                m == old(self)@,
                flags@.len() == m.opens.len(),
                self@.opens.len() == m.opens.len(),
                after == leases_broken(m, flags@, incoming_lease_key, target_state),
                waits@ == awaited_keys(
                    m,
                    flags@,
                    incoming_lease_key,
                    target_state,
                    force_wait_on_ack,
                    i as int,
                ),
                notice_models(told@) == notices(
                    m,
                    flags@,
                    incoming_lease_key,
                    target_state,
                    i as int,
                ),
                self@ == (StateModel {
                    opens: self@.opens,
                    lease_break_generations: noticed_generations(
                        m.lease_break_generations,
                        notice_models(told@),
                    ),
                    ..m
                }),
                forall|j: int| 0 <= j < i ==> (#[trigger] self@.opens[j]) == after.opens[j],
                forall|j: int|
                    i <= j < self@.opens.len() ==> (#[trigger] self@.opens[j]) == m.opens[j],
            decreases flags@.len() - i,
        {
            assert(self@.opens.len() == self.opens@.len());
            assert(self@.opens[i as int] == self.opens@[i as int]@);
            if flags[i] {
                let lease: Lease = self.opens[i].open.lease;
                match self.decide_lease_break(
                    &self.opens[i],
                    &incoming_lease_key,
                    target_state,
                    force_wait_on_ack,
                ) {
                    None => {},
                    Some(d) => {
                        let ghost before = self@.opens;
                        self.opens[i].open.lease = d.lease;
                        assert(self@.opens =~= before.update(
                            i as int,
                            with_lease(m.opens[i as int], d.lease),
                        ));
                        if d.awaited && !contains_key(&waits, &lease.key) {
                            waits.push(lease.key);
                        }
                        match d.told {
                            None => {},
                            Some(conn) => {
                                if !contains_notice(&told, &lease.key) {
                                    let notification = LeaseBreakNotification {
                                        structure_size: 44,
                                        new_epoch: d.lease.epoch,
                                        flags: if d.ack {
                                            LEASE_BREAK_ACK_REQUIRED
                                        } else {
                                            0
                                        },
                                        lease_key: lease.key,
                                        current_lease_state: lease.state,
                                        new_lease_state: lease.state & target_state,
                                        break_reason: 0,
                                        access_mask_hint: 0,
                                        share_mask_hint: 0,
                                    };
                                    if d.ack {
                                        let _ = self.advance_lease_break_generation(lease.key);
                                    }
                                    let ghost so_far = notice_models(told@);
                                    told.push((conn, notification));
                                    proof {
                                        let n = Notice { conn, notification };
                                        assert(notice_models(told@) =~= so_far.push(n));
                                        assert(so_far.push(n).drop_last() =~= so_far);
                                    }
                                }
                            },
                        }
                    },
                }
            }
            i += 1;
        }
        assert(self@.opens =~= after.opens);
        self.send_lease_breaks(&told, target_state);
        waits
    }

    /// Which opens are registered on a path and stream.
    pub fn flags_on_stream(
        &self,
        share: &str,
        path: &SmbPath,
        stream_name: Option<&str>,
    ) -> (r: Vec<
        bool,
    >)
        ensures
            r@ == on_stream_flags(self@.opens, share@, path@, types::opt_str(stream_name)),
    {
        let place = Place::new(share, path, stream_name);
        let mut r: Vec<bool> = Vec::new();
        let mut i: usize = 0;
        while i < self.opens.len()
            invariant
                i <= self.opens@.len(),
                place.share@ == text::lowered(share@),
                place.path@ == path@,
                types::opt_text(place.stream_name) == types::opt_lowered(
                    types::opt_str(stream_name),
                ),
                r@.len() == i,
                forall|j: int|
                    0 <= j < i ==> r@[j] == state::on_stream(
                        #[trigger] self@.opens[j],
                        share@,
                        path@,
                        types::opt_str(stream_name),
                    ),
            decreases self.opens@.len() - i,
        {
            assert(self@.opens[i as int] == self.opens@[i as int]@);
            r.push(place.has_stream(&self.opens[i]));
            i += 1;
        }
        assert(r@ =~= on_stream_flags(self@.opens, share@, path@, types::opt_str(stream_name)));
        r
    }

    fn flags_below(&self, share: &str, directory: &SmbPath) -> (r: Vec<bool>)
        ensures
            r@ == below_flags(self@.opens, share@, directory@),
    {
        let place = Place::new(share, directory, None);
        let mut r: Vec<bool> = Vec::new();
        let mut i: usize = 0;
        while i < self.opens.len()
            invariant
                i <= self.opens@.len(),
                place.share@ == text::lowered(share@),
                r@.len() == i,
                forall|j: int|
                    0 <= j < i ==> r@[j] == below_flags(self@.opens, share@, directory@)[j],
            decreases self.opens@.len() - i,
        {
            assert(self@.opens[i as int] == self.opens@[i as int]@);
            let below: bool = match &self.opens[i].registration {
                Some(g) => path_is_descendant(&g.path, directory),
                None => false,
            };
            r.push(place.has_share(&self.opens[i]) && below);
            i += 1;
        }
        assert(r@ =~= below_flags(self@.opens, share@, directory@));
        r
    }

    /// Breaks the leases of a path and stream to a state, but for those of one key; returns
    /// the keys of the leases that are to be waited for.
    pub fn break_conflicting_leases_for_open(
        &mut self,
        share: &str,
        path: &SmbPath,
        stream_name: Option<&str>,
        incoming_lease_key: [u8; 16],
        target_state: u32,
    ) -> (r: Vec<[u8; 16]>)
        ensures
            ({
                let m = old(self)@;
                let flags = on_stream_flags(m.opens, share@, path@, types::opt_str(stream_name));
                final(self)@ == leases_broken(m, flags, incoming_lease_key, target_state) && r@
                    == awaited_keys(
                    m,
                    flags,
                    incoming_lease_key,
                    target_state,
                    false,
                    m.opens.len() as int,
                )
            }),
    {
        let flags: Vec<bool> = self.flags_on_stream(share, path, stream_name);
        self.break_conflicting_leases_for_entries_with_wait(
            &flags,
            incoming_lease_key,
            target_state,
            false,
        )
    }

    /// Breaks the leases of a path and stream to a state, but for those of one key; returns
    /// the keys of all leases whose break the client must acknowledge.
    pub fn break_conflicting_leases_for_open_waiting_for_ack(
        &mut self,
        share: &str,
        path: &SmbPath,
        stream_name: Option<&str>,
        incoming_lease_key: [u8; 16],
        target_state: u32,
    ) -> (r: Vec<[u8; 16]>)
        ensures
            ({
                let m = old(self)@;
                let flags = on_stream_flags(m.opens, share@, path@, types::opt_str(stream_name));
                final(self)@ == leases_broken(m, flags, incoming_lease_key, target_state) && r@
                    == awaited_keys(
                    m,
                    flags,
                    incoming_lease_key,
                    target_state,
                    true,
                    m.opens.len() as int,
                )
            }),
    {
        let flags: Vec<bool> = self.flags_on_stream(share, path, stream_name);
        self.break_conflicting_leases_for_entries_with_wait(
            &flags,
            incoming_lease_key,
            target_state,
            true,
        )
    }

    /// Breaks the leases below a directory to a state, but for those of one key; returns
    /// the keys of the leases that are to be waited for.
    pub fn break_conflicting_leases_under_directory(
        &mut self,
        share: &str,
        directory: &SmbPath,
        incoming_lease_key: [u8; 16],
        target_state: u32,
    ) -> (r: Vec<[u8; 16]>)
        ensures
            ({
                let m = old(self)@;
                let flags = below_flags(m.opens, share@, directory@);
                final(self)@ == leases_broken(m, flags, incoming_lease_key, target_state) && r@
                    == awaited_keys(
                    m,
                    flags,
                    incoming_lease_key,
                    target_state,
                    false,
                    m.opens.len() as int,
                )
            }),
    {
        let flags: Vec<bool> = self.flags_below(share, directory);
        self.break_conflicting_leases_for_entries_with_wait(
            &flags,
            incoming_lease_key,
            target_state,
            false,
        )
    }
}

} // verus!
