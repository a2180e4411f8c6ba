//! Breaks of oplocks.

use crate::ntstatus::{
    STATUS_FILE_CLOSED, STATUS_INVALID_OPLOCK_PROTOCOL, STATUS_INVALID_PARAMETER,
    STATUS_OBJECT_NAME_NOT_FOUND, STATUS_SUCCESS,
};
use crate::path::{PathModel, SmbPath};
use crate::proto::messages::oplock_break::OplockBreakNotification;
use crate::proto::messages::FileId;
use crate::server::completions;
use crate::server::leases;
use crate::server::lists;
use crate::server::lists::contains_file_id;
use crate::server::opens;
use crate::server::rules;
use crate::server::rules::{
    oplock_break_target, valid_oplock_break_ack_for_target, OPLOCK_BATCH, OPLOCK_EXCLUSIVE,
    OPLOCK_LEVEL_II, OPLOCK_NONE,
};
use crate::server::state;
use crate::server::state::{ServerState, StateModel};
use crate::server::timeouts;
use crate::server::types;
use crate::server::types::{
    Action, ActionModel, ConnectionModel, OpenModel, OpenRecord, OpenRecordModel, Oplock,
};
use vstd::prelude::*;

verus! {

/// What a connection is told of the break of an oplock.
pub open spec fn oplock_notification(level: u8, file_id: FileId) -> OplockBreakNotification {
    OplockBreakNotification {
        structure_size: 24,
        oplock_level: level,
        reserved: 0,
        reserved2: 0,
        file_id,
    }
}

/// Whether the connection of an open can be told of a break.
pub open spec fn can_tell(conns: Seq<ConnectionModel>, r: OpenRecordModel) -> bool {
    r.registration matches Some(g) && state::has_sender(conns, g.conn)
}

/// The message of a break of an open's oplock.
pub open spec fn break_message(r: OpenRecordModel, level: u8) -> ActionModel {
    ActionModel::OplockBreak {
        conn: r.registration->0.conn,
        notification: oplock_notification(level, r.open.file_id),
    }
}

// ---------------------------------------------------------------------------
// Breaks for an open
// ---------------------------------------------------------------------------

/// Whether an oplock stands against a break to a level.
pub open spec fn stands_against(o: Oplock, target: u8, batch_only: bool) -> bool {
    !(batch_only && o.level != OPLOCK_BATCH) && rules::oplock_target(o.level, target) != o.level
}

/// Whether an oplock is broken only once the client agrees.
pub open spec fn needs_ack(conns: Seq<ConnectionModel>, r: OpenRecordModel, target: u8) -> bool {
    let level = r.open.oplock.level;
    let left = rules::oplock_target(level, target);
    can_tell(conns, r) && (level == OPLOCK_EXCLUSIVE || level == OPLOCK_BATCH) && (left
        == OPLOCK_LEVEL_II || left == OPLOCK_NONE)
}

/// An open after a break of its oplock to a level.
pub open spec fn broken(
    conns: Seq<ConnectionModel>,
    r: OpenRecordModel,
    target: u8,
    batch_only: bool,
) -> OpenRecordModel {
    let o = r.open.oplock;
    let left = rules::oplock_target(o.level, target);
    if !stands_against(o, target, batch_only) || o.breaking {
        r
    } else if needs_ack(conns, r, target) {
        OpenRecordModel {
            open: OpenModel {
                oplock: Oplock { breaking: true, break_to: left, ..o },
                ..r.open
            },
            ..r
        }
    } else {
        timeouts::with_oplock(r, left)
    }
}

/// The open files whose oplocks are to be waited for, among the first `n` opens.
pub open spec fn awaited_files(
    m: StateModel,
    flags: Seq<bool>,
    target: u8,
    batch_only: bool,
    n: int,
) -> Seq<FileId>
    decreases n,
{
    if n <= 0 {
        Seq::empty()
    } else {
        let before = awaited_files(m, flags, target, batch_only, n - 1);
        let r = m.opens[n - 1];
        if flags[n - 1] && stands_against(r.open.oplock, target, batch_only) && (
        r.open.oplock.breaking || needs_ack(m.connections, r, target)) && !before.contains(
            r.open.file_id,
        ) {
            before.push(r.open.file_id)
        } else {
            before
        }
    }
}

/// The messages of the breaks of the first `n` opens.
pub open spec fn break_messages(
    m: StateModel,
    flags: Seq<bool>,
    target: u8,
    batch_only: bool,
    n: int,
) -> Seq<ActionModel>
    decreases n,
{
    if n <= 0 {
        Seq::empty()
    } else {
        let before = break_messages(m, flags, target, batch_only, n - 1);
        let r = m.opens[n - 1];
        if flags[n - 1] && stands_against(r.open.oplock, target, batch_only)
            && !r.open.oplock.breaking && can_tell(m.connections, r) {
            before.push(break_message(r, rules::oplock_target(r.open.oplock.level, target)))
        } else {
            before
        }
    }
}

/// The state after the oplocks of flagged opens were broken to a level.
pub open spec fn oplocks_broken(
    m: StateModel,
    flags: Seq<bool>,
    target: u8,
    batch_only: bool,
) -> StateModel {
    StateModel {
        opens: Seq::new(
            m.opens.len(),
            |i: int|
                if flags[i] {
                    broken(m.connections, m.opens[i], target, batch_only)
                } else {
                    m.opens[i]
                },
        ),
        outbox: m.outbox + break_messages(m, flags, target, batch_only, m.opens.len() as int),
        ..m
    }
}

/// A break never raises the level of an oplock, and asks for no more than what it keeps.
pub proof fn oplock_breaks_only_lower(
    conns: Seq<ConnectionModel>,
    r: OpenRecordModel,
    target: u8,
    batch_only: bool,
)
    ensures
        broken(conns, r, target, batch_only).open.oplock.level <= r.open.oplock.level,
        broken(conns, r, target, batch_only).open.oplock.breaking && !r.open.oplock.breaking
            ==> broken(conns, r, target, batch_only).open.oplock.break_to < r.open.oplock.level,
{
}

/// Oplocks give way to a break: one that the break is meant for is no higher than the
/// break leaves it, or is being broken.
pub proof fn broken_oplocks_give_way(m: StateModel, flags: Seq<bool>, target: u8, i: int)
    requires
        0 <= i < m.opens.len(),
        flags[i],
    ensures
        ({
            let o = oplocks_broken(m, flags, target, false).opens[i].open.oplock;
            o.breaking || rules::oplock_target(o.level, target) == o.level
        }),
{
}

// ---------------------------------------------------------------------------
// Acknowledgments
// ---------------------------------------------------------------------------

/// Whether an open is registered with a file id for a connection.
pub open spec fn registered_on(conn: u64, file_id: FileId) -> spec_fn(OpenRecordModel) -> bool {
    |r: OpenRecordModel|
        r.registration is Some && r.registration->0.conn == conn && r.open.file_id == file_id
}

/// Where the open stands whose oplock break a connection acknowledges: its own open with
/// the file id, else the first one.
pub open spec fn acked_at(m: StateModel, conn: u64, file_id: FileId) -> int {
    let own = lists::first(m.opens, registered_on(conn, file_id));
    if state::conn_alive(m.connections, conn) && own < m.opens.len() {
        own
    } else {
        lists::first(m.opens, completions::registered_as(file_id))
    }
}

/// The status of an acknowledgment.
pub open spec fn ack_status(m: StateModel, conn: u64, file_id: FileId, level: u8) -> u32 {
    let i = acked_at(m, conn, file_id);
    let o = m.opens[i].open.oplock;
    if i >= m.opens.len() {
        STATUS_FILE_CLOSED
    } else if !o.breaking && level == OPLOCK_NONE {
        STATUS_INVALID_OPLOCK_PROTOCOL
    } else if !o.breaking {
        STATUS_OBJECT_NAME_NOT_FOUND
    } else if !rules::oplock_ack_fits(level, o.break_to) {
        STATUS_INVALID_PARAMETER
    } else {
        STATUS_SUCCESS
    }
}

/// The state after an acknowledgment: the open keeps the level that was acknowledged, and
/// what waited for the break goes on.
pub open spec fn oplock_acked(m: StateModel, conn: u64, file_id: FileId, level: u8) -> StateModel {
    let i = acked_at(m, conn, file_id);
    if ack_status(m, conn, file_id, level) == STATUS_SUCCESS {
        timeouts::oplock_waits_resumed(
            StateModel {
                opens: m.opens.update(i, timeouts::with_oplock(m.opens[i], level)),
                ..m
            },
            file_id,
        )
    } else {
        m
    }
}

// ---------------------------------------------------------------------------
// Level II
// ---------------------------------------------------------------------------

/// An open without its level II oplock.
pub open spec fn without_level_ii(r: OpenRecordModel) -> OpenRecordModel {
    if r.open.oplock.level == OPLOCK_LEVEL_II {
        timeouts::with_oplock(r, OPLOCK_NONE)
    } else {
        r
    }
}

/// Opens after the flagged ones lost their level II oplocks.
pub open spec fn level_ii_dropped(records: Seq<OpenRecordModel>, flags: Seq<bool>) -> Seq<
    OpenRecordModel,
> {
    Seq::new(
        records.len(),
        |i: int|
            if flags[i] {
                without_level_ii(records[i])
            } else {
                records[i]
            },
    )
}

/// How many of the first `n` opens are flagged and have a level II oplock.
pub open spec fn level_ii_count(records: Seq<OpenRecordModel>, flags: Seq<bool>, n: int) -> int
    decreases n,
{
    if n <= 0 {
        0
    } else {
        level_ii_count(records, flags, n - 1) + if flags[n - 1] && records[n - 1].open.oplock.level
            == OPLOCK_LEVEL_II {
            1int
        } else {
            0
        }
    }
}

/// The messages of the level II oplocks that the first `n` opens lost.
pub open spec fn level_ii_messages(m: StateModel, flags: Seq<bool>, n: int) -> Seq<ActionModel>
    decreases n,
{
    if n <= 0 {
        Seq::empty()
    } else {
        let before = level_ii_messages(m, flags, n - 1);
        let r = m.opens[n - 1];
        if flags[n - 1] && r.open.oplock.level == OPLOCK_LEVEL_II && can_tell(m.connections, r) {
            before.push(break_message(r, OPLOCK_NONE))
        } else {
            before
        }
    }
}

/// Whether an open on a path and stream has another file id.
pub open spec fn is_other_handle(
    r: OpenRecordModel,
    share: Seq<char>,
    path: PathModel,
    stream_name: Option<Seq<char>>,
    file_id: FileId,
) -> bool {
    state::on_stream(r, share, path, stream_name) && r.open.file_id != file_id
}

/// Whether an open on a path and stream has a file id and a level II oplock.
pub open spec fn own_level_ii(
    share: Seq<char>,
    path: PathModel,
    stream_name: Option<Seq<char>>,
    file_id: FileId,
) -> spec_fn(OpenRecordModel) -> bool {
    |r: OpenRecordModel|
        state::on_stream(r, share, path, stream_name) && r.open.file_id == file_id
            && r.open.oplock.level == OPLOCK_LEVEL_II
}

/// Whether an open loses its own level II oplock because others have the file open.
pub open spec fn loses_own_level_ii(
    records: Seq<OpenRecordModel>,
    share: Seq<char>,
    path: PathModel,
    stream_name: Option<Seq<char>>,
    file_id: FileId,
) -> bool {
    (exists|i: int|
        0 <= i < records.len() && is_other_handle(
            #[trigger] records[i],
            share,
            path,
            stream_name,
            file_id,
        )) && lists::found(records, own_level_ii(share, path, stream_name, file_id))
}

/// The state after an open lost its own level II oplock.
pub open spec fn own_level_ii_broken(
    m: StateModel,
    share: Seq<char>,
    path: PathModel,
    stream_name: Option<Seq<char>>,
    file_id: FileId,
) -> StateModel {
    let i = lists::first(m.opens, own_level_ii(share, path, stream_name, file_id));
    if !loses_own_level_ii(m.opens, share, path, stream_name, file_id) {
        m
    } else {
        let lost = StateModel {
            opens: m.opens.update(i, timeouts::with_oplock(m.opens[i], OPLOCK_NONE)),
            ..m
        };
        if can_tell(m.connections, m.opens[i]) {
            state::acted(lost, break_message(m.opens[i], OPLOCK_NONE))
        } else {
            lost
        }
    }
}

/// An oplock after a break was decided, with what is told of it.
struct Decision {
    oplock: Oplock,
    left: u8,
    told: Option<u64>,
    awaited: bool,
}

impl ServerState {
    fn told_of_open(&self, r: &OpenRecord) -> (c: Option<u64>)
        ensures
            c == (if can_tell(self@.connections, r@) {
                Some(r@.registration->0.conn)
            } else {
                None
            }),
    {
        match &r.registration {
            None => None,
            Some(g) => {
                if self.connection_has_sender(g.conn) {
                    Some(g.conn)
                } else {
                    None
                }
            },
        }
    }

    fn send_oplock_break(&mut self, conn: u64, level: u8, file_id: FileId)
        ensures
            final(self)@ == state::acted(
                old(self)@,
                ActionModel::OplockBreak { conn,
                    notification: oplock_notification(level, file_id) },
            ),
    {
        let notification = OplockBreakNotification {
            structure_size: 24,
            oplock_level: level,
            reserved: 0,
            reserved2: 0,
            file_id,
        };
        self.act(Action::OplockBreak { conn, notification });
    }

    fn decide_oplock_break(&self, r: &OpenRecord, target: u8, batch_only: bool) -> (d: Option<
        Decision,
    >)
        ensures
            match d {
                None => !stands_against(r@.open.oplock, target, batch_only),
                Some(d) => ({
                    let o = r@.open.oplock;
                    let conns = self@.connections;
                    &&& stands_against(o, target, batch_only)
                    &&& d.oplock == broken(conns, r@, target, batch_only).open.oplock
                    &&& broken(conns, r@, target, batch_only) == (OpenRecordModel {
                        open: OpenModel { oplock: d.oplock, ..r@.open },
                        ..r@
                    })
                    &&& d.left == rules::oplock_target(o.level, target)
                    &&& d.told == (if !o.breaking && can_tell(conns, r@) {
                        Some(r@.registration->0.conn)
                    } else {
                        None
                    })
                    &&& d.awaited == (o.breaking || needs_ack(conns, r@, target))
                }),
            },
    {
        let o: Oplock = r.open.oplock;
        let left: u8 = oplock_break_target(o.level, target);
        if (batch_only && o.level != OPLOCK_BATCH) || left == o.level {
            return None;
        }
        if o.breaking {
            return Some(Decision { oplock: o, left, told: None, awaited: true });
        }
        let told: Option<u64> = self.told_of_open(r);
        let ack: bool = told.is_some() && (o.level == OPLOCK_EXCLUSIVE || o.level == OPLOCK_BATCH)
            && (left == OPLOCK_LEVEL_II || left == OPLOCK_NONE);
        let oplock = if ack {
            Oplock { level: o.level, breaking: true, break_to: left }
        } else {
            Oplock { level: left, breaking: false, break_to: OPLOCK_NONE }
        };
        Some(Decision { oplock, left, told, awaited: ack })
    }

    /// Breaks the oplocks of a path and stream to a level, of batch oplocks only where
    /// asked; returns the files whose oplocks are to be waited for.
    pub fn break_conflicting_oplocks_for_open_filtered(
        &mut self,
        share: &str,
        path: &SmbPath,
        stream_name: Option<&str>,
        target_level: u8,
        batch_only: bool,
    ) -> (r: Vec<FileId>)
        ensures
            ({
                let m = old(self)@;
                let flags = leases::on_stream_flags(
                    m.opens,
                    share@,
                    path@,
                    types::opt_str(stream_name),
                );
                final(self)@ == oplocks_broken(m, flags, target_level, batch_only) && r@
                    == awaited_files(m, flags, target_level, batch_only, m.opens.len() as int)
            }),
    {
        let flags: Vec<bool> = self.flags_on_stream(share, path, stream_name);
        let ghost m = self@;
        let ghost after = oplocks_broken(m, flags@, target_level, batch_only);
        let mut waits: Vec<FileId> = Vec::new();
        let mut i: usize = 0;
        assert(m.outbox + Seq::<ActionModel>::empty() =~= m.outbox);
        while i < flags.len()
            invariant
                i <= flags@.len(),
                flags@.len() == m.opens.len(),
                self@.opens.len() == m.opens.len(),
                after == oplocks_broken(m, flags@, target_level, batch_only),
                waits@ == awaited_files(m, flags@, target_level, batch_only, i as int),
                self@ == (StateModel {
                    opens: self@.opens,
                    outbox: m.outbox + break_messages(
                        m,
                        flags@,
                        target_level,
                        batch_only,
                        i as int,
                    ),
                    ..m
                }),
                forall|j: int| 0 <= j < i ==> (#[trigger] self@.opens[j]) == after.opens[j],
                forall|j: int|
                    i <= j < self@.opens.len() ==> (#[trigger] self@.opens[j]) == m.opens[j],
            decreases flags@.len() - i,
        {
            assert(self@.opens.len() == self.opens@.len());
            assert(self@.opens[i as int] == self.opens@[i as int]@);
            if flags[i] {
                let file_id: FileId = self.opens[i].open.file_id;
                match self.decide_oplock_break(&self.opens[i], target_level, batch_only) {
                    None => {},
                    Some(d) => {
                        let ghost before = self@.opens;
                        self.opens[i].open.oplock = d.oplock;
                        assert(self@.opens =~= before.update(i as int, after.opens[i as int]));
                        if d.awaited && !contains_file_id(&waits, file_id) {
                            waits.push(file_id);
                        }
                        match d.told {
                            None => {},
                            Some(conn) => {
                                let ghost messages = break_messages(
                                    m,
                                    flags@,
                                    target_level,
                                    batch_only,
                                    i as int,
                                );
                                self.send_oplock_break(conn, d.left, file_id);
                                assert(self@.outbox =~= m.outbox + messages.push(
                                    break_message(m.opens[i as int], d.left),
                                ));
                            },
                        }
                    },
                }
            }
            i += 1;
        }
        assert(self@.opens =~= after.opens);
        waits
    }

    /// Breaks the oplocks of a path and stream to a level; returns the files whose oplocks
    /// are to be waited for.
    pub fn break_conflicting_oplocks_for_open(
        &mut self,
        share: &str,
        path: &SmbPath,
        stream_name: Option<&str>,
        target_level: u8,
    ) -> (r: Vec<FileId>)
        ensures
            ({
                let m = old(self)@;
                let flags = leases::on_stream_flags(
                    m.opens,
                    share@,
                    path@,
                    types::opt_str(stream_name),
                );
                final(self)@ == oplocks_broken(m, flags, target_level, false) && r@
                    == awaited_files(m, flags, target_level, false, m.opens.len() as int)
            }),
    {
        self.break_conflicting_oplocks_for_open_filtered(
            share,
            path,
            stream_name,
            target_level,
            false,
        )
    }

    /// Breaks the batch oplocks of a path and stream to a level; returns the files whose
    /// oplocks are to be waited for.
    pub fn break_conflicting_batch_oplocks_for_open(
        &mut self,
        share: &str,
        path: &SmbPath,
        stream_name: Option<&str>,
        target_level: u8,
    ) -> (r: Vec<FileId>)
        ensures
            ({
                let m = old(self)@;
                let flags = leases::on_stream_flags(
                    m.opens,
                    share@,
                    path@,
                    types::opt_str(stream_name),
                );
                final(self)@ == oplocks_broken(m, flags, target_level, true) && r@
                    == awaited_files(m, flags, target_level, true, m.opens.len() as int)
            }),
    {
        self.break_conflicting_oplocks_for_open_filtered(
            share,
            path,
            stream_name,
            target_level,
            true,
        )
    }

    fn open_by_file_id_for_connection(&self, conn: u64, file_id: FileId) -> (r: Option<usize>)
        ensures
            match r {
                None => !state::conn_alive(self@.connections, conn) || !lists::found(
                    self@.opens,
                    registered_on(conn, file_id),
                ),
                Some(i) => state::conn_alive(self@.connections, conn) && i < self.opens@.len() && i
                    == lists::first(self@.opens, registered_on(conn, file_id)),
            },
    {
        if self.find_conn(conn).is_none() {
            return None;
        }
        let mut i: usize = 0;
        while i < self.opens.len()
            invariant
                i <= self.opens@.len(),
                state::conn_alive(self@.connections, conn),
                forall|j: int|
                    0 <= j < i ==> !registered_on(conn, file_id)(#[trigger] self@.opens[j]),
            decreases self.opens@.len() - i,
        {
            assert(self@.opens[i as int] == self.opens@[i as int]@);
            let own: bool = match &self.opens[i].registration {
                None => false,
                Some(g) => g.conn == conn,
            };
            if own && self.opens[i].open.file_id == file_id {
                proof {
                    lists::first_at(self@.opens, registered_on(conn, file_id), i as int);
                }
                return Some(i);
            }
            i += 1;
        }
        proof {
            lists::first_at(self@.opens, registered_on(conn, file_id), i as int);
        }
        None
    }

    /// Takes note of a client's acknowledgment of an oplock break.
    pub fn acknowledge_oplock_break(&mut self, conn: u64, file_id: FileId, level: u8) -> (r: u32)
        ensures
            r == ack_status(old(self)@, conn, file_id, level),
            final(self)@ == oplock_acked(old(self)@, conn, file_id, level),
    {
        let at: Option<usize> = match self.open_by_file_id_for_connection(conn, file_id) {
            Some(i) => Some(i),
            None => self.open_by_file_id(file_id),
        };
        match at {
            None => STATUS_FILE_CLOSED,
            Some(i) => {
                assert(self@.opens[i as int] == self.opens@[i as int]@);
                let o: Oplock = self.opens[i].open.oplock;
                if !o.breaking {
                    return if level == OPLOCK_NONE {
                        STATUS_INVALID_OPLOCK_PROTOCOL
                    } else {
                        STATUS_OBJECT_NAME_NOT_FOUND
                    };
                }
                if !valid_oplock_break_ack_for_target(level, o.break_to) {
                    return STATUS_INVALID_PARAMETER;
                }
                self.opens[i].open.oplock = Oplock {
                    level,
                    breaking: false,
                    break_to: OPLOCK_NONE,
                };
                assert(self@.opens =~= old(self)@.opens.update(
                    i as int,
                    timeouts::with_oplock(old(self)@.opens[i as int], level),
                ));
                self.complete_cache_break_waits_for_oplock_file_id(file_id);
                STATUS_SUCCESS
            },
        }
    }

    /// Takes the level II oplocks of a path and stream away before the file changes.
    pub fn break_level_ii_oplocks_for_mutation(
        &mut self,
        share: &str,
        path: &SmbPath,
        stream_name: Option<&str>,
    ) -> (r: usize)
        ensures
            ({
                let m = old(self)@;
                let n = m.opens.len() as int;
                let flags = leases::on_stream_flags(
                    m.opens,
                    share@,
                    path@,
                    types::opt_str(stream_name),
                );
                r == level_ii_count(m.opens, flags, n) && final(self)@ == (StateModel {
                    opens: level_ii_dropped(m.opens, flags),
                    outbox: m.outbox + level_ii_messages(m, flags, n),
                    ..m
                })
            }),
    {
        let flags: Vec<bool> = self.flags_on_stream(share, path, stream_name);
        let ghost m = self@;
        let ghost after = level_ii_dropped(m.opens, flags@);
        let mut count: usize = 0;
        let mut i: usize = 0;
        assert(m.outbox + Seq::<ActionModel>::empty() =~= m.outbox);
        while i < flags.len()
            invariant
                i <= flags@.len(),
                flags@.len() == m.opens.len(),
                self@.opens.len() == m.opens.len(),
                after == level_ii_dropped(m.opens, flags@),
                count <= i,
                count == level_ii_count(m.opens, flags@, i as int),
                self@ == (StateModel {
                    opens: self@.opens,
                    outbox: m.outbox + level_ii_messages(m, flags@, i as int),
                    ..m
                }),
                forall|j: int| 0 <= j < i ==> (#[trigger] self@.opens[j]) == after[j],
                forall|j: int|
                    i <= j < self@.opens.len() ==> (#[trigger] self@.opens[j]) == m.opens[j],
            decreases flags@.len() - i,
        {
            assert(self@.opens.len() == self.opens@.len());
            assert(self@.opens[i as int] == self.opens@[i as int]@);
            if flags[i] && self.opens[i].open.oplock.level == OPLOCK_LEVEL_II {
                let file_id: FileId = self.opens[i].open.file_id;
                let told: Option<u64> = self.told_of_open(&self.opens[i]);
                let ghost before = self@.opens;
                self.opens[i].open.oplock = Oplock {
                    level: OPLOCK_NONE,
                    breaking: false,
                    break_to: OPLOCK_NONE,
                };
                assert(self@.opens =~= before.update(i as int, after[i as int]));
                count += 1;
                match told {
                    None => {},
                    Some(conn) => {
                        let ghost messages = level_ii_messages(m, flags@, i as int);
                        self.send_oplock_break(conn, OPLOCK_NONE, file_id);
                        assert(self@.outbox =~= m.outbox + messages.push(
                            break_message(m.opens[i as int], OPLOCK_NONE),
                        ));
                    },
                }
            }
            i += 1;
        }
        assert(self@.opens =~= after);
        count
    }

    /// Takes the level II oplocks of a path and stream away and tells nobody.
    pub fn drop_level_ii_oplocks_without_notification(
        &mut self,
        share: &str,
        path: &SmbPath,
        stream_name: Option<&str>,
    ) -> (r: usize)
        ensures
            ({
                let m = old(self)@;
                let flags = leases::on_stream_flags(
                    m.opens,
                    share@,
                    path@,
                    types::opt_str(stream_name),
                );
                r == level_ii_count(m.opens, flags, m.opens.len() as int) && final(self)@
                    == level_ii_lost(m, share@, path@, types::opt_str(stream_name))
            }),
    {
        let flags: Vec<bool> = self.flags_on_stream(share, path, stream_name);
        let ghost m = self@;
        let ghost after = level_ii_dropped(m.opens, flags@);
        let mut count: usize = 0;
        let mut i: usize = 0;
        while i < flags.len()
            invariant
                i <= flags@.len(),
                flags@.len() == m.opens.len(),
                self@.opens.len() == m.opens.len(),
                after == level_ii_dropped(m.opens, flags@),
                count <= i,
                count == level_ii_count(m.opens, flags@, i as int),
                self@ == (StateModel { opens: self@.opens, ..m }),
                forall|j: int| 0 <= j < i ==> (#[trigger] self@.opens[j]) == after[j],
                forall|j: int|
                    i <= j < self@.opens.len() ==> (#[trigger] self@.opens[j]) == m.opens[j],
            decreases flags@.len() - i,
        {
            assert(self@.opens.len() == self.opens@.len());
            assert(self@.opens[i as int] == self.opens@[i as int]@);
            if flags[i] && self.opens[i].open.oplock.level == OPLOCK_LEVEL_II {
                let ghost before = self@.opens;
                self.opens[i].open.oplock = Oplock {
                    level: OPLOCK_NONE,
                    breaking: false,
                    break_to: OPLOCK_NONE,
                };
                assert(self@.opens =~= before.update(i as int, after[i as int]));
                count += 1;
            }
            i += 1;
        }
        assert(self@.opens =~= after);
        count
    }

    /// Takes the level II oplock of an open away where others have the file open.
    pub fn break_own_level_ii_oplock_if_other_handles(
        &mut self,
        share: &str,
        path: &SmbPath,
        stream_name: Option<&str>,
        file_id: FileId,
    ) -> (r: bool)
        ensures
            r == loses_own_level_ii(
                old(self)@.opens,
                share@,
                path@,
                types::opt_str(stream_name),
                file_id,
            ),
            final(self)@ == own_level_ii_broken(
                old(self)@,
                share@,
                path@,
                types::opt_str(stream_name),
                file_id,
            ),
    {
        let ghost stream = types::opt_str(stream_name);
        let flags: Vec<bool> = self.flags_on_stream(share, path, stream_name);
        let mut other: bool = false;
        let mut own: Option<usize> = None;
        let mut i: usize = 0;
        let ghost test = own_level_ii(share@, path@, stream, file_id);
        while i < flags.len()
            invariant
                i <= flags@.len(),
                flags@ == leases::on_stream_flags(self@.opens, share@, path@, stream),
                test == own_level_ii(share@, path@, stream, file_id),
                other == (exists|j: int|
                    0 <= j < i && is_other_handle(
                        #[trigger] self@.opens[j],
                        share@,
                        path@,
                        stream,
                        file_id,
                    )),
                match own {
                    None => forall|j: int| 0 <= j < i ==> !test(#[trigger] self@.opens[j]),
                    Some(k) => k < i && test(self@.opens[k as int]) && forall|j: int|
                        0 <= j < k ==> !test(#[trigger] self@.opens[j]),
                },
            decreases flags@.len() - i,
        {
            assert(self@.opens.len() == self.opens@.len());
            assert(self@.opens[i as int] == self.opens@[i as int]@);
            if flags[i] {
                if self.opens[i].open.file_id != file_id {
                    other = true;
                    assert(is_other_handle(self@.opens[i as int], share@, path@, stream, file_id));
                } else if own.is_none() && self.opens[i].open.oplock.level == OPLOCK_LEVEL_II {
                    own = Some(i);
                }
            }
            i += 1;
        }
        match own {
            None => {
                proof {
                    lists::first_at(self@.opens, test, self@.opens.len() as int);
                }
                false
            },
            Some(k) => {
                proof {
                    lists::first_at(self@.opens, test, k as int);
                }
                if !other {
                    return false;
                }
                assert(self@.opens[k as int] == self.opens@[k as int]@);
                let told: Option<u64> = self.told_of_open(&self.opens[k]);
                self.opens[k].open.oplock = Oplock {
                    level: OPLOCK_NONE,
                    breaking: false,
                    break_to: OPLOCK_NONE,
                };
                assert(self@.opens =~= old(self)@.opens.update(
                    k as int,
                    timeouts::with_oplock(old(self)@.opens[k as int], OPLOCK_NONE),
                ));
                match told {
                    None => {},
                    Some(conn) => {
                        self.send_oplock_break(conn, OPLOCK_NONE, file_id);
                    },
                }
                true
            },
        }
    }
}

/// The state after the level II oplocks of a path and stream were taken away.
pub open spec fn level_ii_lost(
    m: StateModel,
    share: Seq<char>,
    path: PathModel,
    stream_name: Option<Seq<char>>,
) -> StateModel {
    StateModel {
        opens: level_ii_dropped(
            m.opens,
            leases::on_stream_flags(m.opens, share, path, stream_name),
        ),
        ..m
    }
}

} // verus!
