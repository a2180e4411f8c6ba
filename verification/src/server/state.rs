//! The state of the server as a whole, and the small steps that the larger ones share.

use crate::backend::FileTimes;
use crate::info_class::ea;
use crate::info_class::ea::{EaModel, ExtendedAttribute};
use crate::info_class::PosixMetadata;
use crate::path::{PathModel, SmbPath};
use crate::proto::messages::FileId;
use crate::server::rules::MAX_PENDING_ASYNC_REQUESTS;
use crate::server::shares::{ServerShares, ServerUsers, ShareModel, UserModel};
use crate::server::streams::{NamedStreamModel, StreamList};
use crate::server::table::{KeyModel, Table};
use crate::server::types;
use crate::server::types::{
    Action, ActionModel, BodyModel, Connection, ConnectionModel, CreateWait, CreateWaitModel,
    DurableModel, DurableOpen, HeldLock, HeldLockModel, LeaseGeneration, LockWait, LockWaitModel,
    NotifyWait, NotifyWaitModel, OpenRecord, OpenRecordModel, PipeReadWait, ReplayKeyModel,
    ReplayKey, ResponseBody, TaskWait, TaskWaitModel, WriteWait, WriteWaitModel, NIL16,
};
use crate::server::waiting;
use crate::server::waiting::{Waiting, WaitingModel};
use crate::text;
use crate::wire::array16_equal;
use vstd::prelude::*;

verus! {

/// How a server is configured. Times are in milliseconds.
#[derive(Debug, Clone, Copy, PartialEq, Eq)]
pub struct ServerConfig {
    pub max_read_size: u32,
    pub max_write_size: u32,
    pub max_credits: u16,
    pub durable_handle_timeout: u64,
    pub cache_break_timeout: u64,
    pub server_guid: [u8; 16],
    pub require_signing: bool,
    pub encrypt_data: bool,
    pub disable_compression: bool,
}

impl View for PosixMetadata {
    type V = PosixMetadata;

    open spec fn view(&self) -> PosixMetadata {
        *self
    }
}

impl View for FileTimes {
    type V = FileTimes;

    open spec fn view(&self) -> FileTimes {
        *self
    }
}

impl View for FileId {
    type V = FileId;

    open spec fn view(&self) -> FileId {
        *self
    }
}

/// The extended attributes of a file.
#[derive(Debug, Clone, PartialEq, Eq)]
pub struct EaList {
    pub items: Vec<ExtendedAttribute>,
}

impl View for EaList {
    type V = Seq<EaModel>;

    open spec fn view(&self) -> Seq<EaModel> {
        ea::models(self.items@)
    }
}

/// What is kept beside the files, by share and path.
#[derive(Debug, Clone, PartialEq, Eq)]
pub struct FileStores {
    pub posix_metadata: Table<PosixMetadata>,
    pub security_descriptors: Table<Vec<u8>>,
    pub extended_attributes: Table<EaList>,
    pub allocation_sizes: Table<u64>,
    pub file_attributes: Table<u32>,
    pub file_times: Table<FileTimes>,
    pub sticky_write_time_owners: Table<FileId>,
    pub pinned_write_times: Table<bool>,
    pub deleted_names: Table<bool>,
    pub streams: Table<StreamList>,
}

/// What is kept beside the files.
#[verifier::ext_equal]
pub struct FilesModel {
    pub posix_metadata: Map<KeyModel, PosixMetadata>,
    pub security_descriptors: Map<KeyModel, Seq<u8>>,
    pub extended_attributes: Map<KeyModel, Seq<EaModel>>,
    pub allocation_sizes: Map<KeyModel, u64>,
    pub file_attributes: Map<KeyModel, u32>,
    pub file_times: Map<KeyModel, FileTimes>,
    pub sticky_write_time_owners: Map<KeyModel, FileId>,
    pub pinned_write_times: Map<KeyModel, bool>,
    pub deleted_names: Map<KeyModel, bool>,
    pub streams: Map<KeyModel, Seq<NamedStreamModel>>,
}

impl View for FileStores {
    type V = FilesModel;

    open spec fn view(&self) -> FilesModel {
        FilesModel {
            posix_metadata: self.posix_metadata@,
            security_descriptors: self.security_descriptors@,
            extended_attributes: self.extended_attributes@,
            allocation_sizes: self.allocation_sizes@,
            file_attributes: self.file_attributes@,
            file_times: self.file_times@,
            sticky_write_time_owners: self.sticky_write_time_owners@,
            pinned_write_times: self.pinned_write_times@,
            deleted_names: self.deleted_names@,
            streams: self.streams@,
        }
    }
}

/// A create request that was answered, with the answer.
#[derive(Debug, Clone, PartialEq, Eq)]
pub struct CompletedReplay {
    pub key: ReplayKey,
    pub body: ResponseBody,
}

/// A create request that was answered, with the answer.
#[verifier::ext_equal]
pub struct CompletedReplayModel {
    pub key: ReplayKeyModel,
    pub body: BodyModel,
}

impl View for CompletedReplay {
    type V = CompletedReplayModel;

    open spec fn view(&self) -> CompletedReplayModel {
        CompletedReplayModel { key: self.key@, body: self.body@ }
    }
}

/// The state of the server.
pub struct ServerState {
    pub config: ServerConfig,
    pub users: ServerUsers,
    pub shares: ServerShares,
    pub next_session_id: u64,
    pub next_file_id: u64,
    pub next_connection_id: u64,
    pub server_start_filetime: u64,
    pub connections: Vec<Connection>,
    pub opens: Vec<OpenRecord>,
    pub durable_opens: Vec<DurableOpen>,
    pub delete_pending: Table<bool>,
    pub byte_range_locks: Vec<HeldLock>,
    pub change_notifies: Vec<Waiting<NotifyWait>>,
    pub pipe_reads: Vec<Waiting<PipeReadWait>>,
    pub byte_range_lock_waits: Vec<Waiting<LockWait>>,
    pub cache_break_creates: Vec<Waiting<CreateWait>>,
    pub cache_break_writes: Vec<Waiting<WriteWait>>,
    pub cache_break_tasks: Vec<Waiting<TaskWait>>,
    pub completed_create_replays: Vec<CompletedReplay>,
    pub lease_break_generations: Vec<LeaseGeneration>,
    pub files: FileStores,
    /// Work that is handed out, the oldest first.
    pub outbox: Vec<Action>,
}

/// What the state holds.
#[verifier::ext_equal]
pub struct StateModel {
    pub config: ServerConfig,
    pub users: Seq<UserModel>,
    pub shares: Seq<ShareModel>,
    pub next_session_id: u64,
    pub next_file_id: u64,
    pub next_connection_id: u64,
    pub server_start_filetime: u64,
    pub connections: Seq<ConnectionModel>,
    pub opens: Seq<OpenRecordModel>,
    pub durable_opens: Seq<DurableModel>,
    pub delete_pending: Map<KeyModel, bool>,
    pub byte_range_locks: Seq<HeldLockModel>,
    pub change_notifies: Seq<WaitingModel<NotifyWaitModel>>,
    pub pipe_reads: Seq<WaitingModel<()>>,
    pub byte_range_lock_waits: Seq<WaitingModel<LockWaitModel>>,
    pub cache_break_creates: Seq<WaitingModel<CreateWaitModel>>,
    pub cache_break_writes: Seq<WaitingModel<WriteWaitModel>>,
    pub cache_break_tasks: Seq<WaitingModel<TaskWaitModel>>,
    pub completed_create_replays: Seq<CompletedReplayModel>,
    pub lease_break_generations: Seq<LeaseGeneration>,
    pub files: FilesModel,
    pub outbox: Seq<ActionModel>,
}

/// What connections hold.
pub open spec fn connection_models(s: Seq<Connection>) -> Seq<ConnectionModel> {
    s.map_values(|c: Connection| c@)
}

/// What opens hold.
pub open spec fn open_models(s: Seq<OpenRecord>) -> Seq<OpenRecordModel> {
    s.map_values(|r: OpenRecord| r@)
}

/// What durable opens hold.
pub open spec fn durable_models(s: Seq<DurableOpen>) -> Seq<DurableModel> {
    s.map_values(|d: DurableOpen| d@)
}

/// What held locks say.
pub open spec fn lock_models(s: Seq<HeldLock>) -> Seq<HeldLockModel> {
    s.map_values(|l: HeldLock| l@)
}

/// What answered create requests hold.
pub open spec fn replay_models(s: Seq<CompletedReplay>) -> Seq<CompletedReplayModel> {
    s.map_values(|r: CompletedReplay| r@)
}

/// What actions say.
pub open spec fn action_models(s: Seq<Action>) -> Seq<ActionModel> {
    s.map_values(|a: Action| a@)
}

impl View for ServerState {
    type V = StateModel;

    open spec fn view(&self) -> StateModel {
        StateModel {
            config: self.config,
            users: self.users@,
            shares: self.shares@,
            next_session_id: self.next_session_id,
            next_file_id: self.next_file_id,
            next_connection_id: self.next_connection_id,
            server_start_filetime: self.server_start_filetime,
            connections: connection_models(self.connections@),
            opens: open_models(self.opens@),
            durable_opens: durable_models(self.durable_opens@),
            delete_pending: self.delete_pending@,
            byte_range_locks: lock_models(self.byte_range_locks@),
            change_notifies: waiting::models(self.change_notifies@),
            pipe_reads: waiting::models(self.pipe_reads@),
            byte_range_lock_waits: waiting::models(self.byte_range_lock_waits@),
            cache_break_creates: waiting::models(self.cache_break_creates@),
            cache_break_writes: waiting::models(self.cache_break_writes@),
            cache_break_tasks: waiting::models(self.cache_break_tasks@),
            completed_create_replays: replay_models(self.completed_create_replays@),
            lease_break_generations: self.lease_break_generations@,
            files: self.files@,
            outbox: action_models(self.outbox@),
        }
    }
}

/// The state of a server that was just set up.
pub open spec fn fresh(
    config: ServerConfig,
    users: Seq<UserModel>,
    shares: Seq<ShareModel>,
    now: u64,
) -> StateModel {
    StateModel {
        config,
        users,
        shares,
        next_session_id: 1,
        next_file_id: 1,
        next_connection_id: 1,
        server_start_filetime: now,
        connections: Seq::empty(),
        opens: Seq::empty(),
        durable_opens: Seq::empty(),
        delete_pending: Map::empty(),
        byte_range_locks: Seq::empty(),
        change_notifies: Seq::empty(),
        pipe_reads: Seq::empty(),
        byte_range_lock_waits: Seq::empty(),
        cache_break_creates: Seq::empty(),
        cache_break_writes: Seq::empty(),
        cache_break_tasks: Seq::empty(),
        completed_create_replays: Seq::empty(),
        lease_break_generations: Seq::empty(),
        files: FilesModel {
            posix_metadata: Map::empty(),
            security_descriptors: Map::empty(),
            extended_attributes: Map::empty(),
            allocation_sizes: Map::empty(),
            file_attributes: Map::empty(),
            file_times: Map::empty(),
            sticky_write_time_owners: Map::empty(),
            pinned_write_times: Map::empty(),
            deleted_names: Map::empty(),
            streams: Map::empty(),
        },
        outbox: Seq::empty(),
    }
}

// ---------------------------------------------------------------------------
// Connections
// ---------------------------------------------------------------------------

/// Where the first connection with a key stands; the length of the list where there is
/// none.
pub open spec fn conn_index(conns: Seq<ConnectionModel>, key: u64) -> int
    decreases conns.len(),
{
    if conns.len() == 0 {
        0
    } else if conns[0].key == key {
        0
    } else {
        1 + conn_index(conns.skip(1), key)
    }
}

/// Whether a connection is still there.
pub open spec fn conn_alive(conns: Seq<ConnectionModel>, key: u64) -> bool {
    conn_index(conns, key) < conns.len()
}

/// The connection with a key.
pub open spec fn conn_of(conns: Seq<ConnectionModel>, key: u64) -> Option<ConnectionModel> {
    if conn_alive(conns, key) {
        Some(conns[conn_index(conns, key)])
    } else {
        None
    }
}

/// Whether a connection is there and can be sent messages that it did not ask for.
pub open spec fn has_sender(conns: Seq<ConnectionModel>, key: u64) -> bool {
    conn_of(conns, key) matches Some(c) && c.has_sender
}

/// Connections after a pending request of one was answered.
pub open spec fn released(conns: Seq<ConnectionModel>, key: u64) -> Seq<ConnectionModel> {
    let i = conn_index(conns, key);
    if i < conns.len() && conns[i].pending_async > 0 {
        conns.update(
            i,
            ConnectionModel {
                pending_async: (conns[i].pending_async - 1) as usize,
                ..conns[i]
            },
        )
    } else {
        conns
    }
}

/// The first connection with a key stands where nothing before it has the key.
pub proof fn conn_index_is_first(conns: Seq<ConnectionModel>, key: u64)
    ensures
        0 <= conn_index(conns, key) <= conns.len(),
        conn_alive(conns, key) ==> conns[conn_index(conns, key)].key == key,
        forall|i: int| 0 <= i < conn_index(conns, key) ==> (#[trigger] conns[i]).key != key,
    decreases conns.len(),
{
    if conns.len() > 0 && conns[0].key != key {
        conn_index_is_first(conns.skip(1), key);
        let n = conn_index(conns.skip(1), key);
        assert forall|i: int| 0 <= i < conn_index(conns, key) implies (#[trigger] conns[i]).key
            != key by {
            if i > 0 {
                assert(conns.skip(1)[i - 1].key != key);
            }
        }
        if n < conns.skip(1).len() {
            assert(conns.skip(1)[n] == conns[n + 1]);
        }
    }
}

proof fn lemma_conn_index_at(conns: Seq<ConnectionModel>, key: u64, at: int)
    requires
        0 <= at <= conns.len(),
        at < conns.len() ==> conns[at].key == key,
        forall|i: int| 0 <= i < at ==> (#[trigger] conns[i]).key != key,
    ensures
        conn_index(conns, key) == at,
{
    conn_index_is_first(conns, key);
    let n = conn_index(conns, key);
    if n < at {
        assert(conns[n].key != key);
    }
    if at < n {
        assert(conns[at].key == key);
    }
}

/// Answering a request leaves every connection where it is.
pub proof fn released_keeps_connections(conns: Seq<ConnectionModel>, key: u64, other: u64)
    ensures
        released(conns, key).len() == conns.len(),
        conn_index(released(conns, key), other) == conn_index(conns, other),
        conn_alive(released(conns, key), other) == conn_alive(conns, other),
        has_sender(released(conns, key), other) == has_sender(conns, other),
        forall|i: int|
            0 <= i < conns.len() ==> (#[trigger] released(conns, key)[i]) == (ConnectionModel {
                pending_async: released(conns, key)[i].pending_async,
                ..conns[i]
            }),
{
    let after = released(conns, key);
    conn_index_is_first(conns, key);
    conn_index_is_first(conns, other);
    let at = conn_index(conns, other);
    assert forall|i: int| 0 <= i < at implies (#[trigger] after[i]).key != other by {
        assert(conns[i].key != other);
    }
    lemma_conn_index_at(after, other, at);
}

// ---------------------------------------------------------------------------
// Opens
// ---------------------------------------------------------------------------

/// Where the first open with a key stands; the length of the list where there is none.
pub open spec fn open_index(opens: Seq<OpenRecordModel>, key: u64) -> int
    decreases opens.len(),
{
    if opens.len() == 0 {
        0
    } else if opens[0].key == key {
        0
    } else {
        1 + open_index(opens.skip(1), key)
    }
}

/// Whether an open is still there.
pub open spec fn open_alive(opens: Seq<OpenRecordModel>, key: u64) -> bool {
    open_index(opens, key) < opens.len()
}

/// The first open with a key stands where nothing before it has the key.
pub proof fn open_index_is_first(opens: Seq<OpenRecordModel>, key: u64)
    ensures
        0 <= open_index(opens, key) <= opens.len(),
        open_alive(opens, key) ==> opens[open_index(opens, key)].key == key,
        forall|i: int| 0 <= i < open_index(opens, key) ==> (#[trigger] opens[i]).key != key,
    decreases opens.len(),
{
    if opens.len() > 0 && opens[0].key != key {
        open_index_is_first(opens.skip(1), key);
        let n = open_index(opens.skip(1), key);
        assert forall|i: int| 0 <= i < open_index(opens, key) implies (#[trigger] opens[i]).key
            != key by {
            if i > 0 {
                assert(opens.skip(1)[i - 1].key != key);
            }
        }
        if n < opens.skip(1).len() {
            assert(opens.skip(1)[n] == opens[n + 1]);
        }
    }
}

/// Where the first open with a key stands is known from the keys before it.
pub proof fn open_index_at(opens: Seq<OpenRecordModel>, key: u64, at: int)
    requires
        0 <= at <= opens.len(),
        at < opens.len() ==> opens[at].key == key,
        forall|i: int| 0 <= i < at ==> (#[trigger] opens[i]).key != key,
    ensures
        open_index(opens, key) == at,
{
    open_index_is_first(opens, key);
    let n = open_index(opens, key);
    if n < at {
        assert(opens[n].key != key);
    }
    if at < n {
        assert(opens[at].key == key);
    }
}

/// Whether an open is registered in a share.
pub open spec fn in_share(r: OpenRecordModel, share: Seq<char>) -> bool {
    r.registration matches Some(g) && g.share == text::lowered(share)
}

/// Whether an open is registered on a path, with any stream.
pub open spec fn on_path(r: OpenRecordModel, share: Seq<char>, path: PathModel) -> bool {
    in_share(r, share) && r.registration->0.path == path
}

/// Whether an open is registered on a path and stream.
pub open spec fn on_stream(
    r: OpenRecordModel,
    share: Seq<char>,
    path: PathModel,
    stream_name: Option<Seq<char>>,
) -> bool {
    on_path(r, share, path) && r.registration->0.stream_name == types::opt_lowered(stream_name)
}

/// Where an open is registered, as it is looked up.
pub struct Place {
    pub share: String,
    pub path: SmbPath,
    pub stream_name: Option<String>,
}

impl Place {
    /// Where a path and stream of a share are registered.
    pub fn new(share: &str, path: &SmbPath, stream_name: Option<&str>) -> (r: Self)
        ensures
            r.share@ == text::lowered(share@),
            r.path@ == path@,
            types::opt_text(r.stream_name) == types::opt_lowered(types::opt_str(stream_name)),
    {
        Place {
            share: text::lower_string(share),
            path: path.duplicate(),
            stream_name: types::lower_opt(stream_name),
        }
    }

    /// Whether an open is registered in the share.
    pub fn has_share(&self, r: &OpenRecord) -> (b: bool)
        ensures
            b == (r@.registration matches Some(g) && g.share == self.share@),
    {
        match &r.registration {
            Some(g) => g.share == self.share,
            None => false,
        }
    }

    /// Whether an open is registered on the path, with any stream.
    pub fn has_path(&self, r: &OpenRecord) -> (b: bool)
        ensures
            b == (r@.registration matches Some(g) && g.share == self.share@ && g.path
                == self.path@),
    {
        match &r.registration {
            Some(g) => g.share == self.share && g.path.same(&self.path),
            None => false,
        }
    }

    /// Whether an open is registered on the path and stream.
    pub fn has_stream(&self, r: &OpenRecord) -> (b: bool)
        ensures
            b == (r@.registration matches Some(g) && g.share == self.share@ && g.path == self.path@
                && g.stream_name == types::opt_text(self.stream_name)),
    {
        match &r.registration {
            Some(g) => g.share == self.share && g.path.same(&self.path) && types::opt_equal(
                &g.stream_name,
                &self.stream_name,
            ),
            None => false,
        }
    }
}

// ---------------------------------------------------------------------------
// Answers
// ---------------------------------------------------------------------------

/// The state after work was handed out.
pub open spec fn acted(m: StateModel, a: ActionModel) -> StateModel {
    StateModel { outbox: m.outbox.push(a), ..m }
}

/// The state after a waiting request of a connection is no longer counted.
pub open spec fn slot_released(m: StateModel, conn: u64) -> StateModel {
    StateModel { connections: released(m.connections, conn), ..m }
}

/// The state after a waiting request was answered: it is no longer counted, and the
/// answer goes to the connection, where it is still there.
pub open spec fn answered(
    m: StateModel,
    conn: u64,
    async_id: u64,
    status: u32,
    body: BodyModel,
    compound: Option<u64>,
) -> StateModel {
    let after = slot_released(m, conn);
    if conn_alive(m.connections, conn) {
        acted(after, ActionModel::Respond { conn, async_id, status, body, compound })
    } else {
        after
    }
}

impl ServerState {
    /// A server that was just set up.
    pub fn new(
        config: ServerConfig,
        users: ServerUsers,
        shares: ServerShares,
        now: u64,
    ) -> (r: Self)
        ensures
            r@ == fresh(config, users@, shares@, now),
    {
        let r = ServerState {
            config,
            users,
            shares,
            next_session_id: 1,
            next_file_id: 1,
            next_connection_id: 1,
            server_start_filetime: now,
            connections: Vec::new(),
            opens: Vec::new(),
            durable_opens: Vec::new(),
            delete_pending: Table::new(),
            byte_range_locks: Vec::new(),
            change_notifies: Vec::new(),
            pipe_reads: Vec::new(),
            byte_range_lock_waits: Vec::new(),
            cache_break_creates: Vec::new(),
            cache_break_writes: Vec::new(),
            cache_break_tasks: Vec::new(),
            completed_create_replays: Vec::new(),
            lease_break_generations: Vec::new(),
            files: FileStores {
                posix_metadata: Table::new(),
                security_descriptors: Table::new(),
                extended_attributes: Table::new(),
                allocation_sizes: Table::new(),
                file_attributes: Table::new(),
                file_times: Table::new(),
                sticky_write_time_owners: Table::new(),
                pinned_write_times: Table::new(),
                deleted_names: Table::new(),
                streams: Table::new(),
            },
            outbox: Vec::new(),
        };
        assert(r@ =~= fresh(config, users@, shares@, now));
        r
    }

    /// Hands out a session id.
    pub fn alloc_session_id(&mut self) -> (r: u64)
        ensures
            r == old(self)@.next_session_id,
            final(self)@ == (StateModel {
                next_session_id: if old(self)@.next_session_id == u64::MAX {
                    0
                } else {
                    (old(self)@.next_session_id + 1) as u64
                },
                ..old(self)@
            }),
    {
        let id: u64 = self.next_session_id;
        self.next_session_id = if id == u64::MAX {
            0
        } else {
            id + 1
        };
        id
    }

    /// Hands out a file id, the same in both halves.
    pub fn alloc_file_id(&mut self) -> (r: FileId)
        ensures
            r == (FileId {
                persistent: old(self)@.next_file_id,
                volatile: old(self)@.next_file_id,
            }),
            final(self)@ == (StateModel {
                next_file_id: if old(self)@.next_file_id == u64::MAX {
                    0
                } else {
                    (old(self)@.next_file_id + 1) as u64
                },
                ..old(self)@
            }),
    {
        let id: u64 = self.next_file_id;
        self.next_file_id = if id == u64::MAX {
            0
        } else {
            id + 1
        };
        FileId::new(id, id)
    }

    /// Where the first connection with a key stands.
    pub fn find_conn(&self, key: u64) -> (r: Option<usize>)
        ensures
            match r {
                None => !conn_alive(self@.connections, key),
                Some(i) => conn_alive(self@.connections, key) && i == conn_index(
                    self@.connections,
                    key,
                ) && i < self.connections@.len(),
            },
    {
        let mut i: usize = 0;
        while i < self.connections.len()
            invariant
                i <= self.connections@.len(),
                forall|j: int| 0 <= j < i ==> (#[trigger] self@.connections[j]).key != key,
            decreases self.connections@.len() - i,
        {
            if self.connections[i].key == key {
                proof {
                    assert(self@.connections[i as int].key == key);
                    lemma_conn_index_at(self@.connections, key, i as int);
                }
                return Some(i);
            }
            i += 1;
        }
        proof {
            lemma_conn_index_at(self@.connections, key, i as int);
        }
        None
    }

    /// Where the first open with a key stands.
    pub fn find_open(&self, key: u64) -> (r: Option<usize>)
        ensures
            match r {
                None => !open_alive(self@.opens, key),
                Some(i) => open_alive(self@.opens, key) && i == open_index(self@.opens, key) && i
                    < self.opens@.len(),
            },
    {
        let mut i: usize = 0;
        while i < self.opens.len()
            invariant
                i <= self.opens@.len(),
                forall|j: int| 0 <= j < i ==> (#[trigger] self@.opens[j]).key != key,
            decreases self.opens@.len() - i,
        {
            if self.opens[i].key == key {
                proof {
                    assert(self@.opens[i as int].key == key);
                    open_index_at(self@.opens, key, i as int);
                }
                return Some(i);
            }
            i += 1;
        }
        proof {
            open_index_at(self@.opens, key, i as int);
        }
        None
    }

    /// Hands out work.
    pub fn act(&mut self, a: Action)
        ensures
            final(self)@ == acted(old(self)@, a@),
    {
        self.outbox.push(a);
        assert(self@ =~= acted(old(self)@, a@));
    }

    /// Counts one more pending request of a connection, unless it has too many or is gone.
    pub fn reserve_pending_async_slot(&mut self, conn: u64) -> (r: bool)
        ensures
            ({
                let conns = old(self)@.connections;
                let i = conn_index(conns, conn);
                r == (conn_alive(conns, conn) && conns[i].pending_async
                    < MAX_PENDING_ASYNC_REQUESTS) && final(self)@ == if r {
                    StateModel {
                        connections: conns.update(
                            i,
                            ConnectionModel {
                                pending_async: (conns[i].pending_async + 1) as usize,
                                ..conns[i]
                            },
                        ),
                        ..old(self)@
                    }
                } else {
                    old(self)@
                }
            }),
    {
        match self.find_conn(conn) {
            None => false,
            Some(i) => {
                assert(self@.connections[i as int] == self.connections@[i as int]@);
                if self.connections[i].pending_async < MAX_PENDING_ASYNC_REQUESTS {
                    self.connections[i].pending_async = self.connections[i].pending_async + 1;
                    proof {
                        let conns = old(self)@.connections;
                        assert(self@.connections =~= conns.update(
                            i as int,
                            ConnectionModel {
                                pending_async: (conns[i as int].pending_async + 1) as usize,
                                ..conns[i as int]
                            },
                        ));
                    }
                    true
                } else {
                    false
                }
            },
        }
    }

    /// Counts one pending request of a connection less.
    pub fn release_pending_async_slot(&mut self, conn: u64)
        ensures
            final(self)@ == slot_released(old(self)@, conn),
    {
        proof {
            conn_index_is_first(self@.connections, conn);
        }
        match self.find_conn(conn) {
            None => {},
            Some(i) => {
                assert(self@.connections[i as int] == self.connections@[i as int]@);
                if self.connections[i].pending_async > 0 {
                    self.connections[i].pending_async = self.connections[i].pending_async - 1;
                }
                assert(self@.connections =~= released(old(self)@.connections, conn));
            },
        }
    }

    /// Answers a waiting request.
    pub fn answer(
        &mut self,
        conn: u64,
        async_id: u64,
        status: u32,
        body: ResponseBody,
        compound: Option<u64>,
    ) -> (sent: bool)
        ensures
            sent == conn_alive(old(self)@.connections, conn),
            final(self)@ == answered(old(self)@, conn, async_id, status, body@, compound),
    {
        let alive: bool = self.find_conn(conn).is_some();
        self.release_pending_async_slot(conn);
        if alive {
            self.act(Action::Respond { conn, async_id, status, body, compound });
        }
        alive
    }

    /// Whether an identifier stands for none.
    pub fn is_nil(key: &[u8; 16]) -> (r: bool)
        ensures
            r == (*key == NIL16),
    {
        array16_equal(key, &NIL16)
    }
}

} // verus!
