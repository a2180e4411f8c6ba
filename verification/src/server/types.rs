//! What the server knows: opens, connections, durable handles, waiting requests and the
//! work that it hands out.

use crate::path::{PathModel, SmbPath};
use crate::proto::messages::oplock_break::{LeaseBreakNotification, OplockBreakNotification};
use crate::proto::messages::{Dialect, FileId};
use crate::server::events;
use crate::server::events::{EventModel, NotifyEvent};
use crate::text;
use crate::text::lower_string;
use crate::wire::{array16_equal, copy_range};
use vstd::prelude::*;

verus! {

/// The key or identifier that stands for none.
pub const NIL16: [u8; 16] = [0, 0, 0, 0, 0, 0, 0, 0, 0, 0, 0, 0, 0, 0, 0, 0];

// ---------------------------------------------------------------------------
// Optional texts
// ---------------------------------------------------------------------------

/// The text of an optional string.
pub open spec fn opt_text(s: Option<String>) -> Option<Seq<char>> {
    match s {
        Some(s) => Some(s@),
        None => None,
    }
}

/// The text of an optional string slice.
pub open spec fn opt_str(s: Option<&str>) -> Option<Seq<char>> {
    match s {
        Some(s) => Some(s@),
        None => None,
    }
}

/// An optional text in lower case.
pub open spec fn opt_lowered(s: Option<Seq<char>>) -> Option<Seq<char>> {
    match s {
        Some(s) => Some(text::lowered(s)),
        None => None,
    }
}

/// Puts an optional text in lower case.
pub fn lower_opt(s: Option<&str>) -> (r: Option<String>)
    ensures
        opt_text(r) == opt_lowered(opt_str(s)),
{
    match s {
        Some(s) => Some(lower_string(s)),
        None => None,
    }
}

/// An optional string as a slice.
pub fn as_opt_str(s: &Option<String>) -> (r: Option<&str>)
    ensures
        opt_str(r) == opt_text(*s),
{
    match s {
        Some(s) => Some(s.as_str()),
        None => None,
    }
}

/// Copies an optional string.
pub fn clone_opt(s: &Option<String>) -> (r: Option<String>)
    ensures
        opt_text(r) == opt_text(*s),
{
    match s {
        Some(s) => Some(s.clone()),
        None => None,
    }
}

/// Whether two optional strings are equal.
pub fn opt_equal(a: &Option<String>, b: &Option<String>) -> (r: bool)
    ensures
        r == (opt_text(*a) == opt_text(*b)),
{
    match (a, b) {
        (Some(a), Some(b)) => *a == *b,
        (None, None) => true,
        _ => false,
    }
}

// ---------------------------------------------------------------------------
// Opens
// ---------------------------------------------------------------------------

/// The lease of an open; version zero stands for none.
#[derive(Debug, Clone, Copy, PartialEq, Eq)]
pub struct Lease {
    pub key: [u8; 16],
    pub state: u32,
    pub flags: u32,
    pub epoch: u16,
    pub version: u8,
    pub breaking: bool,
    pub break_to: u32,
    pub break_final_to: u32,
}

/// The oplock of an open.
#[derive(Debug, Clone, Copy, PartialEq, Eq)]
pub struct Oplock {
    pub level: u8,
    pub breaking: bool,
    pub break_to: u8,
}

/// Whether and how an open outlives its connection.
#[derive(Debug, Clone, Copy, PartialEq, Eq)]
pub struct Durability {
    pub enabled: bool,
    pub version: u8,
    pub create_guid: [u8; 16],
    pub app_instance_id: [u8; 16],
    pub replay_eligible: bool,
    pub replay_consumed: bool,
    pub replay_used: bool,
}

/// What a directory open was asked to watch.
#[derive(Debug, Clone, Copy, PartialEq, Eq)]
pub struct WatchState {
    pub started: bool,
    pub completion_filter: u32,
    pub buffer_suppressed: bool,
    pub enum_dir: bool,
}

/// An open of a file or directory.
#[derive(Debug, Clone, PartialEq, Eq)]
pub struct Open {
    pub file_id: FileId,
    pub has_handle: bool,
    pub desired_access: u32,
    pub share_access: u32,
    pub last_path: SmbPath,
    pub stream_name: Option<String>,
    pub is_directory: bool,
    pub delete_on_close: bool,
    pub delete_on_close_unlinks_name: bool,
    pub posix_deleted: bool,
    pub current_offset: u64,
    pub lease: Lease,
    pub oplock: Oplock,
    pub durability: Durability,
    pub watch: WatchState,
    pub notify_buffer: Vec<NotifyEvent>,
}

/// What an open holds.
#[verifier::ext_equal]
pub struct OpenModel {
    pub file_id: FileId,
    pub has_handle: bool,
    pub desired_access: u32,
    pub share_access: u32,
    pub last_path: PathModel,
    pub stream_name: Option<Seq<char>>,
    pub is_directory: bool,
    pub delete_on_close: bool,
    pub delete_on_close_unlinks_name: bool,
    pub posix_deleted: bool,
    pub current_offset: u64,
    pub lease: Lease,
    pub oplock: Oplock,
    pub durability: Durability,
    pub watch: WatchState,
    pub notify_buffer: Seq<EventModel>,
}

impl View for Open {
    type V = OpenModel;

    open spec fn view(&self) -> OpenModel {
        OpenModel {
            file_id: self.file_id,
            has_handle: self.has_handle,
            desired_access: self.desired_access,
            share_access: self.share_access,
            last_path: self.last_path@,
            stream_name: opt_text(self.stream_name),
            is_directory: self.is_directory,
            delete_on_close: self.delete_on_close,
            delete_on_close_unlinks_name: self.delete_on_close_unlinks_name,
            posix_deleted: self.posix_deleted,
            current_offset: self.current_offset,
            lease: self.lease,
            oplock: self.oplock,
            durability: self.durability,
            watch: self.watch,
            notify_buffer: events::event_models(self.notify_buffer@),
        }
    }
}

/// No lease.
pub open spec fn no_lease() -> Lease {
    Lease {
        key: NIL16,
        state: 0,
        flags: 0,
        epoch: 0,
        version: 0,
        breaking: false,
        break_to: 0,
        break_final_to: 0,
    }
}

/// No oplock.
pub open spec fn no_oplock() -> Oplock {
    Oplock { level: 0, breaking: false, break_to: 0 }
}

/// No durability.
pub open spec fn no_durability() -> Durability {
    Durability {
        enabled: false,
        version: 0,
        create_guid: NIL16,
        app_instance_id: NIL16,
        replay_eligible: false,
        replay_consumed: false,
        replay_used: false,
    }
}

/// No watch.
pub open spec fn no_watch() -> WatchState {
    WatchState { started: false, completion_filter: 0, buffer_suppressed: false, enum_dir: false }
}

impl Open {
    /// A new open with a handle and with no lease, oplock, durability or watch.
    pub fn new(
        file_id: FileId,
        desired_access: u32,
        share_access: u32,
        last_path: SmbPath,
        is_directory: bool,
        delete_on_close: bool,
        stream_name: Option<String>,
    ) -> (r: Self)
        ensures
            r@ == (OpenModel {
                file_id,
                has_handle: true,
                desired_access,
                share_access,
                last_path: last_path@,
                stream_name: opt_text(stream_name),
                is_directory,
                delete_on_close,
                delete_on_close_unlinks_name: false,
                posix_deleted: false,
                current_offset: 0,
                lease: no_lease(),
                oplock: no_oplock(),
                durability: no_durability(),
                watch: no_watch(),
                notify_buffer: Seq::empty(),
            }),
    {
        let r = Open {
            file_id,
            has_handle: true,
            desired_access,
            share_access,
            last_path,
            stream_name,
            is_directory,
            delete_on_close,
            delete_on_close_unlinks_name: false,
            posix_deleted: false,
            current_offset: 0,
            lease: Lease {
                key: NIL16,
                state: 0,
                flags: 0,
                epoch: 0,
                version: 0,
                breaking: false,
                break_to: 0,
                break_final_to: 0,
            },
            oplock: Oplock { level: 0, breaking: false, break_to: 0 },
            durability: Durability {
                enabled: false,
                version: 0,
                create_guid: NIL16,
                app_instance_id: NIL16,
                replay_eligible: false,
                replay_consumed: false,
                replay_used: false,
            },
            watch: WatchState {
                started: false,
                completion_filter: 0,
                buffer_suppressed: false,
                enum_dir: false,
            },
            notify_buffer: Vec::new(),
        };
        assert(r@.notify_buffer =~= Seq::empty());
        r
    }
}

impl Open {
    /// Makes a copy.
    pub fn duplicate(&self) -> (r: Self)
        ensures
            r@ == self@,
    {
        let mut notify_buffer: Vec<NotifyEvent> = Vec::new();
        let mut i: usize = 0;
        while i < self.notify_buffer.len()
            invariant
                i <= self.notify_buffer@.len(),
                notify_buffer@.len() == i,
                forall|j: int| 0 <= j < i
                    ==> (#[trigger] notify_buffer@[j])@ == self.notify_buffer@[j]@,
            decreases self.notify_buffer@.len() - i,
        {
            notify_buffer.push(self.notify_buffer[i].duplicate());
            i += 1;
        }
        let r = Open {
            file_id: self.file_id,
            has_handle: self.has_handle,
            desired_access: self.desired_access,
            share_access: self.share_access,
            last_path: self.last_path.duplicate(),
            stream_name: clone_opt(&self.stream_name),
            is_directory: self.is_directory,
            delete_on_close: self.delete_on_close,
            delete_on_close_unlinks_name: self.delete_on_close_unlinks_name,
            posix_deleted: self.posix_deleted,
            current_offset: self.current_offset,
            lease: self.lease,
            oplock: self.oplock,
            durability: self.durability,
            watch: self.watch,
            notify_buffer,
        };
        assert(r@.notify_buffer =~= self@.notify_buffer);
        r
    }
}

/// Where an open is registered: share and stream name are in lower case.
#[derive(Debug, Clone, PartialEq, Eq)]
pub struct Registration {
    pub share: String,
    pub path: SmbPath,
    pub stream_name: Option<String>,
    pub conn: u64,
}

/// What a registration holds.
#[verifier::ext_equal]
pub struct RegistrationModel {
    pub share: Seq<char>,
    pub path: PathModel,
    pub stream_name: Option<Seq<char>>,
    pub conn: u64,
}

impl View for Registration {
    type V = RegistrationModel;

    open spec fn view(&self) -> RegistrationModel {
        RegistrationModel {
            share: self.share@,
            path: self.path@,
            stream_name: opt_text(self.stream_name),
            conn: self.conn,
        }
    }
}

/// An open that the server knows, by a key that names it.
#[derive(Debug, Clone, PartialEq, Eq)]
pub struct OpenRecord {
    pub key: u64,
    pub registration: Option<Registration>,
    pub open: Open,
}

/// What a record of an open holds.
#[verifier::ext_equal]
pub struct OpenRecordModel {
    pub key: u64,
    pub registration: Option<RegistrationModel>,
    pub open: OpenModel,
}

impl View for OpenRecord {
    type V = OpenRecordModel;

    open spec fn view(&self) -> OpenRecordModel {
        OpenRecordModel {
            key: self.key,
            registration: match self.registration {
                Some(r) => Some(r@),
                None => None,
            },
            open: self.open@,
        }
    }
}

// ---------------------------------------------------------------------------
// Connections
// ---------------------------------------------------------------------------

/// An open as a tree connect refers to it.
#[derive(Debug, Clone, Copy, PartialEq, Eq, Structural)]
pub struct TreeOpen {
    pub file_id: FileId,
    pub open: u64,
}

/// A share as a session is connected to it.
#[derive(Debug, Clone, PartialEq, Eq)]
pub struct TreeConnect {
    pub id: u32,
    pub share: String,
    pub opens: Vec<TreeOpen>,
}

/// What a tree connect holds.
#[verifier::ext_equal]
pub struct TreeModel {
    pub id: u32,
    pub share: Seq<char>,
    pub opens: Seq<TreeOpen>,
}

impl View for TreeConnect {
    type V = TreeModel;

    open spec fn view(&self) -> TreeModel {
        TreeModel { id: self.id, share: self.share@, opens: self.opens@ }
    }
}

/// A session of a connection.
#[derive(Debug, Clone, PartialEq, Eq)]
pub struct Session {
    pub id: u64,
    pub signing_key: [u8; 16],
    pub trees: Vec<TreeConnect>,
}

/// What a session holds.
#[verifier::ext_equal]
pub struct SessionModel {
    pub id: u64,
    pub signing_key: [u8; 16],
    pub trees: Seq<TreeModel>,
}

impl View for Session {
    type V = SessionModel;

    open spec fn view(&self) -> SessionModel {
        SessionModel {
            id: self.id,
            signing_key: self.signing_key,
            trees: self.trees@.map_values(|t: TreeConnect| t@),
        }
    }
}

/// What a connection negotiated.
#[derive(Debug, Clone, Copy, PartialEq, Eq)]
pub struct Negotiated {
    pub client_guid: [u8; 16],
    pub dialect: Option<Dialect>,
    pub signing_algo: u16,
    pub signing_context_present: bool,
    pub encryption_cipher: u16,
}

/// A connection, by a key that names it.
#[derive(Debug, Clone, PartialEq, Eq)]
pub struct Connection {
    pub key: u64,
    /// Its numbers among the active connections.
    pub numbers: Vec<u64>,
    pub negotiated: Negotiated,
    /// Whether it can be sent messages that it did not ask for.
    pub has_sender: bool,
    /// Whether its next break is to be ended without an acknowledgment.
    pub force_unacked: bool,
    /// How many of its requests are pending.
    pub pending_async: usize,
    pub sessions: Vec<Session>,
}

/// What a connection holds.
#[verifier::ext_equal]
pub struct ConnectionModel {
    pub key: u64,
    pub numbers: Seq<u64>,
    pub negotiated: Negotiated,
    pub has_sender: bool,
    pub force_unacked: bool,
    pub pending_async: usize,
    pub sessions: Seq<SessionModel>,
}

impl View for Connection {
    type V = ConnectionModel;

    open spec fn view(&self) -> ConnectionModel {
        ConnectionModel {
            key: self.key,
            numbers: self.numbers@,
            negotiated: self.negotiated,
            has_sender: self.has_sender,
            force_unacked: self.force_unacked,
            pending_async: self.pending_async,
            sessions: self.sessions@.map_values(|s: Session| s@),
        }
    }
}

// ---------------------------------------------------------------------------
// Durable handles
// ---------------------------------------------------------------------------

/// An open that outlives its connection.
#[derive(Debug, Clone, PartialEq, Eq)]
pub struct DurableOpen {
    pub file_id: FileId,
    pub share: String,
    pub open: u64,
    pub client_guid: [u8; 16],
    pub owner: String,
    pub attached_conn: Option<u64>,
    pub attached_session_id: Option<u64>,
    pub expires_at: Option<u64>,
}

/// What is known of a durable open.
#[verifier::ext_equal]
pub struct DurableModel {
    pub file_id: FileId,
    pub share: Seq<char>,
    pub open: u64,
    pub client_guid: [u8; 16],
    pub owner: Seq<char>,
    pub attached_conn: Option<u64>,
    pub attached_session_id: Option<u64>,
    pub expires_at: Option<u64>,
}

impl View for DurableOpen {
    type V = DurableModel;

    open spec fn view(&self) -> DurableModel {
        DurableModel {
            file_id: self.file_id,
            share: self.share@,
            open: self.open,
            client_guid: self.client_guid,
            owner: self.owner@,
            attached_conn: self.attached_conn,
            attached_session_id: self.attached_session_id,
            expires_at: self.expires_at,
        }
    }
}

/// Whether an open was found that a create request repeats.
#[derive(Debug, Clone, Copy, PartialEq, Eq, Structural)]
pub enum DurableReplayLookup {
    NotFound,
    AttachedElsewhere,
    Available(u64),
}

// ---------------------------------------------------------------------------
// Byte-range locks
// ---------------------------------------------------------------------------

/// A byte range that is to be locked.
#[derive(Debug, Clone, Copy, PartialEq, Eq, Structural)]
pub struct ByteRangeLockRequest {
    pub fid: FileId,
    pub offset: u64,
    pub length: u64,
    pub exclusive: bool,
}

/// What a lock is held on: share, path and stream, in lower case.
#[derive(Debug, Clone, PartialEq, Eq)]
pub struct ByteRangeLockKey {
    pub share: String,
    pub path: String,
    pub stream_name: Option<String>,
}

/// What a lock key says.
#[verifier::ext_equal]
pub struct LockKeyModel {
    pub share: Seq<char>,
    pub path: Seq<char>,
    pub stream_name: Option<Seq<char>>,
}

impl View for ByteRangeLockKey {
    type V = LockKeyModel;

    open spec fn view(&self) -> LockKeyModel {
        LockKeyModel {
            share: self.share@,
            path: self.path@,
            stream_name: opt_text(self.stream_name),
        }
    }
}

/// A lock that is held.
#[derive(Debug, Clone, PartialEq, Eq)]
pub struct HeldLock {
    pub key: ByteRangeLockKey,
    pub lock: ByteRangeLockRequest,
}

/// What a held lock says.
#[verifier::ext_equal]
pub struct HeldLockModel {
    pub key: LockKeyModel,
    pub lock: ByteRangeLockRequest,
}

impl View for HeldLock {
    type V = HeldLockModel;

    open spec fn view(&self) -> HeldLockModel {
        HeldLockModel { key: self.key@, lock: self.lock }
    }
}

// ---------------------------------------------------------------------------
// Waiting requests
// ---------------------------------------------------------------------------

/// A watch that waits for changes.
#[derive(Debug, Clone, PartialEq, Eq)]
pub struct NotifyWait {
    pub open: u64,
    pub share: String,
    pub path: SmbPath,
    pub recursive: bool,
    pub output_buffer_length: u32,
    pub completion_filter: u32,
    pub notify_first: bool,
    pub notify_force_enum_dir: bool,
    pub events: Vec<NotifyEvent>,
    pub scheduled: bool,
    /// Whether a backend watch runs for it.
    pub watched: bool,
}

/// What a waiting watch holds.
#[verifier::ext_equal]
pub struct NotifyWaitModel {
    pub open: u64,
    pub share: Seq<char>,
    pub path: PathModel,
    pub recursive: bool,
    pub output_buffer_length: u32,
    pub completion_filter: u32,
    pub notify_first: bool,
    pub notify_force_enum_dir: bool,
    pub events: Seq<EventModel>,
    pub scheduled: bool,
    pub watched: bool,
}

impl View for NotifyWait {
    type V = NotifyWaitModel;

    open spec fn view(&self) -> NotifyWaitModel {
        NotifyWaitModel {
            open: self.open,
            share: self.share@,
            path: self.path@,
            recursive: self.recursive,
            output_buffer_length: self.output_buffer_length,
            completion_filter: self.completion_filter,
            notify_first: self.notify_first,
            notify_force_enum_dir: self.notify_force_enum_dir,
            events: events::event_models(self.events@),
            scheduled: self.scheduled,
            watched: self.watched,
        }
    }
}

/// A read of a pipe that waits for data.
#[derive(Debug, Clone, Copy, PartialEq, Eq)]
pub struct PipeReadWait {}

impl View for PipeReadWait {
    type V = ();

    open spec fn view(&self) -> () {
        ()
    }
}

/// A request that waits for byte ranges.
#[derive(Debug, Clone, PartialEq, Eq)]
pub struct LockWait {
    pub open: u64,
    pub share: String,
    pub path: SmbPath,
    pub stream_name: Option<String>,
    pub dialect: Option<Dialect>,
    pub lock_sequence: u32,
    pub locks: Vec<ByteRangeLockRequest>,
}

/// What a request that waits for byte ranges holds.
#[verifier::ext_equal]
pub struct LockWaitModel {
    pub open: u64,
    pub share: Seq<char>,
    pub path: PathModel,
    pub stream_name: Option<Seq<char>>,
    pub dialect: Option<Dialect>,
    pub lock_sequence: u32,
    pub locks: Seq<ByteRangeLockRequest>,
}

impl View for LockWait {
    type V = LockWaitModel;

    open spec fn view(&self) -> LockWaitModel {
        LockWaitModel {
            open: self.open,
            share: self.share@,
            path: self.path@,
            stream_name: opt_text(self.stream_name),
            dialect: self.dialect,
            lock_sequence: self.lock_sequence,
            locks: self.locks@,
        }
    }
}

/// By what a create request is recognised when it is repeated.
#[derive(Debug, Clone, PartialEq, Eq)]
pub struct ReplayKey {
    pub create_guid: Option<[u8; 16]>,
    pub client_guid: [u8; 16],
    pub owner: String,
}

/// What a replay key says.
#[verifier::ext_equal]
pub struct ReplayKeyModel {
    pub create_guid: Option<[u8; 16]>,
    pub client_guid: [u8; 16],
    pub owner: Seq<char>,
}

impl View for ReplayKey {
    type V = ReplayKeyModel;

    open spec fn view(&self) -> ReplayKeyModel {
        ReplayKeyModel {
            create_guid: self.create_guid,
            client_guid: self.client_guid,
            owner: self.owner@,
        }
    }
}

impl ReplayKey {
    /// Makes a copy.
    pub fn duplicate(&self) -> (r: Self)
        ensures
            r@ == self@,
    {
        ReplayKey {
            create_guid: self.create_guid,
            client_guid: self.client_guid,
            owner: self.owner.clone(),
        }
    }

    /// Whether two keys are the same.
    pub fn same(&self, other: &Self) -> (r: bool)
        ensures
            r == (self@ == other@),
    {
        let guids: bool = match (&self.create_guid, &other.create_guid) {
            (Some(a), Some(b)) => array16_equal(a, b),
            (None, None) => true,
            _ => false,
        };
        guids && array16_equal(&self.client_guid, &other.client_guid) && self.owner == other.owner
    }
}

/// What must stop breaking before a request goes on.
#[derive(Debug, Clone, PartialEq, Eq)]
pub struct BreakWait {
    pub lease_keys: Vec<[u8; 16]>,
    pub oplock_file_ids: Vec<FileId>,
}

/// What must stop breaking before a request goes on.
#[verifier::ext_equal]
pub struct BreakWaitModel {
    pub lease_keys: Seq<[u8; 16]>,
    pub oplock_file_ids: Seq<FileId>,
}

impl View for BreakWait {
    type V = BreakWaitModel;

    open spec fn view(&self) -> BreakWaitModel {
        BreakWaitModel { lease_keys: self.lease_keys@, oplock_file_ids: self.oplock_file_ids@ }
    }
}

/// A create request that was answered already, but for breaks.
#[derive(Debug, Clone, PartialEq, Eq)]
pub struct CreateWait {
    pub wait: BreakWait,
    pub status: u32,
    pub body: ResponseBody,
    pub replay: ReplayKey,
    /// The rest of a compound request that waits behind it.
    pub compound: Option<u64>,
}

/// What a waiting create request holds.
#[verifier::ext_equal]
pub struct CreateWaitModel {
    pub wait: BreakWaitModel,
    pub status: u32,
    pub body: BodyModel,
    pub replay: ReplayKeyModel,
    pub compound: Option<u64>,
}

impl View for CreateWait {
    type V = CreateWaitModel;

    open spec fn view(&self) -> CreateWaitModel {
        CreateWaitModel {
            wait: self.wait@,
            status: self.status,
            body: self.body@,
            replay: self.replay@,
            compound: self.compound,
        }
    }
}

/// A write that waits for breaks.
#[derive(Debug, Clone, PartialEq, Eq)]
pub struct WriteWait {
    pub wait: BreakWait,
    pub open: u64,
    pub share: String,
    pub path: SmbPath,
    pub stream_name: Option<String>,
    pub offset: u64,
    pub data: Vec<u8>,
    pub is_directory: bool,
    pub compound: Option<u64>,
}

/// What a waiting write holds.
#[verifier::ext_equal]
pub struct WriteWaitModel {
    pub wait: BreakWaitModel,
    pub open: u64,
    pub share: Seq<char>,
    pub path: PathModel,
    pub stream_name: Option<Seq<char>>,
    pub offset: u64,
    pub data: Seq<u8>,
    pub is_directory: bool,
    pub compound: Option<u64>,
}

impl View for WriteWait {
    type V = WriteWaitModel;

    open spec fn view(&self) -> WriteWaitModel {
        WriteWaitModel {
            wait: self.wait@,
            open: self.open,
            share: self.share@,
            path: self.path@,
            stream_name: opt_text(self.stream_name),
            offset: self.offset,
            data: self.data@,
            is_directory: self.is_directory,
            compound: self.compound,
        }
    }
}

/// A task that waits for breaks, by a number that names what is to be done.
#[derive(Debug, Clone, PartialEq, Eq)]
pub struct TaskWait {
    pub wait: BreakWait,
    pub task: u64,
    pub replay: ReplayKey,
    pub compound: Option<u64>,
}

/// What a waiting task holds.
#[verifier::ext_equal]
pub struct TaskWaitModel {
    pub wait: BreakWaitModel,
    pub task: u64,
    pub replay: ReplayKeyModel,
    pub compound: Option<u64>,
}

impl View for TaskWait {
    type V = TaskWaitModel;

    open spec fn view(&self) -> TaskWaitModel {
        TaskWaitModel {
            wait: self.wait@,
            task: self.task,
            replay: self.replay@,
            compound: self.compound,
        }
    }
}

// ---------------------------------------------------------------------------
// Work that is handed out
// ---------------------------------------------------------------------------

/// What a response carries.
#[derive(Debug, Clone, PartialEq, Eq)]
pub enum ResponseBody {
    /// The body of an error response.
    Error,
    /// A body of its own.
    Data(Vec<u8>),
}

/// What a response carries.
#[verifier::ext_equal]
pub enum BodyModel {
    Error,
    Data(Seq<u8>),
}

impl View for ResponseBody {
    type V = BodyModel;

    open spec fn view(&self) -> BodyModel {
        match self {
            ResponseBody::Error => BodyModel::Error,
            ResponseBody::Data(d) => BodyModel::Data(d@),
        }
    }
}

impl ResponseBody {
    /// Makes a copy.
    pub fn duplicate(&self) -> (r: Self)
        ensures
            r@ == self@,
    {
        match self {
            ResponseBody::Error => ResponseBody::Error,
            ResponseBody::Data(d) => ResponseBody::Data(copy_range(d.as_slice(), 0, d.len())),
        }
    }
}

/// The break of a lease at the time a timer was started.
#[derive(Debug, Clone, Copy, PartialEq, Eq)]
pub struct LeaseGeneration {
    pub key: [u8; 16],
    pub generation: u64,
}

/// Work for those who hold the sockets, the files and the clock.
#[derive(Debug, Clone, PartialEq, Eq)]
pub enum Action {
    /// Send lease breaks, in one payload.
    LeaseBreak { conn: u64, notifications: Vec<LeaseBreakNotification> },
    /// Send an oplock break.
    OplockBreak { conn: u64, notification: OplockBreakNotification },
    /// Answer a request, or hand the answer to the rest of its compound.
    Respond { conn: u64, async_id: u64, status: u32, body: ResponseBody, compound: Option<u64> },
    /// Close the handle of an open.
    CloseHandle { open: u64 },
    /// Let go of the handle of an open that nothing refers to any more, unclosed.
    DropHandle { open: u64 },
    /// End the backend watch of a request.
    EndWatch { conn: u64, async_id: u64 },
    /// Report collected changes after a short while.
    NotifyTimer { conn: u64, async_id: u64 },
    /// End breaks by force after a while.
    BreakTimer { leases: Vec<LeaseGeneration>, oplocks: Vec<FileId> },
    /// Write to a handle, and report what came of it.
    Write { conn: u64, async_id: u64, file_id: FileId, write: WriteWait },
    /// Run a task, and report what came of it.
    RunTask { conn: u64, async_id: u64, task: TaskWait },
    /// Note that the lock sequence of an open was used.
    RecordLockSequence { open: u64, dialect: Option<Dialect>, sequence: u32 },
    /// Close the sessions of a user.
    CloseUserSessions { conn: u64, user: String },
    /// Close the tree connects to a share.
    CloseShareTrees { conn: u64, share: String },
    /// Close the tree connects of a user to a share.
    CloseUserShareTrees { conn: u64, user: String, share: String },
}

/// What an action says.
#[verifier::ext_equal]
pub enum ActionModel {
    LeaseBreak { conn: u64, notifications: Seq<LeaseBreakNotification> },
    OplockBreak { conn: u64, notification: OplockBreakNotification },
    Respond { conn: u64, async_id: u64, status: u32, body: BodyModel, compound: Option<u64> },
    CloseHandle { open: u64 },
    DropHandle { open: u64 },
    EndWatch { conn: u64, async_id: u64 },
    NotifyTimer { conn: u64, async_id: u64 },
    BreakTimer { leases: Seq<LeaseGeneration>, oplocks: Seq<FileId> },
    Write { conn: u64, async_id: u64, file_id: FileId, write: WriteWaitModel },
    RunTask { conn: u64, async_id: u64, task: TaskWaitModel },
    RecordLockSequence { open: u64, dialect: Option<Dialect>, sequence: u32 },
    CloseUserSessions { conn: u64, user: Seq<char> },
    CloseShareTrees { conn: u64, share: Seq<char> },
    CloseUserShareTrees { conn: u64, user: Seq<char>, share: Seq<char> },
}

impl View for Action {
    type V = ActionModel;

    open spec fn view(&self) -> ActionModel {
        match self {
            Action::LeaseBreak { conn, notifications } => ActionModel::LeaseBreak {
                conn: *conn,
                notifications: notifications@,
            },
            Action::OplockBreak { conn, notification } => ActionModel::OplockBreak {
                conn: *conn,
                notification: *notification,
            },
            Action::Respond { conn, async_id, status, body, compound } => ActionModel::Respond {
                conn: *conn,
                async_id: *async_id,
                status: *status,
                body: body@,
                compound: *compound,
            },
            Action::CloseHandle { open } => ActionModel::CloseHandle { open: *open },
            Action::DropHandle { open } => ActionModel::DropHandle { open: *open },
            Action::EndWatch { conn, async_id } => ActionModel::EndWatch {
                conn: *conn,
                async_id: *async_id,
            },
            Action::NotifyTimer { conn, async_id } => ActionModel::NotifyTimer {
                conn: *conn,
                async_id: *async_id,
            },
            Action::BreakTimer { leases, oplocks } => ActionModel::BreakTimer {
                leases: leases@,
                oplocks: oplocks@,
            },
            Action::Write { conn, async_id, file_id, write } => ActionModel::Write {
                conn: *conn,
                async_id: *async_id,
                file_id: *file_id,
                write: write@,
            },
            Action::RunTask { conn, async_id, task } => ActionModel::RunTask {
                conn: *conn,
                async_id: *async_id,
                task: task@,
            },
            Action::RecordLockSequence { open, dialect, sequence } =>
                ActionModel::RecordLockSequence {
                open: *open,
                dialect: *dialect,
                sequence: *sequence,
            },
            Action::CloseUserSessions { conn, user } => ActionModel::CloseUserSessions {
                conn: *conn,
                user: user@,
            },
            Action::CloseShareTrees { conn, share } => ActionModel::CloseShareTrees {
                conn: *conn,
                share: share@,
            },
            Action::CloseUserShareTrees { conn, user, share } => ActionModel::CloseUserShareTrees {
                conn: *conn,
                user: user@,
                share: share@,
            },
        }
    }
}

} // verus!
