//! Requests that wait for breaks of leases and oplocks, and how they go on.

use crate::ntstatus::STATUS_SUCCESS;
use crate::proto::messages::FileId;
use crate::server::durable;
use crate::server::leases;
use crate::server::lists;
use crate::server::lists::contains_file_id;
use crate::server::lists::contains_key;
use crate::server::opens;
use crate::server::state;
use crate::server::state::{CompletedReplay, CompletedReplayModel, ServerState, StateModel};
use crate::server::trees;
use crate::server::trees::{take_tree_open, TreeRef};
use crate::server::types::{
    Action, ActionModel, BodyModel, BreakWait, BreakWaitModel, ConnectionModel, CreateWait,
    CreateWaitModel, LeaseGeneration, OpenModel, OpenRecordModel, ReplayKey, ReplayKeyModel,
    ResponseBody, TreeOpen, NIL16,
};
use crate::server::waiting;
use crate::server::waiting::{
    put_waiting, take_flagged, take_selected, take_waiting_flagged, Selector, Waiting, WaitingModel,
};
use vstd::prelude::*;

verus! {

// ---------------------------------------------------------------------------
// What is waited for
// ---------------------------------------------------------------------------

/// A break that ended.
#[derive(Debug, Clone, Copy, PartialEq, Eq)]
pub enum Ended {
    Lease { key: [u8; 16] },
    Oplock { file_id: FileId },
}

/// Whether a lease is being broken.
pub open spec fn lease_breaking(records: Seq<OpenRecordModel>, key: [u8; 16]) -> bool {
    key != NIL16 && exists|i: int|
        0 <= i < records.len() && opens::breaks_lease(#[trigger] records[i], key)
}

/// Whether an open is registered with a file id.
pub open spec fn registered_as(file_id: FileId) -> spec_fn(OpenRecordModel) -> bool {
    |r: OpenRecordModel| opens::is_registered(r) && r.open.file_id == file_id
}

/// Whether the oplock of the first open with a file id is being broken.
pub open spec fn oplock_breaking(records: Seq<OpenRecordModel>, file_id: FileId) -> bool {
    let i = lists::first(records, registered_as(file_id));
    i < records.len() && records[i].open.oplock.breaking
}

/// Whether one of the leases that are waited for is being broken.
pub open spec fn some_lease_breaking(records: Seq<OpenRecordModel>, keys: Seq<[u8; 16]>) -> bool {
    exists|i: int| 0 <= i < keys.len() && lease_breaking(records, #[trigger] keys[i])
}

/// Whether one of the oplocks that are waited for is being broken.
pub open spec fn some_oplock_breaking(records: Seq<OpenRecordModel>, ids: Seq<FileId>) -> bool {
    exists|i: int| 0 <= i < ids.len() && oplock_breaking(records, #[trigger] ids[i])
}

/// Whether there is still something to wait for.
pub open spec fn still_waiting(records: Seq<OpenRecordModel>, w: BreakWaitModel) -> bool {
    some_lease_breaking(records, w.lease_keys) || some_oplock_breaking(records, w.oplock_file_ids)
}

/// Whether a break that ended was waited for.
pub open spec fn awaits(w: BreakWaitModel, ended: Ended) -> bool {
    match ended {
        Ended::Lease { key } => w.lease_keys.contains(key),
        Ended::Oplock { file_id } => w.oplock_file_ids.contains(file_id),
    }
}

/// Whether a request goes on now that a break ended.
pub open spec fn goes_on(records: Seq<OpenRecordModel>, w: BreakWaitModel, ended: Ended) -> bool {
    awaits(w, ended) && !still_waiting(records, w)
}

impl ServerState {
    /// The first registered open with a file id.
    pub fn open_by_file_id(&self, file_id: FileId) -> (r: Option<usize>)
        ensures
            match r {
                None => !lists::found(self@.opens, registered_as(file_id)),
                Some(i) => i < self.opens@.len() && i == lists::first(
                    self@.opens,
                    registered_as(file_id),
                ),
            },
    {
        let mut i: usize = 0;
        while i < self.opens.len()
            invariant
                i <= self.opens@.len(),
                forall|j: int|
                    0 <= j < i ==> !registered_as(file_id)(#[trigger] self@.opens[j]),
            decreases self.opens@.len() - i,
        {
            assert(self@.opens[i as int] == self.opens@[i as int]@);
            if self.opens[i].registration.is_some() && self.opens[i].open.file_id == file_id {
                proof {
                    lists::first_at(self@.opens, registered_as(file_id), i as int);
                }
                return Some(i);
            }
            i += 1;
        }
        proof {
            lists::first_at(self@.opens, registered_as(file_id), i as int);
        }
        None
    }

    /// Whether the oplock of an open is being broken.
    pub fn oplock_file_id_is_breaking(&self, file_id: FileId) -> (r: bool)
        ensures
            r == oplock_breaking(self@.opens, file_id),
    {
        match self.open_by_file_id(file_id) {
            None => false,
            Some(i) => {
                assert(self@.opens[i as int] == self.opens@[i as int]@);
                self.opens[i].open.oplock.breaking
            },
        }
    }

    /// Whether one of some leases is being broken.
    pub fn some_lease_key_is_breaking(&self, keys: &Vec<[u8; 16]>) -> (r: bool)
        ensures
            r == some_lease_breaking(self@.opens, keys@),
    {
        let mut i: usize = 0;
        while i < keys.len()
            invariant
                i <= keys@.len(),
                forall|j: int| 0 <= j < i ==> !lease_breaking(self@.opens, #[trigger] keys@[j]),
            decreases keys@.len() - i,
        {
            let key: [u8; 16] = keys[i];
            if self.lease_key_is_breaking(key) {
                assert(lease_breaking(self@.opens, keys@[i as int]));
                return true;
            }
            i += 1;
        }
        false
    }

    fn is_still_waiting(&self, w: &BreakWait) -> (r: bool)
        ensures
            r == still_waiting(self@.opens, w@),
    {
        if self.some_lease_key_is_breaking(&w.lease_keys) {
            return true;
        }
        let mut i: usize = 0;
        while i < w.oplock_file_ids.len()
            invariant
                i <= w.oplock_file_ids@.len(),
                forall|j: int|
                    0 <= j < i ==> !oplock_breaking(
                        self@.opens,
                        #[trigger] w.oplock_file_ids@[j],
                    ),
            decreases w.oplock_file_ids@.len() - i,
        {
            if self.oplock_file_id_is_breaking(w.oplock_file_ids[i]) {
                assert(oplock_breaking(self@.opens, w@.oplock_file_ids[i as int]));
                return true;
            }
            i += 1;
        }
        false
    }

    /// Whether a request goes on now that a break ended.
    pub fn can_go_on(&self, w: &BreakWait, ended: Ended) -> (r: bool)
        ensures
            r == goes_on(self@.opens, w@, ended),
    {
        let awaited: bool = match ended {
            Ended::Lease { key } => contains_key(&w.lease_keys, &key),
            Ended::Oplock { file_id } => contains_file_id(&w.oplock_file_ids, file_id),
        };
        awaited && !self.is_still_waiting(w)
    }
}

// ---------------------------------------------------------------------------
// Creates
// ---------------------------------------------------------------------------

/// Answered create requests without one.
pub open spec fn without_replay(s: Seq<CompletedReplayModel>, key: ReplayKeyModel) -> Seq<
    CompletedReplayModel,
> {
    waiting::unflagged(s, s.map_values(|r: CompletedReplayModel| r.key == key))
}

/// The state after the answer to a create request was kept, where the request can be
/// repeated and succeeded.
pub open spec fn replay_kept(
    m: StateModel,
    key: ReplayKeyModel,
    status: u32,
    body: BodyModel,
) -> StateModel {
    if status == STATUS_SUCCESS && key.create_guid is Some {
        StateModel {
            completed_create_replays: without_replay(m.completed_create_replays, key).push(
                CompletedReplayModel { key, body },
            ),
            ..m
        }
    } else {
        m
    }
}

/// The state after a create request went on.
pub open spec fn create_done(m: StateModel, w: WaitingModel<CreateWaitModel>) -> StateModel {
    let kept = if state::conn_alive(m.connections, w.conn) {
        replay_kept(m, w.detail.replay, w.detail.status, w.detail.body)
    } else {
        m
    };
    state::answered(kept, w.conn, w.async_id, w.detail.status, w.detail.body, w.detail.compound)
}

/// The state after create requests went on.
pub open spec fn creates_done(m: StateModel, ws: Seq<WaitingModel<CreateWaitModel>>) -> StateModel
    decreases ws.len(),
{
    if ws.len() == 0 {
        m
    } else {
        create_done(creates_done(m, ws.drop_last()), ws.last())
    }
}

/// Which create requests go on now that a break ended.
pub open spec fn ready_creates(m: StateModel, ended: Ended) -> Seq<bool> {
    m.cache_break_creates.map_values(
        |w: WaitingModel<CreateWaitModel>| goes_on(m.opens, w.detail.wait, ended),
    )
}

/// The state after the create requests that waited for a break went on.
pub open spec fn creates_resumed(m: StateModel, ended: Ended) -> StateModel {
    let flags = ready_creates(m, ended);
    creates_done(
        StateModel {
            cache_break_creates: waiting::unflagged(m.cache_break_creates, flags),
            ..m
        },
        waiting::flagged(m.cache_break_creates, flags),
    )
}

/// How many waiting requests are of connections that are still there.
pub open spec fn alive_count<M>(m: StateModel, ws: Seq<WaitingModel<M>>) -> int
    decreases ws.len(),
{
    if ws.len() == 0 {
        0
    } else {
        alive_count(m, ws.drop_last()) + if state::conn_alive(m.connections, ws.last().conn) {
            1int
        } else {
            0
        }
    }
}

/// Whether two states have the same connections, but for what they have pending and
/// open.
pub open spec fn same_alive(a: StateModel, b: StateModel) -> bool {
    forall|k: u64|
        #![trigger state::conn_alive(a.connections, k)]
        #![trigger state::conn_alive(b.connections, k)]
        state::conn_alive(a.connections, k) == state::conn_alive(b.connections, k)
}

/// A connection is still there when one of its requests is no longer counted.
pub proof fn release_keeps_connections(m: StateModel, conn: u64)
    ensures
        same_alive(m, state::slot_released(m, conn)),
{
    assert forall|k: u64| state::conn_alive(m.connections, k) == state::conn_alive(
        state::slot_released(m, conn).connections,
        k,
    ) by {
        state::released_keeps_connections(m.connections, conn, k);
    }
}

proof fn lemma_replay_models(s: Seq<CompletedReplay>, flags: Seq<bool>)
    ensures
        state::replay_models(waiting::unflagged(s, flags)) == waiting::unflagged(
            state::replay_models(s),
            flags,
        ),
    decreases s.len(),
{
    if s.len() > 0 {
        lemma_replay_models(s.drop_last(), flags);
        assert(state::replay_models(s).drop_last() =~= state::replay_models(s.drop_last()));
        let u = waiting::unflagged(s.drop_last(), flags);
        assert(state::replay_models(u.push(s.last())) =~= state::replay_models(u).push(s.last()@));
    } else {
        assert(state::replay_models(waiting::unflagged(s, flags)) =~= Seq::empty());
    }
}

impl ServerState {
    /// Keeps the answer to a create request that can be repeated.
    pub fn keep_replay(&mut self, key: &ReplayKey, status: u32, body: &ResponseBody)
        ensures
            final(self)@ == replay_kept(old(self)@, key@, status, body@),
    {
        if status == STATUS_SUCCESS && key.create_guid.is_some() {
            let mut flags: Vec<bool> = Vec::new();
            let mut i: usize = 0;
            while i < self.completed_create_replays.len()
                invariant
                    i <= self.completed_create_replays@.len(),
                    flags@.len() == i,
                    forall|j: int|
                        0 <= j < i ==> flags@[j] == ((
                        #[trigger] self.completed_create_replays@[j])@.key == key@),
                decreases self.completed_create_replays@.len() - i,
            {
                flags.push(self.completed_create_replays[i].key.same(key));
                i += 1;
            }
            proof {
                let s = self@.completed_create_replays;
                assert(flags@ =~= s.map_values(|r: CompletedReplayModel| r.key == key@));
                lemma_replay_models(self.completed_create_replays@, flags@);
            }
            let _ = take_flagged(&mut self.completed_create_replays, &flags);
            let ghost before = self@.completed_create_replays;
            let kept = CompletedReplay { key: key.duplicate(), body: body.duplicate() };
            self.completed_create_replays.push(kept);
            assert(self@.completed_create_replays =~= before.push(kept@));
        }
    }

    fn complete_cache_break_creates(&mut self, ws: &Vec<Waiting<CreateWait>>) -> (r: usize)
        ensures
            final(self)@ == creates_done(old(self)@, waiting::models(ws@)),
            r == alive_count(old(self)@, waiting::models(ws@)),
    {
        let ghost all = waiting::models(ws@);
        let mut sent: usize = 0;
        let mut i: usize = 0;
        assert(all.take(0) =~= Seq::empty());
        while i < ws.len()
            invariant
                i <= ws@.len(),
                sent <= i,
                all == waiting::models(ws@),
                sent == alive_count(old(self)@, all.take(i as int)),
                same_alive(old(self)@, self@),
                self@ == creates_done(old(self)@, all.take(i as int)),
            decreases ws@.len() - i,
        {
            let w: &Waiting<CreateWait> = &ws[i];
            proof {
                assert(all.take(i + 1).drop_last() =~= all.take(i as int));
                assert(all.take(i + 1).last() == w@);
                release_keeps_connections(self@, w.conn);
            }
            let ghost before = self@;
            if self.find_conn(w.conn).is_some() {
                self.keep_replay(&w.detail.replay, w.detail.status, &w.detail.body);
                sent += 1;
            }
            let _ = self.answer(
                w.conn,
                w.async_id,
                w.detail.status,
                w.detail.body.duplicate(),
                w.detail.compound,
            );
            assert(self@.connections == state::released(before.connections, w.conn));
            i += 1;
        }
        assert(all.take(i as int) =~= all);
        sent
    }

    /// Lets the create requests go on that waited for a break.
    pub fn resume_cache_break_creates(&mut self, ended: Ended)
        ensures
            final(self)@ == creates_resumed(old(self)@, ended),
    {
        let mut flags: Vec<bool> = Vec::new();
        let mut i: usize = 0;
        while i < self.cache_break_creates.len()
            invariant
                i <= self.cache_break_creates@.len(),
                flags@.len() == i,
                forall|j: int|
                    0 <= j < i ==> flags@[j] == goes_on(
                        self@.opens,
                        (#[trigger] self.cache_break_creates@[j])@.detail.wait,
                        ended,
                    ),
            decreases self.cache_break_creates@.len() - i,
        {
            flags.push(self.can_go_on(&self.cache_break_creates[i].detail.wait, ended));
            i += 1;
        }
        assert(flags@ =~= ready_creates(self@, ended));
        let ready: Vec<Waiting<CreateWait>> = take_waiting_flagged(
            &mut self.cache_break_creates,
            &flags,
        );
        let _ = self.complete_cache_break_creates(&ready);
    }
}

/// An open without its handle.
pub open spec fn without_handle(r: OpenRecordModel) -> OpenRecordModel {
    OpenRecordModel { open: OpenModel { has_handle: false, ..r.open }, ..r }
}

/// The state after the handle of an open was closed. The open is forgotten where nothing
/// refers to it any more.
pub open spec fn open_discarded(m: StateModel, open: u64) -> StateModel {
    let i = state::open_index(m.opens, open);
    if i >= m.opens.len() {
        m
    } else {
        let closed = if m.opens[i].open.has_handle {
            state::acted(m, ActionModel::CloseHandle { open })
        } else {
            m
        };
        durable::open_let_go(
            StateModel { opens: m.opens.update(i, without_handle(m.opens[i])), ..closed },
            open,
        )
    }
}

/// The tree connect of a waiting request.
pub open spec fn tree_of_wait<M>(w: WaitingModel<M>) -> Option<TreeRef> {
    match w.request.tree_id {
        Some(tree_id) => Some(
            TreeRef { conn: w.conn, session_id: w.request.session_id, tree_id },
        ),
        None => None,
    }
}

/// The state after the open of a create request that does not go on was closed: it is
/// taken out of its tree connect and is no longer durable.
pub open spec fn create_undone(m: StateModel, w: WaitingModel<CreateWaitModel>) -> StateModel {
    match tree_of_wait(w) {
        None => durable::durable_released(m, w.file_id),
        Some(t) => match trees::tree_of(m.connections, t) {
            None => durable::durable_released(m, w.file_id),
            Some(tree) => {
                let after = StateModel {
                    connections: trees::with_tree_opens(
                        m.connections,
                        t,
                        trees::without_file(tree.opens, w.file_id),
                    ),
                    ..m
                };
                match trees::open_of(tree.opens, w.file_id) {
                    None => durable::durable_released(after, w.file_id),
                    Some(open) => open_discarded(
                        durable::durable_dropped(after, w.file_id),
                        open,
                    ),
                }
            },
        },
    }
}

/// The state after the opens of create requests that do not go on were closed.
pub open spec fn creates_undone(
    m: StateModel,
    ws: Seq<WaitingModel<CreateWaitModel>>,
) -> StateModel
    decreases ws.len(),
{
    if ws.len() == 0 {
        m
    } else {
        create_undone(creates_undone(m, ws.drop_last()), ws.last())
    }
}

/// Create requests that are answered with an error.
pub open spec fn failed_creates(
    ws: Seq<WaitingModel<CreateWaitModel>>,
    status: u32,
) -> Seq<WaitingModel<CreateWaitModel>> {
    ws.map_values(
        |w: WaitingModel<CreateWaitModel>|
            WaitingModel {
                detail: CreateWaitModel { status, body: BodyModel::Error, ..w.detail },
                ..w
            },
    )
}

/// The state after the create requests that are meant were ended with a status.
pub open spec fn creates_ended(m: StateModel, sel: Selector, status: u32) -> StateModel {
    let ws = waiting::taken(m.cache_break_creates, sel);
    let left = StateModel {
        cache_break_creates: waiting::left(m.cache_break_creates, sel),
        ..m
    };
    creates_done(creates_undone(left, ws), failed_creates(ws, status))
}

/// The state after waiting requests of a connection are no longer counted.
pub open spec fn slots_released<M>(m: StateModel, ws: Seq<WaitingModel<M>>) -> StateModel
    decreases ws.len(),
{
    if ws.len() == 0 {
        m
    } else {
        state::slot_released(slots_released(m, ws.drop_last()), ws.last().conn)
    }
}

/// The state after the create requests of a connection that is gone were undone.
pub open spec fn creates_abandoned(
    m: StateModel,
    ws: Seq<WaitingModel<CreateWaitModel>>,
) -> StateModel
    decreases ws.len(),
{
    if ws.len() == 0 {
        m
    } else {
        let before = creates_abandoned(m, ws.drop_last());
        create_undone(state::slot_released(before, ws.last().conn), ws.last())
    }
}

/// A break is given a while to end.
pub open spec fn timer_started(m: StateModel, w: BreakWaitModel) -> StateModel {
    if w.lease_keys.len() == 0 && w.oplock_file_ids.len() == 0 {
        m
    } else {
        state::acted(
            m,
            ActionModel::BreakTimer {
                leases: leases::generations_of(m.lease_break_generations, w.lease_keys),
                oplocks: w.oplock_file_ids,
            },
        )
    }
}

proof fn lemma_same_alive_with_tree(
    conns: Seq<ConnectionModel>,
    t: TreeRef,
    opens: Seq<TreeOpen>,
    k: u64,
)
    ensures
        state::conn_alive(trees::with_tree_opens(conns, t, opens), k) == state::conn_alive(
            conns,
            k,
        ),
{
    let after = trees::with_tree_opens(conns, t, opens);
    state::conn_index_is_first(conns, t.conn);
    state::conn_index_is_first(conns, k);
    state::conn_index_is_first(after, k);
    let a = state::conn_index(conns, k);
    let b = state::conn_index(after, k);
    assert(forall|i: int| 0 <= i < conns.len() ==> (#[trigger] after[i]).key == conns[i].key);
    if a < b {
        assert(after[a].key != k);
    }
    if b < a {
        assert(conns[b].key != k);
    }
}

impl ServerState {
    /// Closes the handle of an open, and forgets the open where nothing refers to it any
    /// more.
    pub fn discard_open(&mut self, open: u64)
        ensures
            final(self)@ == open_discarded(old(self)@, open),
    {
        match self.find_open(open) {
            None => {},
            Some(i) => {
                let ghost before = self@.opens;
                assert(before[i as int] == self.opens@[i as int]@);
                if self.opens[i].open.has_handle {
                    self.act(Action::CloseHandle { open });
                }
                assert(self@.opens == before);
                self.opens[i].open.has_handle = false;
                assert(self@.opens =~= before.update(
                    i as int,
                    without_handle(before[i as int]),
                ));
                self.let_open_go(open);
            },
        }
    }

    fn undo_cache_break_create(&mut self, w: &Waiting<CreateWait>)
        ensures
            final(self)@ == create_undone(old(self)@, w@),
            same_alive(old(self)@, final(self)@),
    {
        match w.request.tree_id {
            None => {},
            Some(tree_id) => {
                let t = TreeRef { conn: w.conn, session_id: w.request.session_id, tree_id };
                match self.tree_opens(t) {
                    None => {},
                    Some((_, opens)) => {
                        let mut opens: Vec<TreeOpen> = opens;
                        let removed: Option<u64> = take_tree_open(&mut opens, w.file_id);
                        proof {
                            assert forall|k: u64| state::conn_alive(self@.connections, k)
                                == state::conn_alive(
                                trees::with_tree_opens(self@.connections, t, opens@),
                                k,
                            ) by {
                                lemma_same_alive_with_tree(self@.connections, t, opens@, k);
                            }
                        }
                        self.set_tree_opens(t, opens);
                        match removed {
                            None => {
                                self.remove_durable_open(w.file_id);
                            },
                            Some(open) => {
                                self.drop_durable_entry(w.file_id);
                                self.discard_open(open);
                            },
                        }
                        return;
                    },
                }
            },
        }
        self.remove_durable_open(w.file_id);
    }

    fn end_cache_break_creates(&mut self, sel: Selector, status: u32) -> (r: usize)
        ensures
            final(self)@ == creates_ended(old(self)@, sel, status),
            r == alive_count(old(self)@, waiting::taken(old(self)@.cache_break_creates, sel)),
    {
        let mut ws: Vec<Waiting<CreateWait>> = take_selected(&mut self.cache_break_creates, sel);
        let ghost all = waiting::models(ws@);
        let ghost m = self@;
        let mut i: usize = 0;
        assert(all.take(0) =~= Seq::empty());
        while i < ws.len()
            invariant
                i <= ws@.len(),
                all == waiting::models(ws@),
                same_alive(m, self@),
                self@ == creates_undone(m, all.take(i as int)),
            decreases ws@.len() - i,
        {
            proof {
                assert(all.take(i + 1).drop_last() =~= all.take(i as int));
                assert(all.take(i + 1).last() == ws@[i as int]@);
            }
            self.undo_cache_break_create(&ws[i]);
            i += 1;
        }
        assert(all.take(i as int) =~= all);
        let mut k: usize = 0;
        while k < ws.len()
            invariant
                k <= ws@.len(),
                ws@.len() == all.len(),
                forall|j: int|
                    0 <= j < k ==> (#[trigger] ws@[j])@ == failed_creates(all, status)[j],
                forall|j: int| k <= j < ws@.len() ==> (#[trigger] ws@[j])@ == all[j],
            decreases ws@.len() - k,
        {
            assert(ws@[k as int]@ == all[k as int]);
            ws[k].detail.status = status;
            ws[k].detail.body = ResponseBody::Error;
            assert(ws@[k as int]@ =~= failed_creates(all, status)[k as int]);
            k += 1;
        }
        proof {
            assert(waiting::models(ws@) =~= failed_creates(all, status));
            lemma_alive_count_same(m, self@, all, failed_creates(all, status));
            lemma_alive_count_same(old(self)@, m, all, all);
        }
        self.complete_cache_break_creates(&ws)
    }

    /// Keeps a create request that waits for breaks. No rest of a compound request waits
    /// behind it yet.
    pub fn register_cache_break_create(&mut self, w: Waiting<CreateWait>)
        ensures
            final(self)@ == timer_started(
                (StateModel {
                    cache_break_creates: waiting::left(
                        old(self)@.cache_break_creates,
                        Selector::Id { conn: w.conn, async_id: w.async_id },
                    ).push(
                        WaitingModel {
                            detail: CreateWaitModel { compound: None, ..w@.detail },
                            ..w@
                        },
                    ),
                    ..old(self)@
                }),
                w@.detail.wait,
            ),
    {
        let mut kept: Waiting<CreateWait> = w;
        kept.detail.compound = None;
        let keys: Vec<[u8; 16]> = lists::copy_keys(&kept.detail.wait.lease_keys);
        let ids: Vec<FileId> = lists::copy_file_ids(&kept.detail.wait.oplock_file_ids);
        put_waiting(&mut self.cache_break_creates, kept);
        self.start_break_timer(keys, ids);
    }

    /// Cancels a create request that waits for breaks.
    pub fn cancel_cache_break_create(
        &mut self,
        conn: u64,
        async_id: u64,
        session_id: u64,
        status: u32,
    ) -> (r: bool)
        ensures
            ({
                let sel = Selector::Request { conn, async_id, session_id };
                final(self)@ == creates_ended(old(self)@, sel, status) && r == (alive_count(
                    old(self)@,
                    waiting::taken(old(self)@.cache_break_creates, sel),
                ) != 0)
            }),
    {
        self.end_cache_break_creates(Selector::Request { conn, async_id, session_id }, status) != 0
    }

    /// Ends the create requests of a session that wait for breaks.
    pub fn cleanup_cache_break_creates_for_session(
        &mut self,
        conn: u64,
        session_id: u64,
        status: u32,
    ) -> (r: usize)
        ensures
            ({
                let sel = Selector::Session { conn, session_id };
                final(self)@ == creates_ended(old(self)@, sel, status) && r == alive_count(
                    old(self)@,
                    waiting::taken(old(self)@.cache_break_creates, sel),
                )
            }),
    {
        self.end_cache_break_creates(Selector::Session { conn, session_id }, status)
    }

    /// Ends the create requests of a tree connect that wait for breaks.
    pub fn cleanup_cache_break_creates_for_tree(
        &mut self,
        conn: u64,
        session_id: u64,
        tree_id: u32,
        status: u32,
    ) -> (r: usize)
        ensures
            ({
                let sel = Selector::Tree { conn, session_id, tree_id };
                final(self)@ == creates_ended(old(self)@, sel, status) && r == alive_count(
                    old(self)@,
                    waiting::taken(old(self)@.cache_break_creates, sel),
                )
            }),
    {
        self.end_cache_break_creates(Selector::Tree { conn, session_id, tree_id }, status)
    }

    /// Undoes the create requests of a connection that wait for breaks; none is answered.
    pub fn cleanup_cache_break_creates_for_connection(&mut self, conn: u64) -> (r: usize)
        ensures
            ({
                let sel = Selector::Connection { conn };
                let ws = waiting::taken(old(self)@.cache_break_creates, sel);
                r == ws.len() && final(self)@ == creates_abandoned(
                    StateModel {
                        cache_break_creates: waiting::left(old(self)@.cache_break_creates, sel),
                        ..old(self)@
                    },
                    ws,
                )
            }),
    {
        let ws: Vec<Waiting<CreateWait>> = take_selected(
            &mut self.cache_break_creates,
            Selector::Connection { conn },
        );
        let ghost all = waiting::models(ws@);
        let ghost m = self@;
        let mut i: usize = 0;
        assert(all.take(0) =~= Seq::empty());
        while i < ws.len()
            invariant
                i <= ws@.len(),
                all == waiting::models(ws@),
                self@ == creates_abandoned(m, all.take(i as int)),
            decreases ws@.len() - i,
        {
            proof {
                assert(all.take(i + 1).drop_last() =~= all.take(i as int));
                assert(all.take(i + 1).last() == ws@[i as int]@);
            }
            self.release_pending_async_slot(ws[i].conn);
            self.undo_cache_break_create(&ws[i]);
            i += 1;
        }
        assert(all.take(i as int) =~= all);
        ws.len()
    }

    /// Has breaks ended by force after a while.
    pub fn start_break_timer(&mut self, lease_keys: Vec<[u8; 16]>, oplock_file_ids: Vec<FileId>)
        ensures
            final(self)@ == timer_started(
                old(self)@,
                BreakWaitModel { lease_keys: lease_keys@, oplock_file_ids: oplock_file_ids@ },
            ),
    {
        if lease_keys.len() == 0 && oplock_file_ids.len() == 0 {
            return;
        }
        let leases: Vec<LeaseGeneration> = self.current_generations(&lease_keys);
        self.act(Action::BreakTimer { leases, oplocks: oplock_file_ids });
    }
}

/// How many requests can be answered depends on which connections are there only.
pub proof fn alive_count_same<M>(a: StateModel, b: StateModel, s: Seq<WaitingModel<M>>)
    requires
        same_alive(a, b),
    ensures
        alive_count(a, s) == alive_count(b, s),
{
    lemma_alive_count_same(a, b, s, s);
}

proof fn lemma_alive_count_same<M>(
    a: StateModel,
    b: StateModel,
    s: Seq<WaitingModel<M>>,
    t: Seq<WaitingModel<M>>,
)
    requires
        same_alive(a, b),
        s.len() == t.len(),
        forall|i: int| 0 <= i < s.len() ==> (#[trigger] s[i]).conn == t[i].conn,
    ensures
        alive_count(a, s) == alive_count(b, t),
    decreases s.len(),
{
    if s.len() > 0 {
        assert forall|i: int| 0 <= i < s.drop_last().len() implies (#[trigger] s.drop_last()[i]).conn
            == t.drop_last()[i].conn by {
            assert(s[i].conn == t[i].conn);
        }
        lemma_alive_count_same(a, b, s.drop_last(), t.drop_last());
        assert(s[s.len() - 1].conn == t[t.len() - 1].conn);
        assert(state::conn_alive(a.connections, s.last().conn) == state::conn_alive(
            b.connections,
            s.last().conn,
        ));
    }
}

} // verus!
