//! Opens that outlive their connection.

use crate::path::SmbPath;
use crate::proto::messages::FileId;
use crate::server::distinct;
use crate::server::lists;
use crate::server::opens;
use crate::server::state;
use crate::server::state::{CompletedReplayModel, ServerState, StateModel};
use crate::server::trees;
use crate::server::trees::TreeRef;
use crate::server::types::{
    Action, ActionModel, DurableModel, DurableOpen, DurableReplayLookup, Open, OpenModel, OpenRecordModel, ReplayKey,
    ReplayKeyModel, ResponseBody, TreeOpen, NIL16,
};
use crate::server::waiting;
use crate::server::waiting::take_flagged;
use crate::text;
use crate::text::{lower_string, string_of_str};
use crate::wire::array16_equal;
use vstd::prelude::*;

verus! {

/// Which durable opens have a file id.
pub open spec fn filed(durables: Seq<DurableModel>, file_id: FileId) -> Seq<bool> {
    durables.map_values(|d: DurableModel| d.file_id == file_id)
}

/// Durable opens without the one that has a file id.
pub open spec fn without_durable(durables: Seq<DurableModel>, file_id: FileId) -> Seq<
    DurableModel,
> {
    waiting::unflagged(durables, filed(durables, file_id))
}

/// The state after a durable open is no longer kept.
pub open spec fn durable_dropped(m: StateModel, file_id: FileId) -> StateModel {
    StateModel { durable_opens: without_durable(m.durable_opens, file_id), ..m }
}

proof fn lemma_durable_models(s: Seq<DurableOpen>, flags: Seq<bool>)
    ensures
        state::durable_models(waiting::unflagged(s, flags)) == waiting::unflagged(
            state::durable_models(s),
            flags,
        ),
    decreases s.len(),
{
    if s.len() > 0 {
        lemma_durable_models(s.drop_last(), flags);
        assert(state::durable_models(s).drop_last() =~= state::durable_models(s.drop_last()));
        let u = waiting::unflagged(s.drop_last(), flags);
        assert(state::durable_models(u.push(s.last())) =~= state::durable_models(u).push(
            s.last()@,
        ));
    } else {
        assert(state::durable_models(waiting::unflagged(s, flags)) =~= Seq::empty());
    }
}

impl ServerState {
    /// Takes a durable open out of the table. The open itself stays.
    pub(crate) fn drop_durable_entry(&mut self, file_id: FileId)
        ensures
            final(self)@ == durable_dropped(old(self)@, file_id),
    {
        let mut flags: Vec<bool> = Vec::new();
        let mut i: usize = 0;
        while i < self.durable_opens.len()
            invariant
                i <= self.durable_opens@.len(),
                flags@.len() == i,
                forall|j: int| 0 <= j < i
                    ==> flags@[j] == (self.durable_opens@[j].file_id == file_id),
            decreases self.durable_opens@.len() - i,
        {
            flags.push(self.durable_opens[i].file_id == file_id);
            i += 1;
        }
        proof {
            assert(flags@ =~= filed(self@.durable_opens, file_id));
            lemma_durable_models(self.durable_opens@, flags@);
        }
        let _ = take_flagged(&mut self.durable_opens, &flags);
    }
}

// ---------------------------------------------------------------------------
// Looking up
// ---------------------------------------------------------------------------

/// Whether a durable open is one of an open.
pub open spec fn is_durable_of(open: u64) -> spec_fn(DurableModel) -> bool {
    |d: DurableModel| d.open == open
}

/// Whether anything refers to an open: a tree connect, or the table of durable opens.
pub open spec fn is_referred_to(m: StateModel, open: u64) -> bool {
    trees::is_kept(m.connections, open) || lists::found(m.durable_opens, is_durable_of(open))
}

/// The state after an open is forgotten where nothing refers to it any more. Its handle
/// goes with it, unclosed.
pub open spec fn open_let_go(m: StateModel, open: u64) -> StateModel {
    let i = state::open_index(m.opens, open);
    if is_referred_to(m, open) || i >= m.opens.len() {
        m
    } else {
        let dropped = if m.opens[i].open.has_handle {
            state::acted(m, ActionModel::DropHandle { open })
        } else {
            m
        };
        StateModel { opens: opens::without_open(m.opens, open), ..dropped }
    }
}

/// The state after opens are forgotten, one after the other, where nothing refers to them
/// any more.
pub open spec fn all_let_go(m: StateModel, opens: Seq<u64>) -> StateModel
    decreases opens.len(),
{
    if opens.len() == 0 {
        m
    } else {
        open_let_go(all_let_go(m, opens.drop_last()), opens.last())
    }
}

/// The state after a durable open is no longer kept: it is forgotten, unless a tree connect
/// keeps it.
pub open spec fn durable_released(m: StateModel, file_id: FileId) -> StateModel {
    let dropped = durable_dropped(m, file_id);
    match durable_of(m.durable_opens, file_id) {
        None => dropped,
        Some(d) => open_let_go(dropped, d.open),
    }
}

/// The state after an open is kept as durable. One that was kept under its file id is
/// forgotten where nothing refers to it any more.
pub open spec fn durable_kept(m: StateModel, d: DurableModel) -> StateModel {
    let after = StateModel { durable_opens: with_durable(m.durable_opens, d), ..m };
    match durable_of(m.durable_opens, d.file_id) {
        None => after,
        Some(before) => open_let_go(after, before.open),
    }
}

/// What is let go is known as long as something refers to it, and no longer.
pub proof fn opens_live_while_they_are_referred_to(m: StateModel, open: u64)
    requires
        state::open_alive(m.opens, open),
    ensures
        state::open_alive(open_let_go(m, open).opens, open) == is_referred_to(m, open),
        is_referred_to(open_let_go(m, open), open) == is_referred_to(m, open),
{
    let flags = opens::keyed(m.opens, open);
    let left = opens::without_open(m.opens, open);
    let test = |r: OpenRecordModel| r.key != open;
    state::open_index_is_first(left, open);
    assert forall|i: int| 0 <= i < m.opens.len() && !flags[i] implies test(
        #[trigger] m.opens[i],
    ) by {}
    distinct::left_are_from(m.opens, flags, test);
    let i = state::open_index(left, open);
    if i < left.len() {
        assert(test(left[i]));
    }
}

impl ServerState {
    fn is_in_durable_table(&self, open: u64) -> (r: bool)
        ensures
            r == lists::found(self@.durable_opens, is_durable_of(open)),
    {
        let mut i: usize = 0;
        while i < self.durable_opens.len()
            invariant
                i <= self.durable_opens@.len(),
                forall|j: int|
                    0 <= j < i ==> !is_durable_of(open)(#[trigger] self@.durable_opens[j]),
            decreases self.durable_opens@.len() - i,
        {
            assert(self@.durable_opens[i as int] == self.durable_opens@[i as int]@);
            if self.durable_opens[i].open == open {
                proof {
                    lists::first_at(self@.durable_opens, is_durable_of(open), i as int);
                }
                return true;
            }
            i += 1;
        }
        proof {
            lists::first_at(self@.durable_opens, is_durable_of(open), i as int);
        }
        false
    }

    /// Forgets an open where nothing refers to it any more.
    pub fn let_open_go(&mut self, open: u64)
        ensures
            final(self)@ == open_let_go(old(self)@, open),
    {
        if self.is_open_kept(open) || self.is_in_durable_table(open) {
            return;
        }
        match self.find_open(open) {
            None => {},
            Some(i) => {
                assert(self@.opens[i as int] == self.opens@[i as int]@);
                if self.opens[i].open.has_handle {
                    self.act(Action::DropHandle { open });
                }
                self.release_open(open);
            },
        }
    }

    /// Forgets opens where nothing refers to them any more.
    pub fn let_opens_go(&mut self, opens: &Vec<u64>)
        ensures
            final(self)@ == all_let_go(old(self)@, opens@),
    {
        let ghost m = self@;
        let mut i: usize = 0;
        assert(opens@.take(0) =~= Seq::empty());
        while i < opens.len()
            invariant
                i <= opens@.len(),
                self@ == all_let_go(m, opens@.take(i as int)),
            decreases opens@.len() - i,
        {
            assert(opens@.take(i + 1).drop_last() =~= opens@.take(i as int));
            self.let_open_go(opens[i]);
            i += 1;
        }
        assert(opens@.take(i as int) =~= opens@);
    }

    /// Keeps an open no longer as durable. Unless a tree connect keeps it, it is forgotten.
    pub fn remove_durable_open(&mut self, file_id: FileId)
        ensures
            final(self)@ == durable_released(old(self)@, file_id),
    {
        let found: Option<usize> = self.find_durable(file_id);
        let open: Option<u64> = match found {
            None => None,
            Some(i) => {
                assert(self@.durable_opens[i as int] == self.durable_opens@[i as int]@);
                Some(self.durable_opens[i].open)
            },
        };
        self.drop_durable_entry(file_id);
        match open {
            None => {},
            Some(open) => self.let_open_go(open),
        }
    }
}

/// Whether a durable open has a file id.
pub open spec fn durable_is(file_id: FileId) -> spec_fn(DurableModel) -> bool {
    |d: DurableModel| d.file_id == file_id
}

/// The durable open with a file id.
pub open spec fn durable_of(durables: Seq<DurableModel>, file_id: FileId) -> Option<DurableModel> {
    let i = lists::first(durables, durable_is(file_id));
    if i < durables.len() {
        Some(durables[i])
    } else {
        None
    }
}

/// The open of a key.
pub open spec fn open_of(records: Seq<OpenRecordModel>, key: u64) -> Option<OpenModel> {
    let i = state::open_index(records, key);
    if i < records.len() {
        Some(records[i].open)
    } else {
        None
    }
}

/// Whether the time to reconnect is over.
pub open spec fn has_expired(d: DurableModel, now: u64) -> bool {
    d.expires_at is Some && now >= d.expires_at->0
}

/// Whether a durable open waits for its client to reconnect.
pub open spec fn awaits_client(d: DurableModel, now: u64) -> bool {
    d.expires_at is Some && now < d.expires_at->0
}

/// Durable opens with another in place of the one that has its file id.
pub open spec fn with_durable(durables: Seq<DurableModel>, d: DurableModel) -> Seq<DurableModel> {
    let i = lists::first(durables, durable_is(d.file_id));
    if i < durables.len() {
        durables.update(i, d)
    } else {
        durables.push(d)
    }
}

/// Durable opens after one was attached to a session.
pub open spec fn attached(
    durables: Seq<DurableModel>,
    file_id: FileId,
    conn: u64,
    session_id: u64,
) -> Seq<DurableModel> {
    match durable_of(durables, file_id) {
        None => durables,
        Some(d) => with_durable(
            durables,
            DurableModel {
                attached_conn: Some(conn),
                attached_session_id: Some(session_id),
                expires_at: None,
                ..d
            },
        ),
    }
}

impl ServerState {
    /// Where the durable open with a file id stands.
    pub fn find_durable(&self, file_id: FileId) -> (r: Option<usize>)
        ensures
            match r {
                None => durable_of(self@.durable_opens, file_id) is None,
                Some(i) => i < self.durable_opens@.len() && i == lists::first(
                    self@.durable_opens,
                    durable_is(file_id),
                ) && durable_of(self@.durable_opens, file_id) == Some(
                    self.durable_opens@[i as int]@,
                ),
            },
    {
        let mut i: usize = 0;
        while i < self.durable_opens.len()
            invariant
                i <= self.durable_opens@.len(),
                forall|j: int|
                    0 <= j < i ==> !durable_is(file_id)(#[trigger] self@.durable_opens[j]),
            decreases self.durable_opens@.len() - i,
        {
            assert(self@.durable_opens[i as int] == self.durable_opens@[i as int]@);
            if self.durable_opens[i].file_id == file_id {
                proof {
                    lists::first_at(self@.durable_opens, durable_is(file_id), i as int);
                }
                return Some(i);
            }
            i += 1;
        }
        proof {
            lists::first_at(self@.durable_opens, durable_is(file_id), i as int);
        }
        None
    }

    /// Keeps a durable open, in place of one with its file id.
    pub fn put_durable(&mut self, d: DurableOpen)
        ensures
            final(self)@ == (StateModel {
                durable_opens: with_durable(old(self)@.durable_opens, d@),
                ..old(self)@
            }),
    {
        let ghost before = self@.durable_opens;
        match self.find_durable(d.file_id) {
            Some(i) => {
                self.durable_opens[i] = d;
                assert(self@.durable_opens =~= before.update(i as int, d@));
            },
            None => {
                proof {
                    lists::first_is_first(before, durable_is(d.file_id));
                }
                self.durable_opens.push(d);
                assert(self@.durable_opens =~= before.push(d@));
            },
        }
    }

    /// Keeps an open as durable.
    pub fn register_durable_open(
        &mut self,
        share: &str,
        file_id: FileId,
        open: u64,
        conn: u64,
        session_id: u64,
        client_guid: [u8; 16],
        owner: &str,
    )
        ensures
            final(self)@ == durable_kept(
                old(self)@,
                DurableModel {
                    file_id,
                    share: text::lowered(share@),
                    open,
                    client_guid,
                    owner: owner@,
                    attached_conn: Some(conn),
                    attached_session_id: Some(session_id),
                    expires_at: None,
                },
            ),
    {
        let before: Option<u64> = match self.find_durable(file_id) {
            None => None,
            Some(i) => Some(self.durable_opens[i].open),
        };
        self.put_durable(
            DurableOpen {
                file_id,
                share: lower_string(share),
                open,
                client_guid,
                owner: string_of_str(owner),
                attached_conn: Some(conn),
                attached_session_id: Some(session_id),
                expires_at: None,
            },
        );
        match before {
            None => {},
            Some(open) => self.let_open_go(open),
        }
    }

    /// Detaches a durable open for good: it stays only until another open takes its place.
    pub fn detach_durable_open_without_reconnect(&mut self, file_id: FileId)
        ensures
            final(self)@ == detached_for_good(old(self)@, file_id),
    {
        match self.find_durable(file_id) {
            None => {},
            Some(i) => {
                let ghost before = self@.durable_opens;
                self.durable_opens[i].attached_conn = None;
                self.durable_opens[i].attached_session_id = None;
                self.durable_opens[i].expires_at = None;
                assert(self@.durable_opens =~= before.update(
                    i as int,
                    DurableModel {
                        attached_conn: None,
                        attached_session_id: None,
                        expires_at: None,
                        ..before[i as int]
                    },
                ));
                proof {
                    lists::first_is_first(before, durable_is(file_id));
                }
            },
        }
    }

    /// The version of a durable open.
    pub fn durable_open_version(&self, file_id: FileId) -> (r: Option<u8>)
        ensures
            r == (match durable_of(self@.durable_opens, file_id) {
                None => None,
                Some(d) => match open_of(self@.opens, d.open) {
                    None => None,
                    Some(o) => Some(o.durability.version),
                },
            }),
    {
        match self.find_durable(file_id) {
            None => None,
            Some(i) => match self.find_open(self.durable_opens[i].open) {
                None => None,
                Some(k) => {
                    assert(self@.opens[k as int] == self.opens@[k as int]@);
                    Some(self.opens[k].open.durability.version)
                },
            },
        }
    }

    /// Whether a durable open is of another client.
    pub fn durable_open_client_guid_mismatch(&self, file_id: FileId, client_guid: [u8; 16]) -> (r:
        bool)
        ensures
            r == (durable_of(self@.durable_opens, file_id) matches Some(d) && d.client_guid
                != client_guid),
    {
        match self.find_durable(file_id) {
            None => false,
            Some(i) => !array16_equal(&self.durable_opens[i].client_guid, &client_guid),
        }
    }

    /// Whether a durable open that waits for its client is on another path than expected.
    pub fn durable_reconnect_path_mismatch(
        &self,
        share: &str,
        file_id: FileId,
        client_guid: [u8; 16],
        owner: &str,
        expected_path: &SmbPath,
        now: u64,
    ) -> (r: bool)
        ensures
            r == (match durable_of(self@.durable_opens, file_id) {
                None => false,
                Some(d) => d.share == text::lowered(share@) && d.client_guid == client_guid
                    && d.owner == owner@ && awaits_client(d, now) && match open_of(
                    self@.opens,
                    d.open,
                ) {
                    None => false,
                    Some(o) => o.last_path != expected_path@,
                },
            }),
    {
        match self.find_durable(file_id) {
            None => false,
            Some(i) => {
                let d: &DurableOpen = &self.durable_opens[i];
                let share_key: String = lower_string(share);
                let waits: bool = match d.expires_at {
                    None => false,
                    Some(t) => now < t,
                };
                if d.share != share_key || !array16_equal(&d.client_guid, &client_guid)
                    || !text::str_equal(d.owner.as_str(), owner) || !waits {
                    return false;
                }
                match self.find_open(d.open) {
                    None => false,
                    Some(k) => {
                        assert(self@.opens[k as int] == self.opens@[k as int]@);
                        !self.opens[k].open.last_path.same(expected_path)
                    },
                }
            },
        }
    }

    /// Attaches a durable open to a session and its tree connect.
    pub fn attach_durable_open_to_tree(&mut self, t: TreeRef, file_id: FileId, open: u64)
        ensures
            final(self)@ == (StateModel {
                connections: match trees::tree_of(old(self)@.connections, t) {
                    Some(tree) => if lists::found(tree.opens, trees::open_is(file_id)) {
                        old(self)@.connections
                    } else {
                        trees::with_tree_opens(
                            old(self)@.connections,
                            t,
                            tree.opens.push(TreeOpen { file_id, open }),
                        )
                    },
                    None => old(self)@.connections,
                },
                durable_opens: attached(old(self)@.durable_opens, file_id, t.conn, t.session_id),
                ..old(self)@
            }),
    {
        match self.tree_opens(t) {
            None => {},
            Some((_, opens)) => {
                let mut opens: Vec<TreeOpen> = opens;
                if trees::find_tree_open(&opens, file_id).is_none() {
                    opens.push(TreeOpen { file_id, open });
                    self.set_tree_opens(t, opens);
                }
            },
        }
        self.attach_durable(file_id, t.conn, t.session_id);
    }

    /// Attaches a durable open to a session.
    pub fn attach_durable(&mut self, file_id: FileId, conn: u64, session_id: u64)
        ensures
            final(self)@ == (StateModel {
                durable_opens: attached(old(self)@.durable_opens, file_id, conn, session_id),
                ..old(self)@
            }),
    {
        match self.find_durable(file_id) {
            None => {},
            Some(i) => {
                let ghost before = self@.durable_opens;
                self.durable_opens[i].attached_conn = Some(conn);
                self.durable_opens[i].attached_session_id = Some(session_id);
                self.durable_opens[i].expires_at = None;
                proof {
                    lists::first_is_first(before, durable_is(file_id));
                    assert(self@.durable_opens =~= attached(before, file_id, conn, session_id));
                }
            },
        }
    }
}

/// The state after a durable open was detached for good.
pub open spec fn detached_for_good(m: StateModel, file_id: FileId) -> StateModel {
    match durable_of(m.durable_opens, file_id) {
        None => m,
        Some(d) => StateModel {
            durable_opens: with_durable(
                m.durable_opens,
                DurableModel {
                    attached_conn: None,
                    attached_session_id: None,
                    expires_at: None,
                    ..d
                },
            ),
            ..m
        },
    }
}

// ---------------------------------------------------------------------------
// Repeated create requests
// ---------------------------------------------------------------------------

/// Who repeats a create request.
pub struct Replayer {
    pub share: String,
    pub create_guid: [u8; 16],
    pub client_guid: [u8; 16],
    pub owner: String,
    pub conn: u64,
    pub session_id: u64,
}

/// Whether a durable open may be the one that a create request repeats.
pub open spec fn may_repeat(
    records: Seq<OpenRecordModel>,
    d: DurableModel,
    who: Replayer,
    now: u64,
) -> bool {
    d.share == text::lowered(who.share@) && d.client_guid == who.client_guid && d.owner
        == who.owner@ && !has_expired(d, now) && match open_of(records, d.open) {
        None => false,
        Some(o) => o.durability.enabled && o.durability.version >= 2
            && o.durability.replay_eligible && o.durability.create_guid == who.create_guid
            && o.has_handle,
    }
}

/// Whether a durable open is attached to another session.
pub open spec fn is_elsewhere(d: DurableModel, who: Replayer) -> bool {
    d.attached_conn is Some && (d.attached_conn != Some(who.conn) || d.attached_session_id != Some(
        who.session_id,
    ))
}

/// Whether a durable open was given to a repeated request already and used since.
pub open spec fn is_spent(records: Seq<OpenRecordModel>, d: DurableModel) -> bool {
    d.attached_conn is Some && match open_of(records, d.open) {
        None => false,
        Some(o) => o.durability.replay_consumed && o.durability.replay_used,
    }
}

/// The open that a create request repeats, from the `n`-th durable open on.
pub open spec fn replayed(m: StateModel, who: Replayer, now: u64, n: int) -> DurableReplayLookup
    decreases m.durable_opens.len() - n,
{
    if n < 0 || n >= m.durable_opens.len() {
        DurableReplayLookup::NotFound
    } else {
        let d = m.durable_opens[n];
        if !may_repeat(m.opens, d, who, now) {
            replayed(m, who, now, n + 1)
        } else if is_elsewhere(d, who) {
            DurableReplayLookup::AttachedElsewhere
        } else if is_spent(m.opens, d) {
            replayed(m, who, now, n + 1)
        } else {
            DurableReplayLookup::Available(d.open)
        }
    }
}

/// The replay key of a create request.
pub open spec fn replay_key(
    create_guid: [u8; 16],
    client_guid: [u8; 16],
    owner: Seq<char>,
) -> ReplayKeyModel {
    ReplayKeyModel { create_guid: Some(create_guid), client_guid, owner }
}

/// Whether an answered create request has a replay key.
pub open spec fn answered_with(key: ReplayKeyModel) -> spec_fn(CompletedReplayModel) -> bool {
    |r: CompletedReplayModel| r.key == key
}

impl ServerState {
    fn open_may_repeat(&self, d: &DurableOpen, who: &Replayer, now: u64) -> (r: (bool, bool))
        ensures
            r.0 == may_repeat(self@.opens, d@, *who, now),
            r.0 ==> r.1 == (match open_of(self@.opens, d@.open) {
                None => false,
                Some(o) => o.durability.replay_consumed && o.durability.replay_used,
            }),
    {
        let share_key: String = lower_string(who.share.as_str());
        let expired: bool = match d.expires_at {
            None => false,
            Some(t) => now >= t,
        };
        if d.share != share_key || !array16_equal(&d.client_guid, &who.client_guid) || d.owner
            != who.owner || expired {
            return (false, false);
        }
        match self.find_open(d.open) {
            None => (false, false),
            Some(k) => {
                let o: &Open = &self.opens[k].open;
                assert(self@.opens[k as int].open == o@);
                let may: bool = o.durability.enabled && o.durability.version >= 2
                    && o.durability.replay_eligible && array16_equal(
                    &o.durability.create_guid,
                    &who.create_guid,
                ) && o.has_handle;
                (may, o.durability.replay_consumed && o.durability.replay_used)
            },
        }
    }

    /// The open that a create request repeats.
    pub fn durable_replay_open(&self, who: &Replayer, now: u64) -> (r: DurableReplayLookup)
        ensures
            r == (if who.create_guid == NIL16 {
                DurableReplayLookup::NotFound
            } else {
                replayed(self@, *who, now, 0)
            }),
    {
        if ServerState::is_nil(&who.create_guid) {
            return DurableReplayLookup::NotFound;
        }
        let mut i: usize = 0;
        while i < self.durable_opens.len()
            invariant
                i <= self.durable_opens@.len(),
                who.create_guid != NIL16,
                replayed(self@, *who, now, 0) == replayed(self@, *who, now, i as int),
            decreases self.durable_opens@.len() - i,
        {
            let d: &DurableOpen = &self.durable_opens[i];
            assert(self@.durable_opens[i as int] == d@);
            let (may, used) = self.open_may_repeat(d, who, now);
            if may {
                match d.attached_conn {
                    None => {
                        return DurableReplayLookup::Available(d.open);
                    },
                    Some(conn) => {
                        let same: bool = match d.attached_session_id {
                            None => false,
                            Some(s) => s == who.session_id,
                        };
                        if conn != who.conn || !same {
                            return DurableReplayLookup::AttachedElsewhere;
                        }
                        if !used {
                            return DurableReplayLookup::Available(d.open);
                        }
                    },
                }
            }
            i += 1;
        }
        DurableReplayLookup::NotFound
    }

    /// Whether a create request is still waiting that a request repeats.
    pub fn durable_pending_create_replay(
        &self,
        create_guid: [u8; 16],
        client_guid: [u8; 16],
        owner: &str,
    ) -> (r: bool)
        ensures
            ({
                let key = replay_key(create_guid, client_guid, owner@);
                r == (create_guid != NIL16 && ((exists|i: int|
                    0 <= i < self@.cache_break_creates.len() && (
                    #[trigger] self@.cache_break_creates[i]).detail.replay == key) || (exists|
                    i: int,
                |
                    0 <= i < self@.cache_break_tasks.len() && (
                    #[trigger] self@.cache_break_tasks[i]).detail.replay == key)))
            }),
    {
        if ServerState::is_nil(&create_guid) {
            return false;
        }
        let key = ReplayKey {
            create_guid: Some(create_guid),
            client_guid,
            owner: string_of_str(owner),
        };
        let mut i: usize = 0;
        while i < self.cache_break_creates.len()
            invariant
                i <= self.cache_break_creates@.len(),
                create_guid != NIL16,
                key@ == replay_key(create_guid, client_guid, owner@),
                forall|j: int|
                    0 <= j < i ==> (#[trigger] self@.cache_break_creates[j]).detail.replay != key@,
            decreases self.cache_break_creates@.len() - i,
        {
            assert(self@.cache_break_creates[i as int] == self.cache_break_creates@[i as int]@);
            if self.cache_break_creates[i].detail.replay.same(&key) {
                return true;
            }
            i += 1;
        }
        let mut k: usize = 0;
        while k < self.cache_break_tasks.len()
            invariant
                k <= self.cache_break_tasks@.len(),
                create_guid != NIL16,
                key@ == replay_key(create_guid, client_guid, owner@),
                forall|j: int|
                    0 <= j < self@.cache_break_creates.len() ==> (
                    #[trigger] self@.cache_break_creates[j]).detail.replay != key@,
                forall|j: int|
                    0 <= j < k ==> (#[trigger] self@.cache_break_tasks[j]).detail.replay != key@,
            decreases self.cache_break_tasks@.len() - k,
        {
            assert(self@.cache_break_tasks[k as int] == self.cache_break_tasks@[k as int]@);
            if self.cache_break_tasks[k].detail.replay.same(&key) {
                return true;
            }
            k += 1;
        }
        false
    }

    /// The answer to a create request that a request repeats.
    pub fn completed_create_replay(
        &self,
        create_guid: [u8; 16],
        client_guid: [u8; 16],
        owner: &str,
    ) -> (r: Option<ResponseBody>)
        ensures
            ({
                let s = self@.completed_create_replays;
                let i = lists::first(
                    s,
                    answered_with(replay_key(create_guid, client_guid, owner@)),
                );
                match r {
                    None => create_guid == NIL16 || i >= s.len(),
                    Some(body) => create_guid != NIL16 && i < s.len() && s[i].body == body@,
                }
            }),
    {
        if ServerState::is_nil(&create_guid) {
            return None;
        }
        let key = ReplayKey {
            create_guid: Some(create_guid),
            client_guid,
            owner: string_of_str(owner),
        };
        let ghost s = self@.completed_create_replays;
        let mut i: usize = 0;
        while i < self.completed_create_replays.len()
            invariant
                i <= self.completed_create_replays@.len(),
                create_guid != NIL16,
                s == self@.completed_create_replays,
                key@ == replay_key(create_guid, client_guid, owner@),
                forall|j: int| 0 <= j < i ==> !answered_with(key@)(#[trigger] s[j]),
            decreases self.completed_create_replays@.len() - i,
        {
            assert(s[i as int] == self.completed_create_replays@[i as int]@);
            if self.completed_create_replays[i].key.same(&key) {
                proof {
                    lists::first_at(s, answered_with(key@), i as int);
                }
                return Some(self.completed_create_replays[i].body.duplicate());
            }
            i += 1;
        }
        proof {
            lists::first_at(s, answered_with(key@), i as int);
        }
        None
    }
}

} // verus!
