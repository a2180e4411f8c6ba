//! Durable opens that lose their connection, and how they are found again.

use crate::path;
use crate::path::{path_is_same_or_descendant, PathModel, SmbPath};
use crate::proto::messages::FileId;
use crate::server::completions;
use crate::server::durable;
use crate::server::lists;
use crate::server::locks;
use crate::server::opens;
use crate::server::rules;
use crate::server::rules::{durable_reconnect_caching_valid, LEASE_WRITE_CACHING, OPLOCK_NONE};
use crate::server::state;
use crate::server::state::{ServerState, StateModel};
use crate::server::tasks;
use crate::server::timeouts;
use crate::server::trees;
use crate::server::trees::TreeRef;
use crate::server::types;
use crate::server::types::{
    Action, ActionModel, ConnectionModel, Durability, DurableModel, DurableOpen, Lease, Open,
    OpenModel, OpenRecordModel, Oplock, SessionModel, TreeModel, TreeOpen, NIL16,
};
use crate::server::waiting;
use crate::server::waiting::take_flagged;
use crate::text;
use crate::text::lower_string;
use crate::wire::array16_equal;
use vstd::prelude::*;

verus! {

// ---------------------------------------------------------------------------
// Detaching
// ---------------------------------------------------------------------------

/// Whether an open can wait for its client: it is durable, has a handle, nothing of it is
/// being broken, it caches enough, and it does not hold locks without caching writes.
pub open spec fn can_wait(m: StateModel, share: Seq<char>, o: OpenModel) -> bool {
    o.durability.enabled && o.has_handle && !o.lease.breaking && !o.oplock.breaking
        && rules::caches_handle(o.lease.state, o.oplock.level) && !(o.lease.state != 0
        && o.lease.state & LEASE_WRITE_CACHING == 0 && locks::has_locks(
        m.byte_range_locks,
        locks::lock_key(share, o.last_path, o.stream_name),
        o.file_id,
    ))
}

/// Whether the open of a tree connect can wait for its client.
pub open spec fn detaches(m: StateModel, share: Seq<char>, t: TreeOpen) -> bool {
    durable::open_of(m.opens, t.open) matches Some(o) && can_wait(m, share, o)
}

/// Whether the open of a tree connect is durable but cannot wait for its client.
pub open spec fn loses_durability(m: StateModel, share: Seq<char>, t: TreeOpen) -> bool {
    !detaches(m, share, t) && match durable::open_of(m.opens, t.open) {
        None => false,
        Some(o) => o.durability.enabled,
    }
}

/// Which opens of a tree connect can wait for their client.
pub open spec fn detached_flags(m: StateModel, share: Seq<char>, list: Seq<TreeOpen>) -> Seq<bool> {
    list.map_values(|t: TreeOpen| detaches(m, share, t))
}

/// Which opens of a tree connect are durable but cannot wait for their client.
pub open spec fn lost_flags(m: StateModel, share: Seq<char>, list: Seq<TreeOpen>) -> Seq<bool> {
    list.map_values(|t: TreeOpen| loses_durability(m, share, t))
}

/// The state after a durable open that cannot wait was given up: it is no longer durable
/// nor registered, and its locks are gone.
pub open spec fn durability_lost(m: StateModel, share: Seq<char>, t: TreeOpen) -> StateModel {
    match durable::open_of(m.opens, t.open) {
        None => m,
        Some(o) => {
            let dropped = durable::durable_dropped(m, t.file_id);
            let gone = StateModel {
                opens: opens::without_file_registration(dropped.opens, t.file_id),
                ..dropped
            };
            locks::lock_waits_retried(
                locks::locks_dropped(gone, share, o.last_path, o.stream_name, t.file_id),
                share,
                o.last_path,
                o.stream_name,
            )
        },
    }
}

/// The state after durable opens that cannot wait were given up.
pub open spec fn all_lost(m: StateModel, share: Seq<char>, list: Seq<TreeOpen>) -> StateModel
    decreases list.len(),
{
    if list.len() == 0 {
        m
    } else {
        durability_lost(all_lost(m, share, list.drop_last()), share, list.last())
    }
}

/// A durable open that waits for its client.
pub open spec fn waiting_durable(
    durables: Seq<DurableModel>,
    share: Seq<char>,
    t: TreeOpen,
    deadline: u64,
) -> DurableModel {
    match durable::durable_of(durables, t.file_id) {
        Some(d) => DurableModel {
            open: t.open,
            attached_conn: None,
            attached_session_id: None,
            expires_at: Some(deadline),
            ..d
        },
        None => DurableModel {
            file_id: t.file_id,
            share,
            open: t.open,
            client_guid: NIL16,
            owner: Seq::empty(),
            attached_conn: None,
            attached_session_id: None,
            expires_at: Some(deadline),
        },
    }
}

/// Durable opens after some began to wait for their client.
pub open spec fn all_waiting(
    durables: Seq<DurableModel>,
    share: Seq<char>,
    list: Seq<TreeOpen>,
    deadline: u64,
) -> Seq<DurableModel>
    decreases list.len(),
{
    if list.len() == 0 {
        durables
    } else {
        let before = all_waiting(durables, share, list.drop_last(), deadline);
        durable::with_durable(before, waiting_durable(before, share, list.last(), deadline))
    }
}

/// Whether the time at which waiting ends can be told.
pub open spec fn deadline_fits(m: StateModel, now: u64) -> bool {
    now + m.config.durable_handle_timeout <= u64::MAX
}

/// The time at which waiting ends.
pub open spec fn deadline_of(m: StateModel, now: u64) -> u64 {
    (now + m.config.durable_handle_timeout) as u64
}

/// The state after the durable opens of a list were detached.
pub open spec fn opens_detached(
    m: StateModel,
    share: Seq<char>,
    list: Seq<TreeOpen>,
    deadline: u64,
) -> StateModel {
    let lost = all_lost(m, share, waiting::flagged(list, lost_flags(m, share, list)));
    StateModel {
        durable_opens: all_waiting(
            lost.durable_opens,
            share,
            waiting::flagged(list, detached_flags(m, share, list)),
            deadline,
        ),
        ..lost
    }
}

/// The state after the durable opens of a tree connect were detached from it.
pub open spec fn tree_detached(m: StateModel, t: TreeRef, deadline: u64) -> StateModel {
    match trees::tree_of(m.connections, t) {
        None => m,
        Some(tree) => {
            let share = text::lowered(tree.share);
            let after = opens_detached(m, share, tree.opens, deadline);
            StateModel {
                connections: trees::with_tree_opens(
                    after.connections,
                    t,
                    waiting::unflagged(tree.opens, detached_flags(m, share, tree.opens)),
                ),
                ..after
            }
        },
    }
}

/// How many opens of a tree connect can be detached.
pub open spec fn detachable(m: StateModel, t: TreeRef) -> nat {
    match trees::tree_of(m.connections, t) {
        None => 0,
        Some(tree) => waiting::flagged(
            tree.opens,
            detached_flags(m, text::lowered(tree.share), tree.opens),
        ).len(),
    }
}

impl ServerState {
    /// Whether an open can wait for its client.
    pub fn can_detach_durable_open(&self, share: &str, open: u64) -> (r: bool)
        ensures
            r == (durable::open_of(self@.opens, open) matches Some(o) && can_wait(
                self@,
                share@,
                o,
            )),
    {
        match self.find_open(open) {
            None => false,
            Some(i) => {
                let o: &Open = &self.opens[i].open;
                assert(self@.opens[i as int].open == o@);
                if !o.durability.enabled || !o.has_handle || o.lease.breaking || o.oplock.breaking {
                    return false;
                }
                if !durable_reconnect_caching_valid(o.lease.state, o.oplock.level) {
                    return false;
                }
                !(o.lease.state != 0 && o.lease.state & LEASE_WRITE_CACHING == 0
                    && self.open_has_byte_range_locks(
                    share,
                    &o.last_path,
                    types::as_opt_str(&o.stream_name),
                    o.file_id,
                ))
            },
        }
    }

    fn open_is_durable(&self, open: u64) -> (r: bool)
        ensures
            r == (durable::open_of(self@.opens, open) matches Some(o) && o.durability.enabled),
    {
        match self.find_open(open) {
            None => false,
            Some(i) => {
                assert(self@.opens[i as int] == self.opens@[i as int]@);
                self.opens[i].open.durability.enabled
            },
        }
    }

    fn lose_durability(&mut self, share: &str, t: TreeOpen)
        ensures
            final(self)@ == durability_lost(old(self)@, share@, t),
    {
        match self.find_open(t.open) {
            None => {},
            Some(i) => {
                assert(self@.opens[i as int] == self.opens@[i as int]@);
                let path: SmbPath = self.opens[i].open.last_path.duplicate();
                let stream_name: Option<String> = types::clone_opt(
                    &self.opens[i].open.stream_name,
                );
                self.drop_durable_entry(t.file_id);
                self.unregister_open_by_file_id(t.file_id);
                self.remove_byte_range_locks(
                    share,
                    &path,
                    types::as_opt_str(&stream_name),
                    t.file_id,
                );
                let _ = self.try_complete_byte_range_lock_waits(
                    share,
                    &path,
                    types::as_opt_str(&stream_name),
                );
            },
        }
    }

    fn wait_for_client(&mut self, share: &str, t: TreeOpen, deadline: u64)
        ensures
            final(self)@ == (StateModel {
                durable_opens: durable::with_durable(
                    old(self)@.durable_opens,
                    waiting_durable(old(self)@.durable_opens, share@, t, deadline),
                ),
                ..old(self)@
            }),
    {
        match self.find_durable(t.file_id) {
            Some(i) => {
                let ghost before = self@.durable_opens;
                self.durable_opens[i].open = t.open;
                self.durable_opens[i].attached_conn = None;
                self.durable_opens[i].attached_session_id = None;
                self.durable_opens[i].expires_at = Some(deadline);
                proof {
                    lists::first_is_first(before, durable::durable_is(t.file_id));
                    assert(self@.durable_opens =~= durable::with_durable(
                        before,
                        waiting_durable(before, share@, t, deadline),
                    ));
                }
            },
            None => {
                self.put_durable(
                    DurableOpen {
                        file_id: t.file_id,
                        share: text::string_of_str(share),
                        open: t.open,
                        client_guid: NIL16,
                        owner: String::new(),
                        attached_conn: None,
                        attached_session_id: None,
                        expires_at: Some(deadline),
                    },
                );
            },
        }
    }

    /// Detaches the durable opens of a list; returns the others, and how many were
    /// detached.
    pub fn detach_opens(&mut self, share: &str, list: Vec<TreeOpen>, deadline: u64) -> (r: (
        Vec<TreeOpen>,
        usize,
    ))
        ensures
            final(self)@ == opens_detached(old(self)@, share@, list@, deadline),
            r.0@ == waiting::unflagged(list@, detached_flags(old(self)@, share@, list@)),
            r.1 == waiting::flagged(list@, detached_flags(old(self)@, share@, list@)).len(),
    {
        let ghost m = self@;
        let ghost all = list@;
        let mut detached: Vec<bool> = Vec::new();
        let mut lost: Vec<TreeOpen> = Vec::new();
        let mut i: usize = 0;
        let ghost lf = lost_flags(m, share@, all);
        assert(all.take(0) =~= Seq::empty());
        while i < list.len()
            invariant
                i <= list@.len(),
                *self == *old(self),
                m == self@,
                all == list@,
                lf == lost_flags(m, share@, all),
                detached@.len() == i,
                forall|j: int| 0 <= j < i ==> detached@[j] == detaches(m, share@, all[j]),
                lost@ == waiting::flagged(all.take(i as int), lf),
            decreases list@.len() - i,
        {
            let t: TreeOpen = list[i];
            proof {
                assert(all.take(i + 1).drop_last() =~= all.take(i as int));
                assert(all.take(i + 1).last() == t);
                assert(lf[i as int] == loses_durability(m, share@, t));
            }
            let can: bool = self.can_detach_durable_open(share, t.open);
            detached.push(can);
            if !can && self.open_is_durable(t.open) {
                lost.push(t);
            }
            i += 1;
        }
        assert(all.take(i as int) =~= all);
        assert(detached@ =~= detached_flags(m, share@, all));
        let mut k: usize = 0;
        assert(lost@.take(0) =~= Seq::empty());
        while k < lost.len()
            invariant
                k <= lost@.len(),
                self@ == all_lost(m, share@, lost@.take(k as int)),
            decreases lost@.len() - k,
        {
            proof {
                assert(lost@.take(k + 1).drop_last() =~= lost@.take(k as int));
                assert(lost@.take(k + 1).last() == lost@[k as int]);
            }
            self.lose_durability(share, lost[k]);
            k += 1;
        }
        assert(lost@.take(k as int) =~= lost@);
        let mut rest: Vec<TreeOpen> = list;
        let taken: Vec<TreeOpen> = take_flagged(&mut rest, &detached);
        let ghost before = self@;
        let mut n: usize = 0;
        assert(taken@.take(0) =~= Seq::empty());
        while n < taken.len()
            invariant
                n <= taken@.len(),
                self@ == (StateModel {
                    durable_opens: all_waiting(
                        before.durable_opens,
                        share@,
                        taken@.take(n as int),
                        deadline,
                    ),
                    ..before
                }),
            decreases taken@.len() - n,
        {
            proof {
                assert(taken@.take(n + 1).drop_last() =~= taken@.take(n as int));
                assert(taken@.take(n + 1).last() == taken@[n as int]);
            }
            self.wait_for_client(share, taken[n], deadline);
            n += 1;
        }
        assert(taken@.take(n as int) =~= taken@);
        (rest, taken.len())
    }

    fn detach_tree(&mut self, t: TreeRef, deadline: u64) -> (r: usize)
        ensures
            final(self)@ == tree_detached(old(self)@, t, deadline),
            r == detachable(old(self)@, t),
    {
        match self.tree_opens(t) {
            None => 0,
            Some((share, list)) => {
                let share_key: String = lower_string(share.as_str());
                let (rest, count) = self.detach_opens(share_key.as_str(), list, deadline);
                self.set_tree_opens(t, rest);
                count
            },
        }
    }

    /// Detaches the durable opens of a tree connect; returns how many.
    pub fn detach_durable_opens_for_tree(&mut self, t: TreeRef, now: u64) -> (r: usize)
        requires
            deadline_fits(old(self)@, now),
        ensures
            final(self)@ == tree_detached(old(self)@, t, deadline_of(old(self)@, now)),
            r == detachable(old(self)@, t),
    {
        let deadline: u64 = now + self.config.durable_handle_timeout;
        self.detach_tree(t, deadline)
    }
}

// ---------------------------------------------------------------------------
// Reconnecting
// ---------------------------------------------------------------------------

/// What a client names when it comes back for an open.
pub struct Reconnect {
    pub file_id: FileId,
    pub version: u8,
    pub create_guid: Option<[u8; 16]>,
    pub lease_key: Option<[u8; 16]>,
    pub client_guid: [u8; 16],
    pub owner: String,
}

/// Whether an open is the one that a client comes back for.
pub open spec fn is_wanted(o: OpenModel, guid: [u8; 16], r: Reconnect) -> bool {
    &&& o.durability.enabled && o.durability.version == r.version && o.file_id == r.file_id
    &&& !(o.lease.state != 0 && guid != r.client_guid)
    &&& !(r.version >= 2 && r.create_guid is Some && r.create_guid->0 != o.durability.create_guid)
    &&& match r.lease_key {
        Some(key) => o.lease.state != 0 && key == o.lease.key,
        None => o.lease.state == 0,
    }
}

/// The durable open that a client may come back for, by the share of its tree connect.
pub open spec fn offered(m: StateModel, t: TreeRef, r: Reconnect) -> Option<DurableModel> {
    match (trees::tree_of(m.connections, t), durable::durable_of(m.durable_opens, r.file_id)) {
        (Some(tree), Some(d)) => if d.share == text::lowered(tree.share) && d.owner == r.owner@
            && d.expires_at is Some {
            Some(d)
        } else {
            None
        },
        _ => None,
    }
}

/// Whether a client gets its open back, but for the tree connect.
pub open spec fn is_granted(m: StateModel, t: TreeRef, r: Reconnect, now: u64) -> bool {
    match offered(m, t, r) {
        None => false,
        Some(d) => !durable::has_expired(d, now) && match durable::open_of(m.opens, d.open) {
            None => false,
            Some(o) => is_wanted(o, d.client_guid, r),
        },
    }
}

/// Whether a tree connect has an open with a file id already.
pub open spec fn is_taken(m: StateModel, t: TreeRef, file_id: FileId) -> bool {
    trees::tree_of(m.connections, t) matches Some(tree) && lists::found(
        tree.opens,
        trees::open_is(file_id),
    )
}

/// The open that a client gets back.
pub open spec fn reconnected(m: StateModel, t: TreeRef, r: Reconnect, now: u64) -> Option<u64> {
    if is_granted(m, t, r, now) && !is_taken(m, t, r.file_id) {
        Some(offered(m, t, r)->0.open)
    } else {
        None
    }
}

/// The state after a client came back for an open. One whose time is over is closed; one
/// that is found is attached to the session and its tree connect.
pub open spec fn after_reconnect(m: StateModel, t: TreeRef, r: Reconnect, now: u64) -> StateModel {
    match offered(m, t, r) {
        None => m,
        Some(d) => if durable::has_expired(d, now) {
            completions::open_discarded(durable::durable_dropped(m, r.file_id), d.open)
        } else if is_granted(m, t, r, now) {
            let attached = StateModel {
                durable_opens: durable::attached(
                    m.durable_opens,
                    r.file_id,
                    t.conn,
                    t.session_id,
                ),
                ..m
            };
            if is_taken(m, t, r.file_id) {
                attached
            } else {
                StateModel {
                    connections: trees::with_tree_opens(
                        m.connections,
                        t,
                        trees::tree_of(m.connections, t)->0.opens.push(
                            TreeOpen { file_id: r.file_id, open: d.open },
                        ),
                    ),
                    ..attached
                }
            }
        } else {
            m
        },
    }
}

impl ServerState {
    fn is_wanted_open(&self, open: u64, guid: &[u8; 16], r: &Reconnect) -> (b: bool)
        ensures
            b == (durable::open_of(self@.opens, open) matches Some(o) && is_wanted(o, *guid, *r)),
    {
        match self.find_open(open) {
            None => false,
            Some(i) => {
                let o: &Open = &self.opens[i].open;
                assert(self@.opens[i as int].open == o@);
                if !o.durability.enabled || o.durability.version != r.version || o.file_id
                    != r.file_id {
                    return false;
                }
                if o.lease.state != 0 && !array16_equal(guid, &r.client_guid) {
                    return false;
                }
                match &r.create_guid {
                    Some(g) => {
                        if r.version >= 2 && !array16_equal(g, &o.durability.create_guid) {
                            return false;
                        }
                    },
                    None => {},
                }
                match &r.lease_key {
                    Some(key) => o.lease.state != 0 && array16_equal(key, &o.lease.key),
                    None => o.lease.state == 0,
                }
            },
        }
    }

    /// Gives a client its durable open back.
    pub fn reconnect_durable_open(&mut self, t: TreeRef, r: &Reconnect, now: u64) -> (open: Option<
        u64,
    >)
        ensures
            open == reconnected(old(self)@, t, *r, now),
            final(self)@ == after_reconnect(old(self)@, t, *r, now),
    {
        let (share, list) = match self.tree_opens(t) {
            None => {
                return None;
            },
            Some(x) => x,
        };
        let share_key: String = lower_string(share.as_str());
        let i: usize = match self.find_durable(r.file_id) {
            None => {
                return None;
            },
            Some(i) => i,
        };
        let open: u64 = self.durable_opens[i].open;
        let guid: [u8; 16] = self.durable_opens[i].client_guid;
        if self.durable_opens[i].share != share_key || self.durable_opens[i].owner != r.owner {
            return None;
        }
        let expired: bool = match self.durable_opens[i].expires_at {
            None => {
                return None;
            },
            Some(e) => now >= e,
        };
        if expired {
            self.drop_durable_entry(r.file_id);
            self.discard_open(open);
            return None;
        }
        if !self.is_wanted_open(open, &guid, r) {
            return None;
        }
        self.attach_durable(r.file_id, t.conn, t.session_id);
        let mut list: Vec<TreeOpen> = list;
        if trees::find_tree_open(&list, r.file_id).is_some() {
            return None;
        }
        list.push(TreeOpen { file_id: r.file_id, open });
        self.set_tree_opens(t, list);
        Some(open)
    }
}

// ---------------------------------------------------------------------------
// Giving up
// ---------------------------------------------------------------------------

/// Why a durable open is given up: its directory goes, its application starts anew
/// elsewhere, or a new open of its file takes its place.
#[derive(Debug, Clone, Copy, PartialEq, Eq, Structural)]
pub enum Leaving {
    Purged,
    Replaced,
    Stale,
}

/// An open that is given up: it claims nothing any more, and has no handle.
pub open spec fn stripped(o: OpenModel, why: Leaving) -> OpenModel {
    OpenModel {
        has_handle: false,
        desired_access: 0,
        share_access: 7,
        delete_on_close: o.delete_on_close && why != Leaving::Stale,
        delete_on_close_unlinks_name: o.delete_on_close_unlinks_name && why != Leaving::Stale,
        lease: Lease { state: 0, breaking: false, ..o.lease },
        oplock: Oplock { level: OPLOCK_NONE, breaking: false, ..o.oplock },
        durability: Durability {
            enabled: false,
            version: 0,
            app_instance_id: if why == Leaving::Replaced {
                NIL16
            } else {
                o.durability.app_instance_id
            },
            ..o.durability
        },
        ..o
    }
}

/// Opens after one is not registered any more and is given up.
pub open spec fn opens_stripped(
    records: Seq<OpenRecordModel>,
    open: u64,
    why: Leaving,
) -> Seq<OpenRecordModel> {
    let i = state::open_index(records, open);
    let gone = opens::without_registration(records, open);
    gone.update(i, OpenRecordModel { open: stripped(records[i].open, why), ..gone[i] })
}

/// The state after a durable open is given up for good: it is no longer registered,
/// its locks are gone, what waited for its oplock goes on unless its directory goes, and
/// its handle is closed. The open is forgotten where nothing refers to it any more.
pub open spec fn retired(
    m: StateModel,
    share: Seq<char>,
    file_id: FileId,
    open: u64,
    why: Leaving,
) -> StateModel {
    match durable::open_of(m.opens, open) {
        None => m,
        Some(o) => {
            let gone = StateModel { opens: opens_stripped(m.opens, open, why), ..m };
            let unlocked = locks::lock_waits_retried(
                locks::locks_dropped(gone, share, o.last_path, o.stream_name, file_id),
                share,
                o.last_path,
                o.stream_name,
            );
            let resumed = if why != Leaving::Purged {
                timeouts::oplock_waits_resumed(unlocked, file_id)
            } else {
                unlocked
            };
            let closed = if o.has_handle {
                state::acted(resumed, ActionModel::CloseHandle { open })
            } else {
                resumed
            };
            durable::open_let_go(closed, open)
        },
    }
}

/// Whether a durable open has an application instance.
pub open spec fn instance_is(records: Seq<OpenRecordModel>, id: [u8; 16]) -> spec_fn(
    DurableModel,
) -> bool {
    |d: DurableModel|
        durable::open_of(records, d.open) is Some && durable::open_of(
            records,
            d.open,
        )->0.durability.app_instance_id == id
}

/// The state after the first durable open of an application instance was closed.
pub open spec fn instance_closed(m: StateModel, d: DurableModel) -> StateModel {
    let dropped = durable::durable_dropped(m, d.file_id);
    retired(
        StateModel {
            connections: trees::taken_live(m.connections, d.file_id, d.open),
            ..dropped
        },
        d.share,
        d.file_id,
        d.open,
        Leaving::Replaced,
    )
}

/// The state after at most `n` durable opens of an application instance were closed.
pub open spec fn instances_closed(m: StateModel, id: [u8; 16], n: nat) -> StateModel
    decreases n,
{
    let i = lists::first(m.durable_opens, instance_is(m.opens, id));
    if n == 0 || i >= m.durable_opens.len() {
        m
    } else {
        instances_closed(instance_closed(m, m.durable_opens[i]), id, (n - 1) as nat)
    }
}

/// How many durable opens of an application instance are closed, of at most `n`.
pub open spec fn instances_count(m: StateModel, id: [u8; 16], n: nat) -> nat
    decreases n,
{
    let i = lists::first(m.durable_opens, instance_is(m.opens, id));
    if n == 0 || i >= m.durable_opens.len() {
        0
    } else {
        1 + instances_count(instance_closed(m, m.durable_opens[i]), id, (n - 1) as nat)
    }
}

/// Whether a durable open that waits for its client is on a path or below it.
pub open spec fn is_under(
    records: Seq<OpenRecordModel>,
    d: DurableModel,
    share: Seq<char>,
    path: PathModel,
) -> bool {
    d.share == share && d.expires_at is Some && match durable::open_of(records, d.open) {
        None => false,
        Some(o) => path::starts_with(o.last_path, path),
    }
}

/// Which durable opens wait for their client on a path or below it.
pub open spec fn under_flags(m: StateModel, share: Seq<char>, path: PathModel) -> Seq<bool> {
    m.durable_opens.map_values(|d: DurableModel| is_under(m.opens, d, share, path))
}

/// The state after durable opens were given up for good.
pub open spec fn all_retired(m: StateModel, share: Seq<char>, list: Seq<DurableModel>) -> StateModel
    decreases list.len(),
{
    if list.len() == 0 {
        m
    } else {
        retired(
            all_retired(m, share, list.drop_last()),
            share,
            list.last().file_id,
            list.last().open,
            Leaving::Purged,
        )
    }
}

/// The state after the durable opens that wait for their client on a path and below it were
/// given up.
pub open spec fn purged(m: StateModel, share: Seq<char>, path: PathModel) -> StateModel {
    let s = text::lowered(share);
    let flags = under_flags(m, s, path);
    all_retired(
        StateModel { durable_opens: waiting::unflagged(m.durable_opens, flags), ..m },
        s,
        waiting::flagged(m.durable_opens, flags),
    )
}

/// What durable opens hold that are picked from a list.
pub proof fn durables_flagged(s: Seq<DurableOpen>, flags: Seq<bool>)
    ensures
        state::durable_models(waiting::flagged(s, flags)) == waiting::flagged(
            state::durable_models(s),
            flags,
        ),
        state::durable_models(waiting::unflagged(s, flags)) == waiting::unflagged(
            state::durable_models(s),
            flags,
        ),
    decreases s.len(),
{
    if s.len() > 0 {
        durables_flagged(s.drop_last(), flags);
        assert(state::durable_models(s).drop_last() =~= state::durable_models(s.drop_last()));
        let f = waiting::flagged(s.drop_last(), flags);
        let u = waiting::unflagged(s.drop_last(), flags);
        assert(state::durable_models(f.push(s.last())) =~= state::durable_models(f).push(
            s.last()@,
        ));
        assert(state::durable_models(u.push(s.last())) =~= state::durable_models(u).push(
            s.last()@,
        ));
    } else {
        assert(state::durable_models(waiting::flagged(s, flags)) =~= Seq::empty());
        assert(state::durable_models(waiting::unflagged(s, flags)) =~= Seq::empty());
    }
}

impl ServerState {
    fn strip_open(&mut self, i: usize, why: Leaving)
        requires
            i < old(self).opens@.len(),
            i == state::open_index(old(self)@.opens, old(self).opens@[i as int].key),
        ensures
            final(self)@ == (StateModel {
                opens: opens_stripped(old(self)@.opens, old(self).opens@[i as int].key, why),
                ..old(self)@
            }),
    {
        let ghost before = self@.opens;
        let key: u64 = self.opens[i].key;
        assert(before[i as int] == self.opens@[i as int]@);
        self.unregister_open(key);
        let ghost gone = self@.opens;
        assert(gone.len() == self.opens@.len());
        assert(gone[i as int] == self.opens@[i as int]@);
        assert(gone[i as int].open == before[i as int].open);
        let mut o: Open = self.opens[i].open.duplicate();
        o.has_handle = false;
        o.desired_access = 0;
        o.share_access = 7;
        if matches!(why, Leaving::Stale) {
            o.delete_on_close = false;
            o.delete_on_close_unlinks_name = false;
        }
        o.lease.state = 0;
        o.lease.breaking = false;
        o.oplock.level = OPLOCK_NONE;
        o.oplock.breaking = false;
        o.durability.enabled = false;
        o.durability.version = 0;
        if matches!(why, Leaving::Replaced) {
            o.durability.app_instance_id = NIL16;
        }
        assert(o@ =~= stripped(before[i as int].open, why));
        self.opens[i].open = o;
        assert(self@.opens =~= opens_stripped(before, key, why));
    }

    /// Gives a durable open up for good.
    pub fn retire_open(&mut self, share: &str, file_id: FileId, open: u64, why: Leaving)
        ensures
            final(self)@ == retired(old(self)@, share@, file_id, open, why),
    {
        match self.find_open(open) {
            None => {},
            Some(i) => {
                proof {
                    state::open_index_is_first(self@.opens, open);
                }
                assert(self@.opens[i as int] == self.opens@[i as int]@);
                let path: SmbPath = self.opens[i].open.last_path.duplicate();
                let stream_name: Option<String> = types::clone_opt(
                    &self.opens[i].open.stream_name,
                );
                let had_handle: bool = self.opens[i].open.has_handle;
                self.strip_open(i, why);
                self.remove_byte_range_locks(
                    share,
                    &path,
                    types::as_opt_str(&stream_name),
                    file_id,
                );
                let _ = self.try_complete_byte_range_lock_waits(
                    share,
                    &path,
                    types::as_opt_str(&stream_name),
                );
                if !matches!(why, Leaving::Purged) {
                    self.complete_cache_break_waits_for_oplock_file_id(file_id);
                }
                if had_handle {
                    self.act(Action::CloseHandle { open });
                }
                self.let_open_go(open);
            },
        }
    }

    fn find_instance(&self, id: &[u8; 16]) -> (r: Option<usize>)
        ensures
            match r {
                None => !lists::found(self@.durable_opens, instance_is(self@.opens, *id)),
                Some(i) => i < self.durable_opens@.len() && i == lists::first(
                    self@.durable_opens,
                    instance_is(self@.opens, *id),
                ),
            },
    {
        let mut i: usize = 0;
        while i < self.durable_opens.len()
            invariant
                i <= self.durable_opens@.len(),
                forall|j: int|
                    0 <= j < i ==> !instance_is(self@.opens, *id)(
                        #[trigger] self@.durable_opens[j],
                    ),
            decreases self.durable_opens@.len() - i,
        {
            assert(self@.durable_opens[i as int] == self.durable_opens@[i as int]@);
            let hit: bool = match self.find_open(self.durable_opens[i].open) {
                None => false,
                Some(k) => {
                    assert(self@.opens[k as int] == self.opens@[k as int]@);
                    array16_equal(&self.opens[k].open.durability.app_instance_id, id)
                },
            };
            if hit {
                proof {
                    lists::first_at(
                        self@.durable_opens,
                        instance_is(self@.opens, *id),
                        i as int,
                    );
                }
                return Some(i);
            }
            i += 1;
        }
        proof {
            lists::first_at(self@.durable_opens, instance_is(self@.opens, *id), i as int);
        }
        None
    }

    fn close_instance(&mut self, i: usize)
        requires
            i < old(self).durable_opens@.len(),
        ensures
            final(self)@ == instance_closed(old(self)@, old(self)@.durable_opens[i as int]),
            final(self)@.durable_opens.len() < old(self)@.durable_opens.len(),
    {
        let ghost before = self@;
        assert(before.durable_opens[i as int] == self.durable_opens@[i as int]@);
        let file_id: FileId = self.durable_opens[i].file_id;
        let open: u64 = self.durable_opens[i].open;
        let share: String = self.durable_opens[i].share.clone();
        proof {
            lemma_dropped_is_shorter(before.durable_opens, i as int);
        }
        self.drop_durable_entry(file_id);
        let _ = self.remove_open_from_live_trees(file_id, open);
        proof {
            lemma_retired_keeps_durables(self@, share@, file_id, open, Leaving::Replaced);
        }
        self.retire_open(share.as_str(), file_id, open, Leaving::Replaced);
    }

    /// Closes the durable opens of an application instance, which starts anew elsewhere;
    /// returns how many.
    #[verifier::spinoff_prover]
    pub fn close_durable_open_for_app_instance(&mut self, app_instance_id: [u8; 16]) -> (r: usize)
        ensures
            app_instance_id == NIL16 ==> r == 0 && final(self)@ == old(self)@,
            app_instance_id != NIL16 ==> r == instances_count(
                old(self)@,
                app_instance_id,
                old(self)@.durable_opens.len(),
            ) && final(self)@ == instances_closed(
                old(self)@,
                app_instance_id,
                old(self)@.durable_opens.len(),
            ) && !lists::found(
                final(self)@.durable_opens,
                instance_is(final(self)@.opens, app_instance_id),
            ),
    {
        if ServerState::is_nil(&app_instance_id) {
            return 0;
        }
        let ghost m = self@;
        let total: usize = self.durable_opens.len();
        let mut closed: usize = 0;
        assert(m.durable_opens.len() == total);
        loop
            invariant
                closed <= total,
                total == m.durable_opens.len(),
                closed + self@.durable_opens.len() <= total,
                app_instance_id != NIL16,
                m == old(self)@,
                instances_closed(m, app_instance_id, total as nat) == instances_closed(
                    self@,
                    app_instance_id,
                    (total - closed) as nat,
                ),
                instances_count(m, app_instance_id, total as nat) == closed + instances_count(
                    self@,
                    app_instance_id,
                    (total - closed) as nat,
                ),
            ensures
                closed == instances_count(m, app_instance_id, total as nat),
                self@ == instances_closed(m, app_instance_id, total as nat),
                !lists::found(
                    self@.durable_opens,
                    instance_is(self@.opens, app_instance_id),
                ),
            decreases total - closed,
        {
            match self.find_instance(&app_instance_id) {
                None => {
                    break;
                },
                Some(i) => {
                    self.close_instance(i);
                    closed += 1;
                },
            }
        }
        closed
    }

    /// Gives up the durable opens that wait for their client on a path and below it;
    /// returns how many.
    pub fn purge_detached_durable_opens_under_path(&mut self, share: &str, path: &SmbPath) -> (r:
        usize)
        ensures
            r == waiting::flagged(
                old(self)@.durable_opens,
                under_flags(old(self)@, text::lowered(share@), path@),
            ).len(),
            final(self)@ == purged(old(self)@, share@, path@),
    {
        let share_key: String = lower_string(share);
        let mut flags: Vec<bool> = Vec::new();
        let mut i: usize = 0;
        while i < self.durable_opens.len()
            invariant
                i <= self.durable_opens@.len(),
                share_key@ == text::lowered(share@),
                flags@.len() == i,
                forall|j: int|
                    0 <= j < i ==> flags@[j] == under_flags(self@, share_key@, path@)[j],
            decreases self.durable_opens@.len() - i,
        {
            let d: &DurableOpen = &self.durable_opens[i];
            assert(self@.durable_opens[i as int] == d@);
            let below: bool = match self.find_open(d.open) {
                None => false,
                Some(k) => {
                    assert(self@.opens[k as int] == self.opens@[k as int]@);
                    path_is_same_or_descendant(&self.opens[k].open.last_path, path)
                },
            };
            flags.push(d.share == share_key && d.expires_at.is_some() && below);
            i += 1;
        }
        assert(flags@ =~= under_flags(self@, share_key@, path@));
        proof {
            durables_flagged(self.durable_opens@, flags@);
        }
        let list: Vec<DurableOpen> = take_flagged(&mut self.durable_opens, &flags);
        let ghost m = self@;
        let ghost all = state::durable_models(list@);
        let mut k: usize = 0;
        assert(all.take(0) =~= Seq::empty());
        while k < list.len()
            invariant
                k <= list@.len(),
                all == state::durable_models(list@),
                self@ == all_retired(m, share_key@, all.take(k as int)),
            decreases list@.len() - k,
        {
            proof {
                assert(all.take(k + 1).drop_last() =~= all.take(k as int));
                assert(all.take(k + 1).last() == list@[k as int]@);
            }
            self.retire_open(share_key.as_str(), list[k].file_id, list[k].open, Leaving::Purged);
            k += 1;
        }
        assert(all.take(k as int) =~= all);
        list.len()
    }
}

proof fn lemma_dropped_is_shorter(s: Seq<DurableModel>, i: int)
    requires
        0 <= i < s.len(),
    ensures
        durable::without_durable(s, s[i].file_id).len() < s.len(),
{
    let flags = durable::filed(s, s[i].file_id);
    waiting::flagged_lengths(s, flags);
    waiting::flagged_contains(s, flags, s[i]);
    assert(s[i] == s[i] && flags[i]);
    assert(waiting::flagged(s, flags).contains(s[i]));
}

proof fn lemma_answered_keeps_durables(m: StateModel, done: Seq<locks::LockAnswer>)
    ensures
        locks::lock_waits_answered(m, done).durable_opens == m.durable_opens,
    decreases done.len(),
{
    if done.len() > 0 {
        lemma_answered_keeps_durables(m, done.drop_last());
    }
}

proof fn lemma_resumed_keeps_durables(m: StateModel, ended: completions::Ended)
    ensures
        completions::creates_resumed(m, ended).durable_opens == m.durable_opens,
        tasks::tasks_resumed(m, ended).durable_opens == m.durable_opens,
{
    let c = completions::ready_creates(m, ended);
    let t = tasks::ready_tasks(m, ended);
    lemma_creates_keep_durables(
        StateModel { cache_break_creates: waiting::unflagged(m.cache_break_creates, c), ..m },
        waiting::flagged(m.cache_break_creates, c),
    );
    lemma_tasks_keep_durables(
        StateModel { cache_break_tasks: waiting::unflagged(m.cache_break_tasks, t), ..m },
        tasks::in_order(waiting::flagged(m.cache_break_tasks, t)),
    );
}

proof fn lemma_creates_keep_durables(
    m: StateModel,
    ws: Seq<waiting::WaitingModel<types::CreateWaitModel>>,
)
    ensures
        completions::creates_done(m, ws).durable_opens == m.durable_opens,
    decreases ws.len(),
{
    if ws.len() > 0 {
        lemma_creates_keep_durables(m, ws.drop_last());
    }
}

proof fn lemma_tasks_keep_durables(
    m: StateModel,
    ws: Seq<waiting::WaitingModel<types::TaskWaitModel>>,
)
    ensures
        tasks::tasks_started(m, ws).durable_opens == m.durable_opens,
    decreases ws.len(),
{
    if ws.len() > 0 {
        lemma_tasks_keep_durables(m, ws.drop_last());
    }
}

proof fn lemma_retired_keeps_durables(
    m: StateModel,
    share: Seq<char>,
    file_id: FileId,
    open: u64,
    why: Leaving,
)
    ensures
        retired(m, share, file_id, open, why).durable_opens == m.durable_opens,
{
    match durable::open_of(m.opens, open) {
        None => {},
        Some(o) => {
            let gone = StateModel { opens: opens_stripped(m.opens, open, why), ..m };
            let dropped = locks::locks_dropped(gone, share, o.last_path, o.stream_name, file_id);
            let key = locks::lock_key(share, o.last_path, o.stream_name);
            let flags = locks::waits_on(dropped.byte_range_lock_waits, key);
            let r = locks::retried(
                dropped,
                waiting::flagged(dropped.byte_range_lock_waits, flags),
            );
            let again = waiting::flagged(r.still, locks::waits_alive(dropped, r.still));
            lemma_answered_keeps_durables(
                StateModel {
                    byte_range_locks: r.locks,
                    byte_range_lock_waits: waiting::unflagged(
                        dropped.byte_range_lock_waits,
                        flags,
                    ) + again,
                    outbox: dropped.outbox + r.actions,
                    ..dropped
                },
                r.done,
            );
            let unlocked = locks::lock_waits_retried(dropped, share, o.last_path, o.stream_name);
            let ended = completions::Ended::Oplock { file_id };
            lemma_resumed_keeps_durables(unlocked, ended);
            lemma_resumed_keeps_durables(completions::creates_resumed(unlocked, ended), ended);
        },
    }
}

// ---------------------------------------------------------------------------
// Sessions and connections
// ---------------------------------------------------------------------------

/// The ids of the tree connects of a session.
pub open spec fn tree_ids(conns: Seq<ConnectionModel>, conn: u64, session_id: u64) -> Seq<u32> {
    match state::conn_of(conns, conn) {
        None => Seq::empty(),
        Some(c) => {
            let i = trees::session_at(c, session_id);
            if i < c.sessions.len() {
                c.sessions[i].trees.map_values(|t: TreeModel| t.id)
            } else {
                Seq::empty()
            }
        },
    }
}

/// The ids of the sessions of a connection.
pub open spec fn session_ids(conns: Seq<ConnectionModel>, conn: u64) -> Seq<u64> {
    match state::conn_of(conns, conn) {
        None => Seq::empty(),
        Some(c) => c.sessions.map_values(|s: SessionModel| s.id),
    }
}

/// The state after the durable opens of some tree connects of a session were detached.
pub open spec fn trees_detached(
    m: StateModel,
    conn: u64,
    session_id: u64,
    ids: Seq<u32>,
    deadline: u64,
) -> StateModel
    decreases ids.len(),
{
    if ids.len() == 0 {
        m
    } else {
        tree_detached(
            trees_detached(m, conn, session_id, ids.drop_last(), deadline),
            TreeRef { conn, session_id, tree_id: ids.last() },
            deadline,
        )
    }
}

/// The state after the durable opens of a session were detached.
pub open spec fn session_detached(
    m: StateModel,
    conn: u64,
    session_id: u64,
    deadline: u64,
) -> StateModel {
    trees_detached(m, conn, session_id, tree_ids(m.connections, conn, session_id), deadline)
}

/// The state after the durable opens of some sessions of a connection were detached.
pub open spec fn sessions_detached(
    m: StateModel,
    conn: u64,
    ids: Seq<u64>,
    deadline: u64,
) -> StateModel
    decreases ids.len(),
{
    if ids.len() == 0 {
        m
    } else {
        session_detached(sessions_detached(m, conn, ids.drop_last(), deadline), conn, ids.last(),
            deadline)
    }
}

/// A count, as far as it fits.
pub open spec fn capped(n: nat) -> usize {
    if n <= usize::MAX {
        n as usize
    } else {
        usize::MAX
    }
}

/// How many opens of some tree connects of a session are detached.
pub open spec fn trees_detachable(
    m: StateModel,
    conn: u64,
    session_id: u64,
    ids: Seq<u32>,
    deadline: u64,
) -> nat
    decreases ids.len(),
{
    if ids.len() == 0 {
        0
    } else {
        trees_detachable(m, conn, session_id, ids.drop_last(), deadline) + detachable(
            trees_detached(m, conn, session_id, ids.drop_last(), deadline),
            TreeRef { conn, session_id, tree_id: ids.last() },
        )
    }
}

/// How many opens of some sessions of a connection are detached.
pub open spec fn sessions_detachable(m: StateModel, conn: u64, ids: Seq<u64>, deadline: u64) -> nat
    decreases ids.len(),
{
    if ids.len() == 0 {
        0
    } else {
        let before = sessions_detached(m, conn, ids.drop_last(), deadline);
        sessions_detachable(m, conn, ids.drop_last(), deadline) + trees_detachable(
            before,
            conn,
            ids.last(),
            tree_ids(before.connections, conn, ids.last()),
            deadline,
        )
    }
}

impl ServerState {
    /// The ids of the tree connects of a session.
    pub fn session_tree_ids(&self, conn: u64, session_id: u64) -> (r: Vec<u32>)
        ensures
            r@ == tree_ids(self@.connections, conn, session_id),
    {
        let mut r: Vec<u32> = Vec::new();
        match self.find_conn(conn) {
            None => {},
            Some(c) => {
                assert(self@.connections[c as int] == self.connections@[c as int]@);
                match self.connections[c].find_session(session_id) {
                    None => {},
                    Some(s) => {
                        let ghost all = tree_ids(self@.connections, conn, session_id);
                        assert(self@.connections[c as int].sessions[s as int]
                            == self.connections@[c as int].sessions@[s as int]@);
                        let mut i: usize = 0;
                        while i < self.connections[c].sessions[s].trees.len()
                            invariant
                                c < self.connections@.len(),
                                s < self.connections@[c as int].sessions@.len(),
                                i <= self.connections@[c as int].sessions@[s as int].trees@.len(),
                                all.len()
                                    == self.connections@[c as int].sessions@[s as int].trees@.len(),
                                r@ == all.take(i as int),
                                forall|j: int|
                                    0 <= j < all.len() ==> #[trigger] all[j]
                                        == self.connections@[c as int].sessions@[s as int].trees@[j].id,
                            decreases all.len() - i,
                        {
                            r.push(self.connections[c].sessions[s].trees[i].id);
                            assert(r@ =~= all.take(i + 1));
                            i += 1;
                        }
                        assert(all.take(i as int) =~= all);
                        return r;
                    },
                }
            },
        }
        assert(r@ =~= Seq::empty());
        r
    }

    /// The ids of the sessions of a connection.
    pub fn connection_session_ids(&self, conn: u64) -> (r: Vec<u64>)
        ensures
            r@ == session_ids(self@.connections, conn),
    {
        let mut r: Vec<u64> = Vec::new();
        match self.find_conn(conn) {
            None => {},
            Some(c) => {
                let ghost all = session_ids(self@.connections, conn);
                assert(self@.connections[c as int] == self.connections@[c as int]@);
                let mut i: usize = 0;
                while i < self.connections[c].sessions.len()
                    invariant
                        c < self.connections@.len(),
                        i <= self.connections@[c as int].sessions@.len(),
                        all.len() == self.connections@[c as int].sessions@.len(),
                        r@ == all.take(i as int),
                        forall|j: int|
                            0 <= j < all.len() ==> #[trigger] all[j]
                                == self.connections@[c as int].sessions@[j].id,
                    decreases all.len() - i,
                {
                    r.push(self.connections[c].sessions[i].id);
                    assert(r@ =~= all.take(i + 1));
                    i += 1;
                }
                assert(all.take(i as int) =~= all);
                return r;
            },
        }
        assert(r@ =~= Seq::empty());
        r
    }

    fn detach_session(&mut self, conn: u64, session_id: u64, deadline: u64) -> (r: usize)
        ensures
            final(self)@ == session_detached(old(self)@, conn, session_id, deadline),
            r == capped(
                trees_detachable(
                    old(self)@,
                    conn,
                    session_id,
                    tree_ids(old(self)@.connections, conn, session_id),
                    deadline,
                ),
            ),
    {
        let ids: Vec<u32> = self.session_tree_ids(conn, session_id);
        let ghost m = self@;
        let mut count: usize = 0;
        let mut i: usize = 0;
        assert(ids@.take(0) =~= Seq::empty());
        while i < ids.len()
            invariant
                i <= ids@.len(),
                self@ == trees_detached(m, conn, session_id, ids@.take(i as int), deadline),
                count == capped(
                    trees_detachable(m, conn, session_id, ids@.take(i as int), deadline),
                ),
            decreases ids@.len() - i,
        {
            proof {
                assert(ids@.take(i + 1).drop_last() =~= ids@.take(i as int));
                assert(ids@.take(i + 1).last() == ids@[i as int]);
            }
            let t = TreeRef { conn, session_id, tree_id: ids[i] };
            let n: usize = self.detach_tree(t, deadline);
            count = count.saturating_add(n);
            i += 1;
        }
        assert(ids@.take(i as int) =~= ids@);
        count
    }

    /// Detaches the durable opens of a session; returns how many.
    pub fn detach_durable_opens_for_session(&mut self, conn: u64, session_id: u64, now: u64) -> (r:
        usize)
        requires
            deadline_fits(old(self)@, now),
        ensures
            ({
                let m = old(self)@;
                let deadline = deadline_of(m, now);
                let ids = tree_ids(m.connections, conn, session_id);
                final(self)@ == session_detached(m, conn, session_id, deadline) && r == capped(
                    trees_detachable(m, conn, session_id, ids, deadline),
                )
            }),
    {
        let deadline: u64 = now + self.config.durable_handle_timeout;
        self.detach_session(conn, session_id, deadline)
    }

    /// Detaches the durable opens of a connection; returns how many.
    pub fn detach_durable_opens_for_connection(&mut self, conn: u64, now: u64) -> (r: usize)
        requires
            deadline_fits(old(self)@, now),
        ensures
            ({
                let m = old(self)@;
                let deadline = deadline_of(m, now);
                let ids = session_ids(m.connections, conn);
                final(self)@ == sessions_detached(m, conn, ids, deadline) && r == capped(
                    sessions_detachable(m, conn, ids, deadline),
                )
            }),
    {
        let deadline: u64 = now + self.config.durable_handle_timeout;
        let ids: Vec<u64> = self.connection_session_ids(conn);
        let ghost m = self@;
        let mut count: usize = 0;
        let mut i: usize = 0;
        assert(ids@.take(0) =~= Seq::empty());
        while i < ids.len()
            invariant
                i <= ids@.len(),
                self@ == sessions_detached(m, conn, ids@.take(i as int), deadline),
                count == capped(sessions_detachable(m, conn, ids@.take(i as int), deadline)),
            decreases ids@.len() - i,
        {
            proof {
                assert(ids@.take(i + 1).drop_last() =~= ids@.take(i as int));
                assert(ids@.take(i + 1).last() == ids@[i as int]);
            }
            let n: usize = self.detach_session(conn, ids[i], deadline);
            count = count.saturating_add(n);
            i += 1;
        }
        assert(ids@.take(i as int) =~= ids@);
        count
    }
}

} // verus!
