//! What is left to close when tree connects, sessions and connections end, and which
//! durable opens give way to a new open.
//!
//! Unlinking a file is asked for in between: a list of work is handed back together with
//! the file, and taken up again once it is known what came of the unlinking.

use crate::ntstatus::STATUS_NOTIFY_CLEANUP;
use crate::path::SmbPath;
use crate::server::closing;
use crate::server::closing::{Unlink, UnlinkModel, UnlinkReason};
use crate::server::completions;
use crate::server::connections;
use crate::server::detaching;
use crate::server::detaching::Leaving;
use crate::server::durable;
use crate::server::notify;
use crate::server::rules;
use crate::server::rules::{
    access_is_lease_stat_open, preserve_detached_durable_for_fresh_open, RequestedLease,
};
use crate::server::state;
use crate::server::state::{ServerState, StateModel};
use crate::server::tasks;
use crate::server::trees;
use crate::server::trees::TreeRef;
use crate::server::types;
use crate::server::types::{
    ConnectionModel, DurableModel, DurableOpen, Open, Session, TreeConnect, TreeModel, TreeOpen,
};
use crate::server::waiting;
use crate::server::waiting::{take_flagged, Selector};
use crate::server::writes;
use crate::text;
use crate::text::lower_string;
use vstd::prelude::*;

verus! {

// ---------------------------------------------------------------------------
// Opens to close
// ---------------------------------------------------------------------------

/// Opens of one tree connect that are to be closed.
#[derive(Debug, Clone, PartialEq, Eq)]
pub struct Batch {
    pub share: String,
    pub opens: Vec<TreeOpen>,
}

/// Opens of one tree connect that are to be closed.
#[verifier::ext_equal]
pub struct BatchModel {
    pub share: Seq<char>,
    pub opens: Seq<TreeOpen>,
}

impl View for Batch {
    type V = BatchModel;

    open spec fn view(&self) -> BatchModel {
        BatchModel { share: self.share@, opens: self.opens@ }
    }
}

/// What is left to close of a connection: first the batches, then the opens of the tree
/// connects.
#[derive(Debug, Clone, PartialEq, Eq)]
pub struct CloseWork {
    pub conn: u64,
    /// Whether durable opens that are to delete their file stay.
    pub preserve: bool,
    pub batches: Vec<Batch>,
    pub trees: Vec<TreeRef>,
}

/// What is left to close of a connection.
#[verifier::ext_equal]
pub struct WorkModel {
    pub conn: u64,
    pub preserve: bool,
    pub batches: Seq<BatchModel>,
    pub trees: Seq<TreeRef>,
}

/// What some batches hold.
pub open spec fn batch_models(s: Seq<Batch>) -> Seq<BatchModel> {
    s.map_values(|b: Batch| b@)
}

impl View for CloseWork {
    type V = WorkModel;

    open spec fn view(&self) -> WorkModel {
        WorkModel {
            conn: self.conn,
            preserve: self.preserve,
            batches: batch_models(self.batches@),
            trees: self.trees@,
        }
    }
}

/// How far opens were closed: the state, what is left to close, how many were closed, and
/// what is to be unlinked before the next.
#[verifier::ext_equal]
pub struct Progress {
    pub state: StateModel,
    pub work: WorkModel,
    pub closed: nat,
    pub unlink: Option<UnlinkModel>,
}

/// The first batch without its first open.
pub open spec fn first_gone(batches: Seq<BatchModel>) -> Seq<BatchModel> {
    batches.update(0, BatchModel { opens: batches[0].opens.skip(1), ..batches[0] })
}

/// Takes the opens of the first tree connect out of it, to be closed.
pub open spec fn tree_drained(m: StateModel, w: WorkModel) -> (StateModel, WorkModel) {
    let rest = WorkModel { trees: w.trees.skip(1), ..w };
    match trees::tree_of(m.connections, w.trees[0]) {
        None => (m, rest),
        Some(tree) => (
            StateModel {
                connections: trees::with_tree_opens(m.connections, w.trees[0], Seq::empty()),
                ..m
            },
            WorkModel {
                batches: w.batches.push(BatchModel { share: tree.share, opens: tree.opens }),
                ..rest
            },
        ),
    }
}

/// Closes opens until a file is to be unlinked.
pub open spec fn closed_some(m: StateModel, w: WorkModel) -> Progress
    decreases
            w.trees.len(),
            w.batches.len(),
            if w.batches.len() > 0 {
                w.batches[0].opens.len()
            } else {
                0
            },
{
    if w.batches.len() > 0 {
        let b = w.batches[0];
        if b.opens.len() == 0 {
            closed_some(m, WorkModel { batches: w.batches.skip(1), ..w })
        } else {
            let c = closing::closed_one(m, w.conn, b.share, b.opens[0], w.preserve);
            let rest = WorkModel { batches: first_gone(w.batches), ..w };
            if c.unlink is Some {
                Progress { state: c.state, work: rest, closed: 1, unlink: c.unlink }
            } else {
                let p = closed_some(c.state, rest);
                Progress { closed: p.closed + 1, ..p }
            }
        }
    } else if w.trees.len() > 0 {
        let (s, rest) = tree_drained(m, w);
        closed_some(s, rest)
    } else {
        Progress { state: m, work: w, closed: 0, unlink: None }
    }
}

/// The work of closing the opens of tree connects.
pub open spec fn trees_work(conn: u64, list: Seq<TreeRef>, preserve: bool) -> WorkModel {
    WorkModel { conn, preserve, batches: Seq::empty(), trees: list }
}

/// The tree connects of a session.
pub open spec fn session_trees(conns: Seq<ConnectionModel>, conn: u64, session_id: u64) -> Seq<
    TreeRef,
> {
    detaching::tree_ids(conns, conn, session_id).map_values(
        |id: u32| TreeRef { conn, session_id, tree_id: id },
    )
}

/// The tree connects of some sessions.
pub open spec fn sessions_trees(conns: Seq<ConnectionModel>, conn: u64, ids: Seq<u64>) -> Seq<
    TreeRef,
>
    decreases ids.len(),
{
    if ids.len() == 0 {
        Seq::empty()
    } else {
        sessions_trees(conns, conn, ids.drop_last()) + session_trees(conns, conn, ids.last())
    }
}

/// The tree connects of a connection.
pub open spec fn connection_trees(conns: Seq<ConnectionModel>, conn: u64) -> Seq<TreeRef> {
    sessions_trees(conns, conn, detaching::session_ids(conns, conn))
}

/// The number of opens in a list of work that names no tree connect.
pub open spec fn batched(batches: Seq<BatchModel>) -> nat
    decreases batches.len(),
{
    if batches.len() == 0 {
        0
    } else {
        batches[0].opens.len() + batched(batches.skip(1))
    }
}

impl CloseWork {
    fn drop_empty(&mut self)
        requires
            old(self)@.batches.len() > 0,
        ensures
            final(self)@ == (WorkModel { batches: old(self)@.batches.skip(1), ..old(self)@ }),
    {
        let ghost before = self@;
        let _ = self.batches.remove(0);
        assert(self@.batches =~= before.batches.skip(1));
    }

    fn take_open(&mut self) -> (r: TreeOpen)
        requires
            old(self)@.batches.len() > 0,
            old(self)@.batches[0].opens.len() > 0,
        ensures
            r == old(self)@.batches[0].opens[0],
            final(self)@ == (WorkModel { batches: first_gone(old(self)@.batches), ..old(self)@ }),
    {
        let ghost before = self@;
        assert(self@.batches[0] == self.batches@[0]@);
        let r: TreeOpen = self.batches[0].opens.remove(0);
        assert(self.batches@[0]@.opens =~= before.batches[0].opens.skip(1));
        assert(self@.batches =~= first_gone(before.batches));
        r
    }
}

impl ServerState {
    fn drain_tree(&mut self, work: &mut CloseWork)
        requires
            old(work)@.trees.len() > 0,
        ensures
            (final(self)@, final(work)@) == tree_drained(old(self)@, old(work)@),
    {
        let ghost before = work@;
        let t: TreeRef = work.trees.remove(0);
        assert(work@.trees =~= before.trees.skip(1));
        match self.tree_opens(t) {
            None => {},
            Some((share, opens)) => {
                self.set_tree_opens(t, Vec::new());
                work.batches.push(Batch { share, opens });
                assert(work@.batches =~= before.batches.push(
                    BatchModel { share: share@, opens: opens@ },
                ));
            },
        }
    }

    /// Closes opens until a file is to be unlinked, which is returned with the number of
    /// opens that were closed; no file is returned where all are closed.
    pub fn cleanup_next(&mut self, work: &mut CloseWork) -> (r: (usize, Option<Unlink>))
        ensures
            ({
                let p = closed_some(old(self)@, old(work)@);
                &&& final(self)@ == p.state
                &&& final(work)@ == p.work
                &&& r.0 == detaching::capped(p.closed)
                &&& closing::unlink_model(r.1) == p.unlink
            }),
    {
        let ghost m = self@;
        let ghost w = work@;
        let mut closed: usize = 0;
        let ghost mut n: nat = 0;
        while work.batches.len() > 0 || work.trees.len() > 0
            invariant
                m == old(self)@,
                w == old(work)@,
                closed == detaching::capped(n),
                ({
                    let p = closed_some(m, w);
                    let q = closed_some(self@, work@);
                    p.state == q.state && p.work == q.work && p.unlink == q.unlink && p.closed == n
                        + q.closed
                }),
            decreases
                    work@.trees.len(),
                    work@.batches.len(),
                    if work@.batches.len() > 0 {
                        work@.batches[0].opens.len()
                    } else {
                        0
                    },
        {
            assert(work@.batches.len() == work.batches@.len());
            if work.batches.len() == 0 {
                self.drain_tree(work);
                continue;
            }
            assert(work@.batches[0] == work.batches@[0]@);
            if work.batches[0].opens.len() == 0 {
                work.drop_empty();
                continue;
            }
            let share: String = work.batches[0].share.clone();
            let t: TreeOpen = work.take_open();
            let u: Option<Unlink> = self.cleanup_closed_open(
                work.conn,
                share.as_str(),
                t,
                work.preserve,
            );
            closed = closed.saturating_add(1);
            proof {
                n = n + 1;
            }
            if u.is_some() {
                return (closed, u);
            }
        }
        (closed, None)
    }

    /// What is to be closed with a tree connect.
    pub fn cleanup_opens_for_tree(&self, t: TreeRef) -> (r: CloseWork)
        ensures
            r@ == trees_work(t.conn, seq![t], false),
    {
        let r = CloseWork {
            conn: t.conn,
            preserve: false,
            batches: Vec::new(),
            trees: vec![t],
        };
        assert(r@.batches =~= Seq::empty());
        r
    }

    /// What is to be closed with a tree connect that its client ends: durable opens that
    /// are to delete their file stay.
    pub fn cleanup_tree_disconnect_opens(&self, t: TreeRef) -> (r: CloseWork)
        ensures
            r@ == trees_work(t.conn, seq![t], true),
    {
        let mut r = self.cleanup_opens_for_tree(t);
        r.preserve = true;
        r
    }

    fn session_tree_refs(&self, conn: u64, session_id: u64) -> (r: Vec<TreeRef>)
        ensures
            r@ == session_trees(self@.connections, conn, session_id),
    {
        let ids: Vec<u32> = self.session_tree_ids(conn, session_id);
        let mut r: Vec<TreeRef> = Vec::new();
        let mut i: usize = 0;
        while i < ids.len()
            invariant
                i <= ids@.len(),
                r@.len() == i,
                forall|j: int|
                    0 <= j < i ==> r@[j] == (TreeRef { conn, session_id, tree_id: ids@[j] }),
            decreases ids@.len() - i,
        {
            r.push(TreeRef { conn, session_id, tree_id: ids[i] });
            i += 1;
        }
        assert(r@ =~= session_trees(self@.connections, conn, session_id));
        r
    }

    /// What is to be closed with a session.
    pub fn cleanup_opens_for_session(&self, conn: u64, session_id: u64) -> (r: CloseWork)
        ensures
            r@ == trees_work(conn, session_trees(self@.connections, conn, session_id), false),
    {
        let r = CloseWork {
            conn,
            preserve: false,
            batches: Vec::new(),
            trees: self.session_tree_refs(conn, session_id),
        };
        assert(r@.batches =~= Seq::empty());
        r
    }

    /// What is to be closed with a connection.
    pub fn cleanup_opens_for_connection(&self, conn: u64) -> (r: CloseWork)
        ensures
            r@ == trees_work(conn, connection_trees(self@.connections, conn), false),
    {
        let ids: Vec<u64> = self.connection_session_ids(conn);
        let mut list: Vec<TreeRef> = Vec::new();
        let mut i: usize = 0;
        assert(ids@.take(0) =~= Seq::empty());
        while i < ids.len()
            invariant
                i <= ids@.len(),
                list@ == sessions_trees(self@.connections, conn, ids@.take(i as int)),
            decreases ids@.len() - i,
        {
            assert(ids@.take(i + 1).drop_last() =~= ids@.take(i as int));
            assert(ids@.take(i + 1).last() == ids@[i as int]);
            let mut more: Vec<TreeRef> = self.session_tree_refs(conn, ids[i]);
            list.append(&mut more);
            i += 1;
        }
        assert(ids@.take(i as int) =~= ids@);
        let r = CloseWork { conn, preserve: false, batches: Vec::new(), trees: list };
        assert(r@.batches =~= Seq::empty());
        r
    }
}

/// Every open that is taken out of a list of work is closed: what was closed and what is
/// left make up what was there.
pub proof fn closed_and_left_are_all(m: StateModel, w: WorkModel)
    requires
        w.trees.len() == 0,
    ensures
        closed_some(m, w).closed + batched(closed_some(m, w).work.batches) == batched(w.batches),
    decreases
            w.batches.len(),
            if w.batches.len() > 0 {
                w.batches[0].opens.len()
            } else {
                0
            },
{
    if w.batches.len() > 0 {
        let b = w.batches[0];
        if b.opens.len() == 0 {
            closed_and_left_are_all(m, WorkModel { batches: w.batches.skip(1), ..w });
        } else {
            let c = closing::closed_one(m, w.conn, b.share, b.opens[0], w.preserve);
            let rest = WorkModel { batches: first_gone(w.batches), ..w };
            assert(rest.batches.skip(1) =~= w.batches.skip(1));
            if c.unlink is None {
                closed_and_left_are_all(c.state, rest);
            }
        }
    }
}

// ---------------------------------------------------------------------------
// A session that is taken over
// ---------------------------------------------------------------------------

/// The state after the durable opens of tree connects that are gone were detached, and the
/// opens that are left to close.
pub open spec fn trees_left(m: StateModel, list: Seq<TreeModel>, deadline: u64) -> (
    StateModel,
    Seq<BatchModel>,
)
    decreases list.len(),
{
    if list.len() == 0 {
        (m, Seq::empty())
    } else {
        let (before, batches) = trees_left(m, list.drop_last(), deadline);
        let tree = list.last();
        let share = text::lowered(tree.share);
        (
            detaching::opens_detached(before, share, tree.opens, deadline),
            batches.push(
                BatchModel {
                    share: tree.share,
                    opens: waiting::unflagged(
                        tree.opens,
                        detaching::detached_flags(before, share, tree.opens),
                    ),
                },
            ),
        )
    }
}

/// The state after the requests that wait in a session were ended.
pub open spec fn session_waits_ended(m: StateModel, conn: u64, session_id: u64) -> StateModel {
    let sel = Selector::Session { conn, session_id };
    let unwatched = notify::watches_ended(
        m,
        Selector::AnySession { session_id },
        STATUS_NOTIFY_CLEANUP,
    );
    tasks::tasks_ended(
        writes::writes_ended(
            completions::creates_ended(unwatched, sel, STATUS_NOTIFY_CLEANUP),
            sel,
            STATUS_NOTIFY_CLEANUP,
        ),
        sel,
        STATUS_NOTIFY_CLEANUP,
    )
}

/// The state after a session was taken from the connection that carries it, and the opens
/// that are left to close.
pub open spec fn taken_over(m: StateModel, session_id: u64, deadline: u64) -> (
    StateModel,
    Seq<BatchModel>,
) {
    let at = connections::carrier(m.connections, session_id);
    let c = m.connections[at];
    let gone = StateModel {
        connections: connections::without_session(m.connections, at, session_id),
        ..m
    };
    trees_left(
        session_waits_ended(gone, c.key, session_id),
        c.sessions[trees::session_at(c, session_id)].trees,
        deadline,
    )
}

impl ServerState {
    fn end_session_waits(&mut self, conn: u64, session_id: u64)
        ensures
            final(self)@ == session_waits_ended(old(self)@, conn, session_id),
    {
        let _ = self.cleanup_change_notifies_for_session_id(session_id, STATUS_NOTIFY_CLEANUP);
        let _ = self.cleanup_cache_break_creates_for_session(
            conn,
            session_id,
            STATUS_NOTIFY_CLEANUP,
        );
        let _ = self.cleanup_cache_break_writes_for_session(
            conn,
            session_id,
            STATUS_NOTIFY_CLEANUP,
        );
        let _ = self.cleanup_cache_break_tasks_for_session(conn, session_id, STATUS_NOTIFY_CLEANUP);
    }

    fn detach_trees(&mut self, list: Vec<TreeConnect>, deadline: u64) -> (r: Vec<Batch>)
        ensures
            (final(self)@, batch_models(r@)) == trees_left(
                old(self)@,
                list@.map_values(|t: TreeConnect| t@),
                deadline,
            ),
    {
        let ghost m = self@;
        let ghost all = list@.map_values(|t: TreeConnect| t@);
        let mut r: Vec<Batch> = Vec::new();
        let mut i: usize = 0;
        assert(all.take(0) =~= Seq::empty());
        assert(batch_models(r@) =~= Seq::empty());
        while i < list.len()
            invariant
                i <= list@.len(),
                all == list@.map_values(|t: TreeConnect| t@),
                (self@, batch_models(r@)) == trees_left(m, all.take(i as int), deadline),
            decreases list@.len() - i,
        {
            proof {
                assert(all.take(i + 1).drop_last() =~= all.take(i as int));
                assert(all.take(i + 1).last() == list@[i as int]@);
            }
            let ghost before = r@;
            let share_key: String = lower_string(list[i].share.as_str());
            let opens: Vec<TreeOpen> = trees::copy_opens(&list[i].opens);
            let (rest, _) = self.detach_opens(share_key.as_str(), opens, deadline);
            let b = Batch { share: list[i].share.clone(), opens: rest };
            r.push(b);
            assert(batch_models(r@) =~= batch_models(before).push(b@));
            i += 1;
        }
        assert(all.take(i as int) =~= all);
        r
    }

    fn take_session(&mut self, at: usize, index: usize) -> (r: Session)
        requires
            at < old(self).connections@.len(),
            index < old(self).connections@[at as int].sessions@.len(),
        ensures
            r@ == old(self)@.connections[at as int].sessions[index as int],
            final(self)@ == (StateModel {
                connections: old(self)@.connections.update(
                    at as int,
                    ConnectionModel {
                        sessions: old(self)@.connections[at as int].sessions.remove(index as int),
                        ..old(self)@.connections[at as int]
                    },
                ),
                ..old(self)@
            }),
    {
        let ghost before = self@.connections;
        assert(before[at as int] == self.connections@[at as int]@);
        let r: Session = self.connections[at].sessions.remove(index);
        assert(self.connections@[at as int]@.sessions =~= before[at as int].sessions.remove(
            index as int,
        ));
        assert(self@.connections =~= before.update(
            at as int,
            ConnectionModel {
                sessions: before[at as int].sessions.remove(index as int),
                ..before[at as int]
            },
        ));
        r
    }

    /// Ends a session that its client set up anew elsewhere: takes it from the connection
    /// that carries it, ends what waits in it, detaches its durable opens, and returns what
    /// is left to close. `None` where no active connection carries the session.
    pub fn takeover_previous_session(&mut self, previous_session_id: u64, now: u64) -> (r: Option<
        CloseWork,
    >)
        requires
            detaching::deadline_fits(old(self)@, now),
        ensures
            ({
                let m = old(self)@;
                match r {
                    None => connections::live_session(m.connections, previous_session_id) is None
                        && final(self)@ == m,
                    Some(w) => connections::live_session(m.connections, previous_session_id) is Some
                        && ({
                        let (after, batches) = taken_over(
                            m,
                            previous_session_id,
                            detaching::deadline_of(m, now),
                        );
                        final(self)@ == after && w@ == (WorkModel {
                            conn: m.connections[connections::carrier(
                                m.connections,
                                previous_session_id,
                            )].key,
                            preserve: false,
                            batches,
                            trees: Seq::empty(),
                        })
                    }),
                }
            }),
    {
        let deadline: u64 = now + self.config.durable_handle_timeout;
        match self.find_live_session(previous_session_id) {
            None => None,
            Some((at, index)) => {
                assert(self@.connections[at as int] == self.connections@[at as int]@);
                let conn: u64 = self.connections[at].key;
                let session: Session = self.take_session(at, index);
                self.end_session_waits(conn, previous_session_id);
                let batches: Vec<Batch> = self.detach_trees(session.trees, deadline);
                Some(CloseWork { conn, preserve: false, batches, trees: Vec::new() })
            },
        }
    }
}

// ---------------------------------------------------------------------------
// Durable opens that give way to a new open
// ---------------------------------------------------------------------------

/// A place that a new open is made at.
pub struct FreshOpen<'a> {
    pub share: &'a str,
    pub path: &'a SmbPath,
    pub stream_name: Option<&'a str>,
    pub access: u32,
    pub lease: Option<RequestedLease>,
}

/// Whether a durable open that nobody has gives way to a new open.
pub open spec fn gives_way(m: StateModel, d: DurableModel, fresh: FreshOpen<'_>) -> bool {
    &&& d.share == text::lowered(fresh.share@)
    &&& d.expires_at is Some || (d.attached_conn is None && d.attached_session_id is None)
    &&& match durable::open_of(m.opens, d.open) {
        None => false,
        Some(o) => o.last_path == fresh.path@ && types::opt_lowered(o.stream_name)
            == types::opt_lowered(types::opt_str(fresh.stream_name)) && (o.delete_on_close
            || d.expires_at is Some) && !rules::spares_detached(
            o.durability.version,
            o.lease.state,
            o.lease.key,
            fresh.lease,
        ),
    }
}

/// Which durable opens give way to a new open; none where it only asks about the file.
pub open spec fn giving_way(m: StateModel, fresh: FreshOpen<'_>) -> Seq<bool> {
    m.durable_opens.map_values(
        |d: DurableModel| !rules::stat_open(fresh.access) && gives_way(m, d, fresh),
    )
}

/// Durable opens that gave way and are to be closed.
#[derive(Debug, Clone, PartialEq, Eq)]
pub struct StaleWork {
    pub share: String,
    pub opens: Vec<TreeOpen>,
}

/// What is left of durable opens, for closing them.
pub open spec fn named(list: Seq<DurableModel>) -> Seq<TreeOpen> {
    list.map_values(|d: DurableModel| TreeOpen { file_id: d.file_id, open: d.open })
}

/// What becomes of a durable open that gave way, and of its file.
#[verifier::opaque]
pub open spec fn gone_for_good(m: StateModel, share: Seq<char>, t: TreeOpen) -> closing::Closed {
    let after = detaching::retired(m, share, t.file_id, t.open, Leaving::Stale);
    match durable::open_of(m.opens, t.open) {
        None => closing::Closed { state: after, unlink: None },
        Some(o) => if o.delete_on_close {
            closing::deleted_with(after, share, o, t.open, UnlinkReason::LastDetached)
        } else {
            closing::Closed { state: after, unlink: None }
        },
    }
}

/// How far durable opens that gave way were closed.
#[verifier::ext_equal]
pub struct StaleProgress {
    pub state: StateModel,
    pub left: Seq<TreeOpen>,
    pub unlink: Option<UnlinkModel>,
}

/// Closes durable opens that gave way until a file is to be unlinked.
pub open spec fn stale_closed(m: StateModel, share: Seq<char>, list: Seq<TreeOpen>) -> StaleProgress
    decreases list.len(),
{
    if list.len() == 0 {
        StaleProgress { state: m, left: list, unlink: None }
    } else {
        let c = gone_for_good(m, share, list[0]);
        if c.unlink is Some {
            StaleProgress { state: c.state, left: list.skip(1), unlink: c.unlink }
        } else {
            stale_closed(c.state, share, list.skip(1))
        }
    }
}

impl ServerState {
    fn open_gives_way(
        &self,
        d: &DurableOpen,
        share_key: &String,
        fresh: &FreshOpen<'_>,
    ) -> (r: bool)
        requires
            share_key@ == text::lowered(fresh.share@),
        ensures
            r == gives_way(self@, d@, *fresh),
    {
        if d.share != *share_key || !(d.expires_at.is_some() || (d.attached_conn.is_none()
            && d.attached_session_id.is_none())) {
            return false;
        }
        match self.find_open(d.open) {
            None => false,
            Some(i) => {
                let o: &Open = &self.opens[i].open;
                assert(self@.opens[i as int].open == o@);
                let own: Option<String> = types::lower_opt(types::as_opt_str(&o.stream_name));
                let wanted: Option<String> = types::lower_opt(fresh.stream_name);
                o.last_path.same(fresh.path) && types::opt_equal(&own, &wanted) && (
                o.delete_on_close || d.expires_at.is_some())
                    && !preserve_detached_durable_for_fresh_open(
                    o.durability.version,
                    o.lease.state,
                    o.lease.key,
                    fresh.lease,
                )
            },
        }
    }

    /// Takes the durable opens away that give way to a new open, and returns them, to be
    /// closed.
    pub fn invalidate_detached_durable_opens_for_path(&mut self, fresh: &FreshOpen<'_>) -> (r:
        StaleWork)
        ensures
            ({
                let m = old(self)@;
                let flags = giving_way(m, *fresh);
                &&& final(self)@ == (StateModel {
                    durable_opens: waiting::unflagged(m.durable_opens, flags),
                    ..m
                })
                &&& r.share@ == text::lowered(fresh.share@)
                &&& r.opens@ == named(waiting::flagged(m.durable_opens, flags))
            }),
    {
        let share_key: String = lower_string(fresh.share);
        let asks: bool = access_is_lease_stat_open(fresh.access);
        let mut flags: Vec<bool> = Vec::new();
        let mut i: usize = 0;
        while i < self.durable_opens.len()
            invariant
                i <= self.durable_opens@.len(),
                share_key@ == text::lowered(fresh.share@),
                asks == rules::stat_open(fresh.access),
                flags@.len() == i,
                forall|j: int| 0 <= j < i ==> flags@[j] == giving_way(self@, *fresh)[j],
            decreases self.durable_opens@.len() - i,
        {
            assert(self@.durable_opens[i as int] == self.durable_opens@[i as int]@);
            let hit: bool = !asks && self.open_gives_way(
                &self.durable_opens[i],
                &share_key,
                fresh,
            );
            flags.push(hit);
            i += 1;
        }
        assert(flags@ =~= giving_way(self@, *fresh));
        proof {
            detaching::durables_flagged(self.durable_opens@, flags@);
        }
        let list: Vec<DurableOpen> = take_flagged(&mut self.durable_opens, &flags);
        let mut opens: Vec<TreeOpen> = Vec::new();
        let mut k: usize = 0;
        while k < list.len()
            invariant
                k <= list@.len(),
                opens@.len() == k,
                forall|j: int|
                    0 <= j < k ==> opens@[j] == named(state::durable_models(list@))[j],
            decreases list@.len() - k,
        {
            opens.push(TreeOpen { file_id: list[k].file_id, open: list[k].open });
            k += 1;
        }
        assert(opens@ =~= named(state::durable_models(list@)));
        StaleWork { share: share_key, opens }
    }

    fn give_up(&mut self, share: &str, t: TreeOpen) -> (r: Option<Unlink>)
        ensures
            ({
                let c = gone_for_good(old(self)@, share@, t);
                final(self)@ == c.state && closing::unlink_model(r) == c.unlink
            }),
    {
        reveal(gone_for_good);
        let o: Option<Open> = match self.find_open(t.open) {
            None => None,
            Some(i) => {
                assert(self@.opens[i as int] == self.opens@[i as int]@);
                Some(self.opens[i].open.duplicate())
            },
        };
        self.retire_open(share, t.file_id, t.open, Leaving::Stale);
        match o {
            None => None,
            Some(o) => if o.delete_on_close {
                self.delete_with(share, &o, t.open, UnlinkReason::LastDetached)
            } else {
                None
            },
        }
    }

    /// Closes durable opens that gave way until a file is to be unlinked, which is
    /// returned; `None` where all are closed.
    pub fn invalidate_next(&mut self, work: &mut StaleWork) -> (r: Option<Unlink>)
        ensures
            ({
                let p = stale_closed(old(self)@, old(work).share@, old(work).opens@);
                &&& final(self)@ == p.state
                &&& final(work).share@ == old(work).share@
                &&& final(work).opens@ == p.left
                &&& closing::unlink_model(r) == p.unlink
            }),
    {
        let ghost m = self@;
        let ghost share = work.share@;
        let ghost all = work.opens@;
        while work.opens.len() > 0
            invariant
                m == old(self)@,
                share == old(work).share@,
                all == old(work).opens@,
                work.share@ == share,
                stale_closed(m, share, all) == stale_closed(self@, share, work.opens@),
            decreases work.opens@.len(),
        {
            let ghost before = work.opens@;
            let t: TreeOpen = work.opens.remove(0);
            assert(work.opens@ =~= before.skip(1));
            let r: Option<Unlink> = self.give_up(work.share.as_str(), t);
            if r.is_some() {
                return r;
            }
        }
        None
    }
}

} // verus!
