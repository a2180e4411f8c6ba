//! How opens end: what becomes of their locks, watches and waits, and of files that are to
//! be deleted with them.

use crate::ntstatus::{STATUS_DELETE_PENDING, STATUS_NOTIFY_CLEANUP};
use crate::path::{PathModel, SmbPath};
use crate::proto::messages::FileId;
use crate::server::changes;
use crate::server::durable;
use crate::server::files;
use crate::server::leases;
use crate::server::locks;
use crate::server::notify;
use crate::server::oplocks;
use crate::server::opens;
use crate::server::pending;
use crate::server::rules;
use crate::server::rules::{LEASE_READ_CACHING, OPLOCK_NONE};
use crate::server::state;
use crate::server::state::{ServerState, StateModel};
use crate::server::streams;
use crate::server::table::key_of;
use crate::server::timeouts;
use crate::server::types;
use crate::server::types::{
    Action, ActionModel, Open, OpenModel, OpenRecordModel, Oplock, TreeOpen,
};
use crate::server::waiting::Selector;
use crate::text::string_of_str;
use vstd::prelude::*;

verus! {

/// Why a file is to be unlinked.
#[derive(Debug, Clone, Copy, PartialEq, Eq, Structural)]
pub enum UnlinkReason {
    /// A directory that others have open.
    DirectoryWithOthers,
    /// A name that is to go although others have the file open.
    NameWithOthers,
    /// The last open of the file was closed.
    LastClosed,
    /// The last open of the file was a durable one that waited for its client.
    LastDetached,
    /// The file was marked as to be deleted before its last open was closed.
    MarkedBefore,
}

/// A file that is to be unlinked.
#[derive(Debug, Clone, PartialEq, Eq)]
pub struct Unlink {
    pub share: String,
    pub path: SmbPath,
    pub is_directory: bool,
    pub reason: UnlinkReason,
}

/// A file that is to be unlinked.
#[verifier::ext_equal]
pub struct UnlinkModel {
    pub share: Seq<char>,
    pub path: PathModel,
    pub is_directory: bool,
    pub reason: UnlinkReason,
}

impl View for Unlink {
    type V = UnlinkModel;

    open spec fn view(&self) -> UnlinkModel {
        UnlinkModel {
            share: self.share@,
            path: self.path@,
            is_directory: self.is_directory,
            reason: self.reason,
        }
    }
}

/// What is to be unlinked, if anything.
pub open spec fn unlink_model(u: Option<Unlink>) -> Option<UnlinkModel> {
    match u {
        None => None,
        Some(u) => Some(u@),
    }
}

/// What came of unlinking a file.
#[derive(Debug, Clone, Copy, PartialEq, Eq, Structural)]
pub enum UnlinkOutcome {
    Done,
    NotFound,
    Failed,
}

// ---------------------------------------------------------------------------
// Files that are gone
// ---------------------------------------------------------------------------

/// The state after what is kept of a deleted file, but for its streams, was forgotten.
pub open spec fn unlinked_forgotten(
    m: StateModel,
    share: Seq<char>,
    path: PathModel,
    is_directory: bool,
) -> StateModel {
    let key = key_of(share, path);
    let watched = notify::deleted_watches_ended(m, share, path, STATUS_DELETE_PENDING);
    let secured = files::attributes_dropped(files::security_dropped(watched, key), key);
    let sized = files::file_attributes_dropped(files::allocation_dropped(secured, key), key);
    let timed = files::posix_metadata_dropped(files::times_dropped(sized, key), key);
    changes::removal_notified(timed, share, path, is_directory)
}

/// The state after all that is kept of a deleted file was forgotten.
pub open spec fn deleted_forgotten(
    m: StateModel,
    share: Seq<char>,
    path: PathModel,
    is_directory: bool,
    unmark: bool,
) -> StateModel {
    let key = key_of(share, path);
    let watched = notify::deleted_watches_ended(m, share, path, STATUS_DELETE_PENDING);
    let secured = files::attributes_dropped(files::security_dropped(watched, key), key);
    let sized = files::file_attributes_dropped(files::allocation_dropped(secured, key), key);
    let timed = files::streams_dropped(files::times_dropped(sized, key), key);
    let forgotten = files::posix_metadata_dropped(timed, key);
    changes::removal_notified(
        if unmark {
            opens::delete_unmarked(forgotten, share, path)
        } else {
            forgotten
        },
        share,
        path,
        is_directory,
    )
}

/// The state after a file was marked as to be deleted and its watches were ended.
pub open spec fn deletion_announced(
    m: StateModel,
    share: Seq<char>,
    path: PathModel,
) -> StateModel {
    notify::deleted_watches_ended(
        opens::delete_marked(m, share, path),
        share,
        path,
        STATUS_DELETE_PENDING,
    )
}

/// The state after the name of a file went that others have open.
pub open spec fn name_gone(
    m: StateModel,
    share: Seq<char>,
    path: PathModel,
    is_directory: bool,
) -> StateModel {
    unlinked_forgotten(
        opens::posix_deleted(opens::delete_marked(m, share, path), share, path),
        share,
        path,
        is_directory,
    )
}

/// The state after it was tried to unlink a file.
pub open spec fn unlink_finished(
    m: StateModel,
    u: UnlinkModel,
    outcome: UnlinkOutcome,
) -> StateModel {
    match u.reason {
        UnlinkReason::DirectoryWithOthers => if outcome is Done {
            name_gone(m, u.share, u.path, u.is_directory)
        } else {
            deletion_announced(m, u.share, u.path)
        },
        UnlinkReason::NameWithOthers => if outcome is Done {
            name_gone(m, u.share, u.path, u.is_directory)
        } else {
            m
        },
        UnlinkReason::LastClosed => if outcome is Done {
            deleted_forgotten(m, u.share, u.path, u.is_directory, true)
        } else {
            m
        },
        UnlinkReason::LastDetached => if outcome is Done {
            deleted_forgotten(m, u.share, u.path, u.is_directory, false)
        } else {
            m
        },
        UnlinkReason::MarkedBefore => if outcome is Failed {
            m
        } else {
            deleted_forgotten(m, u.share, u.path, u.is_directory, true)
        },
    }
}

// ---------------------------------------------------------------------------
// Deleting with the last open
// ---------------------------------------------------------------------------

/// A state, and what is to be unlinked next.
#[verifier::ext_equal]
pub struct Closed {
    pub state: StateModel,
    pub unlink: Option<UnlinkModel>,
}

/// What becomes of a file whose open was to delete it: a stream goes at once; a file that
/// others have open is marked; else it is unlinked.
pub open spec fn deleted_with(
    m: StateModel,
    share: Seq<char>,
    o: OpenModel,
    open: u64,
    last: UnlinkReason,
) -> Closed {
    let path = o.last_path;
    let lost = oplocks::level_ii_lost(m, share, path, o.stream_name);
    let unlink = |reason: UnlinkReason|
        Some(UnlinkModel { share, path, is_directory: o.is_directory, reason });
    if o.stream_name is Some {
        Closed {
            state: streams::stream_deleted(lost, key_of(share, path), o.stream_name->0),
            unlink: None,
        }
    } else if opens::others_on_path(lost.opens, share, path, open) {
        if o.is_directory {
            Closed { state: lost, unlink: unlink(UnlinkReason::DirectoryWithOthers) }
        } else if !o.delete_on_close_unlinks_name {
            Closed { state: deletion_announced(lost, share, path), unlink: None }
        } else {
            Closed { state: lost, unlink: unlink(UnlinkReason::NameWithOthers) }
        }
    } else {
        Closed { state: lost, unlink: unlink(last) }
    }
}

// ---------------------------------------------------------------------------
// Closing an open
// ---------------------------------------------------------------------------

/// The state after the requests that wait on a file were ended.
pub open spec fn file_waits_ended(m: StateModel, conn: u64, file_id: FileId) -> StateModel {
    let sel = Selector::File { conn, file_id };
    locks::lock_waits_ended(
        pending::pipe_reads_ended(
            notify::watches_ended(m, sel, STATUS_NOTIFY_CLEANUP),
            sel,
            STATUS_NOTIFY_CLEANUP,
        ),
        sel,
        rules::lock_wait_status(STATUS_NOTIFY_CLEANUP),
    )
}

/// The state after leases gave way to a deletion on close.
pub open spec fn leases_yielded(m: StateModel, share: Seq<char>, o: OpenModel) -> StateModel {
    if o.delete_on_close {
        leases::leases_broken(
            m,
            leases::on_stream_flags(m.opens, share, o.last_path, o.stream_name),
            o.lease.key,
            LEASE_READ_CACHING,
        )
    } else {
        m
    }
}

/// An open after it was closed: it claims nothing any more.
pub open spec fn emptied(r: OpenRecordModel, keep_deletion: bool) -> OpenRecordModel {
    OpenRecordModel {
        open: OpenModel {
            has_handle: false,
            desired_access: 0,
            share_access: 7,
            delete_on_close: r.open.delete_on_close && keep_deletion,
            delete_on_close_unlinks_name: r.open.delete_on_close_unlinks_name && keep_deletion,
            oplock: Oplock { breaking: false, break_to: OPLOCK_NONE, ..r.open.oplock },
            ..r.open
        },
        ..r
    }
}

/// Whether a durable open that is to delete its file stays until another open comes.
pub open spec fn stays(o: OpenModel, preserve: bool) -> bool {
    preserve && o.durability.enabled && o.delete_on_close && o.stream_name is None
}

/// The state after an open was closed, but for the deletion of its file.
pub open spec fn open_closed(
    m: StateModel,
    share: Seq<char>,
    t: TreeOpen,
    preserve: bool,
) -> StateModel {
    let i = state::open_index(m.opens, t.open);
    let o = m.opens[i].open;
    let empty = StateModel {
        opens: m.opens.update(i, emptied(m.opens[i], preserve && o.durability.enabled)),
        ..m
    };
    let detached = if stays(o, preserve) {
        durable::detached_for_good(empty, t.file_id)
    } else {
        durable::durable_dropped(empty, t.file_id)
    };
    let closed = if o.has_handle {
        state::acted(detached, ActionModel::CloseHandle { open: t.open })
    } else {
        detached
    };
    let gone = StateModel {
        opens: opens::without_registration(closed.opens, t.open),
        ..closed
    };
    timeouts::oplock_waits_resumed(
        locks::lock_waits_retried(
            locks::locks_dropped(gone, share, o.last_path, o.stream_name, t.file_id),
            share,
            o.last_path,
            o.stream_name,
        ),
        t.file_id,
    )
}

/// What becomes of the file of an open that was closed.
pub open spec fn file_after(
    m: StateModel,
    share: Seq<char>,
    o: OpenModel,
    open: u64,
    preserve: bool,
) -> Closed {
    let path = o.last_path;
    if stays(o, preserve) {
        Closed { state: opens::delete_unmarked(m, share, path), unlink: None }
    } else if o.delete_on_close {
        deleted_with(m, share, o, open, UnlinkReason::LastClosed)
    } else if opens::others_on_path(m.opens, share, path, open) {
        Closed { state: m, unlink: None }
    } else {
        Closed {
            state: opens::delete_unmarked(m, share, path),
            unlink: if m.delete_pending.contains_key(key_of(share, path)) {
                Some(
                    UnlinkModel {
                        share,
                        path,
                        is_directory: o.is_directory,
                        reason: UnlinkReason::MarkedBefore,
                    },
                )
            } else {
                None
            },
        }
    }
}

/// What becomes of an open of a tree connect that is closed.
#[verifier::opaque]
pub open spec fn closed_one(
    m: StateModel,
    conn: u64,
    share: Seq<char>,
    t: TreeOpen,
    preserve: bool,
) -> Closed {
    let ended = file_waits_ended(m, conn, t.file_id);
    match durable::open_of(ended.opens, t.open) {
        None => Closed { state: ended, unlink: None },
        Some(o) => {
            let yielded = leases_yielded(ended, share, o);
            let closed = open_closed(yielded, share, t, preserve);
            let after = file_after(closed, share, o, t.open, preserve);
            Closed { state: durable::open_let_go(after.state, t.open), unlink: after.unlink }
        },
    }
}

/// An open that is closed and does not stay claims nothing any more.
pub proof fn closed_opens_claim_nothing(r: OpenRecordModel, keep_deletion: bool)
    ensures
        ({
            let o = emptied(r, keep_deletion).open;
            &&& !o.has_handle
            &&& !o.oplock.breaking
            &&& !rules::enforced(o.desired_access)
            &&& forall|access: u32| !rules::withheld(access, o.share_access)
        }),
{
    assert(0u32 & 0x21u32 == 0u32) by (bit_vector);
    assert(0u32 & 0x6u32 == 0u32) by (bit_vector);
    assert(0u32 & 0x1_0000u32 == 0u32) by (bit_vector);
    assert(7u32 & 1u32 != 0u32 && 7u32 & 2u32 != 0u32 && 7u32 & 4u32 != 0u32) by (bit_vector);
    assert(0x1u32 | 0x20u32 == 0x21u32) by (bit_vector);
    assert(0x2u32 | 0x4u32 == 0x6u32) by (bit_vector);
}

// ---------------------------------------------------------------------------
// Code
// ---------------------------------------------------------------------------

impl ServerState {
    /// Forgets what is kept of a file whose name is gone, but for its streams.
    pub fn cleanup_unlinked_path_state_preserving_streams(
        &mut self,
        share: &str,
        path: &SmbPath,
        is_directory: bool,
    )
        ensures
            final(self)@ == unlinked_forgotten(old(self)@, share@, path@, is_directory),
    {
        let _ = self.cleanup_change_notifies_for_deleted_path(share, path, STATUS_DELETE_PENDING);
        self.delete_security_descriptor(share, path);
        self.delete_extended_attributes(share, path);
        self.delete_allocation_size(share, path);
        self.delete_file_attributes(share, path);
        self.delete_file_times(share, path);
        self.delete_posix_metadata(share, path);
        self.notify_removed(share, path, is_directory);
    }

    fn forget_deleted_path(
        &mut self,
        share: &str,
        path: &SmbPath,
        is_directory: bool,
        unmark: bool,
    )
        ensures
            final(self)@ == deleted_forgotten(old(self)@, share@, path@, is_directory, unmark),
    {
        let _ = self.cleanup_change_notifies_for_deleted_path(share, path, STATUS_DELETE_PENDING);
        self.delete_security_descriptor(share, path);
        self.delete_extended_attributes(share, path);
        self.delete_allocation_size(share, path);
        self.delete_file_attributes(share, path);
        self.delete_file_times(share, path);
        self.delete_streams(share, path);
        self.delete_posix_metadata(share, path);
        if unmark {
            self.clear_delete_pending(share, path);
        }
        self.notify_removed(share, path, is_directory);
    }

    /// Forgets all that is kept of a deleted file.
    pub fn cleanup_deleted_path_state(&mut self, share: &str, path: &SmbPath, is_directory: bool)
        ensures
            final(self)@ == deleted_forgotten(old(self)@, share@, path@, is_directory, true),
    {
        self.forget_deleted_path(share, path, is_directory, true);
    }

    fn announce_deletion(&mut self, share: &str, path: &SmbPath)
        ensures
            final(self)@ == deletion_announced(old(self)@, share@, path@),
    {
        self.mark_delete_pending(share, path);
        let _ = self.cleanup_change_notifies_for_deleted_path(share, path, STATUS_DELETE_PENDING);
    }

    /// Takes note of what came of unlinking a file.
    pub fn finish_unlink(&mut self, u: &Unlink, outcome: UnlinkOutcome)
        ensures
            final(self)@ == unlink_finished(old(self)@, u@, outcome),
    {
        let share: &str = u.share.as_str();
        match u.reason {
            UnlinkReason::DirectoryWithOthers => {
                if outcome == UnlinkOutcome::Done {
                    self.lose_name(share, &u.path, u.is_directory);
                } else {
                    self.announce_deletion(share, &u.path);
                }
            },
            UnlinkReason::NameWithOthers => {
                if outcome == UnlinkOutcome::Done {
                    self.lose_name(share, &u.path, u.is_directory);
                }
            },
            UnlinkReason::LastClosed => {
                if outcome == UnlinkOutcome::Done {
                    self.forget_deleted_path(share, &u.path, u.is_directory, true);
                }
            },
            UnlinkReason::LastDetached => {
                if outcome == UnlinkOutcome::Done {
                    self.forget_deleted_path(share, &u.path, u.is_directory, false);
                }
            },
            UnlinkReason::MarkedBefore => {
                if outcome != UnlinkOutcome::Failed {
                    self.forget_deleted_path(share, &u.path, u.is_directory, true);
                }
            },
        }
    }

    fn lose_name(&mut self, share: &str, path: &SmbPath, is_directory: bool)
        ensures
            final(self)@ == name_gone(old(self)@, share@, path@, is_directory),
    {
        self.mark_delete_pending(share, path);
        self.mark_posix_deleted_opens(share, path);
        self.cleanup_unlinked_path_state_preserving_streams(share, path, is_directory);
    }

    /// Deletes what an open was to delete with it, or returns what is to be unlinked.
    pub fn delete_with(
        &mut self,
        share: &str,
        o: &Open,
        open: u64,
        last: UnlinkReason,
    ) -> (r: Option<
        Unlink,
    >)
        ensures
            ({
                let c = deleted_with(old(self)@, share@, o@, open, last);
                final(self)@ == c.state && unlink_model(r) == c.unlink
            }),
    {
        let path: &SmbPath = &o.last_path;
        let _ = self.drop_level_ii_oplocks_without_notification(
            share,
            path,
            types::as_opt_str(&o.stream_name),
        );
        match &o.stream_name {
            Some(stream) => {
                let _ = self.delete_stream(share, path, stream.as_str());
                None
            },
            None => {
                let reason: UnlinkReason = if self.has_other_open(share, path, open) {
                    if o.is_directory {
                        UnlinkReason::DirectoryWithOthers
                    } else if !o.delete_on_close_unlinks_name {
                        self.announce_deletion(share, path);
                        return None;
                    } else {
                        UnlinkReason::NameWithOthers
                    }
                } else {
                    last
                };
                Some(
                    Unlink {
                        share: string_of_str(share),
                        path: path.duplicate(),
                        is_directory: o.is_directory,
                        reason,
                    },
                )
            },
        }
    }

    fn end_file_waits(&mut self, conn: u64, file_id: FileId)
        ensures
            final(self)@ == file_waits_ended(old(self)@, conn, file_id),
    {
        let _ = self.cleanup_change_notifies_for_file(conn, file_id, STATUS_NOTIFY_CLEANUP);
        let _ = self.cleanup_pipe_reads_for_file(conn, file_id, STATUS_NOTIFY_CLEANUP);
        let _ = self.cleanup_byte_range_lock_waits_for_file(conn, file_id, STATUS_NOTIFY_CLEANUP);
    }

    fn close_open(&mut self, share: &str, t: TreeOpen, o: &Open, preserve: bool)
        requires
            durable::open_of(old(self)@.opens, t.open) == Some(o@),
        ensures
            final(self)@ == open_closed(old(self)@, share@, t, preserve),
    {
        let ghost m = self@;
        let stays: bool = preserve && o.durability.enabled && o.delete_on_close
            && o.stream_name.is_none();
        let keep: bool = preserve && o.durability.enabled;
        match self.find_open(t.open) {
            None => {},
            Some(i) => {
                assert(self@.opens[i as int] == self.opens@[i as int]@);
                let oplock: Oplock = self.opens[i].open.oplock;
                self.opens[i].open.oplock = Oplock {
                    level: oplock.level,
                    breaking: false,
                    break_to: OPLOCK_NONE,
                };
                self.opens[i].open.has_handle = false;
                self.opens[i].open.desired_access = 0;
                self.opens[i].open.share_access = 7;
                if !keep {
                    self.opens[i].open.delete_on_close = false;
                    self.opens[i].open.delete_on_close_unlinks_name = false;
                }
                assert(self.opens@[i as int]@ =~= emptied(m.opens[i as int], keep));
                assert(self@.opens =~= m.opens.update(
                    i as int,
                    emptied(m.opens[i as int], keep),
                ));
            },
        }
        if stays {
            self.detach_durable_open_without_reconnect(t.file_id);
        } else {
            self.drop_durable_entry(t.file_id);
        }
        if o.has_handle {
            self.act(Action::CloseHandle { open: t.open });
        }
        self.unregister_open(t.open);
        self.remove_byte_range_locks(
            share,
            &o.last_path,
            types::as_opt_str(&o.stream_name),
            t.file_id,
        );
        let _ = self.try_complete_byte_range_lock_waits(
            share,
            &o.last_path,
            types::as_opt_str(&o.stream_name),
        );
        self.complete_cache_break_waits_for_oplock_file_id(t.file_id);
    }

    fn settle_file(&mut self, share: &str, o: &Open, open: u64, preserve: bool) -> (r: Option<
        Unlink,
    >)
        ensures
            ({
                let c = file_after(old(self)@, share@, o@, open, preserve);
                final(self)@ == c.state && unlink_model(r) == c.unlink
            }),
    {
        let stays: bool = preserve && o.durability.enabled && o.delete_on_close
            && o.stream_name.is_none();
        if stays {
            self.clear_delete_pending(share, &o.last_path);
            None
        } else if o.delete_on_close {
            self.delete_with(share, o, open, UnlinkReason::LastClosed)
        } else if self.take_delete_pending_if_last(share, &o.last_path, open) {
            Some(
                Unlink {
                    share: string_of_str(share),
                    path: o.last_path.duplicate(),
                    is_directory: o.is_directory,
                    reason: UnlinkReason::MarkedBefore,
                },
            )
        } else {
            None
        }
    }

    /// Closes an open of a tree connect; returns what is to be unlinked with it.
    pub fn cleanup_closed_open(
        &mut self,
        conn: u64,
        share: &str,
        t: TreeOpen,
        preserve_durable_delete_on_close: bool,
    ) -> (r: Option<Unlink>)
        ensures
            ({
                let c = closed_one(
                    old(self)@,
                    conn,
                    share@,
                    t,
                    preserve_durable_delete_on_close,
                );
                final(self)@ == c.state && unlink_model(r) == c.unlink
            }),
    {
        reveal(closed_one);
        let preserve: bool = preserve_durable_delete_on_close;
        self.end_file_waits(conn, t.file_id);
        let o: Open = match self.find_open(t.open) {
            None => {
                return None;
            },
            Some(i) => {
                assert(self@.opens[i as int] == self.opens@[i as int]@);
                self.opens[i].open.duplicate()
            },
        };
        let ghost ended = self@;
        if o.delete_on_close {
            let _ = self.break_conflicting_leases_for_open(
                share,
                &o.last_path,
                types::as_opt_str(&o.stream_name),
                o.lease.key,
                LEASE_READ_CACHING,
            );
        }
        proof {
            lemma_own_open_keeps(ended, share@, o@, t.open);
        }
        self.close_open(share, t, &o, preserve);
        let r: Option<Unlink> = self.settle_file(share, &o, t.open, preserve);
        self.let_open_go(t.open);
        r
    }
}

proof fn lemma_own_open_keeps(m: StateModel, share: Seq<char>, o: OpenModel, open: u64)
    requires
        durable::open_of(m.opens, open) == Some(o),
    ensures
        durable::open_of(leases_yielded(m, share, o).opens, open) == Some(o),
{
    if o.delete_on_close {
        let after = leases_yielded(m, share, o).opens;
        let i = state::open_index(m.opens, open);
        state::open_index_is_first(m.opens, open);
        assert forall|j: int| 0 <= j < m.opens.len() implies (#[trigger] after[j]).key
            == m.opens[j].key by {}
        assert forall|j: int| 0 <= j < i implies (#[trigger] after[j]).key != open by {
            assert(m.opens[j].key != open);
        }
        state::open_index_at(after, open, i);
    }
}

} // verus!
