//! What becomes of a file when an open of it goes, and what is left of it when it is deleted.

use crate::path::PathModel;
use crate::server::changes;
use crate::server::changes::ChangeModel;
use crate::server::closing;
use crate::server::closing::{UnlinkModel, UnlinkOutcome, UnlinkReason};
use crate::server::notify;
use crate::server::opens;
use crate::server::oplocks;
use crate::server::selecting;
use crate::server::state::StateModel;
use crate::server::table;
use crate::server::types::{
    NotifyWaitModel, OpenModel, OpenRecordModel,
};
use crate::server::waiting;
use crate::server::waiting::WaitingModel;
use crate::text;
use vstd::prelude::*;

verus! {

/// Whether another open is registered on a path.
pub open spec fn shared_with_others(
    m: StateModel,
    share: Seq<char>,
    path: PathModel,
    open: u64,
) -> bool {
    exists|i: int|
        0 <= i < m.opens.len() && (#[trigger] m.opens[i]).registration is Some
            && m.opens[i].registration->0.share == text::lowered(share)
            && m.opens[i].registration->0.path == path && m.opens[i].key != open
}

proof fn lemma_others(m: StateModel, share: Seq<char>, path: PathModel, open: u64)
    ensures
        opens::others_on_path(m.opens, share, path, open) == shared_with_others(
            m,
            share,
            path,
            open,
        ),
{
    if shared_with_others(m, share, path, open) {
        let i = choose|i: int|
            0 <= i < m.opens.len() && (#[trigger] m.opens[i]).registration is Some
                && m.opens[i].registration->0.share == text::lowered(share)
                && m.opens[i].registration->0.path == path && m.opens[i].key != open;
        assert(opens::other_on_path(m.opens[i], share, path, open));
    }
    if opens::others_on_path(m.opens, share, path, open) {
        let i = choose|i: int|
            0 <= i < m.opens.len() && opens::other_on_path(
                #[trigger] m.opens[i],
                share,
                path,
                open,
            );
        assert(m.opens[i].registration is Some);
    }
}

/// What is unlinked when an open goes that was to delete its file: nothing where it was of a
/// stream; a directory that others have open, with that reason; the name of a file that others
/// have open only where the open was to unlink it; and where no other open is left, the file.
pub proof fn deleting_opens_unlink_their_file(
    m: StateModel,
    share: Seq<char>,
    o: OpenModel,
    open: u64,
    last: UnlinkReason,
)
    ensures
        ({
            let unlink = closing::deleted_with(m, share, o, open, last).unlink;
            let lost = oplocks::level_ii_lost(m, share, o.last_path, o.stream_name);
            let others = shared_with_others(lost, share, o.last_path, open);
            let of = |reason: UnlinkReason|
                Some(
                    UnlinkModel { share, path: o.last_path, is_directory: o.is_directory, reason },
                );
            &&& o.stream_name is Some ==> unlink is None
            &&& o.stream_name is None && !others ==> unlink == of(last)
            &&& o.stream_name is None && others && o.is_directory ==> unlink == of(
                UnlinkReason::DirectoryWithOthers,
            )
            &&& o.stream_name is None && others && !o.is_directory && o.delete_on_close_unlinks_name
                ==> unlink == of(UnlinkReason::NameWithOthers)
            &&& o.stream_name is None && others && !o.is_directory
                && !o.delete_on_close_unlinks_name ==> unlink is None
        }),
{
    lemma_others(
        oplocks::level_ii_lost(m, share, o.last_path, o.stream_name),
        share,
        o.last_path,
        open,
    );
}

/// A file that others have open and whose name is not to go now is marked as to be deleted.
pub proof fn files_of_others_are_marked(
    m: StateModel,
    share: Seq<char>,
    o: OpenModel,
    open: u64,
    last: UnlinkReason,
)
    requires
        o.stream_name is None,
        !o.is_directory,
        !o.delete_on_close_unlinks_name,
        shared_with_others(
            oplocks::level_ii_lost(m, share, o.last_path, o.stream_name),
            share,
            o.last_path,
            open,
        ),
    ensures
        closing::deleted_with(m, share, o, open, last).state.delete_pending.contains_key(
            table::key_of(share, o.last_path),
        ),
{
    let lost = oplocks::level_ii_lost(m, share, o.last_path, o.stream_name);
    lemma_others(lost, share, o.last_path, open);
    announced_deletions_are_marked(lost, share, o.last_path);
}

/// What is unlinked when an open is closed: a durable open that is preserved and deletes its file
/// stays with it; one that deletes its file takes it along; else a file that was marked goes
/// with its last open, and no other file goes.
pub proof fn closed_files_go_with_their_last_open(
    m: StateModel,
    share: Seq<char>,
    o: OpenModel,
    open: u64,
    preserve: bool,
)
    ensures
        ({
            let after = closing::file_after(m, share, o, open, preserve);
            let others = shared_with_others(m, share, o.last_path, open);
            let marked = m.delete_pending.contains_key(table::key_of(share, o.last_path));
            let remains = preserve && o.durability.enabled && o.delete_on_close && o.stream_name
                is None;
            &&& remains ==> after.unlink is None && !after.state.delete_pending.contains_key(
                table::key_of(share, o.last_path),
            )
            &&& !remains && o.delete_on_close ==> after == closing::deleted_with(
                m,
                share,
                o,
                open,
                UnlinkReason::LastClosed,
            )
            &&& !o.delete_on_close && others ==> after.unlink is None && after.state == m
            &&& !o.delete_on_close && !others && !marked ==> after.unlink is None
            &&& !o.delete_on_close && !others && marked ==> after.unlink == Some(
                UnlinkModel {
                    share,
                    path: o.last_path,
                    is_directory: o.is_directory,
                    reason: UnlinkReason::MarkedBefore,
                },
            ) && !after.state.delete_pending.contains_key(table::key_of(share, o.last_path))
        }),
{
    lemma_others(m, share, o.last_path, open);
}

/// An open that was closed claims nothing: no handle, no access, everything shared, no break under
/// way; whether it deletes its file is forgotten unless that is to be kept.
pub proof fn closed_opens_are_empty(r: OpenRecordModel, keep_deletion: bool)
    ensures
        ({
            let o = closing::emptied(r, keep_deletion).open;
            &&& !o.has_handle && o.desired_access == 0 && o.share_access == 7
            &&& !o.oplock.breaking && o.oplock.break_to == 0 && o.oplock.level
                == r.open.oplock.level
            &&& o.lease == r.open.lease && o.durability == r.open.durability
            &&& o.file_id == r.open.file_id && o.last_path == r.open.last_path
            &&& keep_deletion ==> o.delete_on_close == r.open.delete_on_close
            &&& !keep_deletion ==> !o.delete_on_close && !o.delete_on_close_unlinks_name
        }),
{
}

/// Leases on a path and stream give way to reading alone (0x1) when an open goes that deletes the
/// file, but for the open's own lease; an open that deletes nothing breaks none.
pub proof fn leases_yield_to_deletion(m: StateModel, share: Seq<char>, o: OpenModel)
    ensures
        !o.delete_on_close ==> closing::leases_yielded(m, share, o) == m,
        o.delete_on_close ==> closing::leases_yielded(m, share, o)
            == crate::server::leases::leases_broken(
            m,
            crate::server::leases::on_stream_flags(m.opens, share, o.last_path, o.stream_name),
            o.lease.key,
            0x1,
        ),
{
}

proof fn lemma_done_keeps(m: StateModel, ws: Seq<WaitingModel<NotifyWaitModel>>, status: u32)
    ensures
        notify::watches_done(m, ws, status).files == m.files,
        notify::watches_done(m, ws, status).delete_pending == m.delete_pending,
        notify::watches_done(m, ws, status).change_notifies == m.change_notifies,
        notify::watches_done(m, ws, status).opens == m.opens,
    decreases ws.len(),
{
    if ws.len() > 0 {
        lemma_done_keeps(m, ws.drop_last(), status);
    }
}

proof fn lemma_told_keeps(
    m: StateModel,
    ch: ChangeModel,
    ws: Seq<WaitingModel<NotifyWaitModel>>,
)
    ensures
        changes::watches_told(m, ch, ws).files == m.files,
        changes::watches_told(m, ch, ws).delete_pending == m.delete_pending,
    decreases ws.len(),
{
    if ws.len() > 0 {
        lemma_told_keeps(m, ch, ws.drop_last());
    }
}

proof fn lemma_removal_keeps(
    m: StateModel,
    share: Seq<char>,
    path: PathModel,
    is_directory: bool,
)
    ensures
        changes::removal_notified(m, share, path, is_directory).files == m.files,
        changes::removal_notified(m, share, path, is_directory).delete_pending == m.delete_pending,
{
    let ch = changes::simple_change(
        share,
        crate::server::events::name_filter(is_directory),
        path,
        is_directory,
        false,
        crate::server::events::FILE_ACTION_REMOVED,
    );
    let ws = m.change_notifies;
    let after = changes::all_collected(ch, ws);
    let flags = changes::answered_flags(ch, ws);
    lemma_told_keeps(
        StateModel {
            change_notifies: waiting::unflagged(after, flags),
            opens: changes::buffered_opens(ch, ws, m.opens),
            outbox: m.outbox + changes::started_timers(ch, ws, ws.len() as int),
            ..m
        },
        ch,
        waiting::flagged(after, flags),
    );
}

/// A deletion that is announced marks the path and ends the watches on it and below it, in the
/// share; other watches and other marks stay.
pub proof fn announced_deletions_are_marked(m: StateModel, share: Seq<char>, path: PathModel)
    ensures
        ({
            let after = closing::deletion_announced(m, share, path);
            &&& after.delete_pending == m.delete_pending.insert(table::key_of(share, path), true)
            &&& after.files == m.files
            &&& forall|w: WaitingModel<NotifyWaitModel>|
                #![trigger after.change_notifies.contains(w)]
                after.change_notifies.contains(w) <==> m.change_notifies.contains(w) && !(
                w.detail.share == text::lowered(share) && (w.detail.path == path
                    || crate::path::is_below(w.detail.path, path)))
        }),
{
    let marked = opens::delete_marked(m, share, path);
    let flags = notify::watches_below(m.change_notifies, share, path);
    lemma_done_keeps(
        StateModel { change_notifies: waiting::unflagged(m.change_notifies, flags), ..marked },
        waiting::flagged(m.change_notifies, flags),
        crate::ntstatus::STATUS_DELETE_PENDING,
    );
    let test = |w: WaitingModel<NotifyWaitModel>|
        w.detail.share == text::lowered(share) && (w.detail.path == path || crate::path::is_below(
            w.detail.path,
            path,
        ));
    assert(flags =~= m.change_notifies.map_values(test));
    let after = closing::deletion_announced(m, share, path);
    assert forall|w: WaitingModel<NotifyWaitModel>|
        #![trigger after.change_notifies.contains(w)]
        after.change_notifies.contains(w) <==> m.change_notifies.contains(w) && !(w.detail.share
            == text::lowered(share) && (w.detail.path == path || crate::path::is_below(
            w.detail.path,
            path,
        ))) by {
        selecting::items_are_parted_by_a_test(m.change_notifies, test, w);
    }
}

/// Nothing that was kept beside a deleted file is left: no attributes, extended attributes,
/// security descriptor, times, allocation size, POSIX metadata or streams; what is kept of other
/// files stays. Its mark goes where that is asked for.
pub proof fn nothing_is_left_of_a_deleted_file(
    m: StateModel,
    share: Seq<char>,
    path: PathModel,
    is_directory: bool,
    unmark: bool,
    other: table::KeyModel,
)
    ensures
        ({
            let key = table::key_of(share, path);
            let after = closing::deleted_forgotten(m, share, path, is_directory, unmark);
            let f = after.files;
            &&& !f.security_descriptors.contains_key(key)
            &&& !f.extended_attributes.contains_key(key)
            &&& !f.file_attributes.contains_key(key)
            &&& !f.allocation_sizes.contains_key(key)
            &&& !f.file_times.contains_key(key)
            &&& !f.sticky_write_time_owners.contains_key(key)
            &&& !f.pinned_write_times.contains_key(key)
            &&& !f.posix_metadata.contains_key(key)
            &&& !f.streams.contains_key(key)
            &&& unmark ==> !after.delete_pending.contains_key(key)
            &&& !unmark ==> after.delete_pending == m.delete_pending
            &&& other != key ==> {
                &&& f.security_descriptors.contains_key(other)
                    == m.files.security_descriptors.contains_key(other)
                &&& f.extended_attributes.contains_key(other)
                    == m.files.extended_attributes.contains_key(other)
                &&& f.file_attributes.contains_key(other) == m.files.file_attributes.contains_key(
                    other,
                )
                &&& f.file_times.contains_key(other) == m.files.file_times.contains_key(other)
                &&& f.streams.contains_key(other) == m.files.streams.contains_key(other)
                &&& after.delete_pending.contains_key(other) == m.delete_pending.contains_key(other)
            }
        }),
{
    let flags = notify::watches_below(m.change_notifies, share, path);
    lemma_done_keeps(
        StateModel { change_notifies: waiting::unflagged(m.change_notifies, flags), ..m },
        waiting::flagged(m.change_notifies, flags),
        crate::ntstatus::STATUS_DELETE_PENDING,
    );
    let key = table::key_of(share, path);
    let watched = notify::deleted_watches_ended(
        m,
        share,
        path,
        crate::ntstatus::STATUS_DELETE_PENDING,
    );
    let forgotten = crate::server::files::posix_metadata_dropped(
        crate::server::files::streams_dropped(
            crate::server::files::times_dropped(
                crate::server::files::file_attributes_dropped(
                    crate::server::files::allocation_dropped(
                        crate::server::files::attributes_dropped(
                            crate::server::files::security_dropped(watched, key),
                            key,
                        ),
                        key,
                    ),
                    key,
                ),
                key,
            ),
            key,
        ),
        key,
    );
    lemma_removal_keeps(
        if unmark {
            opens::delete_unmarked(forgotten, share, path)
        } else {
            forgotten
        },
        share,
        path,
        is_directory,
    );
}

/// What comes of trying to unlink: what was unlinked is forgotten. A directory that could not be
/// is marked; a file that was marked before is forgotten though it is not found, and stays where
/// unlinking failed; for other reasons nothing changes unless it was unlinked.
pub proof fn unlinked_files_are_forgotten(m: StateModel, u: UnlinkModel, outcome: UnlinkOutcome)
    ensures
        ({
            let after = closing::unlink_finished(m, u, outcome);
            let key = table::key_of(u.share, u.path);
            &&& u.reason is DirectoryWithOthers && outcome !is Done ==> after
                == closing::deletion_announced(m, u.share, u.path)
            &&& (u.reason is NameWithOthers || u.reason is LastClosed || u.reason is LastDetached)
                && outcome !is Done ==> after == m
            &&& u.reason is MarkedBefore && outcome is Failed ==> after == m
            &&& u.reason is MarkedBefore && outcome !is Failed ==> after
                == closing::deleted_forgotten(m, u.share, u.path, u.is_directory, true)
            &&& u.reason is LastClosed && outcome is Done ==> after == closing::deleted_forgotten(
                m,
                u.share,
                u.path,
                u.is_directory,
                true,
            )
            &&& u.reason is LastDetached && outcome is Done ==> after == closing::deleted_forgotten(
                m,
                u.share,
                u.path,
                u.is_directory,
                false,
            )
            &&& (u.reason is DirectoryWithOthers || u.reason is NameWithOthers) && outcome is Done
                ==> after == closing::unlinked_forgotten(
                opens::posix_deleted(
                    opens::delete_marked(m, u.share, u.path),
                    u.share,
                    u.path,
                ),
                u.share,
                u.path,
                u.is_directory,
            )
        }),
{
}

} // verus!
