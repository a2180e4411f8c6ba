//! Which watches hear of a change, and what they are told, in codes and names.

use crate::path::PathModel;
use crate::server::changes;
use crate::server::changes::ChangeModel;
use crate::server::events;
use crate::server::events::EventModel;
use crate::server::state::StateModel;
use crate::server::types::NotifyWaitModel;
use crate::server::waiting;
use crate::server::waiting::WaitingModel;
use crate::text;
use vstd::prelude::*;

verus! {

/// Whether a watch is in the share, asks for one of some kinds of changes or for all, and
/// lies over a path: it is on the directory that holds the path, or watches the whole tree
/// and is above it, but for case.
pub open spec fn in_view(
    w: NotifyWaitModel,
    share: Seq<char>,
    kinds: u32,
    path: PathModel,
) -> bool {
    &&& w.share == text::lowered(share)
    &&& w.completion_filter == 0 || w.completion_filter & kinds != 0
    &&& w.path == path.drop_last() || (w.recursive && path.len() > w.path.len() && forall|i: int|
        0 <= i < w.path.len() ==> text::same_ignoring_case(#[trigger] path[i], w.path[i]))
}

/// Whether a watch can be told changes one by one.
pub open spec fn takes_events(w: NotifyWaitModel) -> bool {
    w.output_buffer_length > 0 && !w.notify_force_enum_dir
}

/// A watch that collected more events.
pub open spec fn with_events(
    w: WaitingModel<NotifyWaitModel>,
    more: Seq<EventModel>,
) -> WaitingModel<NotifyWaitModel> {
    WaitingModel {
        detail: NotifyWaitModel { events: w.detail.events + more, scheduled: true, ..w.detail },
        ..w
    }
}

/// The kind of changes to names of files, or of directories.
pub open spec fn name_kind(is_directory: bool) -> u32 {
    if is_directory {
        0x2
    } else {
        0x1
    }
}

/// One event of a watch.
pub open spec fn event(
    action: u32,
    watch: PathModel,
    path: PathModel,
    is_directory: bool,
) -> EventModel {
    EventModel { action, name: events::relative_name(watch, path), is_directory }
}

proof fn lemma_told_keeps_watches(
    m: StateModel,
    ch: ChangeModel,
    ws: Seq<WaitingModel<NotifyWaitModel>>,
)
    ensures
        changes::watches_told(m, ch, ws).change_notifies == m.change_notifies,
    decreases ws.len(),
{
    if ws.len() > 0 {
        lemma_told_keeps_watches(m, ch, ws.drop_last());
    }
}

proof fn lemma_left<A>(s: Seq<A>, flags: Seq<bool>, i: int)
    requires
        0 <= i < s.len(),
        !flags[i],
    ensures
        waiting::unflagged(s, flags).contains(s[i]),
    decreases s.len(),
{
    let head = s.drop_last();
    let before = waiting::unflagged(head, flags);
    if i < head.len() {
        lemma_left(head, flags, i);
        let at = choose|at: int| 0 <= at < before.len() && before[at] == s[i];
        assert(before.push(s.last())[at] == s[i]);
    } else {
        assert(before.push(s.last())[before.len() as int] == s[i]);
    }
}

proof fn lemma_changed(m: StateModel, ch: ChangeModel, k: int)
    requires
        0 <= k < m.change_notifies.len(),
        !changes::answers_now(ch, m.change_notifies[k].detail),
    ensures
        changes::changed(m, ch).change_notifies.contains(
            changes::collected(ch, m.change_notifies[k]),
        ),
{
    let ws = m.change_notifies;
    let after = changes::all_collected(ch, ws);
    let flags = changes::answered_flags(ch, ws);
    lemma_left(after, flags, k);
    let told = StateModel {
        change_notifies: waiting::unflagged(after, flags),
        opens: changes::buffered_opens(ch, ws, m.opens),
        outbox: m.outbox + changes::started_timers(ch, ws, ws.len() as int),
        ..m
    };
    lemma_told_keeps_watches(told, ch, waiting::flagged(after, flags));
}

/// A rename from one directory to another is a removal and an addition: a watch makes of it
/// the event of a removal (code 2) with the old name, then that of an addition (code 1) with
/// the new name, which are the events of the removal of the old path followed by those of the
/// addition of the new one.
pub proof fn renames_between_directories_remove_and_add(
    share: Seq<char>,
    from: PathModel,
    to: PathModel,
    is_directory: bool,
    watch: PathModel,
)
    requires
        from.len() > 0,
        to.len() > 0,
        from.drop_last() != to.drop_last(),
    ensures
        changes::change_events(changes::rename_change(share, from, to, is_directory), watch)
            == seq![event(2, watch, from, is_directory), event(1, watch, to, is_directory)],
        changes::change_events(changes::rename_change(share, from, to, is_directory), watch)
            == changes::change_events(
            changes::simple_change(share, name_kind(is_directory), from, is_directory, false, 2),
            watch,
        ) + changes::change_events(
            changes::simple_change(share, name_kind(is_directory), to, is_directory, false, 1),
            watch,
        ),
{
}

/// A rename within a directory is told as old name (code 4), then new name (code 5).
pub proof fn renames_within_a_directory_give_both_names(
    share: Seq<char>,
    from: PathModel,
    to: PathModel,
    is_directory: bool,
    watch: PathModel,
)
    requires
        from.len() > 0,
        to.len() > 0,
        from.drop_last() == to.drop_last(),
    ensures
        changes::change_events(changes::rename_change(share, from, to, is_directory), watch)
            == seq![event(4, watch, from, is_directory), event(5, watch, to, is_directory)],
{
}

/// Every watch over the old path that asks for names collects exactly two events when a file
/// is renamed, in this order: from one directory to another the removal of the old name and
/// the addition of the new one, within a directory the old and the new name.
pub proof fn renames_are_collected(
    m: StateModel,
    share: Seq<char>,
    from: PathModel,
    to: PathModel,
    is_directory: bool,
    k: int,
)
    requires
        from.len() > 0,
        to.len() > 0,
        0 <= k < m.change_notifies.len(),
        in_view(m.change_notifies[k].detail, share, name_kind(is_directory), from),
        takes_events(m.change_notifies[k].detail),
    ensures
        ({
            let w = m.change_notifies[k];
            let after = changes::rename_notified(m, share, from, to, is_directory);
            let same = from.drop_last() == to.drop_last();
            after.change_notifies.contains(
                with_events(
                    w,
                    seq![
                        event(if same { 4 } else { 2 }, w.detail.path, from, is_directory),
                        event(if same { 5 } else { 1 }, w.detail.path, to, is_directory),
                    ],
                ),
            )
        }),
{
    let w = m.change_notifies[k];
    let ch = changes::rename_change(share, from, to, is_directory);
    let told = changes::changed(m, ch);
    lemma_changed(m, ch, k);
    let kept = changes::collected(ch, w);
    let same = from.drop_last() == to.drop_last();
    assert(changes::change_events(ch, w.detail.path) =~= seq![
        event(if same { 4 } else { 2 }, w.detail.path, from, is_directory),
        event(if same { 5 } else { 1 }, w.detail.path, to, is_directory),
    ]);
    if !is_directory {
        let also = changes::rename_attributes_change(share, from, to);
        let at = choose|at: int|
            0 <= at < told.change_notifies.len() && told.change_notifies[at] == kept;
        lemma_changed(told, also, at);
    }
}

/// A watch that does not lie over the old path, or asks for no names, hears nothing of the
/// rename of a directory.
pub proof fn renames_elsewhere_are_not_heard(
    m: StateModel,
    share: Seq<char>,
    from: PathModel,
    to: PathModel,
    k: int,
)
    requires
        0 <= k < m.change_notifies.len(),
        from.len() > 0,
        !in_view(m.change_notifies[k].detail, share, 0x2, from),
    ensures
        changes::rename_notified(m, share, from, to, true).change_notifies.contains(
            m.change_notifies[k],
        ),
{
    let ch = changes::rename_change(share, from, to, true);
    if to.len() > 0 {
        lemma_changed(m, ch, k);
    } else {
        assert(m.change_notifies.contains(m.change_notifies[k]));
    }
}

/// A change of one path is told to the watches over it that ask for its kind as one event with
/// its code and the name of the path; a modification of a directory is not told to the watches
/// on it.
pub proof fn changes_of_a_path_are_collected(
    m: StateModel,
    share: Seq<char>,
    kinds: u32,
    path: PathModel,
    is_directory: bool,
    not_itself: bool,
    action: u32,
    k: int,
)
    requires
        path.len() > 0,
        0 <= k < m.change_notifies.len(),
        takes_events(m.change_notifies[k].detail),
    ensures
        ({
            let w = m.change_notifies[k];
            let after = changes::simply_changed(
                m,
                share,
                kinds,
                path,
                is_directory,
                not_itself,
                action,
            );
            let is_itself = not_itself && is_directory && w.detail.path == path;
            &&& in_view(w.detail, share, kinds, path) && !is_itself
                ==> after.change_notifies.contains(
                with_events(w, seq![event(action, w.detail.path, path, is_directory)]),
            )
            &&& !in_view(w.detail, share, kinds, path) || is_itself
                ==> after.change_notifies.contains(w)
        }),
{
    let w = m.change_notifies[k];
    let ch = changes::simple_change(share, kinds, path, is_directory, not_itself, action);
    lemma_changed(m, ch, k);
    assert(changes::change_events(ch, w.detail.path) =~= seq![
        event(action, w.detail.path, path, is_directory),
    ]);
}

/// A removal is told with code 2 to watches over the path that ask for names; a modification
/// with code 3 to those that ask for its kind, but not to a watch on the directory itself.
pub proof fn removals_and_modifications_are_collected(
    m: StateModel,
    share: Seq<char>,
    path: PathModel,
    is_directory: bool,
    kinds: u32,
    k: int,
)
    requires
        path.len() > 0,
        0 <= k < m.change_notifies.len(),
        takes_events(m.change_notifies[k].detail),
    ensures
        ({
            let w = m.change_notifies[k];
            let removed = changes::removal_notified(m, share, path, is_directory);
            let modified = changes::modification_notified(m, share, path, is_directory, kinds);
            &&& in_view(w.detail, share, name_kind(is_directory), path)
                ==> removed.change_notifies.contains(
                with_events(w, seq![event(2, w.detail.path, path, is_directory)]),
            )
            &&& in_view(w.detail, share, kinds, path) && !(is_directory && w.detail.path == path)
                ==> modified.change_notifies.contains(
                with_events(w, seq![event(3, w.detail.path, path, is_directory)]),
            )
            &&& is_directory && w.detail.path == path ==> modified.change_notifies.contains(w)
        }),
{
    changes_of_a_path_are_collected(
        m,
        share,
        name_kind(is_directory),
        path,
        is_directory,
        false,
        2,
        k,
    );
    changes_of_a_path_are_collected(m, share, kinds, path, is_directory, true, 3, k);
}

/// An open directory that was watched before, and has no waiting watch that heard of it, keeps
/// what it would have been told for its next watch; one that was never watched, or whose watch
/// was told to list the directory, keeps nothing.
pub proof fn changes_are_kept_for_the_next_watch(
    m: StateModel,
    share: Seq<char>,
    kinds: u32,
    path: PathModel,
    is_directory: bool,
    not_itself: bool,
    action: u32,
    i: int,
)
    requires
        path.len() > 0,
        m.change_notifies.len() == 0,
        0 <= i < m.opens.len(),
    ensures
        ({
            let r = m.opens[i];
            let o = r.open;
            let after = changes::simply_changed(
                m,
                share,
                kinds,
                path,
                is_directory,
                not_itself,
                action,
            ).opens[i];
            let over = o.last_path == path.drop_last() || (path.len() > o.last_path.len()
                && forall|c: int|
                0 <= c < o.last_path.len() ==> text::same_ignoring_case(
                    #[trigger] path[c],
                    o.last_path[c],
                ));
            let keeps = r.registration is Some && r.registration->0.share == text::lowered(share)
                && o.is_directory && o.watch.started && !o.watch.buffer_suppressed && (
            o.watch.completion_filter == 0 || o.watch.completion_filter & kinds != 0) && over && !(
            not_itself && is_directory && o.last_path == path);
            &&& keeps ==> after.open.notify_buffer == o.notify_buffer.push(
                event(action, o.last_path, path, is_directory),
            )
            &&& !keeps ==> after.open.notify_buffer == o.notify_buffer
            &&& after.key == r.key && after.registration == r.registration && after.open.watch
                == o.watch
        }),
{
    let ch = changes::simple_change(share, kinds, path, is_directory, not_itself, action);
    reveal_with_fuel(changes::hearing_opens, 1);
    reveal_with_fuel(changes::listing_opens, 1);
    let r = m.opens[i];
    let ws = m.change_notifies;
    assert(waiting::flagged(changes::all_collected(ch, ws), changes::answered_flags(ch, ws))
        =~= Seq::empty());
    assert(changes::change_events(ch, r.open.last_path) =~= seq![
        event(action, r.open.last_path, path, is_directory),
    ]);
    assert(r.open.notify_buffer + seq![event(action, r.open.last_path, path, is_directory)]
        =~= r.open.notify_buffer.push(event(action, r.open.last_path, path, is_directory)));
}

/// The codes and kinds of changes as clients know them.
pub proof fn change_codes_are_as_clients_know_them()
    ensures
        events::FILE_ACTION_ADDED == 1,
        events::FILE_ACTION_REMOVED == 2,
        events::FILE_ACTION_MODIFIED == 3,
        events::FILE_ACTION_RENAMED_OLD_NAME == 4,
        events::FILE_ACTION_RENAMED_NEW_NAME == 5,
        events::FILE_NOTIFY_CHANGE_FILE_NAME == 0x1,
        events::FILE_NOTIFY_CHANGE_DIR_NAME == 0x2,
        events::FILE_NOTIFY_CHANGE_ATTRIBUTES == 0x4,
        events::FILE_NOTIFY_CHANGE_SIZE == 0x8,
        events::FILE_NOTIFY_CHANGE_LAST_WRITE == 0x10,
        events::FILE_NOTIFY_CHANGE_SECURITY == 0x100,
{
}

} // verus!
