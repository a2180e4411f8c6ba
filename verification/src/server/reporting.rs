//! How changes are written down for clients, and which reports of a backend count.

use crate::path::PathModel;
use crate::proto::messages::layout;
use crate::server::events;
use crate::server::events::{EventModel, RecordModel};
use crate::server::notify;
use crate::server::state;
use crate::server::state::StateModel;
use crate::server::types::{
    ActionModel, BodyModel, NotifyWaitModel, OpenRecordModel,
};
use crate::server::waiting::WaitingModel;
use crate::backend::WatchAction;
use crate::text;
use crate::wire;
use vstd::prelude::*;

verus! {

/// A record of a change has the distance to the next one, the code of the change, the length of
/// the name and the name, and is padded with zeros to a multiple of eight bytes.
pub proof fn change_records_lie_in_place(action: u32, name: Seq<char>, next: u32)
    requires
        text::utf16le(name).len() <= u32::MAX,
    ensures
        ({
            let b = events::notify_record(action, name, next);
            let n = text::utf16le(name).len();
            &&& layout::number(b, 0, 4) == next
            &&& layout::number(b, 4, 4) == action
            &&& layout::number(b, 8, 4) == n
            &&& b.subrange(12, 12int + n) == text::utf16le(name)
            &&& b.len() == events::notify_record_len(name)
            &&& b.len() % 8 == 0
            &&& 12int + n <= b.len() < 20int + n
            &&& forall|i: int| 12int + n <= i < b.len() ==> #[trigger] b[i] == 0
        }),
{
    reveal(events::notify_record);
    let b = events::notify_record(action, name, next);
    let n = text::utf16le(name).len();
    assert(b.subrange(0, 4) =~= wire::bytes32(next));
    wire::le32_of_bytes32(b, 0, next);
    assert(b.subrange(4, 8) =~= wire::bytes32(action));
    wire::le32_of_bytes32(b, 4, action);
    assert(b.subrange(8, 12) =~= wire::bytes32(n as u32));
    wire::le32_of_bytes32(b, 8, n as u32);
    layout::numbers_are_little_endian(b);
    assert(b.subrange(12, 12int + n) =~= text::utf16le(name));
}

/// Changes are written one behind the other; each but the last names the distance to the next,
/// the last names none.
pub proof fn changes_are_chained(list: Seq<EventModel>, n: int)
    requires
        0 < n <= list.len(),
    ensures
        events::notify_records(list, n) == events::notify_records(list, n - 1)
            + events::notify_record(
            list[n - 1].action,
            list[n - 1].name,
            if n < list.len() { events::notify_record_len(list[n - 1].name) as u32 } else { 0 },
        ),
        events::notify_records(list, 0).len() == 0,
{
}

/// The body of an answer to a watch: structure size 9, the changes 72 bytes from the start of the
/// header, their length, and the changes, or one zero byte where there are none.
pub proof fn watch_answers_lie_in_place(output: Seq<u8>)
    requires
        output.len() <= u32::MAX,
    ensures
        ({
            let b = events::notify_body(output);
            &&& layout::number(b, 0, 2) == 9
            &&& layout::number(b, 2, 2) == 72
            &&& layout::number(b, 4, 4) == output.len()
            &&& output.len() == 0 ==> b.len() == 9 && b[8] == 0
            &&& output.len() > 0 ==> b.subrange(8, 8int + output.len()) == output && b.len() == 8
                + output.len()
        }),
{
    let b = events::notify_body(output);
    assert(b.subrange(0, 2) =~= wire::bytes16(9));
    wire::le16_of_bytes16(b, 0, 9);
    assert(b.subrange(2, 4) =~= wire::bytes16(72));
    wire::le16_of_bytes16(b, 2, 72);
    assert(b.subrange(4, 8) =~= wire::bytes32(output.len() as u32));
    wire::le32_of_bytes32(b, 4, output.len() as u32);
    layout::numbers_are_little_endian(b);
    if output.len() > 0 {
        assert(b.subrange(8, 8int + output.len()) =~= output);
    }
}

/// The name of a file in a watched directory is what follows the directory in its path, with
/// backslashes between; of a file elsewhere, its last component.
pub proof fn names_are_relative_to_the_watch(watch: PathModel, rest: PathModel, other: PathModel)
    requires
        rest.len() > 0,
    ensures
        events::relative_name(watch, watch + rest) == crate::path::displayed(rest),
        other.len() > 0 && !(other.len() > watch.len() && other.take(watch.len() as int) == watch)
            ==> events::relative_name(watch, other) == other.last(),
{
    let whole = watch + rest;
    assert(whole.take(watch.len() as int) =~= watch);
    assert(whole.skip(watch.len() as int) =~= rest);
}

/// A watch sees what happens in its directory and, where it watches the tree, below it.
pub proof fn watches_see_their_directory(
    watch: PathModel,
    recursive: bool,
    path: PathModel,
    parent: PathModel,
)
    ensures
        events::watch_sees(watch, recursive, path, watch),
        !recursive ==> (events::watch_sees(watch, recursive, path, parent) <==> watch == parent),
        recursive && watch != parent ==> (events::watch_sees(watch, recursive, path, parent)
            <==> crate::path::is_below(path, watch)),
{
}

/// A filter of zero lets everything through, any other what it has a bit of.
pub proof fn filters_pass_what_they_name(filter: u32, kinds: u32)
    ensures
        events::filter_passes(0, kinds),
        filter != 0 ==> (events::filter_passes(filter, kinds) <==> filter & kinds != 0),
        events::name_filter(false) == 0x1,
        events::name_filter(true) == 0x2,
{
}

/// What a backend reports has the codes that clients know: added 1, removed 2, modified 3, old
/// name 4, new name 5.
pub proof fn reports_have_their_codes()
    ensures
        events::watch_action_code(WatchAction::Added) == 1,
        events::watch_action_code(WatchAction::Removed) == 2,
        events::watch_action_code(WatchAction::Modified) == 3,
        events::watch_action_code(WatchAction::RenamedOld) == 4,
        events::watch_action_code(WatchAction::RenamedNew) == 5,
{
}

/// A report that names a file is told where the filter asks for names of its kind; the removal of
/// the watched directory itself ends the watch.
pub proof fn reports_of_names_are_told(
    watch: PathModel,
    filter: u32,
    r: RecordModel,
    change: u32,
)
    ensures
        r.action != WatchAction::Modified && (filter == 0 || filter & (if r.is_directory {
            0x2u32
        } else {
            0x1u32
        }) != 0) ==> events::backend_event(watch, filter, r, change) == Some(
            EventModel {
                action: events::watch_action_code(r.action),
                name: events::relative_name(watch, r.path),
                is_directory: r.is_directory,
            },
        ),
        r.action != WatchAction::Modified && filter != 0 && filter & (if r.is_directory {
            0x2u32
        } else {
            0x1u32
        }) == 0 ==> events::backend_event(watch, filter, r, change) is None,
        r.action == WatchAction::Modified && r.path == watch ==> events::backend_event(
            watch,
            filter,
            r,
            change,
        ) is None,
        events::removes_watch(watch, r) <==> r.action == WatchAction::Removed && r.path == watch,
{
}

/// An addition is always told, and so is any removal or rename; a modification is left out where
/// the file was added before and not removed since, or was modified just before.
pub proof fn coalescing_drops_only_modifications(
    s: events::Coalescing,
    e: EventModel,
)
    ensures
        ({
            let after = events::coalesce_step(s, e);
            let key = events::event_key(e);
            &&& e.action != 3 ==> after.out.len() > 0 && after.out.last() == e
            &&& e.action == 1 ==> after.out == s.out.push(e) && after.added.contains(key)
            &&& e.action == 2 || e.action == 4 ==> !after.added.contains(key)
                && after.replaced.contains(key)
            &&& e.action == 3 && s.added.contains(key) && !s.replaced.contains(key) ==> after == s
            &&& e.action == 3 && s.out.len() > 0 && s.out.last().action == 3 && events::event_key(
                s.out.last(),
            ) == key ==> after == s
            &&& e.action == 3 && !s.added.contains(key) && (s.out.len() == 0 || s.out.last().action
                != 3) ==> after.out == s.out.push(e)
        }),
{
}

/// A watch that is told changes that fit its buffer succeeds with them; where they do not fit, or
/// it takes none, it is told to list the directory anew (0x10c), with nothing.
pub proof fn watches_are_told_or_sent_to_list(
    m: StateModel,
    w: WaitingModel<NotifyWaitModel>,
    output: Seq<u8>,
)
    requires
        state::conn_alive(m.connections, w.conn),
        !w.detail.watched,
    ensures
        ({
            let after = notify::watch_told(m, w, output);
            let fits = !w.detail.notify_force_enum_dir && w.detail.output_buffer_length > 0
                && output.len() <= w.detail.output_buffer_length;
            &&& fits ==> after.outbox == m.outbox.push(
                ActionModel::Respond {
                    conn: w.conn,
                    async_id: w.async_id,
                    status: 0,
                    body: BodyModel::Data(events::notify_body(output)),
                    compound: None,
                },
            ) && after.opens == m.opens
            &&& !fits ==> after.outbox == m.outbox.push(
                ActionModel::Respond {
                    conn: w.conn,
                    async_id: w.async_id,
                    status: 0x10c,
                    body: BodyModel::Data(events::notify_body(Seq::empty())),
                    compound: None,
                },
            )
        }),
{
}

/// An open whose watch was sent to list the directory keeps no more changes; the next watch is
/// sent too where the first could not be told. Other opens stay.
pub proof fn overrun_opens_keep_no_changes(r: OpenRecordModel, w: NotifyWaitModel)
    ensures
        r.key != w.open ==> notify::overrun(r, w) == r,
        r.key == w.open ==> {
            &&& notify::overrun(r, w).open.watch.buffer_suppressed
            &&& notify::overrun(r, w).open.watch.enum_dir == (r.open.watch.enum_dir || (
            w.notify_first && !w.notify_force_enum_dir))
            &&& notify::overrun(r, w).open.watch.started == r.open.watch.started
            &&& notify::overrun(r, w).open.watch.completion_filter
                == r.open.watch.completion_filter
            &&& notify::overrun(r, w).open.notify_buffer == r.open.notify_buffer
        },
{
}

} // verus!
