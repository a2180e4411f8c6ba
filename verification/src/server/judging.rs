//! Small rules of the server, by bits, codes and fields.

use crate::backend::{WatchAction, WatchEvent};
use crate::path::PathModel;
use crate::proto::messages::FileId;
use crate::server::changes;
use crate::server::cleanup;
use crate::server::cleanup::WorkModel;
use crate::server::closing;
use crate::server::compounds;
use crate::server::detaching;
use crate::server::durable;
use crate::server::events;
use crate::server::events::RecordModel;
use crate::server::files;
use crate::server::leases;
use crate::server::lists;
use crate::server::locks;
use crate::server::notify;
use crate::server::opens;
use crate::server::oplocks;
use crate::server::rules;
use crate::server::selecting;
use crate::server::settling;
use crate::server::shares;
use crate::server::shares::ShareMode;
use crate::server::state;
use crate::server::state::StateModel;
use crate::server::streams;
use crate::server::table::KeyModel;
use crate::server::tasks;
use crate::server::timeouts;
use crate::server::trees;
use crate::server::types;
use crate::server::types::{
    BodyModel, HeldLockModel, LeaseGeneration, LockKeyModel, NotifyWaitModel, OpenModel,
    OpenRecordModel, RegistrationModel, TaskWaitModel, TreeModel, TreeOpen, NIL16,
};
use crate::server::waiting;
use crate::server::waiting::WaitingModel;
use crate::text;
use vstd::prelude::*;

verus! {

proof fn lemma_filter(c: u32, a: u32, s: u32, w: u32, r: u32, n: u32, p: u32, x: u32)
    by (bit_vector)
    requires
        c & 1 != 0 ==> a == 4,
        c & 1 == 0 ==> a == 0,
        c & 2 != 0 ==> s == 8,
        c & 2 == 0 ==> s == 0,
        c & 4 != 0 ==> w == 0x10,
        c & 4 == 0 ==> w == 0,
        c & 8 != 0 ==> r == 0x20,
        c & 8 == 0 ==> r == 0,
        c & 0x10 != 0 ==> n == 0x40,
        c & 0x10 == 0 ==> n == 0,
        c & 0x20 != 0 ==> p == 0x100,
        c & 0x20 == 0 ==> p == 0,
        x == a | s | w | r | n | p,
    ensures
        a | 0 == a,
        a | s | 0 == a | s,
        a | s | w | 0 == a | s | w,
        a | s | w | r | 0 == a | s | w | r,
        a | s | w | r | n | 0 == a | s | w | r | n,
        x & 4 != 0 ==> c & 1 != 0,
        c & 1 != 0 ==> x & 4 != 0,
        x & 8 != 0 ==> c & 2 != 0,
        c & 2 != 0 ==> x & 8 != 0,
        x & 0x10 != 0 ==> c & 4 != 0,
        c & 4 != 0 ==> x & 0x10 != 0,
        x & 0x20 != 0 ==> c & 8 != 0,
        c & 8 != 0 ==> x & 0x20 != 0,
        x & 0x40 != 0 ==> c & 0x10 != 0,
        c & 0x10 != 0 ==> x & 0x40 != 0,
        x & 0x100 != 0 ==> c & 0x20 != 0,
        c & 0x20 != 0 ==> x & 0x100 != 0,
        x & 0xffff_fe83 == 0,
{
}

/// A modification is heard by the filter bits for what was modified: attributes by 0x4, the size
/// by 0x8, the last write by 0x10, the last access by 0x20, the creation by 0x40, security by
/// 0x100; and by no others.
pub proof fn modifications_are_heard_by_what_they_modify(change: u32)
    ensures
        ({
            let f = events::change_filter(change);
            &&& f & 0x4 != 0 <==> change & 0x1 != 0
            &&& f & 0x8 != 0 <==> change & 0x2 != 0
            &&& f & 0x10 != 0 <==> change & 0x4 != 0
            &&& f & 0x20 != 0 <==> change & 0x8 != 0
            &&& f & 0x40 != 0 <==> change & 0x10 != 0
            &&& f & 0x100 != 0 <==> change & 0x20 != 0
            &&& f & 0xffff_fe83 == 0
        }),
{
    let a = if change & 1 != 0 { 4u32 } else { 0u32 };
    let s = if change & 2 != 0 { 8u32 } else { 0u32 };
    let w = if change & 4 != 0 { 0x10u32 } else { 0u32 };
    let r = if change & 8 != 0 { 0x20u32 } else { 0u32 };
    let n = if change & 0x10 != 0 { 0x40u32 } else { 0u32 };
    let p = if change & 0x20 != 0 { 0x100u32 } else { 0u32 };
    lemma_filter(change, a, s, w, r, n, p, a | s | w | r | n | p);
}

/// A watch makes its events of records in their order: of those in its directory, and below it
/// where it watches the tree; and a record that says that the directory itself was removed ends
/// it.
pub proof fn reports_are_heard_in_order(
    watch: PathModel,
    recursive: bool,
    filter: u32,
    records: Seq<RecordModel>,
    r: RecordModel,
    change: u32,
)
    ensures
        ({
            let before = events::seen_events(watch, recursive, filter, records, change);
            let after = events::seen_events(watch, recursive, filter, records.push(r), change);
            let seen = r.path.len() > 0 && events::watch_sees(
                watch,
                recursive,
                r.path,
                r.path.drop_last(),
            );
            &&& !seen ==> after == before
            &&& seen ==> after == match events::backend_event(watch, filter, r, change) {
                Some(e) => before.push(e),
                None => before,
            }
        }),
        events::seen_events(watch, recursive, filter, Seq::empty(), change).len() == 0,
        events::some_removes_watch(watch, records.push(r)) <==> events::some_removes_watch(
            watch,
            records,
        ) || (r.action == WatchAction::Removed && r.path == watch),
        !events::some_removes_watch(watch, Seq::empty()),
{
    let all = records.push(r);
    assert(all.drop_last() =~= records);
    if events::some_removes_watch(watch, all) {
        let i = choose|i: int| 0 <= i < all.len() && events::removes_watch(
            watch,
            #[trigger] all[i],
        );
        if i < records.len() {
            assert(records[i] == all[i]);
        }
    }
    if events::some_removes_watch(watch, records) {
        let i = choose|i: int|
            0 <= i < records.len() && events::removes_watch(watch, #[trigger] records[i]);
        assert(all[i] == records[i]);
    }
    if r.action == WatchAction::Removed && r.path == watch {
        assert(events::removes_watch(watch, all[records.len() as int]));
    }
}

/// What a backend reports goes to the watch that it watches for: where the directory was removed
/// the watch ends with that status, where something is seen it is told so, and otherwise, and
/// where there is no such watch, nothing happens.
pub proof fn reports_go_to_their_watch(
    m: StateModel,
    conn: u64,
    async_id: u64,
    event: WatchEvent,
    at: int,
)
    requires
        0 <= at <= m.change_notifies.len(),
        at < m.change_notifies.len() ==> m.change_notifies[at].conn == conn
            && m.change_notifies[at].async_id == async_id,
        forall|k: int|
            0 <= k < at ==> !((#[trigger] m.change_notifies[k]).conn == conn
                && m.change_notifies[k].async_id == async_id),
    ensures
        ({
            let after = changes::backend_reported(m, conn, async_id, event);
            let w = m.change_notifies[at];
            let records = events::record_models(event);
            let seen = events::seen_events(
                w.detail.path,
                w.detail.recursive,
                w.detail.completion_filter,
                records,
                event.change,
            );
            let removed = events::some_removes_watch(w.detail.path, records);
            &&& at == m.change_notifies.len() ==> after == m
            &&& at < m.change_notifies.len() && (removed || seen.len() > 0)
                ==> after.change_notifies == m.change_notifies.remove(at)
            &&& at < m.change_notifies.len() && removed && state::conn_alive(m.connections, conn)
                ==> after.outbox.contains(
                settling::answer(
                    conn,
                    async_id,
                    0xC000_0056,
                    BodyModel::Data(events::notify_body(Seq::empty())),
                ),
            )
            &&& at < m.change_notifies.len() && !removed && seen.len() == 0 ==> after == m
            &&& at < m.change_notifies.len() && !removed && seen.len() > 0 ==> after
                == notify::watch_told(
                StateModel { change_notifies: m.change_notifies.remove(at), ..m },
                w,
                events::written_events(seen),
            )
        }),
{
    let test = compounds::request_is::<NotifyWaitModel>(conn, async_id);
    lists::first_is_first(m.change_notifies, test);
    let i = lists::first(m.change_notifies, test);
    if at < m.change_notifies.len() {
        assert(test(m.change_notifies[at]));
    }
    if i < m.change_notifies.len() {
        assert(test(m.change_notifies[i]));
    }
    assert(i == at);
    if at < m.change_notifies.len() {
        let left = StateModel { change_notifies: m.change_notifies.remove(at), ..m };
        settling::watches_are_answered_and_end(
            left,
            m.change_notifies[at],
            0xC000_0056,
            Seq::empty(),
        );
        let a = settling::answer(
            conn,
            async_id,
            0xC000_0056,
            BodyModel::Data(events::notify_body(Seq::empty())),
        );
        let done = notify::watch_done(left, m.change_notifies[at], 0xC000_0056, Seq::empty());
        if state::conn_alive(m.connections, conn) {
            assert(done.outbox[done.outbox.len() - 1] == a);
        }
    }
}

/// A break is waited for as long as the server is set up to, but only a millisecond where a
/// connection asked for force that has one of the leases or oplocks that are waited for.
pub proof fn force_shortens_the_wait(m: StateModel, keys: Seq<[u8; 16]>, ids: Seq<FileId>)
    ensures
        timeouts::break_patience(m, keys, ids) == if timeouts::force_awaited(m, keys, ids) {
            1u64
        } else {
            m.config.cache_break_timeout
        },
        timeouts::force_awaited(m, keys, ids) <==> exists|i: int|
            #![trigger m.opens[i]]
            0 <= i < m.opens.len() && m.opens[i].registration is Some && state::conn_alive(
                m.connections,
                m.opens[i].registration->0.conn,
            ) && timeouts::wants_force(m.connections, m.opens[i].registration->0.conn) && ((
            m.opens[i].open.lease.version != 0 && m.opens[i].open.lease.breaking && keys.contains(
                m.opens[i].open.lease.key,
            )) || (m.opens[i].open.oplock.breaking && ids.contains(m.opens[i].open.file_id))),
{
    if timeouts::force_awaited(m, keys, ids) {
        let i = choose|i: int|
            0 <= i < m.opens.len() && timeouts::waits_for_force(m, #[trigger] m.opens[i], keys, ids);
        assert(m.opens[i].registration is Some);
    }
}

/// A connection is waited for itself where an open of its own has a lease that is being broken
/// and waited for.
pub proof fn own_breaks_are_known(r: OpenRecordModel, keys: Seq<[u8; 16]>, conn: u64)
    ensures
        timeouts::breaks_own(r, keys, conn) <==> r.registration is Some
            && r.registration->0.conn == conn && r.open.lease.breaking && exists|i: int|
            0 <= i < keys.len() && #[trigger] keys[i] == r.open.lease.key,
{
}

/// The generations of lease keys are listed key by key.
pub proof fn generations_are_listed_by_key(
    gens: Seq<LeaseGeneration>,
    keys: Seq<[u8; 16]>,
    i: int,
)
    requires
        0 <= i < keys.len(),
    ensures
        leases::generations_of(gens, keys).len() == keys.len(),
        leases::generations_of(gens, keys)[i].key == keys[i],
        leases::generations_of(gens, keys)[i].generation == leases::generation_of(gens, keys[i]),
{
}

/// Opens below a directory are those that are registered in its share on a longer path that starts
/// with it.
pub proof fn opens_below_a_directory_are_flagged(
    records: Seq<OpenRecordModel>,
    share: Seq<char>,
    directory: PathModel,
    i: int,
)
    requires
        0 <= i < records.len(),
    ensures
        leases::below_flags(records, share, directory)[i] <==> records[i].registration is Some
            && records[i].registration->0.share == text::lowered(share)
            && records[i].registration->0.path.len() > directory.len() && forall|k: int|
            0 <= k < directory.len() ==> text::same_ignoring_case(
                #[trigger] records[i].registration->0.path[k],
                directory[k],
            ),
{
}

proof fn lemma_unlocked_stays_refused(
    held: Seq<HeldLockModel>,
    key: LockKeyModel,
    fid: FileId,
    ranges: Seq<(u64, u64)>,
    n: int,
)
    requires
        0 <= n <= ranges.len(),
        locks::unlocked(held, key, fid, ranges, n) is Some,
    ensures
        ({
            let k = locks::unlockable(held, key, fid, ranges, n);
            &&& n <= k <= ranges.len()
            &&& locks::unlocked(held, key, fid, ranges, k) is Some
            &&& k < ranges.len() ==> locks::unlocked(held, key, fid, ranges, k + 1) is None
        }),
    decreases ranges.len() - n,
{
    if n < ranges.len() && locks::unlocked(held, key, fid, ranges, n + 1) is Some {
        lemma_unlocked_stays_refused(held, key, fid, ranges, n + 1);
    }
}

/// Ranges are unlocked one after the other up to the first that is not locked.
pub proof fn ranges_are_unlocked_up_to_the_first_free_one(
    held: Seq<HeldLockModel>,
    key: LockKeyModel,
    fid: FileId,
    ranges: Seq<(u64, u64)>,
)
    ensures
        ({
            let k = locks::unlockable(held, key, fid, ranges, 0);
            &&& 0 <= k <= ranges.len()
            &&& locks::unlocked(held, key, fid, ranges, k) is Some
            &&& k < ranges.len() ==> locks::unlocked(held, key, fid, ranges, k + 1) is None
        }),
{
    lemma_unlocked_stays_refused(held, key, fid, ranges, 0);
}

/// A lock is backed by the file where it is on it, is not empty, and starts before its end.
pub proof fn locks_are_backed_by_bytes(l: HeldLockModel, key: LockKeyModel, end: u64)
    ensures
        locks::is_backed(l, key, end) <==> l.key == key && l.lock.length > 0 && l.lock.offset < end,
{
}

/// A watch is found by the message that asked for it, on its connection and in its session.
pub proof fn watches_are_found_by_their_message(
    w: WaitingModel<NotifyWaitModel>,
    conn: u64,
    message_id: u64,
    session_id: u64,
)
    ensures
        notify::message_is(conn, message_id, session_id)(w) <==> w.conn == conn
            && w.request.message_id == message_id && w.request.session_id == session_id,
        notify::kept_watch(w).conn == w.conn,
        notify::kept_watch(w).async_id == w.async_id,
        notify::kept_watch(w).request == w.request,
        notify::kept_watch(w).detail.share == text::lowered(w.detail.share),
        notify::kept_watch(w).detail.path == w.detail.path,
        notify::kept_watch(w).detail.events.len() == 0,
        !notify::kept_watch(w).detail.scheduled,
        notify::kept_watch(w).detail.recursive == w.detail.recursive,
        notify::kept_watch(w).detail.completion_filter == w.detail.completion_filter,
{
}

/// A lease is forbidden by an open on the path and stream that has an oplock of its own, or that
/// has another lease key and is not only for looking at attributes.
pub proof fn leases_are_forbidden_by_others(
    r: OpenRecordModel,
    share: Seq<char>,
    path: PathModel,
    stream_name: Option<Seq<char>>,
    key: [u8; 16],
)
    ensures
        opens::forbids_lease(r, share, path, stream_name, key) <==> state::on_stream(
            r,
            share,
            path,
            stream_name,
        ) && ((r.open.lease.version == 0 && r.open.oplock.level != 0) || (r.open.lease.key != key
            && !(r.open.lease.version == 0 && r.open.lease.key == NIL16 && rules::stat_open(
            r.open.desired_access,
        )))),
{
}

/// An open that is registered anew stands last, with its new place and all else as it was.
pub proof fn opens_registered_anew_stand_last(
    records: Seq<OpenRecordModel>,
    key: u64,
    place: RegistrationModel,
    at: int,
)
    requires
        0 <= at < records.len(),
        records[at].key == key,
        forall|i: int| 0 <= i < at ==> (#[trigger] records[i]).key != key,
    ensures
        ({
            let after = opens::registered_again(records, key, place);
            &&& after.len() == records.len()
            &&& after.last().registration == Some(place)
            &&& after.last().open == records[at].open
            &&& after.last().key == key
            &&& after.drop_last() == records.remove(at)
        }),
{
    state::open_index_at(records, key, at);
    let after = opens::registered_again(records, key, place);
    assert(after.drop_last() =~= records.remove(at));
}

/// Level two oplocks are counted among the opens that are flagged.
pub proof fn level_two_oplocks_are_counted(records: Seq<OpenRecordModel>, flags: Seq<bool>, n: int)
    requires
        0 <= n < records.len(),
    ensures
        oplocks::level_ii_count(records, flags, n + 1) == oplocks::level_ii_count(records, flags, n)
            + if flags[n] && records[n].open.oplock.level == 1 {
            1int
        } else {
            0
        },
        oplocks::level_ii_count(records, flags, 0) == 0,
{
}

/// A time of the last write that is forced is told from then on, together with the time of the
/// change, whichever open set it before.
pub proof fn forced_write_times_are_told(m: StateModel, key: KeyModel, now: u64)
    ensures
        ({
            let after = files::write_time_forced(m, key, now);
            &&& after.files.file_times.contains_key(key)
            &&& after.files.file_times[key].last_write_time == Some(now)
            &&& after.files.file_times[key].change_time == Some(now)
            &&& after.files.file_times[key].creation_time == files::times_of(m, key).creation_time
            &&& after.files.file_times[key].last_access_time == files::times_of(
                m,
                key,
            ).last_access_time
            &&& after.files.pinned_write_times.contains_key(key)
            &&& !after.files.sticky_write_time_owners.contains_key(key)
        }),
{
}

/// The id of a volume is the FNV-1a hash of the name of its share.
pub proof fn volumes_are_named_by_a_hash(name: Seq<u8>, b: u8)
    ensures
        rules::name_hash(Seq::empty()) == 0xCBF2_9CE4_8422_2325,
        rules::name_hash(name.push(b)) == ((rules::name_hash(name) ^ (b as u64))
            * 0x0000_0100_0000_01B3) % 0x1_0000_0000_0000_0000,
{
    assert(name.push(b).drop_last() =~= name);
    let h = rules::name_hash(name) ^ (b as u64);
    assert(0 <= (h * 0x0000_0100_0000_01B3) % 0x1_0000_0000_0000_0000 < 0x1_0000_0000_0000_0000);
}

/// A share is public in the modes that are named so; the first of two errors is told.
pub proof fn public_shares_are_those_named_so(mode: ShareMode)
    ensures
        shares::is_public(mode) <==> mode == ShareMode::Public || mode == ShareMode::PublicReadOnly,
{
}

/// A new stream is empty, has the time of creation that it is given, and the other times are now;
/// a time is set where another is given.
pub proof fn new_streams_are_empty(name: Seq<char>, created: u64, now: u64, t: u64)
    ensures
        streams::new_stream(name, created, now).name == name,
        streams::new_stream(name, created, now).data.len() == 0,
        streams::new_stream(name, created, now).creation_time == created,
        streams::new_stream(name, created, now).last_access_time == now,
        streams::new_stream(name, created, now).last_write_time == now,
        streams::new_stream(name, created, now).change_time == now,
        streams::set_time(now, Some(t)) == t,
        streams::set_time(now, None) == now,
{
}

/// A task waits behind the others, in place of one with the same id, and nothing waits behind it
/// yet.
pub proof fn tasks_wait_behind_the_others(m: StateModel, w: WaitingModel<TaskWaitModel>)
    ensures
        ({
            let list = tasks::task_kept(m, w).cache_break_tasks;
            &&& list.len() > 0
            &&& list.last().conn == w.conn
            &&& list.last().async_id == w.async_id
            &&& list.last().request == w.request
            &&& list.last().detail.wait == w.detail.wait
            &&& list.last().detail.compound is None
            &&& list.drop_last() == waiting::left(
                m.cache_break_tasks,
                waiting::Selector::Id { conn: w.conn, async_id: w.async_id },
            )
        }),
{
    let list = tasks::task_kept(m, w).cache_break_tasks;
    assert(list.drop_last() =~= waiting::left(
        m.cache_break_tasks,
        waiting::Selector::Id { conn: w.conn, async_id: w.async_id },
    ));
}

/// An open starts without lease, oplock, durability and watch.
pub proof fn new_opens_claim_nothing()
    ensures
        types::no_lease().state == 0 && types::no_lease().version == 0 && types::no_lease().epoch
            == 0 && !types::no_lease().breaking && types::no_lease().key == NIL16,
        types::no_oplock().level == 0 && !types::no_oplock().breaking,
        !types::no_durability().enabled && types::no_durability().version == 0
            && types::no_durability().create_guid == NIL16
            && types::no_durability().app_instance_id == NIL16,
        !types::no_watch().started && !types::no_watch().enum_dir
            && !types::no_watch().buffer_suppressed && types::no_watch().completion_filter == 0,
{
}

/// An open that is detached for good waits for nobody: it is attached nowhere and has no deadline.
pub proof fn opens_detached_for_good_wait_for_nobody(m: StateModel, file_id: FileId)
    ensures
        ({
            let after = durable::detached_for_good(m, file_id);
            &&& durable::durable_of(m.durable_opens, file_id) is None ==> after == m
            &&& durable::durable_of(m.durable_opens, file_id) matches Some(d)
                ==> (durable::durable_of(after.durable_opens, file_id) matches Some(e)
                && e.expires_at is None && e.attached_conn is None && e.attached_session_id is None
                && e.open == d.open && e.owner == d.owner && e.share == d.share)
        }),
{
    let test = durable::durable_is(file_id);
    lists::first_is_first(m.durable_opens, test);
    let i = lists::first(m.durable_opens, test);
    if i < m.durable_opens.len() {
        assert(test(m.durable_opens[i]));
        let after = durable::detached_for_good(m, file_id);
        let list = after.durable_opens;
        assert(m.durable_opens[i].file_id == file_id);
        assert(list.len() == m.durable_opens.len());
        assert(test(list[i]));
        assert forall|k: int| 0 <= k < i implies !test(#[trigger] list[k]) by {
            assert(list[k] == m.durable_opens[k]);
            assert(!test(m.durable_opens[k]));
        }
        lists::first_at(list, test, i);
    }
}

/// A closed open stays until its client comes back where it is durable, is to delete its file, is
/// not on a named stream, and durable opens are to be preserved.
pub proof fn deleting_opens_stay_where_they_are_preserved(o: OpenModel, preserve: bool)
    ensures
        closing::stays(o, preserve) <==> preserve && o.durability.enabled && o.delete_on_close
            && o.stream_name is None,
{
}

/// The opens of a tree connect that is drained are closed next, and it keeps none.
pub proof fn drained_tree_connects_keep_nothing(m: StateModel, w: WorkModel)
    requires
        w.trees.len() > 0,
    ensures
        ({
            let (after, rest) = cleanup::tree_drained(m, w);
            let t = w.trees[0];
            &&& rest.trees == w.trees.skip(1)
            &&& rest.conn == w.conn && rest.preserve == w.preserve
            &&& trees::tree_of(m.connections, t) is None ==> after == m && rest.batches == w.batches
            &&& trees::tree_of(m.connections, t) matches Some(tree) ==> after.connections
                == trees::with_tree_opens(m.connections, t, Seq::empty()) && rest.batches.len()
                == w.batches.len() + 1 && rest.batches.last().share == tree.share
                && rest.batches.last().opens == tree.opens
        }),
{
}

/// Of tree connects that are gone, the opens that cannot wait for their client are left to close.
pub proof fn opens_that_cannot_wait_are_closed(
    m: StateModel,
    list: Seq<TreeModel>,
    tree: TreeModel,
    deadline: u64,
    x: TreeOpen,
)
    ensures
        ({
            let (before, batches) = cleanup::trees_left(m, list, deadline);
            let (after, all) = cleanup::trees_left(m, list.push(tree), deadline);
            let share = text::lowered(tree.share);
            let waits = durable::open_of(before.opens, x.open) matches Some(o)
                && detaching::can_wait(before, share, o);
            &&& all.len() == batches.len() + 1
            &&& all.drop_last() == batches
            &&& all.last().share == tree.share
            &&& all.last().opens.contains(x) <==> tree.opens.contains(x) && !waits
            &&& after == detaching::opens_detached(before, share, tree.opens, deadline)
        }),
{
    let longer = list.push(tree);
    assert(longer.drop_last() =~= list);
    assert(longer.last() == tree);
    let (before, batches) = cleanup::trees_left(m, list, deadline);
    let (after, all) = cleanup::trees_left(m, longer, deadline);
    let share = text::lowered(tree.share);
    selecting::items_are_parted_by_a_test(
        tree.opens,
        |y: TreeOpen| detaching::detaches(before, share, y),
        x,
    );
    assert(all.drop_last() =~= batches);
}

/// Collected changes are told to each watch that is meant, one after the other.
pub proof fn collected_changes_are_told(
    m: StateModel,
    ws: Seq<WaitingModel<NotifyWaitModel>>,
    w: WaitingModel<NotifyWaitModel>,
)
    ensures
        changes::collections_told(m, ws.push(w)) == notify::watch_told(
            changes::collections_told(m, ws),
            w,
            events::written_events(w.detail.events),
        ),
        changes::collections_told(m, Seq::empty()) == m,
{
    assert(ws.push(w).drop_last() =~= ws);
}

} // verus!
