//! When requests that wait for breaks go on, and what comes of them.

use crate::proto::messages::layout;
use crate::proto::messages::FileId;
use crate::server::changes;
use crate::server::completions;
use crate::server::completions::Ended;
use crate::server::compounds;
use crate::server::files;
use crate::server::leases;
use crate::server::lists;
use crate::server::opens;
use crate::server::pending;
use crate::server::ruling;
use crate::server::state;
use crate::server::state::{CompletedReplayModel, StateModel};
use crate::server::table;
use crate::server::tasks;
use crate::server::types::{
    ActionModel, BodyModel, BreakWaitModel, CreateWaitModel, LeaseGeneration,
    OpenRecordModel, ReplayKeyModel, TaskWaitModel, WriteWaitModel, NIL16,
};
use crate::server::waiting::WaitingModel;
use crate::server::writes;
use vstd::prelude::*;

verus! {

/// Whether a lease is being broken: some registered open has it, by a key that is not zeros.
pub open spec fn lease_breaks(records: Seq<OpenRecordModel>, key: [u8; 16]) -> bool {
    key != NIL16 && exists|i: int|
        0 <= i < records.len() && (#[trigger] records[i]).registration is Some
            && records[i].open.lease.version != 0 && records[i].open.lease.key == key
            && records[i].open.lease.breaking
}

/// A lease is being broken where one of its opens says so.
pub proof fn leases_break_by_their_opens(records: Seq<OpenRecordModel>, key: [u8; 16])
    ensures
        completions::lease_breaking(records, key) == lease_breaks(records, key),
{
    if lease_breaks(records, key) {
        let i = choose|i: int|
            0 <= i < records.len() && (#[trigger] records[i]).registration is Some
                && records[i].open.lease.version != 0 && records[i].open.lease.key == key
                && records[i].open.lease.breaking;
        assert(opens::breaks_lease(records[i], key));
    }
    if completions::lease_breaking(records, key) {
        let i = choose|i: int|
            0 <= i < records.len() && opens::breaks_lease(#[trigger] records[i], key);
        assert(records[i].open.lease.breaking);
    }
}

/// A request goes on when a lease that it waited for is settled and nothing that it waits for is
/// being broken any more; as long as one lease is, or where it did not wait for this one, it
/// does not.
pub proof fn requests_go_on_when_nothing_breaks(
    records: Seq<OpenRecordModel>,
    w: BreakWaitModel,
    key: [u8; 16],
    k: int,
)
    ensures
        !w.lease_keys.contains(key) ==> !completions::goes_on(records, w, Ended::Lease { key }),
        0 <= k < w.lease_keys.len() && lease_breaks(records, w.lease_keys[k])
            ==> !completions::goes_on(records, w, Ended::Lease { key }),
        w.lease_keys.contains(key) && w.oplock_file_ids.len() == 0 && (forall|i: int|
            0 <= i < w.lease_keys.len() ==> !lease_breaks(records, #[trigger] w.lease_keys[i]))
            ==> completions::goes_on(records, w, Ended::Lease { key }),
{
    if 0 <= k < w.lease_keys.len() {
        leases_break_by_their_opens(records, w.lease_keys[k]);
    }
    if forall|i: int|
        0 <= i < w.lease_keys.len() ==> !lease_breaks(records, #[trigger] w.lease_keys[i]) {
        assert forall|i: int| 0 <= i < w.lease_keys.len() implies !completions::lease_breaking(
            records,
            #[trigger] w.lease_keys[i],
        ) by {
            leases_break_by_their_opens(records, w.lease_keys[i]);
        }
    }
}

/// The same of oplocks: the oplock of the first registered open with the file id counts.
pub proof fn requests_go_on_when_no_oplock_breaks(
    records: Seq<OpenRecordModel>,
    w: BreakWaitModel,
    file_id: FileId,
    k: int,
    i: int,
)
    requires
        0 <= k < w.oplock_file_ids.len(),
        0 <= i < records.len(),
        records[i].registration is Some,
        records[i].open.file_id == w.oplock_file_ids[k],
        forall|j: int|
            0 <= j < i ==> (#[trigger] records[j]).registration is None
                || records[j].open.file_id != w.oplock_file_ids[k],
    ensures
        !w.oplock_file_ids.contains(file_id) ==> !completions::goes_on(
            records,
            w,
            Ended::Oplock { file_id },
        ),
        records[i].open.oplock.breaking ==> !completions::goes_on(
            records,
            w,
            Ended::Oplock { file_id },
        ),
        w.lease_keys.len() == 0 && w.oplock_file_ids == seq![w.oplock_file_ids[k]]
            && !records[i].open.oplock.breaking ==> completions::goes_on(
            records,
            w,
            Ended::Oplock { file_id: w.oplock_file_ids[k] },
        ),
{
    let id = w.oplock_file_ids[k];
    lists::first_at(records, completions::registered_as(id), i);
    assert(completions::oplock_breaking(records, id) == records[i].open.oplock.breaking);
    assert(w.oplock_file_ids.contains(id));
}

/// A create request that goes on is answered with its status and body, and the rest of its
/// compound goes on behind it. An answer of success that can be asked for again is kept, in
/// place of one that was kept before.
pub proof fn creates_are_answered(m: StateModel, w: WaitingModel<CreateWaitModel>)
    requires
        state::conn_alive(m.connections, w.conn),
    ensures
        ({
            let after = completions::create_done(m, w);
            &&& after.outbox == m.outbox.push(
                ActionModel::Respond {
                    conn: w.conn,
                    async_id: w.async_id,
                    status: w.detail.status,
                    body: w.detail.body,
                    compound: w.detail.compound,
                },
            )
            &&& after.opens == m.opens
            &&& w.detail.status != 0 || w.detail.replay.create_guid is None
                ==> after.completed_create_replays == m.completed_create_replays
            &&& w.detail.status == 0 && w.detail.replay.create_guid is Some
                ==> after.completed_create_replays.len() > 0
                && after.completed_create_replays.last() == (CompletedReplayModel {
                key: w.detail.replay,
                body: w.detail.body,
            })
        }),
{
}

/// An answer that cannot be asked for again, or is none of success, is not kept.
pub proof fn only_successes_are_kept(
    m: StateModel,
    key: ReplayKeyModel,
    status: u32,
    body: BodyModel,
    r: CompletedReplayModel,
)
    ensures
        status != 0 || key.create_guid is None ==> completions::replay_kept(m, key, status, body)
            == m,
        status == 0 && key.create_guid is Some ==> (completions::replay_kept(
            m,
            key,
            status,
            body,
        ).completed_create_replays.contains(r) <==> (m.completed_create_replays.contains(r) && r.key
            != key) || r == (CompletedReplayModel { key, body })),
{
    let s = m.completed_create_replays;
    let test = |r: CompletedReplayModel| r.key == key;
    assert(s.map_values(|r: CompletedReplayModel| r.key == key) =~= s.map_values(test));
    crate::server::selecting::items_are_parted_by_a_test(s, test, r);
    let left = completions::without_replay(s, key);
    let new = CompletedReplayModel { key, body };
    let all = left.push(new);
    if all.contains(r) {
        let i = choose|i: int| 0 <= i < all.len() && all[i] == r;
        if i < left.len() {
            assert(left[i] == r);
            assert(left.contains(r));
        }
    }
    if left.contains(r) {
        let i = choose|i: int| 0 <= i < left.len() && left[i] == r;
        assert(all[i] == r);
    }
    assert(all[left.len() as int] == new);
}

/// A write that goes on: where its open is gone or has no handle, the file is closed
/// (0xc0000128); where a lock forbids it, it is in conflict (0xc0000054); else it is handed out
/// as it is.
pub proof fn writes_are_handed_out_or_refused(
    m: StateModel,
    w: WaitingModel<WriteWaitModel>,
    i: int,
)
    requires
        state::conn_alive(m.connections, w.conn),
        0 <= i < m.opens.len(),
        m.opens[i].key == w.detail.open,
        forall|k: int| 0 <= k < i ==> (#[trigger] m.opens[k]).key != w.detail.open,
    ensures
        ({
            let after = writes::write_done(m, w);
            let locked = crate::server::locks::write_status(
                m.byte_range_locks,
                crate::server::locks::lock_key(w.detail.share, w.detail.path, w.detail.stream_name),
                w.file_id,
                w.detail.offset,
                w.detail.data.len() as u64,
            );
            let refusal = |status: u32|
                ActionModel::Respond {
                    conn: w.conn,
                    async_id: w.async_id,
                    status,
                    body: BodyModel::Error,
                    compound: w.detail.compound,
                };
            &&& locked != 0 ==> after.outbox == m.outbox.push(refusal(0xc000_0054))
            &&& locked == 0 && !m.opens[i].open.has_handle ==> after.outbox == m.outbox.push(
                refusal(0xc000_0128),
            )
            &&& locked == 0 && m.opens[i].open.has_handle ==> after.outbox == m.outbox.push(
                ActionModel::Write {
                    conn: w.conn,
                    async_id: w.async_id,
                    file_id: w.file_id,
                    write: w.detail,
                },
            )
            &&& after.opens == m.opens
        }),
{
    state::open_index_at(m.opens, w.detail.open, i);
}

/// A write whose open is gone finds the file closed; one whose connection is gone is dropped.
pub proof fn writes_of_closed_files_fail(m: StateModel, w: WaitingModel<WriteWaitModel>)
    requires
        forall|k: int| 0 <= k < m.opens.len() ==> (#[trigger] m.opens[k]).key != w.detail.open,
    ensures
        state::conn_alive(m.connections, w.conn) ==> writes::write_done(m, w).outbox
            == m.outbox.push(
            ActionModel::Respond {
                conn: w.conn,
                async_id: w.async_id,
                status: 0xc000_0128,
                body: BodyModel::Error,
                compound: w.detail.compound,
            },
        ),
        !state::conn_alive(m.connections, w.conn) ==> writes::write_done(m, w).outbox == m.outbox,
{
    state::open_index_is_first(m.opens, w.detail.open);
}

/// A write that was done leaves its open behind the last byte, sets times of the file unless it
/// was to a stream, and is told to watches as a change of size and contents; a write of nothing
/// only moves the open.
pub proof fn done_writes_move_the_open(
    m: StateModel,
    w: WriteWaitModel,
    file_id: FileId,
    count: u32,
    now: u64,
    i: int,
)
    requires
        w.offset + count <= u64::MAX,
        0 <= i < m.opens.len(),
        m.opens[i].key == w.open,
        forall|k: int| 0 <= k < i ==> (#[trigger] m.opens[k]).key != w.open,
    ensures
        ({
            let left = writes::left_at(m, w.open, (w.offset + count) as u64);
            let after = writes::data_written(m, w, file_id, count, now);
            &&& left.opens[i].open.current_offset == w.offset + count
            &&& left.opens.len() == m.opens.len()
            &&& forall|k: int|
                0 <= k < m.opens.len() && k != i ==> #[trigger] left.opens[k] == m.opens[k]
            &&& count == 0 ==> after == left
            &&& count > 0 && w.stream_name is Some ==> after == changes::modification_notified(
                left,
                w.share,
                w.path,
                w.is_directory,
                0x18,
            )
            &&& count > 0 && w.stream_name is None ==> after == changes::modification_notified(
                files::times_after_write(left, table::key_of(w.share, w.path), file_id, now),
                w.share,
                w.path,
                w.is_directory,
                0x18,
            )
        }),
{
    state::open_index_at(m.opens, w.open, i);
    ruling::rights_add_up();
}

/// The answer to a write tells how many bytes were written, in a body of sixteen bytes; a write
/// that failed is answered with its status and changes nothing.
pub proof fn writes_are_answered_with_their_count(
    m: StateModel,
    conn: u64,
    async_id: u64,
    file_id: FileId,
    w: WriteWaitModel,
    outcome: Result<u32, u32>,
    now: u64,
)
    requires
        state::conn_alive(m.connections, conn),
    ensures
        ({
            let after = writes::write_finished(m, conn, async_id, file_id, w, outcome, now);
            &&& outcome matches Err(status) ==> after == state::acted(
                m,
                ActionModel::Respond {
                    conn,
                    async_id,
                    status,
                    body: BodyModel::Error,
                    compound: w.compound,
                },
            )
            &&& outcome matches Ok(count) ==> after == state::acted(
                writes::data_written(m, w, file_id, count, now),
                ActionModel::Respond {
                    conn,
                    async_id,
                    status: 0,
                    body: BodyModel::Data(writes::write_body(count)),
                    compound: w.compound,
                },
            )
        }),
        outcome matches Ok(count) ==> {
            &&& writes::write_body(count).len() == 16
            &&& layout::number(writes::write_body(count), 0, 2) == 17
            &&& layout::number(writes::write_body(count), 4, 4) == count
            &&& layout::number(writes::write_body(count), 8, 4) == 0
        },
{
    if let Ok(count) = outcome {
        layout::write_response_is_written_in_place(
            crate::proto::messages::WriteResponse {
                structure_size: 17,
                reserved: 0,
                count,
                remaining: 0,
                write_channel_info_offset: 0,
                write_channel_info_length: 0,
            },
        );
    }
}

/// A task that goes on is handed out to run, once and as it is; its answer goes to who asked,
/// and is kept where it can be asked for again.
pub proof fn tasks_are_handed_out(
    m: StateModel,
    w: WaitingModel<TaskWaitModel>,
    status: u32,
    body: BodyModel,
)
    requires
        state::conn_alive(m.connections, w.conn),
    ensures
        tasks::task_started(m, w).outbox == m.outbox.push(
            ActionModel::RunTask { conn: w.conn, async_id: w.async_id, task: w.detail },
        ),
        tasks::task_finished(
            m,
            w.conn,
            w.async_id,
            w.detail.replay,
            w.detail.compound,
            status,
            body,
        ).outbox == m.outbox.push(
            ActionModel::Respond {
                conn: w.conn,
                async_id: w.async_id,
                status,
                body,
                compound: w.detail.compound,
            },
        ),
        tasks::task_finished(
            m,
            w.conn,
            w.async_id,
            w.detail.replay,
            w.detail.compound,
            status,
            body,
        ).completed_create_replays == completions::replay_kept(
            m,
            w.detail.replay,
            status,
            body,
        ).completed_create_replays,
{
}

/// A timer is started for the breaks that are waited for, with the generation that each lease
/// has then; where nothing is waited for, none is started.
pub proof fn timers_note_the_generation(m: StateModel, w: BreakWaitModel, k: int)
    requires
        0 <= k < w.lease_keys.len(),
    ensures
        completions::timer_started(m, w).outbox.len() == m.outbox.len() + 1,
        completions::timer_started(m, w).outbox.last() matches ActionModel::BreakTimer {
            leases: list,
            oplocks,
        } && oplocks == w.oplock_file_ids && list.len() == w.lease_keys.len() && list[k] == (
        LeaseGeneration {
            key: w.lease_keys[k],
            generation: leases::generation_of(m.lease_break_generations, w.lease_keys[k]),
        }),
        completions::timer_started(
            m,
            BreakWaitModel { lease_keys: Seq::empty(), oplock_file_ids: Seq::empty() },
        ) == m,
{
}

/// The rest of a compound request waits behind the create request, write or task that it was put
/// behind, and nothing else changes.
pub proof fn compounds_wait_behind_their_request(
    m: StateModel,
    conn: u64,
    async_id: u64,
    compound: u64,
    i: int,
)
    requires
        0 <= i < m.cache_break_creates.len(),
        m.cache_break_creates[i].conn == conn,
        m.cache_break_creates[i].async_id == async_id,
        forall|k: int|
            0 <= k < i ==> (#[trigger] m.cache_break_creates[k]).conn != conn
                || m.cache_break_creates[k].async_id != async_id,
    ensures
        ({
            let after = compounds::compound_attached(m, conn, async_id, compound);
            &&& after.cache_break_creates[i].detail.compound == Some(compound)
            &&& after.cache_break_creates[i].detail.status
                == m.cache_break_creates[i].detail.status
            &&& after.cache_break_creates[i].detail.wait == m.cache_break_creates[i].detail.wait
            &&& after.cache_break_creates.len() == m.cache_break_creates.len()
            &&& forall|k: int|
                0 <= k < m.cache_break_creates.len() && k != i
                    ==> #[trigger] after.cache_break_creates[k] == m.cache_break_creates[k]
            &&& after.cache_break_writes == m.cache_break_writes
            &&& after.cache_break_tasks == m.cache_break_tasks
        }),
{
    lists::first_at(m.cache_break_creates, compounds::request_is(conn, async_id), i);
}

/// The same behind a write, where no create request has the asynchronous id.
pub proof fn compounds_wait_behind_writes(
    m: StateModel,
    conn: u64,
    async_id: u64,
    compound: u64,
    i: int,
)
    requires
        forall|k: int|
            0 <= k < m.cache_break_creates.len() ==> (#[trigger] m.cache_break_creates[k]).conn
                != conn || m.cache_break_creates[k].async_id != async_id,
        0 <= i < m.cache_break_writes.len(),
        m.cache_break_writes[i].conn == conn,
        m.cache_break_writes[i].async_id == async_id,
        forall|k: int|
            0 <= k < i ==> (#[trigger] m.cache_break_writes[k]).conn != conn
                || m.cache_break_writes[k].async_id != async_id,
    ensures
        ({
            let after = compounds::compound_attached(m, conn, async_id, compound);
            &&& after.cache_break_writes[i].detail.compound == Some(compound)
            &&& after.cache_break_writes[i].detail.data == m.cache_break_writes[i].detail.data
            &&& after.cache_break_writes[i].detail.offset == m.cache_break_writes[i].detail.offset
            &&& after.cache_break_creates == m.cache_break_creates
            &&& after.cache_break_tasks == m.cache_break_tasks
        }),
{
    lists::first_at(
        m.cache_break_creates,
        compounds::request_is(conn, async_id),
        m.cache_break_creates.len() as int,
    );
    lists::first_at(m.cache_break_writes, compounds::request_is(conn, async_id), i);
}

/// A request that is refused is answered with the status and an error body.
pub proof fn refused_requests_are_answered<M>(m: StateModel, w: WaitingModel<M>, status: u32)
    requires
        state::conn_alive(m.connections, w.conn),
    ensures
        pending::refused_all(m, seq![w], status).outbox == m.outbox.push(
            ActionModel::Respond {
                conn: w.conn,
                async_id: w.async_id,
                status,
                body: BodyModel::Error,
                compound: None,
            },
        ),
{
    reveal_with_fuel(pending::refused_all, 2);
    assert(seq![w].drop_last() =~= Seq::empty());
}

/// A write is kept with its share in lower case; it waits for leases alone, and nothing waits
/// behind it yet.
pub proof fn kept_writes_wait_for_leases(w: WaitingModel<WriteWaitModel>)
    ensures
        writes::kept_write(w).detail.share == crate::text::lowered(w.detail.share),
        writes::kept_write(w).detail.wait.lease_keys == w.detail.wait.lease_keys,
        writes::kept_write(w).detail.wait.oplock_file_ids.len() == 0,
        writes::kept_write(w).detail.compound is None,
        writes::kept_write(w).detail.data == w.detail.data,
        writes::kept_write(w).detail.offset == w.detail.offset,
        writes::kept_write(w).detail.path == w.detail.path,
        writes::kept_write(w).detail.open == w.detail.open,
        writes::kept_write(w).file_id == w.file_id,
        writes::kept_write(w).conn == w.conn,
        writes::kept_write(w).async_id == w.async_id,
{
}

} // verus!
