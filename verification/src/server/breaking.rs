//! Breaks of leases and oplocks, their acknowledgments and their ends by force leave a
//! sound state sound.

use crate::path::PathModel;
use crate::proto::messages::FileId;
use crate::server::completions;
use crate::server::distinct;
use crate::server::durable;
use crate::server::keeping;
use crate::server::lease_acks;
use crate::server::leases;
use crate::server::leases::Notice;
use crate::server::lists;
use crate::server::oplocks;
use crate::server::rules;
use crate::server::soundness;
use crate::server::state;
use crate::server::state::StateModel;
use crate::server::timeouts;
use crate::server::trees;
use crate::server::types::{ActionModel, LeaseGeneration};
use vstd::prelude::*;

verus! {

// ---------------------------------------------------------------------------
// Leases
// ---------------------------------------------------------------------------

proof fn lemma_advanced(gens: Seq<LeaseGeneration>, key: [u8; 16])
    requires
        distinct::distinct(gens, soundness::generation_key()),
    ensures
        distinct::distinct(leases::advanced(gens, key), soundness::generation_key()),
{
    let next = LeaseGeneration {
        key,
        generation: leases::next_generation(leases::generation_of(gens, key)),
    };
    distinct::replaced_are_distinct(
        gens,
        leases::generation_is(key),
        next,
        soundness::generation_key(),
    );
}

proof fn lemma_noticed(gens: Seq<LeaseGeneration>, list: Seq<Notice>)
    requires
        distinct::distinct(gens, soundness::generation_key()),
    ensures
        distinct::distinct(leases::noticed_generations(gens, list), soundness::generation_key()),
    decreases list.len(),
{
    if list.len() > 0 {
        lemma_noticed(gens, list.drop_last());
        lemma_advanced(
            leases::noticed_generations(gens, list.drop_last()),
            list.last().notification.lease_key,
        );
    }
}

/// A state stays sound when leases are broken.
pub proof fn lease_breaks_keep_soundness(
    m: StateModel,
    flags: Seq<bool>,
    incoming: [u8; 16],
    target: u32,
)
    requires
        soundness::sound(m),
    ensures
        soundness::sound(leases::leases_broken(m, flags, incoming, target)),
{
    let after = leases::leases_broken(m, flags, incoming, target);
    keeping::lemma_opens_mapped(m.opens, after.opens);
    lemma_noticed(
        m.lease_break_generations,
        leases::notices(m, flags, incoming, target, m.opens.len() as int),
    );
}

proof fn lemma_lease_staged(
    m: StateModel,
    key: [u8; 16],
    lease_state: u32,
    next: u32,
    target: u32,
)
    requires
        soundness::sound(m),
    ensures
        soundness::sound(lease_acks::lease_staged(m, key, lease_state, next, target)),
{
    let opens = lease_acks::staged_opens(m, key, lease_state, next, target);
    keeping::lemma_opens_mapped(m.opens, opens);
    let staged = StateModel { opens, ..m };
    lemma_advanced(m.lease_break_generations, key);
    match lease_acks::told(m, key, m.opens.len() as int) {
        None => {
            keeping::lemma_lease_waits_resumed(staged, key);
        },
        Some(conn) => {
            let ask = leases::needs_ack(true, lease_state);
            let notification = leases::break_notification(
                key,
                lease_acks::highest_epoch(m.opens, key, m.opens.len() as int),
                ask,
                lease_state,
                next,
            );
            let counted = if ask {
                StateModel {
                    lease_break_generations: leases::advanced(m.lease_break_generations, key),
                    ..staged
                }
            } else {
                staged
            };
            let sent = state::acted(
                counted,
                ActionModel::LeaseBreak { conn, notifications: seq![notification] },
            );
            if !ask {
                keeping::lemma_lease_waits_resumed(sent, key);
            }
        },
    }
}

/// A state stays sound when the break of a lease is acknowledged.
pub proof fn lease_acknowledgments_keep_soundness(
    m: StateModel,
    key: [u8; 16],
    lease_state: u32,
)
    requires
        soundness::sound(m),
    ensures
        soundness::sound(lease_acks::lease_acked(m, key, lease_state)),
{
    let target = lease_acks::final_target(m.opens, key, lease_state, m.opens.len() as int);
    let opens = lease_acks::acked_opens(m.opens, key, lease_state);
    keeping::lemma_opens_mapped(m.opens, opens);
    let settled = StateModel { opens, ..m };
    keeping::lemma_lease_waits_resumed(settled, key);
    lemma_lease_staged(
        settled,
        key,
        lease_state,
        rules::staged_target(lease_state, target),
        target,
    );
}

// ---------------------------------------------------------------------------
// Oplocks
// ---------------------------------------------------------------------------

/// A state stays sound when oplocks are broken.
pub proof fn oplock_breaks_keep_soundness(
    m: StateModel,
    flags: Seq<bool>,
    target: u8,
    batch_only: bool,
)
    requires
        soundness::sound(m),
    ensures
        soundness::sound(oplocks::oplocks_broken(m, flags, target, batch_only)),
        soundness::sound(
            StateModel {
                opens: oplocks::level_ii_dropped(m.opens, flags),
                outbox: m.outbox + oplocks::level_ii_messages(m, flags, m.opens.len() as int),
                ..m
            },
        ),
{
    keeping::lemma_opens_mapped(
        m.opens,
        oplocks::oplocks_broken(m, flags, target, batch_only).opens,
    );
    keeping::lemma_opens_mapped(m.opens, oplocks::level_ii_dropped(m.opens, flags));
}

/// A state stays sound when the break of an oplock is acknowledged.
pub proof fn oplock_acknowledgments_keep_soundness(
    m: StateModel,
    conn: u64,
    file_id: FileId,
    level: u8,
)
    requires
        soundness::sound(m),
    ensures
        soundness::sound(oplocks::oplock_acked(m, conn, file_id, level)),
{
    let i = oplocks::acked_at(m, conn, file_id);
    lists::first_is_first(m.opens, oplocks::registered_on(conn, file_id));
    lists::first_is_first(m.opens, completions::registered_as(file_id));
    if i < m.opens.len() {
        let opens = m.opens.update(i, timeouts::with_oplock(m.opens[i], level));
        keeping::lemma_opens_mapped(m.opens, opens);
        keeping::lemma_oplock_waits_resumed(StateModel { opens, ..m }, file_id);
    }
}

/// A state stays sound when level II oplocks are lost.
pub proof fn lost_oplocks_keep_soundness(
    m: StateModel,
    share: Seq<char>,
    path: PathModel,
    stream_name: Option<Seq<char>>,
    file_id: FileId,
)
    requires
        soundness::sound(m),
    ensures
        soundness::sound(oplocks::level_ii_lost(m, share, path, stream_name)),
        soundness::sound(oplocks::own_level_ii_broken(m, share, path, stream_name, file_id)),
{
    keeping::lemma_opens_mapped(m.opens, oplocks::level_ii_lost(m, share, path, stream_name).opens);
    let test = oplocks::own_level_ii(share, path, stream_name, file_id);
    let i = lists::first(m.opens, test);
    lists::first_is_first(m.opens, test);
    if i < m.opens.len() {
        keeping::lemma_opens_mapped(
            m.opens,
            m.opens.update(i, timeouts::with_oplock(m.opens[i], rules::OPLOCK_NONE)),
        );
    }
}

// ---------------------------------------------------------------------------
// Force
// ---------------------------------------------------------------------------

proof fn lemma_force_taken_for(m: StateModel, keys: Seq<[u8; 16]>, n: int)
    requires
        soundness::connections_sound(m.connections),
    ensures
        soundness::connections_sound(timeouts::force_taken_for(m, keys, n)),
    decreases n,
{
    if n > 0 {
        lemma_force_taken_for(m, keys, n - 1);
        soundness::lemma_force_taken(
            timeouts::force_taken_for(m, keys, n - 1),
            m.opens[n - 1].registration->0.conn,
        );
    }
}

proof fn lemma_leases_forced(m: StateModel, keys: Seq<[u8; 16]>)
    requires
        soundness::sound(m),
    ensures
        soundness::sound(timeouts::leases_forced(m, keys)),
{
    keeping::lemma_opens_mapped(m.opens, timeouts::leases_forced(m, keys).opens);
    lemma_force_taken_for(m, keys, m.opens.len() as int);
}

/// A state stays sound when an open is closed by force.
pub proof fn forced_closes_keep_soundness(m: StateModel, conn: u64, file_id: FileId)
    requires
        soundness::sound(m),
    ensures
        soundness::sound(timeouts::force_closed(m, conn, file_id)),
{
    soundness::lemma_taken_on(m.connections, conn, file_id);
    let before = StateModel { connections: trees::taken_on(m.connections, conn, file_id), ..m };
    match trees::open_on(m.connections, conn, file_id) {
        None => {
            keeping::lemma_durable_released(before, file_id);
        },
        Some(open) => {
            keeping::lemma_durable_dropped(before, file_id);
            let dropped = durable::durable_dropped(before, file_id);
            let settled = timeouts::oplock_settled(dropped, open);
            state::open_index_is_first(dropped.opens, open);
            keeping::lemma_opens_mapped(dropped.opens, settled.opens);
            keeping::lemma_open_discarded(settled, open);
        },
    }
}

proof fn lemma_oplock_forced(m: StateModel, entry: (u64, u64), ids: Seq<FileId>)
    requires
        soundness::sound(m),
    ensures
        soundness::sound(timeouts::oplock_forced(m, entry, ids)),
{
    let i = state::open_index(m.opens, entry.0);
    state::open_index_is_first(m.opens, entry.0);
    if i < m.opens.len() {
        let r = m.opens[i];
        soundness::lemma_force_taken(m.connections, entry.1);
        let taken = StateModel {
            connections: timeouts::force_taken(m.connections, entry.1),
            ..m
        };
        forced_closes_keep_soundness(taken, entry.1, r.open.file_id);
        keeping::lemma_opens_mapped(
            m.opens,
            m.opens.update(i, timeouts::with_oplock(r, r.open.oplock.break_to)),
        );
    }
}

proof fn lemma_oplocks_forced(m: StateModel, list: Seq<(u64, u64)>, ids: Seq<FileId>)
    requires
        soundness::sound(m),
    ensures
        soundness::sound(timeouts::oplocks_forced(m, list, ids)),
    decreases list.len(),
{
    if list.len() > 0 {
        lemma_oplocks_forced(m, list.drop_last(), ids);
        lemma_oplock_forced(
            timeouts::oplocks_forced(m, list.drop_last(), ids),
            list.last(),
            ids,
        );
    }
}

/// A state stays sound when the time for breaks has run out.
pub proof fn timeouts_keep_soundness(
    m: StateModel,
    list: Seq<LeaseGeneration>,
    ids: Seq<FileId>,
)
    requires
        soundness::sound(m),
    ensures
        soundness::sound(timeouts::timed_out(m, list, ids)),
{
    let keys = timeouts::unchanged_keys(m.lease_break_generations, list);
    lemma_leases_forced(m, keys);
    let freed = timeouts::leases_forced(m, keys);
    let entries = timeouts::entries(freed, freed.opens.len() as int);
    lemma_oplocks_forced(freed, entries, ids);
    let closed = timeouts::oplocks_forced(freed, entries, ids);
    keeping::lemma_all_leases_resumed(closed, keys);
    keeping::lemma_all_oplocks_resumed(timeouts::all_leases_resumed(closed, keys), ids);
}

} // verus!
