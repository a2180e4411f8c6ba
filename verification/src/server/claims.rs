//! What opens claim of a path against others, by the fields of the opens.

use crate::path;
use crate::path::PathModel;
use crate::proto::messages::FileId;
use crate::server::opens;
use crate::server::rules;
use crate::server::state;
use crate::server::state::StateModel;
use crate::server::table;
use crate::server::types;
use crate::server::types::{
    OpenModel, OpenRecordModel, NIL16,
};
use crate::text;
use vstd::prelude::*;

verus! {

/// Whether an open is registered on a path of a share, the share in any case.
pub open spec fn is_at(r: OpenRecordModel, share: Seq<char>, path: PathModel) -> bool {
    &&& r.registration is Some
    &&& r.registration->0.share == text::lowered(share)
    &&& r.registration->0.path == path
}

/// Whether an open is registered on a path and a stream of a share, share and stream in any
/// case; the unnamed stream is one of its own.
pub open spec fn is_on(
    r: OpenRecordModel,
    share: Seq<char>,
    path: PathModel,
    stream_name: Option<Seq<char>>,
) -> bool {
    &&& is_at(r, share, path)
    &&& match stream_name {
        None => r.registration->0.stream_name is None,
        Some(s) => r.registration->0.stream_name == Some(text::lowered(s)),
    }
}

/// Opens are looked up by share, path and stream.
pub proof fn opens_are_known_by_their_place(
    r: OpenRecordModel,
    share: Seq<char>,
    path: PathModel,
    stream_name: Option<Seq<char>>,
)
    ensures
        state::on_path(r, share, path) == is_at(r, share, path),
        state::on_stream(r, share, path, stream_name) == is_on(r, share, path, stream_name),
        opens::open_here(r, share, path) == is_at(r, share, path),
        opens::is_open(r, share, path, stream_name) == is_on(r, share, path, stream_name),
        state::in_share(r, share) == (r.registration is Some && r.registration->0.share
            == text::lowered(share)),
{
}

/// An open is registered for a connection under its path, share and stream in lower case, behind
/// the others; nothing else of it, or of the others, changes.
pub proof fn new_opens_are_registered_last(
    records: Seq<OpenRecordModel>,
    key: u64,
    open: OpenModel,
    share: Seq<char>,
    path: PathModel,
    stream_name: Option<Seq<char>>,
    conn: u64,
)
    requires
        forall|i: int| 0 <= i < records.len() ==> (#[trigger] records[i]).key != key,
    ensures
        ({
            let place = opens::place_of(share, path, stream_name, conn);
            let after = opens::registered(records, key, open, place);
            &&& after == records.push(
                OpenRecordModel { key, registration: Some(place), open },
            )
            &&& is_on(after.last(), share, path, stream_name)
            &&& after.last().registration->0.conn == conn
        }),
{
    state::open_index_is_first(records, key);
}

/// Opens with a key, or with a file id, lose their registration; the others keep theirs.
pub proof fn registrations_are_taken_by_key_or_file(
    records: Seq<OpenRecordModel>,
    key: u64,
    file_id: FileId,
    i: int,
)
    requires
        0 <= i < records.len(),
    ensures
        ({
            let by_key = opens::without_registration(records, key)[i];
            let by_file = opens::without_file_registration(records, file_id)[i];
            &&& by_key.open == records[i].open && by_key.key == records[i].key
            &&& by_file.open == records[i].open && by_file.key == records[i].key
            &&& records[i].key == key ==> by_key.registration is None
            &&& records[i].key != key ==> by_key == records[i]
            &&& records[i].open.file_id == file_id ==> by_file.registration is None
            &&& records[i].open.file_id != file_id ==> by_file == records[i]
        }),
{
}

/// A new open is excluded by one on the same path and stream where their access and share modes
/// exclude each other, and by none elsewhere.
pub proof fn opens_exclude_others_on_their_stream(
    r: OpenRecordModel,
    share: Seq<char>,
    path: PathModel,
    stream_name: Option<Seq<char>>,
    access: u32,
    mode: u32,
)
    ensures
        opens::excludes(r, share, path, stream_name, access, mode) <==> is_on(
            r,
            share,
            path,
            stream_name,
        ) && rules::opens_conflict(r.open.desired_access, r.open.share_access, access, mode),
{
    rules::open_conflicts_are_mutual(access, mode, r.open.desired_access, r.open.share_access);
}

/// An open withholds the deletion of its path where it does not share it (0x4) and is for more
/// than looking at attributes, unless it is the one that asks. Where a stream is named, only
/// opens of that stream do.
pub proof fn opens_withhold_deletion(
    r: OpenRecordModel,
    share: Seq<char>,
    path: PathModel,
    stream: Seq<char>,
    except: Option<u64>,
)
    ensures
        opens::withholds_deletion(r, share, path, None, except) <==> is_at(r, share, path)
            && except != Some(r.key) && !rules::stat_open(r.open.desired_access)
            && r.open.share_access & 0x4 == 0,
        opens::withholds_deletion(r, share, path, Some(stream), except) <==> is_on(
            r,
            share,
            path,
            Some(stream),
        ) && except != Some(r.key) && !rules::stat_open(r.open.desired_access)
            && r.open.share_access & 0x4 == 0,
{
}

/// A lease with a key is admitted beside an open that has no oplock of its own and either is for
/// looking at attributes only, without any lease, or has the same key.
pub proof fn leases_are_admitted_beside_opens(o: OpenModel, key: [u8; 16])
    ensures
        o.lease.version == 0 && o.oplock.level != 0 ==> !opens::admits_lease(o, key),
        o.lease.version != 0 ==> (opens::admits_lease(o, key) <==> o.lease.key == key),
        o.lease.version == 0 && o.oplock.level == 0 && o.lease.key == NIL16 && key != NIL16 ==> (
        opens::admits_lease(o, key) <==> rules::stat_open(o.desired_access)),
{
}

/// Leases of a path and stream, by their key: those with the key, those with another, and those
/// elsewhere with the key; an oplock is plain where there is no lease.
pub proof fn leases_are_told_apart_by_key(
    r: OpenRecordModel,
    share: Seq<char>,
    path: PathModel,
    stream_name: Option<Seq<char>>,
    key: [u8; 16],
)
    ensures
        opens::leased_with(r, share, path, stream_name, key) <==> is_on(r, share, path, stream_name)
            && r.open.lease.version != 0 && r.open.lease.key == key,
        opens::leased_otherwise(r, share, path, stream_name, key) <==> is_on(
            r,
            share,
            path,
            stream_name,
        ) && r.open.lease.version != 0 && r.open.lease.key != key,
        opens::leased_elsewhere(r, share, path, stream_name, key) <==> r.registration is Some
            && r.open.lease.version != 0 && r.open.lease.key == key && !is_on(
            r,
            share,
            path,
            stream_name,
        ),
        opens::has_plain_oplock(r, share, path, stream_name) <==> is_on(r, share, path, stream_name)
            && r.open.lease.version == 0 && r.open.oplock.level != 0,
        opens::leases_handles(r, share, path, stream_name) <==> is_on(r, share, path, stream_name)
            && r.open.lease.version != 0 && r.open.lease.state & 0x2 != 0,
        opens::has_lease(r, key) <==> r.registration is Some && r.open.lease.version != 0
            && r.open.lease.key == key,
        opens::breaks_lease(r, key) <==> r.registration is Some && r.open.lease.version != 0
            && r.open.lease.key == key && r.open.lease.breaking,
{
}

/// The leases of one key taken together have every right that one of them has, the highest epoch
/// and version, and are being broken where one is.
pub proof fn united_leases_have_what_each_has(
    records: Seq<OpenRecordModel>,
    share: Seq<char>,
    path: PathModel,
    stream_name: Option<Seq<char>>,
    key: [u8; 16],
    i: int,
)
    requires
        0 <= i < records.len(),
        is_on(records[i], share, path, stream_name),
        records[i].open.lease.version != 0,
        records[i].open.lease.key == key,
    ensures
        ({
            let all = opens::united_lease(records, share, path, stream_name, key);
            let l = records[i].open.lease;
            &&& l.state & !all.state == 0
            &&& l.flags & !all.flags == 0
            &&& l.epoch <= all.epoch
            &&& l.version <= all.version
            &&& l.breaking ==> all.breaking
        }),
    decreases records.len(),
{
    let head = records.drop_last();
    let before = opens::united_lease(head, share, path, stream_name, key);
    let last = records.last().open.lease;
    let l = records[i].open.lease;
    if i < head.len() {
        assert(head[i] == records[i]);
        united_leases_have_what_each_has(head, share, path, stream_name, key, i);
    }
    let (a, b, c) = (before.state, last.state, l.state);
    let (d, e, f) = (before.flags, last.flags, l.flags);
    assert((c & !a == 0 ==> c & !(a | b) == 0) && b & !(a | b) == 0 && (f & !d == 0 ==> f & !(d | e)
        == 0) && e & !(d | e) == 0) by (bit_vector);
}

/// Where no open on the path and stream has a lease with the key, there is nothing to unite.
pub proof fn no_leases_unite_to_nothing(
    records: Seq<OpenRecordModel>,
    share: Seq<char>,
    path: PathModel,
    stream_name: Option<Seq<char>>,
    key: [u8; 16],
)
    requires
        forall|i: int|
            0 <= i < records.len() ==> !is_on(#[trigger] records[i], share, path, stream_name)
                || records[i].open.lease.version == 0 || records[i].open.lease.key != key,
    ensures
        ({
            let all = opens::united_lease(records, share, path, stream_name, key);
            all.state == 0 && all.flags == 0 && all.epoch == 0 && all.version == 0 && !all.breaking
        }),
    decreases records.len(),
{
    if records.len() > 0 {
        let head = records.drop_last();
        assert forall|i: int| 0 <= i < head.len() implies !is_on(
            #[trigger] head[i],
            share,
            path,
            stream_name,
        ) || head[i].open.lease.version == 0 || head[i].open.lease.key != key by {
            assert(head[i] == records[i]);
        }
        no_leases_unite_to_nothing(head, share, path, stream_name, key);
        assert(records[records.len() - 1] == records.last());
    }
}

/// A lease that is given the state of all with its key has their rights, flags, epoch and
/// version, and keeps its key and what it is being broken to.
pub proof fn leases_take_the_united_state(
    lease: types::Lease,
    new: crate::server::opens::SameKeyLeaseState,
)
    ensures
        opens::with_lease_state(lease, new).state == new.state,
        opens::with_lease_state(lease, new).flags == new.flags,
        opens::with_lease_state(lease, new).epoch == new.epoch,
        opens::with_lease_state(lease, new).version == new.version,
        opens::with_lease_state(lease, new).key == lease.key,
        opens::with_lease_state(lease, new).breaking == lease.breaking,
        opens::with_lease_state(lease, new).break_to == lease.break_to,
{
}

/// Others of a path: opens on it, on a named stream of it, below it, or on the parent of what is
/// renamed with the right to delete (0x10000); the one that asks never counts.
pub proof fn others_are_told_apart(
    r: OpenRecordModel,
    share: Seq<char>,
    p: PathModel,
    from: PathModel,
    to: PathModel,
    except: u64,
)
    ensures
        opens::other_on_path(r, share, p, except) <==> is_at(r, share, p) && r.key != except,
        opens::on_named_stream(r, share, p, Some(except)) <==> is_at(r, share, p) && r.key != except
            && r.open.stream_name is Some,
        opens::on_named_stream(r, share, p, None) <==> is_at(r, share, p) && r.open.stream_name
            is Some,
        opens::other_below(r, share, p, except) <==> r.registration is Some
            && r.registration->0.share == text::lowered(share) && r.key != except && path::is_below(
            r.registration->0.path,
            p,
        ),
        opens::deletes_parent(r, share, from, to, except) <==> r.registration is Some
            && r.registration->0.share == text::lowered(share) && r.key != except
            && r.open.desired_access & 0x0001_0000 != 0 && r.registration->0.path.len() > 0 && ((
        from.len() > 0 && from.drop_last() == r.registration->0.path) || (to.len() > 0
            && to.drop_last() == r.registration->0.path)),
        opens::deletes_on_close(r, share, p) <==> is_at(r, share, p) && r.open.delete_on_close,
{
}

/// A path lies below another where it is longer and starts with its components, but for case.
pub proof fn paths_lie_below_others(p: PathModel, ancestor: PathModel)
    ensures
        path::is_below(p, ancestor) <==> p.len() > ancestor.len() && forall|i: int|
            0 <= i < ancestor.len() ==> text::same_ignoring_case(#[trigger] p[i], ancestor[i]),
        path::parent_of(p) matches Some(parent) ==> p.len() > 0 && parent == p.drop_last(),
        path::parent_of(p) is None <==> p.len() == 0,
{
}

/// A path that is marked as to be deleted stays marked until the mark is taken away; other marks
/// stay.
pub proof fn marks_are_kept_until_taken(
    m: StateModel,
    share: Seq<char>,
    path: PathModel,
    other: table::KeyModel,
)
    ensures
        ({
            let marked = opens::delete_marked(m, share, path);
            let unmarked = opens::delete_unmarked(m, share, path);
            let key = table::key_of(share, path);
            &&& marked.delete_pending.contains_key(key) && marked.delete_pending[key]
            &&& !unmarked.delete_pending.contains_key(key)
            &&& other != key ==> marked.delete_pending.contains_key(other)
                == m.delete_pending.contains_key(other)
            &&& other != key ==> unmarked.delete_pending.contains_key(other)
                == m.delete_pending.contains_key(other)
            &&& marked.opens == m.opens && unmarked.opens == m.opens
        }),
{
}

/// The opens of a deleted path know that it is deleted; other opens do not.
pub proof fn opens_of_a_deleted_path_know(
    m: StateModel,
    share: Seq<char>,
    path: PathModel,
    i: int,
)
    requires
        0 <= i < m.opens.len(),
    ensures
        ({
            let after = opens::posix_deleted(m, share, path).opens[i];
            &&& is_at(m.opens[i], share, path) ==> after.open.posix_deleted && after.registration
                == m.opens[i].registration && after.open.has_handle == m.opens[i].open.has_handle
            &&& !is_at(m.opens[i], share, path) ==> after == m.opens[i]
        }),
{
}

} // verus!
