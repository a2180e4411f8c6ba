//! The registry of opens: who has which file open, and what that allows others.

use crate::path;
use crate::path::{path_is_descendant, PathModel, SmbPath};
use crate::proto::messages::FileId;
use crate::server::rules;
use crate::server::rules::{
    access_is_lease_stat_open, share_conflict, share_enforced_by_access, DELETE, FILE_SHARE_DELETE,
    LEASE_HANDLE_CACHING, OPLOCK_NONE,
};
use crate::server::state;
use crate::server::state::{Place, ServerState, StateModel};
use crate::server::table::{key_of, PosixKey};
use crate::server::types;
use crate::server::types::{
    Lease, Open, OpenModel, OpenRecord, OpenRecordModel, Registration, RegistrationModel, NIL16,
};
use crate::server::waiting::take_flagged;
use crate::server::waiting;
use crate::text;
use crate::wire::array16_equal;
use vstd::prelude::*;

verus! {

/// The lease of all opens of a file with one key, taken together.
#[derive(Debug, Clone, Copy, PartialEq, Eq, Structural)]
pub struct SameKeyLeaseState {
    pub state: u32,
    pub flags: u32,
    pub epoch: u16,
    pub version: u8,
    pub breaking: bool,
}

/// Whether an open is registered.
pub open spec fn is_registered(r: OpenRecordModel) -> bool {
    r.registration is Some
}

/// An open without its registration.
pub open spec fn unregistered(r: OpenRecordModel) -> OpenRecordModel {
    OpenRecordModel { registration: None, ..r }
}

/// Opens after the registrations of those with a key are gone.
pub open spec fn without_registration(opens: Seq<OpenRecordModel>, key: u64) -> Seq<
    OpenRecordModel,
> {
    opens.map_values(
        |r: OpenRecordModel|
            if r.key == key {
                unregistered(r)
            } else {
                r
            },
    )
}

/// Opens after the registrations of those with a file id are gone.
pub open spec fn without_file_registration(opens: Seq<OpenRecordModel>, file_id: FileId) -> Seq<
    OpenRecordModel,
> {
    opens.map_values(
        |r: OpenRecordModel|
            if r.open.file_id == file_id {
                unregistered(r)
            } else {
                r
            },
    )
}

/// Where an open of a path and stream is registered.
pub open spec fn place_of(
    share: Seq<char>,
    path: PathModel,
    stream_name: Option<Seq<char>>,
    conn: u64,
) -> RegistrationModel {
    RegistrationModel {
        share: text::lowered(share),
        path,
        stream_name: types::opt_lowered(stream_name),
        conn,
    }
}

/// Opens after one that is known was registered: it stands behind the others.
pub open spec fn registered_again(
    opens: Seq<OpenRecordModel>,
    key: u64,
    place: RegistrationModel,
) -> Seq<OpenRecordModel> {
    let i = state::open_index(opens, key);
    opens.remove(i).push(OpenRecordModel { registration: Some(place), ..opens[i] })
}

/// Opens after one was registered, with the state that it has where it is known.
pub open spec fn registered(
    opens: Seq<OpenRecordModel>,
    key: u64,
    open: OpenModel,
    place: RegistrationModel,
) -> Seq<OpenRecordModel> {
    if state::open_alive(opens, key) {
        registered_again(opens, key, place)
    } else {
        opens.push(OpenRecordModel { key, registration: Some(place), open })
    }
}

/// An open whose registration was taken away gets it back: it is registered in the new
/// place, its state is what it was, and the other opens stay as they were.
pub proof fn registering_brings_an_open_back(
    opens: Seq<OpenRecordModel>,
    key: u64,
    place: RegistrationModel,
    open: OpenModel,
)
    requires
        state::open_alive(opens, key),
    ensures
        ({
            let i = state::open_index(opens, key);
            let after = registered(without_registration(opens, key), key, open, place);
            &&& after.len() == opens.len()
            &&& after.last() == (OpenRecordModel { registration: Some(place), ..opens[i] })
            &&& after.drop_last() == without_registration(opens, key).remove(i)
        }),
{
    let gone = without_registration(opens, key);
    let i = state::open_index(opens, key);
    state::open_index_is_first(opens, key);
    assert(gone[i].key == key);
    assert forall|j: int| 0 <= j < i implies (#[trigger] gone[j]).key != key by {
        assert(opens[j].key != key);
    }
    state::open_index_at(gone, key, i);
    assert(registered(gone, key, open, place).drop_last() =~= gone.remove(i));
}

/// Which opens have a key.
pub open spec fn keyed(opens: Seq<OpenRecordModel>, key: u64) -> Seq<bool> {
    opens.map_values(|r: OpenRecordModel| r.key == key)
}

/// Opens without those that have a key.
pub open spec fn without_open(opens: Seq<OpenRecordModel>, key: u64) -> Seq<OpenRecordModel> {
    waiting::unflagged(opens, keyed(opens, key))
}

/// The greater of two numbers.
pub open spec fn max16(a: u16, b: u16) -> u16 {
    if a >= b {
        a
    } else {
        b
    }
}

/// The greater of two numbers.
pub open spec fn max8(a: u8, b: u8) -> u8 {
    if a >= b {
        a
    } else {
        b
    }
}

/// Whether an open on a path and stream has a lease with a key.
pub open spec fn leased_with(
    r: OpenRecordModel,
    share: Seq<char>,
    path: PathModel,
    stream_name: Option<Seq<char>>,
    lease_key: [u8; 16],
) -> bool {
    state::on_stream(r, share, path, stream_name) && r.open.lease.key == lease_key
        && r.open.lease.version != 0
}

/// The leases of a key on a path and stream, taken together.
pub open spec fn united_lease(
    opens: Seq<OpenRecordModel>,
    share: Seq<char>,
    path: PathModel,
    stream_name: Option<Seq<char>>,
    lease_key: [u8; 16],
) -> SameKeyLeaseState
    decreases opens.len(),
{
    if opens.len() == 0 {
        SameKeyLeaseState { state: 0, flags: 0, epoch: 0, version: 0, breaking: false }
    } else {
        let before = united_lease(opens.drop_last(), share, path, stream_name, lease_key);
        let lease = opens.last().open.lease;
        if leased_with(opens.last(), share, path, stream_name, lease_key) {
            SameKeyLeaseState {
                state: before.state | lease.state,
                flags: before.flags | lease.flags,
                epoch: max16(before.epoch, lease.epoch),
                version: max8(before.version, lease.version),
                breaking: before.breaking || lease.breaking,
            }
        } else {
            before
        }
    }
}

/// A lease that was given the state of all leases with its key.
pub open spec fn with_lease_state(lease: Lease, new: SameKeyLeaseState) -> Lease {
    Lease {
        state: new.state,
        flags: new.flags,
        epoch: new.epoch,
        version: new.version,
        ..lease
    }
}

/// Whether an open leaves a lease with a key to others: it has no oplock, and it is for
/// looking at attributes only or has the same key.
pub open spec fn admits_lease(open: OpenModel, lease_key: [u8; 16]) -> bool {
    !(open.lease.version == 0 && open.oplock.level != OPLOCK_NONE) && ((open.lease.version == 0
        && open.lease.key == NIL16 && rules::stat_open(open.desired_access)) || open.lease.key
        == lease_key)
}

/// The parents of two paths, but for the root and without repetition, as a test.
pub open spec fn is_parent(parent: PathModel, from: PathModel, to: PathModel) -> bool {
    parent.len() > 0 && (path::parent_of(from) == Some(parent) || path::parent_of(to) == Some(
        parent,
    ))
}

/// Whether a registered open elsewhere has a lease with a key.
pub open spec fn leased_elsewhere(
    r: OpenRecordModel,
    share: Seq<char>,
    path: PathModel,
    stream_name: Option<Seq<char>>,
    lease_key: [u8; 16],
) -> bool {
    is_registered(r) && r.open.lease.version != 0 && r.open.lease.key == lease_key
        && !state::on_stream(r, share, path, stream_name)
}

/// Whether an open on a path and stream has a lease with another key.
pub open spec fn leased_otherwise(
    r: OpenRecordModel,
    share: Seq<char>,
    path: PathModel,
    stream_name: Option<Seq<char>>,
    lease_key: [u8; 16],
) -> bool {
    state::on_stream(r, share, path, stream_name) && r.open.lease.version != 0
        && r.open.lease.key != lease_key
}

/// Whether an open on a path and stream forbids a lease with a key.
pub open spec fn forbids_lease(
    r: OpenRecordModel,
    share: Seq<char>,
    path: PathModel,
    stream_name: Option<Seq<char>>,
    lease_key: [u8; 16],
) -> bool {
    state::on_stream(r, share, path, stream_name) && !admits_lease(r.open, lease_key)
}

/// Whether an open on a path and stream has an oplock and no lease.
pub open spec fn has_plain_oplock(
    r: OpenRecordModel,
    share: Seq<char>,
    path: PathModel,
    stream_name: Option<Seq<char>>,
) -> bool {
    state::on_stream(r, share, path, stream_name) && r.open.lease.version == 0
        && r.open.oplock.level != OPLOCK_NONE
}

/// Whether an open is on a path and stream.
pub open spec fn is_open(
    r: OpenRecordModel,
    share: Seq<char>,
    path: PathModel,
    stream_name: Option<Seq<char>>,
) -> bool {
    state::on_stream(r, share, path, stream_name)
}

/// Whether an open on a path and stream has a lease on handles.
pub open spec fn leases_handles(
    r: OpenRecordModel,
    share: Seq<char>,
    path: PathModel,
    stream_name: Option<Seq<char>>,
) -> bool {
    state::on_stream(r, share, path, stream_name) && r.open.lease.version != 0
        && r.open.lease.state & LEASE_HANDLE_CACHING != 0
}

/// Whether an open is registered and has a lease with a key.
pub open spec fn has_lease(r: OpenRecordModel, lease_key: [u8; 16]) -> bool {
    is_registered(r) && r.open.lease.version != 0 && r.open.lease.key == lease_key
}

/// Whether an open is registered and its lease with a key is being broken.
pub open spec fn breaks_lease(r: OpenRecordModel, lease_key: [u8; 16]) -> bool {
    has_lease(r, lease_key) && r.open.lease.breaking
}

/// Whether an open on a path and stream excludes access and share mode.
pub open spec fn excludes(
    r: OpenRecordModel,
    share: Seq<char>,
    path: PathModel,
    stream_name: Option<Seq<char>>,
    desired_access: u32,
    share_access: u32,
) -> bool {
    state::on_stream(r, share, path, stream_name)
        && rules::opens_conflict(desired_access, share_access, r.open.desired_access,
        r.open.share_access)
}

/// Whether an open withholds deletion: it is on the path, with the stream where one is
/// given, is not excepted, and is for more than looking at attributes.
pub open spec fn withholds_deletion(
    r: OpenRecordModel,
    share: Seq<char>,
    path: PathModel,
    stream_name: Option<Seq<char>>,
    except: Option<u64>,
) -> bool {
    (if stream_name is Some {
        state::on_stream(r, share, path, stream_name)
    } else {
        state::on_path(r, share, path)
    }) && except != Some(r.key) && !rules::stat_open(r.open.desired_access)
        && r.open.share_access & FILE_SHARE_DELETE == 0
}

/// Whether an open other than the excepted one is on a named stream of a path.
pub open spec fn on_named_stream(
    r: OpenRecordModel,
    share: Seq<char>,
    path: PathModel,
    except: Option<u64>,
) -> bool {
    state::on_path(r, share, path) && except != Some(r.key) && r.open.stream_name is Some
}

/// Whether an open other than the excepted one is on a path.
pub open spec fn other_on_path(
    r: OpenRecordModel,
    share: Seq<char>,
    path: PathModel,
    except: u64,
) -> bool {
    state::on_path(r, share, path) && r.key != except
}

/// Whether an open other than the excepted one lies below a directory.
pub open spec fn other_below(
    r: OpenRecordModel,
    share: Seq<char>,
    directory: PathModel,
    except: u64,
) -> bool {
    state::in_share(r, share) && path::is_below(r.registration->0.path, directory)
        && r.key != except
}

/// Whether an open other than the excepted one may delete a parent of one of two paths.
pub open spec fn deletes_parent(
    r: OpenRecordModel,
    share: Seq<char>,
    from: PathModel,
    to: PathModel,
    except: u64,
) -> bool {
    state::in_share(r, share) && is_parent(r.registration->0.path, from, to) && r.key != except
        && r.open.desired_access & DELETE != 0
}

/// Whether an open on a path is to delete it when it is closed.
pub open spec fn deletes_on_close(r: OpenRecordModel, share: Seq<char>, path: PathModel) -> bool {
    state::on_path(r, share, path) && r.open.delete_on_close
}

/// Whether an open is on a path.
pub open spec fn open_here(r: OpenRecordModel, share: Seq<char>, path: PathModel) -> bool {
    state::on_path(r, share, path)
}

proof fn lemma_unflagged_models(s: Seq<OpenRecord>, flags: Seq<bool>)
    ensures
        state::open_models(waiting::unflagged(s, flags)) == waiting::unflagged(
            state::open_models(s),
            flags,
        ),
    decreases s.len(),
{
    if s.len() > 0 {
        lemma_unflagged_models(s.drop_last(), flags);
        assert(state::open_models(s).drop_last() =~= state::open_models(s.drop_last()));
        let u = waiting::unflagged(s.drop_last(), flags);
        assert(state::open_models(u.push(s.last())) =~= state::open_models(u).push(s.last()@));
    } else {
        assert(state::open_models(waiting::unflagged(s, flags)) =~= Seq::empty());
    }
}

fn is_key(key: Option<u64>, other: u64) -> (r: bool)
    ensures
        r == (key == Some(other)),
{
    match key {
        Some(k) => k == other,
        None => false,
    }
}

fn is_below_directory(r: &OpenRecord, directory: &SmbPath) -> (b: bool)
    ensures
        b == (r@.registration matches Some(g) && path::is_below(g.path, directory@)),
{
    match &r.registration {
        Some(g) => path_is_descendant(&g.path, directory),
        None => false,
    }
}

fn is_parent_directory(r: &OpenRecord, from: &SmbPath, to: &SmbPath) -> (b: bool)
    ensures
        b == (r@.registration matches Some(g) && is_parent(g.path, from@, to@)),
{
    match &r.registration {
        Some(g) => {
            if g.path.is_root() {
                return false;
            }
            let a: bool = match from.parent() {
                Some(p) => g.path.same(&p),
                None => false,
            };
            let b: bool = match to.parent() {
                Some(p) => g.path.same(&p),
                None => false,
            };
            a || b
        },
        None => false,
    }
}

impl ServerState {
    /// Registers an open of a path and stream. An open that is known by its key is registered
    /// as it is: what is told of it here does not count.
    pub fn register_open(
        &mut self,
        share: &str,
        path: &SmbPath,
        stream_name: Option<&str>,
        key: u64,
        open: Open,
        conn: u64,
    )
        ensures
            final(self)@ == (StateModel {
                opens: registered(
                    old(self)@.opens,
                    key,
                    open@,
                    place_of(share@, path@, types::opt_str(stream_name), conn),
                ),
                ..old(self)@
            }),
    {
        if self.register_known_open(share, path, stream_name, key, conn) {
            return;
        }
        let registration = Registration {
            share: text::lower_string(share),
            path: path.duplicate(),
            stream_name: types::lower_opt(stream_name),
            conn,
        };
        let record = OpenRecord { key, registration: Some(registration), open };
        self.opens.push(record);
        assert(self@.opens =~= old(self)@.opens.push(record@));
    }

    /// Registers an open that is known by its key, with the state that it has; returns
    /// whether it is known. An open stands in one place of the registry, that where it was
    /// registered last, behind all others.
    pub fn register_known_open(
        &mut self,
        share: &str,
        path: &SmbPath,
        stream_name: Option<&str>,
        key: u64,
        conn: u64,
    ) -> (r: bool)
        ensures
            r == state::open_alive(old(self)@.opens, key),
            final(self)@ == if r {
                StateModel {
                    opens: registered_again(
                        old(self)@.opens,
                        key,
                        place_of(share@, path@, types::opt_str(stream_name), conn),
                    ),
                    ..old(self)@
                }
            } else {
                old(self)@
            },
    {
        match self.find_open(key) {
            None => false,
            Some(i) => {
                let ghost before = self@.opens;
                assert(before[i as int] == self.opens@[i as int]@);
                let registration = Registration {
                    share: text::lower_string(share),
                    path: path.duplicate(),
                    stream_name: types::lower_opt(stream_name),
                    conn,
                };
                let mut record: OpenRecord = self.opens.remove(i);
                assert(self@.opens =~= before.remove(i as int));
                record.registration = Some(registration);
                self.opens.push(record);
                assert(self@.opens =~= before.remove(i as int).push(record@));
                true
            },
        }
    }

    /// Takes an open out of the registry. It stays known.
    pub fn unregister_open(&mut self, key: u64)
        ensures
            final(self)@ == (StateModel {
                opens: without_registration(old(self)@.opens, key),
                ..old(self)@
            }),
    {
        let mut i: usize = 0;
        while i < self.opens.len()
            invariant
                i <= self.opens@.len(),
                self@ == (StateModel { opens: self@.opens, ..old(self)@ }),
                self.opens@.len() == old(self)@.opens.len(),
                forall|j: int|
                    0 <= j < i ==> self.opens@[j]@ == without_registration(
                        old(self)@.opens,
                        key,
                    )[j],
                forall|j: int|
                    i <= j < self.opens@.len() ==> self.opens@[j]@ == old(self)@.opens[j],
            decreases self.opens@.len() - i,
        {
            assert(self.opens@[i as int]@ == old(self)@.opens[i as int]);
            if self.opens[i].key == key {
                self.opens[i].registration = None;
            }
            i += 1;
        }
        assert(self@.opens =~= without_registration(old(self)@.opens, key));
    }

    /// Takes the opens of a file id out of the registry. They stay known.
    pub fn unregister_open_by_file_id(&mut self, file_id: FileId)
        ensures
            final(self)@ == (StateModel {
                opens: without_file_registration(old(self)@.opens, file_id),
                ..old(self)@
            }),
    {
        let mut i: usize = 0;
        while i < self.opens.len()
            invariant
                i <= self.opens@.len(),
                self@ == (StateModel { opens: self@.opens, ..old(self)@ }),
                self.opens@.len() == old(self)@.opens.len(),
                forall|j: int|
                    0 <= j < i ==> self.opens@[j]@ == without_file_registration(
                        old(self)@.opens,
                        file_id,
                    )[j],
                forall|j: int|
                    i <= j < self.opens@.len() ==> self.opens@[j]@ == old(self)@.opens[j],
            decreases self.opens@.len() - i,
        {
            assert(self.opens@[i as int]@ == old(self)@.opens[i as int]);
            if self.opens[i].open.file_id == file_id {
                self.opens[i].registration = None;
            }
            i += 1;
        }
        assert(self@.opens =~= without_file_registration(old(self)@.opens, file_id));
    }

    /// Forgets an open that nothing refers to any more.
    pub fn release_open(&mut self, key: u64)
        ensures
            final(self)@ == (StateModel {
                opens: without_open(old(self)@.opens, key),
                ..old(self)@
            }),
    {
        let mut flags: Vec<bool> = Vec::new();
        let mut i: usize = 0;
        while i < self.opens.len()
            invariant
                i <= self.opens@.len(),
                flags@.len() == i,
                forall|j: int| 0 <= j < i ==> flags@[j] == (self.opens@[j].key == key),
            decreases self.opens@.len() - i,
        {
            flags.push(self.opens[i].key == key);
            i += 1;
        }
        proof {
            assert(flags@ =~= keyed(self@.opens, key));
            lemma_unflagged_models(self.opens@, flags@);
        }
        let _ = take_flagged(&mut self.opens, &flags);
    }

    /// The leases of a key on a path and stream, taken together.
    pub fn same_key_lease_state(
        &self,
        share: &str,
        path: &SmbPath,
        stream_name: Option<&str>,
        lease_key: [u8; 16],
    ) -> (r: Option<SameKeyLeaseState>)
        ensures
            ({
                let all = united_lease(
                    self@.opens,
                    share@,
                    path@,
                    types::opt_str(stream_name),
                    lease_key,
                );
                r == if all.version != 0 {
                    Some(all)
                } else {
                    None
                }
            }),
    {
        let place = Place::new(share, path, stream_name);
        let mut all = SameKeyLeaseState { state: 0, flags: 0, epoch: 0, version: 0,
            breaking: false };
        let mut i: usize = 0;
        assert(self@.opens.take(0) =~= Seq::empty());
        while i < self.opens.len()
            invariant
                i <= self.opens@.len(),
                place.share@ == text::lowered(share@),
                place.path@ == path@,
                types::opt_text(place.stream_name) == types::opt_lowered(
                    types::opt_str(stream_name),
                ),
                all == united_lease(
                    self@.opens.take(i as int),
                    share@,
                    path@,
                    types::opt_str(stream_name),
                    lease_key,
                ),
            decreases self.opens@.len() - i,
        {
            let r: &OpenRecord = &self.opens[i];
            assert(self@.opens.take(i + 1).drop_last() =~= self@.opens.take(i as int));
            assert(self@.opens.take(i + 1).last() == r@);
            let lease: Lease = r.open.lease;
            if place.has_stream(r) && array16_equal(&lease.key, &lease_key) && lease.version != 0 {
                all = SameKeyLeaseState {
                    state: all.state | lease.state,
                    flags: all.flags | lease.flags,
                    epoch: if all.epoch >= lease.epoch {
                        all.epoch
                    } else {
                        lease.epoch
                    },
                    version: if all.version >= lease.version {
                        all.version
                    } else {
                        lease.version
                    },
                    breaking: all.breaking || lease.breaking,
                };
            }
            i += 1;
        }
        assert(self@.opens.take(i as int) =~= self@.opens);
        if all.version != 0 {
            Some(all)
        } else {
            None
        }
    }

    /// Gives all leases of a key on a path and stream the same state.
    pub fn update_same_key_lease_state(
        &mut self,
        share: &str,
        path: &SmbPath,
        stream_name: Option<&str>,
        lease_key: [u8; 16],
        lease: SameKeyLeaseState,
    )
        ensures
            final(self)@ == (StateModel {
                opens: old(self)@.opens.map_values(
                    |r: OpenRecordModel|
                        if leased_with(r, share@, path@, types::opt_str(stream_name), lease_key) {
                            OpenRecordModel {
                                open: OpenModel {
                                    lease: with_lease_state(r.open.lease, lease),
                                    ..r.open
                                },
                                ..r
                            }
                        } else {
                            r
                        },
                ),
                ..old(self)@
            }),
    {
        let place = Place::new(share, path, stream_name);
        let ghost stream = types::opt_str(stream_name);
        let mut i: usize = 0;
        while i < self.opens.len()
            invariant
                i <= self.opens@.len(),
                place.share@ == text::lowered(share@),
                place.path@ == path@,
                stream == types::opt_str(stream_name),
                types::opt_text(place.stream_name) == types::opt_lowered(stream),
                self@ == (StateModel { opens: self@.opens, ..old(self)@ }),
                self.opens@.len() == old(self)@.opens.len(),
                forall|j: int|
                    0 <= j < i ==> self.opens@[j]@ == if leased_with(
                        old(self)@.opens[j],
                        share@,
                        path@,
                        stream,
                        lease_key,
                    ) {
                        OpenRecordModel {
                            open: OpenModel {
                                lease: with_lease_state(old(self)@.opens[j].open.lease, lease),
                                ..old(self)@.opens[j].open
                            },
                            ..old(self)@.opens[j]
                        }
                    } else {
                        old(self)@.opens[j]
                    },
                forall|j: int|
                    i <= j < self.opens@.len() ==> self.opens@[j]@ == old(self)@.opens[j],
            decreases self.opens@.len() - i,
        {
            assert(self.opens@[i as int]@ == old(self)@.opens[i as int]);
            let current: Lease = self.opens[i].open.lease;
            if place.has_stream(&self.opens[i]) && array16_equal(&current.key, &lease_key)
                && current.version != 0 {
                self.opens[i].open.lease = Lease {
                    state: lease.state,
                    flags: lease.flags,
                    epoch: lease.epoch,
                    version: lease.version,
                    ..current
                };
            }
            i += 1;
        }
        assert(self@.opens =~= old(self)@.opens.map_values(
            |r: OpenRecordModel|
                if leased_with(r, share@, path@, stream, lease_key) {
                    OpenRecordModel {
                        open: OpenModel {
                            lease: with_lease_state(r.open.lease, lease),
                            ..r.open
                        },
                        ..r
                    }
                } else {
                    r
                },
        ));
    }

    /// Whether another path or stream has a lease with a key.
    pub fn lease_key_conflicts_with_path(
        &self,
        share: &str,
        path: &SmbPath,
        stream_name: Option<&str>,
        lease_key: [u8; 16],
    ) -> (r: bool)
        ensures
            r == (lease_key != NIL16 && exists|i: int| 0 <= i < self@.opens.len()
                && leased_elsewhere(#[trigger] self@.opens[i], share@, path@,
                types::opt_str(stream_name), lease_key)),
    {
        if ServerState::is_nil(&lease_key) {
            return false;
        }
        let place = Place::new(share, path, stream_name);
        let mut i: usize = 0;
        while i < self.opens.len()
            invariant
                i <= self.opens@.len(),
                place.share@ == text::lowered(share@),
                place.path@ == path@,
                types::opt_text(place.stream_name)
                    == types::opt_lowered(types::opt_str(stream_name)),
                lease_key != NIL16,
                forall|j: int| 0 <= j < i
                    ==> !leased_elsewhere(#[trigger] self@.opens[j], share@, path@,
                    types::opt_str(stream_name), lease_key),
            decreases self.opens@.len() - i,
        {
            let r: &OpenRecord = &self.opens[i];
            assert(self@.opens[i as int] == r@);
            if r.registration.is_some() && r.open.lease.version != 0
                && array16_equal(&r.open.lease.key, &lease_key) && !place.has_stream(r) {
                assert(leased_elsewhere(self@.opens[i as int], share@, path@,
                    types::opt_str(stream_name), lease_key));
                return true;
            }
            i += 1;
        }
        false
    }

    /// Whether a lease state can be granted beside leases with other keys: without
    /// write caching always, with it only where there are none.
    pub fn lease_state_can_share_with_other_keys(
        &self,
        share: &str,
        path: &SmbPath,
        stream_name: Option<&str>,
        lease_key: [u8; 16],
        requested_state: u32,
        write_caching: u32,
    ) -> (r: bool)
        ensures
            r == (lease_key != NIL16
                && (requested_state & write_caching == 0
                || !(exists|i: int| 0 <= i < self@.opens.len()
                && leased_otherwise(#[trigger] self@.opens[i], share@, path@,
                types::opt_str(stream_name), lease_key)))),
    {
        if ServerState::is_nil(&lease_key) {
            return false;
        }
        if requested_state & write_caching == 0 {
            return true;
        }
        let place = Place::new(share, path, stream_name);
        let mut i: usize = 0;
        while i < self.opens.len()
            invariant
                i <= self.opens@.len(),
                place.share@ == text::lowered(share@),
                place.path@ == path@,
                types::opt_text(place.stream_name)
                    == types::opt_lowered(types::opt_str(stream_name)),
                lease_key != NIL16,
                requested_state & write_caching != 0,
                forall|j: int| 0 <= j < i
                    ==> !leased_otherwise(#[trigger] self@.opens[j], share@, path@,
                    types::opt_str(stream_name), lease_key),
            decreases self.opens@.len() - i,
        {
            let r: &OpenRecord = &self.opens[i];
            assert(self@.opens[i as int] == r@);
            if place.has_stream(r) && r.open.lease.version != 0
                && !array16_equal(&r.open.lease.key, &lease_key) {
                assert(leased_otherwise(self@.opens[i as int], share@, path@,
                    types::opt_str(stream_name), lease_key));
                return false;
            }
            i += 1;
        }
        true
    }

    /// Whether a lease with a key can be granted on a path and stream.
    pub fn lease_caching_available(
        &self,
        share: &str,
        path: &SmbPath,
        stream_name: Option<&str>,
        lease_key: [u8; 16],
    ) -> (r: bool)
        ensures
            r == (lease_key != NIL16
                && !(exists|i: int| 0 <= i < self@.opens.len()
                && forbids_lease(#[trigger] self@.opens[i], share@, path@,
                types::opt_str(stream_name), lease_key))),
    {
        if ServerState::is_nil(&lease_key) {
            return false;
        }
        let place = Place::new(share, path, stream_name);
        let mut i: usize = 0;
        while i < self.opens.len()
            invariant
                i <= self.opens@.len(),
                place.share@ == text::lowered(share@),
                place.path@ == path@,
                types::opt_text(place.stream_name)
                    == types::opt_lowered(types::opt_str(stream_name)),
                lease_key != NIL16,
                forall|j: int| 0 <= j < i
                    ==> !forbids_lease(#[trigger] self@.opens[j], share@, path@,
                    types::opt_str(stream_name), lease_key),
            decreases self.opens@.len() - i,
        {
            let r: &OpenRecord = &self.opens[i];
            assert(self@.opens[i as int] == r@);
            if place.has_stream(r)
                && ((r.open.lease.version == 0 && r.open.oplock.level != OPLOCK_NONE)
                || (!(r.open.lease.version == 0 && ServerState::is_nil(&r.open.lease.key)
                && access_is_lease_stat_open(r.open.desired_access))
                && !array16_equal(&r.open.lease.key, &lease_key))) {
                assert(forbids_lease(self@.opens[i as int], share@, path@,
                    types::opt_str(stream_name), lease_key));
                return false;
            }
            i += 1;
        }
        true
    }

    /// Whether a lease on handles can be granted on a path and stream: no open
    /// without a lease has an oplock.
    pub fn lease_handle_caching_available(
        &self,
        share: &str,
        path: &SmbPath,
        stream_name: Option<&str>,
        lease_key: [u8; 16],
    ) -> (r: bool)
        ensures
            r == (lease_key != NIL16
                && !(exists|i: int| 0 <= i < self@.opens.len()
                && has_plain_oplock(#[trigger] self@.opens[i], share@, path@,
                types::opt_str(stream_name)))),
    {
        if ServerState::is_nil(&lease_key) {
            return false;
        }
        let place = Place::new(share, path, stream_name);
        let mut i: usize = 0;
        while i < self.opens.len()
            invariant
                i <= self.opens@.len(),
                place.share@ == text::lowered(share@),
                place.path@ == path@,
                types::opt_text(place.stream_name)
                    == types::opt_lowered(types::opt_str(stream_name)),
                lease_key != NIL16,
                forall|j: int| 0 <= j < i
                    ==> !has_plain_oplock(#[trigger] self@.opens[j], share@, path@,
                    types::opt_str(stream_name)),
            decreases self.opens@.len() - i,
        {
            let r: &OpenRecord = &self.opens[i];
            assert(self@.opens[i as int] == r@);
            if place.has_stream(r) && r.open.lease.version == 0
                && r.open.oplock.level != OPLOCK_NONE {
                assert(has_plain_oplock(self@.opens[i as int], share@, path@,
                    types::opt_str(stream_name)));
                return false;
            }
            i += 1;
        }
        true
    }

    /// Whether an exclusive oplock can be granted: nobody has the path and stream open.
    pub fn oplock_exclusive_available(
        &self,
        share: &str,
        path: &SmbPath,
        stream_name: Option<&str>,
    ) -> (r: bool)
        ensures
            r == (!(exists|i: int| 0 <= i < self@.opens.len()
                && is_open(#[trigger] self@.opens[i], share@, path@, types::opt_str(stream_name)))),
    {
        let place = Place::new(share, path, stream_name);
        let mut i: usize = 0;
        while i < self.opens.len()
            invariant
                i <= self.opens@.len(),
                place.share@ == text::lowered(share@),
                place.path@ == path@,
                types::opt_text(place.stream_name)
                    == types::opt_lowered(types::opt_str(stream_name)),
                forall|j: int| 0 <= j < i
                    ==> !is_open(#[trigger] self@.opens[j], share@, path@,
                    types::opt_str(stream_name)),
            decreases self.opens@.len() - i,
        {
            let r: &OpenRecord = &self.opens[i];
            assert(self@.opens[i as int] == r@);
            if place.has_stream(r) {
                assert(is_open(self@.opens[i as int], share@, path@, types::opt_str(stream_name)));
                return false;
            }
            i += 1;
        }
        true
    }

    /// Whether a shared oplock can be granted: nobody has a lease on handles.
    pub fn oplock_level_ii_available(
        &self,
        share: &str,
        path: &SmbPath,
        stream_name: Option<&str>,
    ) -> (r: bool)
        ensures
            r == (!(exists|i: int| 0 <= i < self@.opens.len()
                && leases_handles(#[trigger] self@.opens[i], share@, path@,
                types::opt_str(stream_name)))),
    {
        let place = Place::new(share, path, stream_name);
        let mut i: usize = 0;
        while i < self.opens.len()
            invariant
                i <= self.opens@.len(),
                place.share@ == text::lowered(share@),
                place.path@ == path@,
                types::opt_text(place.stream_name)
                    == types::opt_lowered(types::opt_str(stream_name)),
                forall|j: int| 0 <= j < i
                    ==> !leases_handles(#[trigger] self@.opens[j], share@, path@,
                    types::opt_str(stream_name)),
            decreases self.opens@.len() - i,
        {
            let r: &OpenRecord = &self.opens[i];
            assert(self@.opens[i as int] == r@);
            if place.has_stream(r) && r.open.lease.version != 0
                && r.open.lease.state & LEASE_HANDLE_CACHING != 0 {
                assert(leases_handles(self@.opens[i as int], share@, path@,
                    types::opt_str(stream_name)));
                return false;
            }
            i += 1;
        }
        true
    }

    /// Whether a lease with a key is registered.
    pub fn lease_key_exists(&self, lease_key: [u8; 16]) -> (r: bool)
        ensures
            r == (lease_key != NIL16 && exists|i: int| 0 <= i < self@.opens.len()
                && has_lease(#[trigger] self@.opens[i], lease_key)),
    {
        if ServerState::is_nil(&lease_key) {
            return false;
        }
        let mut i: usize = 0;
        while i < self.opens.len()
            invariant
                i <= self.opens@.len(),
                lease_key != NIL16,
                forall|j: int| 0 <= j < i ==> !has_lease(#[trigger] self@.opens[j], lease_key),
            decreases self.opens@.len() - i,
        {
            let r: &OpenRecord = &self.opens[i];
            assert(self@.opens[i as int] == r@);
            if r.registration.is_some() && r.open.lease.version != 0
                && array16_equal(&r.open.lease.key, &lease_key) {
                assert(has_lease(self@.opens[i as int], lease_key));
                return true;
            }
            i += 1;
        }
        false
    }

    /// Whether a lease with a key is being broken.
    pub fn lease_key_is_breaking(&self, lease_key: [u8; 16]) -> (r: bool)
        ensures
            r == (lease_key != NIL16 && exists|i: int| 0 <= i < self@.opens.len()
                && breaks_lease(#[trigger] self@.opens[i], lease_key)),
    {
        if ServerState::is_nil(&lease_key) {
            return false;
        }
        let mut i: usize = 0;
        while i < self.opens.len()
            invariant
                i <= self.opens@.len(),
                lease_key != NIL16,
                forall|j: int| 0 <= j < i ==> !breaks_lease(#[trigger] self@.opens[j], lease_key),
            decreases self.opens@.len() - i,
        {
            let r: &OpenRecord = &self.opens[i];
            assert(self@.opens[i as int] == r@);
            if r.registration.is_some() && r.open.lease.version != 0
                && array16_equal(&r.open.lease.key, &lease_key) && r.open.lease.breaking {
                assert(breaks_lease(self@.opens[i as int], lease_key));
                return true;
            }
            i += 1;
        }
        false
    }

    /// Whether access and share mode are excluded by an open of the path and stream.
    pub fn share_conflicts(
        &self,
        share: &str,
        path: &SmbPath,
        stream_name: Option<&str>,
        desired_access: u32,
        share_access: u32,
    ) -> (r: bool)
        ensures
            r == (exists|i: int| 0 <= i < self@.opens.len()
                && excludes(#[trigger] self@.opens[i], share@, path@, types::opt_str(stream_name),
                desired_access, share_access)),
    {
        let place = Place::new(share, path, stream_name);
        let mut i: usize = 0;
        while i < self.opens.len()
            invariant
                i <= self.opens@.len(),
                place.share@ == text::lowered(share@),
                place.path@ == path@,
                types::opt_text(place.stream_name)
                    == types::opt_lowered(types::opt_str(stream_name)),
                forall|j: int| 0 <= j < i
                    ==> !excludes(#[trigger] self@.opens[j], share@, path@,
                    types::opt_str(stream_name), desired_access, share_access),
            decreases self.opens@.len() - i,
        {
            let r: &OpenRecord = &self.opens[i];
            assert(self@.opens[i as int] == r@);
            if place.has_stream(r)
                && ((share_enforced_by_access(desired_access)
                && share_conflict(r.open.desired_access, share_access))
                || (share_enforced_by_access(r.open.desired_access)
                && share_conflict(desired_access, r.open.share_access))) {
                assert(excludes(self@.opens[i as int], share@, path@, types::opt_str(stream_name),
                    desired_access, share_access));
                return true;
            }
            i += 1;
        }
        false
    }

    /// Whether an open other than the given one withholds deletion of a path, or of
    /// one of its streams.
    pub fn delete_sharing_conflict(
        &self,
        share: &str,
        path: &SmbPath,
        stream_name: Option<&str>,
        except: Option<u64>,
    ) -> (r: bool)
        ensures
            r == (exists|i: int| 0 <= i < self@.opens.len()
                && withholds_deletion(#[trigger] self@.opens[i], share@, path@,
                types::opt_str(stream_name), except)),
    {
        let place = Place::new(share, path, stream_name);
        let mut i: usize = 0;
        while i < self.opens.len()
            invariant
                i <= self.opens@.len(),
                place.share@ == text::lowered(share@),
                place.path@ == path@,
                types::opt_text(place.stream_name)
                    == types::opt_lowered(types::opt_str(stream_name)),
                forall|j: int| 0 <= j < i
                    ==> !withholds_deletion(#[trigger] self@.opens[j], share@, path@,
                    types::opt_str(stream_name), except),
            decreases self.opens@.len() - i,
        {
            let r: &OpenRecord = &self.opens[i];
            assert(self@.opens[i as int] == r@);
            if (if stream_name.is_some() { place.has_stream(r) } else { place.has_path(r) })
                && !is_key(except, r.key) && !access_is_lease_stat_open(r.open.desired_access)
                && r.open.share_access & FILE_SHARE_DELETE == 0 {
                assert(withholds_deletion(self@.opens[i as int], share@, path@,
                    types::opt_str(stream_name), except));
                return true;
            }
            i += 1;
        }
        false
    }

    /// Whether an open other than the given one is on a named stream of a path.
    pub fn named_stream_open_on_base(
        &self,
        share: &str,
        path: &SmbPath,
        except: Option<u64>,
    ) -> (r: bool)
        ensures
            r == (exists|i: int| 0 <= i < self@.opens.len()
                && on_named_stream(#[trigger] self@.opens[i], share@, path@, except)),
    {
        let place = Place::new(share, path, None);
        let mut i: usize = 0;
        while i < self.opens.len()
            invariant
                i <= self.opens@.len(),
                place.share@ == text::lowered(share@),
                place.path@ == path@,
                forall|j: int| 0 <= j < i
                    ==> !on_named_stream(#[trigger] self@.opens[j], share@, path@, except),
            decreases self.opens@.len() - i,
        {
            let r: &OpenRecord = &self.opens[i];
            assert(self@.opens[i as int] == r@);
            if place.has_path(r) && !is_key(except, r.key) && r.open.stream_name.is_some() {
                assert(on_named_stream(self@.opens[i as int], share@, path@, except));
                return true;
            }
            i += 1;
        }
        false
    }

    /// Whether an open other than the given one is on a path.
    pub fn has_other_open(&self, share: &str, path: &SmbPath, except: u64) -> (r: bool)
        ensures
            r == (exists|i: int| 0 <= i < self@.opens.len()
                && other_on_path(#[trigger] self@.opens[i], share@, path@, except)),
    {
        let place = Place::new(share, path, None);
        let mut i: usize = 0;
        while i < self.opens.len()
            invariant
                i <= self.opens@.len(),
                place.share@ == text::lowered(share@),
                place.path@ == path@,
                forall|j: int| 0 <= j < i
                    ==> !other_on_path(#[trigger] self@.opens[j], share@, path@, except),
            decreases self.opens@.len() - i,
        {
            let r: &OpenRecord = &self.opens[i];
            assert(self@.opens[i as int] == r@);
            if place.has_path(r) && r.key != except {
                assert(other_on_path(self@.opens[i as int], share@, path@, except));
                return true;
            }
            i += 1;
        }
        false
    }

    /// Whether an open other than the given one lies below a directory.
    pub fn has_other_open_under_directory(
        &self,
        share: &str,
        directory: &SmbPath,
        except: u64,
    ) -> (r: bool)
        ensures
            r == (exists|i: int| 0 <= i < self@.opens.len()
                && other_below(#[trigger] self@.opens[i], share@, directory@, except)),
    {
        let place = Place::new(share, directory, None);
        let mut i: usize = 0;
        while i < self.opens.len()
            invariant
                i <= self.opens@.len(),
                place.share@ == text::lowered(share@),
                forall|j: int| 0 <= j < i
                    ==> !other_below(#[trigger] self@.opens[j], share@, directory@, except),
            decreases self.opens@.len() - i,
        {
            let r: &OpenRecord = &self.opens[i];
            assert(self@.opens[i as int] == r@);
            if place.has_share(r) && is_below_directory(r, directory) && r.key != except {
                assert(other_below(self@.opens[i as int], share@, directory@, except));
                return true;
            }
            i += 1;
        }
        false
    }

    /// Whether an open other than the given one may delete the directory that a
    /// path is renamed from or to.
    pub fn rename_parent_delete_conflict(
        &self,
        share: &str,
        from: &SmbPath,
        to: &SmbPath,
        except: u64,
    ) -> (r: bool)
        ensures
            r == (exists|i: int| 0 <= i < self@.opens.len()
                && deletes_parent(#[trigger] self@.opens[i], share@, from@, to@, except)),
    {
        let place = Place::new(share, from, None);
        let mut i: usize = 0;
        while i < self.opens.len()
            invariant
                i <= self.opens@.len(),
                place.share@ == text::lowered(share@),
                forall|j: int| 0 <= j < i
                    ==> !deletes_parent(#[trigger] self@.opens[j], share@, from@, to@, except),
            decreases self.opens@.len() - i,
        {
            let r: &OpenRecord = &self.opens[i];
            assert(self@.opens[i as int] == r@);
            if place.has_share(r) && is_parent_directory(r, from, to) && r.key != except
                && r.open.desired_access & DELETE != 0 {
                assert(deletes_parent(self@.opens[i as int], share@, from@, to@, except));
                return true;
            }
            i += 1;
        }
        false
    }

    /// Whether an open of a path is to delete it when it is closed.
    pub fn some_open_deletes(&self, share: &str, path: &SmbPath) -> (r: bool)
        ensures
            r == (exists|i: int| 0 <= i < self@.opens.len()
                && deletes_on_close(#[trigger] self@.opens[i], share@, path@)),
    {
        let place = Place::new(share, path, None);
        let mut i: usize = 0;
        while i < self.opens.len()
            invariant
                i <= self.opens@.len(),
                place.share@ == text::lowered(share@),
                place.path@ == path@,
                forall|j: int| 0 <= j < i
                    ==> !deletes_on_close(#[trigger] self@.opens[j], share@, path@),
            decreases self.opens@.len() - i,
        {
            let r: &OpenRecord = &self.opens[i];
            assert(self@.opens[i as int] == r@);
            if place.has_path(r) && r.open.delete_on_close {
                assert(deletes_on_close(self@.opens[i as int], share@, path@));
                return true;
            }
            i += 1;
        }
        false
    }

    /// Whether a path is open.
    pub fn some_open_on_path(&self, share: &str, path: &SmbPath) -> (r: bool)
        ensures
            r == (exists|i: int| 0 <= i < self@.opens.len()
                && open_here(#[trigger] self@.opens[i], share@, path@)),
    {
        let place = Place::new(share, path, None);
        let mut i: usize = 0;
        while i < self.opens.len()
            invariant
                i <= self.opens@.len(),
                place.share@ == text::lowered(share@),
                place.path@ == path@,
                forall|j: int| 0 <= j < i ==> !open_here(#[trigger] self@.opens[j], share@, path@),
            decreases self.opens@.len() - i,
        {
            let r: &OpenRecord = &self.opens[i];
            assert(self@.opens[i as int] == r@);
            if place.has_path(r) {
                assert(open_here(self@.opens[i as int], share@, path@));
                return true;
            }
            i += 1;
        }
        false
    }

    /// Whether a path is to be deleted. A mark on a path that is not open any more is
    /// taken away.
    pub fn open_delete_pending(&mut self, share: &str, path: &SmbPath) -> (r: bool)
        ensures
            ({
                let key = key_of(share@, path@);
                let marked = old(self)@.delete_pending.contains_key(key);
                let is_open = exists|i: int|
                    0 <= i < old(self)@.opens.len() && open_here(
                        #[trigger] old(self)@.opens[i],
                        share@,
                        path@,
                    );
                let deleting = exists|i: int|
                    0 <= i < old(self)@.opens.len() && deletes_on_close(
                        #[trigger] old(self)@.opens[i],
                        share@,
                        path@,
                    );
                r == ((marked && is_open) || deleting) && final(self)@ == if marked && !is_open {
                    StateModel {
                        delete_pending: old(self)@.delete_pending.remove(key),
                        ..old(self)@
                    }
                } else {
                    old(self)@
                }
            }),
    {
        let key = PosixKey::new(share, path);
        let marked: bool = self.delete_pending.contains(&key);
        let is_open: bool = self.some_open_on_path(share, path);
        if marked {
            if !is_open {
                self.delete_pending.remove(&key);
            } else {
                return true;
            }
        }
        self.some_open_deletes(share, path)
    }

    /// Marks a path as to be deleted.
    pub fn mark_delete_pending(&mut self, share: &str, path: &SmbPath)
        ensures
            final(self)@ == delete_marked(old(self)@, share@, path@),
    {
        self.delete_pending.set(PosixKey::new(share, path), true);
    }

    /// Takes the mark of a path away.
    pub fn clear_delete_pending(&mut self, share: &str, path: &SmbPath)
        ensures
            final(self)@ == delete_unmarked(old(self)@, share@, path@),
    {
        self.delete_pending.remove(&PosixKey::new(share, path));
    }

    /// Takes the mark of a path away where no other open is on it, and says whether there
    /// was one.
    pub fn take_delete_pending_if_last(&mut self, share: &str, path: &SmbPath, except: u64) -> (r:
        bool)
        ensures
            r == (!others_on_path(old(self)@.opens, share@, path@, except)
                && old(self)@.delete_pending.contains_key(key_of(share@, path@))),
            final(self)@ == if others_on_path(old(self)@.opens, share@, path@, except) {
                old(self)@
            } else {
                delete_unmarked(old(self)@, share@, path@)
            },
    {
        if self.has_other_open(share, path, except) {
            return false;
        }
        self.delete_pending.take(&PosixKey::new(share, path)).is_some()
    }

    /// Notes on the opens of a path that it was deleted.
    pub fn mark_posix_deleted_opens(&mut self, share: &str, path: &SmbPath)
        ensures
            final(self)@ == posix_deleted(old(self)@, share@, path@),
    {
        let place = Place::new(share, path, None);
        let mut i: usize = 0;
        while i < self.opens.len()
            invariant
                i <= self.opens@.len(),
                place.share@ == text::lowered(share@),
                place.path@ == path@,
                self@ == (StateModel { opens: self@.opens, ..old(self)@ }),
                self.opens@.len() == old(self)@.opens.len(),
                forall|j: int|
                    0 <= j < i ==> self.opens@[j]@ == deleted_record(
                        old(self)@.opens[j],
                        share@,
                        path@,
                    ),
                forall|j: int|
                    i <= j < self.opens@.len() ==> self.opens@[j]@ == old(self)@.opens[j],
            decreases self.opens@.len() - i,
        {
            assert(self.opens@[i as int]@ == old(self)@.opens[i as int]);
            if place.has_path(&self.opens[i]) {
                self.opens[i].open.posix_deleted = true;
            }
            i += 1;
        }
        assert(self@.opens =~= posix_deleted(old(self)@, share@, path@).opens);
    }
}

/// The state after a path was marked as to be deleted.
pub open spec fn delete_marked(m: StateModel, share: Seq<char>, path: PathModel) -> StateModel {
    StateModel { delete_pending: m.delete_pending.insert(key_of(share, path), true), ..m }
}

/// The state after the mark of a path was taken away.
pub open spec fn delete_unmarked(m: StateModel, share: Seq<char>, path: PathModel) -> StateModel {
    StateModel { delete_pending: m.delete_pending.remove(key_of(share, path)), ..m }
}

/// Whether an open other than the excepted one is on a path.
pub open spec fn others_on_path(
    opens: Seq<OpenRecordModel>,
    share: Seq<char>,
    path: PathModel,
    except: u64,
) -> bool {
    exists|i: int| 0 <= i < opens.len() && other_on_path(#[trigger] opens[i], share, path, except)
}

/// An open after its path was deleted.
pub open spec fn deleted_record(
    r: OpenRecordModel,
    share: Seq<char>,
    path: PathModel,
) -> OpenRecordModel {
    if state::on_path(r, share, path) {
        OpenRecordModel { open: OpenModel { posix_deleted: true, ..r.open }, ..r }
    } else {
        r
    }
}

/// The state after the opens of a path know that it was deleted.
pub open spec fn posix_deleted(m: StateModel, share: Seq<char>, path: PathModel) -> StateModel {
    StateModel {
        opens: m.opens.map_values(|r: OpenRecordModel| deleted_record(r, share, path)),
        ..m
    }
}

} // verus!
