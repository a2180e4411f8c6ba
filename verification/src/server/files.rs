//! What is kept beside the files: metadata, descriptors, attributes, times and sizes.

use crate::backend::{
    default_file_attributes, FileInfo, FileTimes, FILE_ATTRIBUTE_ARCHIVE, FILE_ATTRIBUTE_DIRECTORY,
};
use crate::info_class::ea;
use crate::info_class::ea::{EaModel, ExtendedAttribute};
use crate::info_class::PosixMetadata;
use crate::path::SmbPath;
use crate::proto::messages::FileId;
use crate::server::lists;
use crate::server::rules;
use crate::server::rules::{normalize_stored_file_attributes, round_allocation_size};
use crate::server::state::{EaList, FilesModel, ServerState, StateModel};
use crate::server::table;
use crate::server::table::{key_of, KeyModel, PosixKey};
use crate::text;
use crate::text::eq_ignore_ascii_case;
use crate::wire::copy_range;
use vstd::prelude::*;

verus! {

/// The value of a key, where it has one.
pub open spec fn stored<A>(entries: Map<KeyModel, A>, key: KeyModel) -> Option<A> {
    if entries.contains_key(key) {
        Some(entries[key])
    } else {
        None
    }
}

// ---------------------------------------------------------------------------
// Extended attributes
// ---------------------------------------------------------------------------

/// Whether an extended attribute has a name.
pub open spec fn attribute_is(name: Seq<char>) -> spec_fn(EaModel) -> bool {
    |e: EaModel| text::same_ignoring_case(e.name, name)
}

/// Extended attributes after one was set; an empty value removes it.
pub open spec fn with_attribute(list: Seq<EaModel>, update: EaModel) -> Seq<EaModel> {
    let i = lists::first(list, attribute_is(update.name));
    if i < list.len() {
        if update.value.len() == 0 {
            list.remove(i)
        } else {
            list.update(i, update)
        }
    } else if update.value.len() > 0 {
        list.push(update)
    } else {
        list
    }
}

/// Extended attributes after several were set, one after the other.
pub open spec fn with_attributes(list: Seq<EaModel>, updates: Seq<EaModel>) -> Seq<EaModel>
    decreases updates.len(),
{
    if updates.len() == 0 {
        list
    } else {
        with_attribute(with_attributes(list, updates.drop_last()), updates.last())
    }
}

/// The extended attributes of a file.
pub open spec fn attributes_of(m: StateModel, key: KeyModel) -> Seq<EaModel> {
    if m.files.extended_attributes.contains_key(key) {
        m.files.extended_attributes[key]
    } else {
        Seq::empty()
    }
}

/// The state after extended attributes of a file were set.
pub open spec fn attributes_applied(
    m: StateModel,
    key: KeyModel,
    updates: Seq<EaModel>,
) -> StateModel {
    let list = with_attributes(attributes_of(m, key), updates);
    StateModel {
        files: FilesModel {
            extended_attributes: if list.len() == 0 {
                m.files.extended_attributes.remove(key)
            } else {
                m.files.extended_attributes.insert(key, list)
            },
            ..m.files
        },
        ..m
    }
}

/// An extended attribute that was set to a value is found with that value.
pub proof fn set_attribute_is_found(list: Seq<EaModel>, update: EaModel)
    ensures
        update.value.len() > 0 ==> ({
            let after = with_attribute(list, update);
            let i = lists::first(after, attribute_is(update.name));
            i < after.len() && after[i] == update
        }),
{
    if update.value.len() > 0 {
        let test = attribute_is(update.name);
        let after = with_attribute(list, update);
        let i = lists::first(list, test);
        lists::first_is_first(list, test);
        assert forall|j: int| 0 <= j < i implies !test(#[trigger] after[j]) by {
            assert(after[j] == list[j]);
            assert(!test(list[j]));
        }
        assert(after[i] == update);
        lists::first_at(after, test, i);
    }
}

// ---------------------------------------------------------------------------
// Times
// ---------------------------------------------------------------------------

/// Whether there is no time to set.
pub open spec fn no_times(t: FileTimes) -> bool {
    t.creation_time is None && t.last_access_time is None && t.last_write_time is None
        && t.change_time is None
}

/// A time, unless another is to be set.
pub open spec fn newer(old: Option<u64>, new: Option<u64>) -> Option<u64> {
    if new is Some {
        new
    } else {
        old
    }
}

/// Times with those that are to be set.
pub open spec fn merged_times(old: FileTimes, new: FileTimes) -> FileTimes {
    FileTimes {
        creation_time: newer(old.creation_time, new.creation_time),
        last_access_time: newer(old.last_access_time, new.last_access_time),
        last_write_time: newer(old.last_write_time, new.last_write_time),
        change_time: newer(old.change_time, new.change_time),
    }
}

/// No times.
pub open spec fn unset_times() -> FileTimes {
    FileTimes {
        creation_time: None,
        last_access_time: None,
        last_write_time: None,
        change_time: None,
    }
}

/// The times that are kept of a file.
pub open spec fn times_of(m: StateModel, key: KeyModel) -> FileTimes {
    if m.files.file_times.contains_key(key) {
        m.files.file_times[key]
    } else {
        unset_times()
    }
}

/// The state after times of a file were set. An open that sets the time of the last write
/// keeps it through its own writes.
pub open spec fn times_applied(
    m: StateModel,
    key: KeyModel,
    times: FileTimes,
    owner: Option<FileId>,
) -> StateModel {
    let sticky = owner is Some && times.last_write_time is Some;
    if no_times(times) {
        m
    } else {
        StateModel {
            files: FilesModel {
                file_times: m.files.file_times.insert(key, merged_times(times_of(m, key), times)),
                pinned_write_times: if sticky {
                    m.files.pinned_write_times.remove(key)
                } else {
                    m.files.pinned_write_times
                },
                sticky_write_time_owners: if sticky {
                    m.files.sticky_write_time_owners.insert(key, owner->0)
                } else {
                    m.files.sticky_write_time_owners
                },
                ..m.files
            },
            ..m
        }
    }
}

/// The times of a write.
pub open spec fn write_times(now: u64) -> FileTimes {
    FileTimes { last_write_time: Some(now), change_time: Some(now), ..unset_times() }
}

/// The state after the time of the last write was set for good.
pub open spec fn write_time_forced(m: StateModel, key: KeyModel, now: u64) -> StateModel {
    times_applied(
        StateModel {
            files: FilesModel {
                sticky_write_time_owners: m.files.sticky_write_time_owners.remove(key),
                pinned_write_times: m.files.pinned_write_times.insert(key, true),
                ..m.files
            },
            ..m
        },
        key,
        write_times(now),
        None,
    )
}

/// Times without those that a write changes.
pub open spec fn without_write_times(t: FileTimes) -> FileTimes {
    FileTimes { last_write_time: None, change_time: None, ..t }
}

/// The state after an open wrote to a file. A time that was set for good stays, and so does
/// one that the same open set; one that another open set gives way to the present; else
/// the file's own times count again.
pub open spec fn times_after_write(
    m: StateModel,
    key: KeyModel,
    file_id: FileId,
    now: u64,
) -> StateModel {
    let owner = stored(m.files.sticky_write_time_owners, key);
    let left = without_write_times(times_of(m, key));
    if m.files.pinned_write_times.contains_key(key) || owner == Some(file_id) {
        m
    } else if owner is Some {
        write_time_forced(m, key, now)
    } else if !m.files.file_times.contains_key(key) {
        m
    } else {
        StateModel {
            files: FilesModel {
                file_times: if no_times(left) {
                    m.files.file_times.remove(key)
                } else {
                    m.files.file_times.insert(key, left)
                },
                ..m.files
            },
            ..m
        }
    }
}

/// An open that set the time of the last write keeps it through its own writes.
pub proof fn own_writes_keep_a_set_write_time(
    m: StateModel,
    key: KeyModel,
    times: FileTimes,
    file_id: FileId,
    now: u64,
)
    requires
        times.last_write_time is Some,
    ensures
        ({
            let set = times_applied(m, key, times, Some(file_id));
            times_after_write(set, key, file_id, now) == set && times_of(set, key).last_write_time
                == times.last_write_time
        }),
{
}

/// A write by another open than the one that set the time of the last write sets it to the
/// present, and later writes leave it there.
pub proof fn other_writes_set_the_write_time(
    m: StateModel,
    key: KeyModel,
    times: FileTimes,
    owner: FileId,
    writer: FileId,
    later_writer: FileId,
    now: u64,
    later: u64,
)
    requires
        times.last_write_time is Some,
        owner != writer,
    ensures
        ({
            let set = times_applied(m, key, times, Some(owner));
            let written = times_after_write(set, key, writer, now);
            times_of(written, key).last_write_time == Some(now) && times_after_write(
                written,
                key,
                later_writer,
                later,
            ) == written
        }),
{
}

// ---------------------------------------------------------------------------
// What clients are told of a file
// ---------------------------------------------------------------------------

/// The allocation size that clients are told.
pub open spec fn told_allocation(stored: Option<u64>, info: FileInfo) -> int {
    if info.is_directory {
        0
    } else if stored is Some {
        if stored->0 >= info.end_of_file {
            stored->0 as int
        } else {
            rules::rounded_allocation(info.end_of_file)
        }
    } else if info.end_of_file > 0 && info.allocation_size == info.end_of_file {
        rules::rounded_allocation(info.end_of_file)
    } else {
        info.allocation_size as int
    }
}

/// The attributes that clients are told.
pub open spec fn told_attributes(stored: Option<u32>, info: FileInfo) -> u32 {
    let attributes = match stored {
        Some(a) => a,
        None => if info.file_attributes != 0 {
            info.file_attributes
        } else if info.is_directory {
            FILE_ATTRIBUTE_DIRECTORY
        } else {
            FILE_ATTRIBUTE_ARCHIVE
        },
    };
    rules::stored_attributes(attributes, info.is_directory)
}

/// A time of a file, unless another is kept.
pub open spec fn told_time(kept: Option<u64>, own: u64) -> u64 {
    match kept {
        Some(t) => t,
        None => own,
    }
}

/// Whether a description of a file is what clients are told, by what is kept beside it.
pub open spec fn is_told(m: StateModel, key: KeyModel, info: FileInfo, told: FileInfo) -> bool {
    let times = times_of(m, key);
    &&& told.name == info.name
    &&& told.is_directory == info.is_directory
    &&& told.file_index == info.file_index
    &&& told.end_of_file == (if info.is_directory {
        0
    } else {
        info.end_of_file
    })
    &&& told.allocation_size == told_allocation(stored(m.files.allocation_sizes, key), info)
    &&& told.file_attributes == told_attributes(stored(m.files.file_attributes, key), info)
    &&& told.creation_time == told_time(times.creation_time, info.creation_time)
    &&& told.last_access_time == told_time(times.last_access_time, info.last_access_time)
    &&& told.last_write_time == told_time(times.last_write_time, info.last_write_time)
    &&& told.change_time == told_time(times.change_time, info.change_time)
}

// ---------------------------------------------------------------------------
// Forgetting
// ---------------------------------------------------------------------------

/// The state after the POSIX metadata of a file was forgotten.
pub open spec fn posix_metadata_dropped(m: StateModel, key: KeyModel) -> StateModel {
    StateModel {
        files: FilesModel {
            posix_metadata: m.files.posix_metadata.remove(key),
            ..m.files
        },
        ..m
    }
}

/// The state after the security descriptor of a file was forgotten.
pub open spec fn security_dropped(m: StateModel, key: KeyModel) -> StateModel {
    StateModel {
        files: FilesModel {
            security_descriptors: m.files.security_descriptors.remove(key),
            ..m.files
        },
        ..m
    }
}

/// The state after what a file has in extended attributes was forgotten.
pub open spec fn attributes_dropped(m: StateModel, key: KeyModel) -> StateModel {
    StateModel {
        files: FilesModel {
            extended_attributes: m.files.extended_attributes.remove(key),
            ..m.files
        },
        ..m
    }
}

/// The state after what a file has in attributes was forgotten.
pub open spec fn file_attributes_dropped(m: StateModel, key: KeyModel) -> StateModel {
    StateModel {
        files: FilesModel {
            file_attributes: m.files.file_attributes.remove(key),
            ..m.files
        },
        ..m
    }
}

/// The state after what is known of the times of a file was forgotten.
pub open spec fn times_dropped(m: StateModel, key: KeyModel) -> StateModel {
    StateModel {
        files: FilesModel {
            file_times: m.files.file_times.remove(key),
            sticky_write_time_owners: m.files.sticky_write_time_owners.remove(key),
            pinned_write_times: m.files.pinned_write_times.remove(key),
            ..m.files
        },
        ..m
    }
}

/// The state after the allocation size of a file was forgotten.
pub open spec fn allocation_dropped(m: StateModel, key: KeyModel) -> StateModel {
    StateModel {
        files: FilesModel {
            allocation_sizes: m.files.allocation_sizes.remove(key),
            ..m.files
        },
        ..m
    }
}

/// The state after every stream of a file was forgotten.
pub open spec fn streams_dropped(m: StateModel, key: KeyModel) -> StateModel {
    StateModel {
        files: FilesModel {
            streams: m.files.streams.remove(key),
            ..m.files
        },
        ..m
    }
}

// ---------------------------------------------------------------------------
// Code
// ---------------------------------------------------------------------------

fn find_attribute(list: &Vec<ExtendedAttribute>, name: &str) -> (r: Option<usize>)
    ensures
        match r {
            None => !lists::found(ea::models(list@), attribute_is(name@)),
            Some(i) => i < list@.len() && i == lists::first(
                ea::models(list@),
                attribute_is(name@),
            ),
        },
{
    let ghost all = ea::models(list@);
    let mut i: usize = 0;
    while i < list.len()
        invariant
            i <= list@.len(),
            all == ea::models(list@),
            forall|j: int| 0 <= j < i ==> !attribute_is(name@)(#[trigger] all[j]),
        decreases list@.len() - i,
    {
        assert(all[i as int] == list@[i as int]@);
        if eq_ignore_ascii_case(list[i].name.as_str(), name) {
            proof {
                lists::first_at(all, attribute_is(name@), i as int);
            }
            return Some(i);
        }
        i += 1;
    }
    proof {
        lists::first_at(all, attribute_is(name@), i as int);
    }
    None
}

fn copy_attributes(list: &Vec<ExtendedAttribute>) -> (r: Vec<ExtendedAttribute>)
    ensures
        ea::models(r@) == ea::models(list@),
{
    let mut r: Vec<ExtendedAttribute> = Vec::new();
    let mut i: usize = 0;
    while i < list.len()
        invariant
            i <= list@.len(),
            r@.len() == i,
            forall|j: int| 0 <= j < i ==> (#[trigger] r@[j])@ == list@[j]@,
        decreases list@.len() - i,
    {
        r.push(list[i].duplicate());
        i += 1;
    }
    assert(ea::models(r@) =~= ea::models(list@));
    r
}

fn apply_attribute(list: &mut Vec<ExtendedAttribute>, update: &ExtendedAttribute)
    ensures
        ea::models(final(list)@) == with_attribute(ea::models(old(list)@), update@),
{
    let ghost before = ea::models(list@);
    match find_attribute(list, update.name.as_str()) {
        Some(i) => {
            if update.value.len() == 0 {
                let _ = list.remove(i);
                assert(ea::models(list@) =~= before.remove(i as int));
            } else {
                list[i] = update.duplicate();
                assert(ea::models(list@) =~= before.update(i as int, update@));
            }
        },
        None => {
            if update.value.len() > 0 {
                list.push(update.duplicate());
                assert(ea::models(list@) =~= before.push(update@));
            }
        },
    }
}

impl ServerState {
    /// The POSIX metadata of a path.
    pub fn posix_metadata(&self, share: &str, path: &SmbPath) -> (r: Option<PosixMetadata>)
        ensures
            r == stored(self@.files.posix_metadata, key_of(share@, path@)),
    {
        match self.files.posix_metadata.get(&PosixKey::new(share, path)) {
            None => None,
            Some(v) => Some(*v),
        }
    }

    /// Keeps the POSIX metadata of a path.
    pub fn set_posix_metadata(&mut self, share: &str, path: &SmbPath, metadata: PosixMetadata)
        ensures
            final(self)@ == (StateModel {
                files: FilesModel {
                    posix_metadata: old(self)@.files.posix_metadata.insert(
                        key_of(share@, path@),
                        metadata,
                    ),
                    ..old(self)@.files
                },
                ..old(self)@
            }),
    {
        self.files.posix_metadata.set(PosixKey::new(share, path), metadata);
    }

    /// The security descriptor of a path.
    pub fn security_descriptor(&self, share: &str, path: &SmbPath) -> (r: Option<Vec<u8>>)
        ensures
            match r {
                None => stored(self@.files.security_descriptors, key_of(share@, path@)) is None,
                Some(d) => stored(self@.files.security_descriptors, key_of(share@, path@)) == Some(
                    d@,
                ),
            },
    {
        match self.files.security_descriptors.get(&PosixKey::new(share, path)) {
            None => None,
            Some(d) => Some(copy_range(d.as_slice(), 0, d.len())),
        }
    }

    /// Keeps the security descriptor of a path.
    pub fn set_security_descriptor(&mut self, share: &str, path: &SmbPath, descriptor: Vec<u8>)
        ensures
            final(self)@ == (StateModel {
                files: FilesModel {
                    security_descriptors: old(self)@.files.security_descriptors.insert(
                        key_of(share@, path@),
                        descriptor@,
                    ),
                    ..old(self)@.files
                },
                ..old(self)@
            }),
    {
        self.files.security_descriptors.set(PosixKey::new(share, path), descriptor);
    }

    /// Remembers that a name was deleted.
    pub fn mark_name_deleted(&mut self, share: &str, path: &SmbPath)
        ensures
            final(self)@ == (StateModel {
                files: FilesModel {
                    deleted_names: old(self)@.files.deleted_names.insert(
                        key_of(share@, path@),
                        true,
                    ),
                    ..old(self)@.files
                },
                ..old(self)@
            }),
    {
        self.files.deleted_names.set(PosixKey::new(share, path), true);
    }

    /// Whether a name was deleted.
    pub fn name_was_deleted(&self, share: &str, path: &SmbPath) -> (r: bool)
        ensures
            r == self@.files.deleted_names.contains_key(key_of(share@, path@)),
    {
        self.files.deleted_names.contains(&PosixKey::new(share, path))
    }

    /// Forgets that a name was deleted.
    pub fn clear_name_deleted(&mut self, share: &str, path: &SmbPath)
        ensures
            final(self)@ == (StateModel {
                files: FilesModel {
                    deleted_names: old(self)@.files.deleted_names.remove(key_of(share@, path@)),
                    ..old(self)@.files
                },
                ..old(self)@
            }),
    {
        self.files.deleted_names.remove(&PosixKey::new(share, path));
    }

    /// The extended attributes of a path.
    pub fn extended_attributes(&self, share: &str, path: &SmbPath) -> (r: Vec<ExtendedAttribute>)
        ensures
            ea::models(r@) == attributes_of(self@, key_of(share@, path@)),
    {
        match self.files.extended_attributes.get(&PosixKey::new(share, path)) {
            None => {
                let none: Vec<ExtendedAttribute> = Vec::new();
                assert(ea::models(none@) =~= Seq::empty());
                none
            },
            Some(list) => copy_attributes(&list.items),
        }
    }

    /// Sets extended attributes of a path, one after the other.
    pub fn apply_extended_attributes(
        &mut self,
        share: &str,
        path: &SmbPath,
        updates: &[ExtendedAttribute],
    )
        ensures
            final(self)@ == attributes_applied(
                old(self)@,
                key_of(share@, path@),
                ea::models(updates@),
            ),
    {
        let mut list: Vec<ExtendedAttribute> = self.extended_attributes(share, path);
        let ghost before = ea::models(list@);
        let ghost all = ea::models(updates@);
        let mut i: usize = 0;
        assert(all.take(0) =~= Seq::empty());
        while i < updates.len()
            invariant
                i <= updates@.len(),
                all == ea::models(updates@),
                ea::models(list@) == with_attributes(before, all.take(i as int)),
            decreases updates@.len() - i,
        {
            proof {
                assert(all.take(i + 1).drop_last() =~= all.take(i as int));
                assert(all.take(i + 1).last() == updates@[i as int]@);
            }
            apply_attribute(&mut list, &updates[i]);
            i += 1;
        }
        assert(all.take(i as int) =~= all);
        assert(ea::models(list@).len() == list@.len());
        let key = PosixKey::new(share, path);
        if list.len() == 0 {
            self.files.extended_attributes.remove(&key);
        } else {
            self.files.extended_attributes.set(key, EaList { items: list });
        }
    }

    /// A description of a file as clients are told it.
    pub fn effective_file_info(&self, share: &str, path: &SmbPath, info: FileInfo) -> (r: FileInfo)
        ensures
            is_told(self@, key_of(share@, path@), info, r),
    {
        let key = PosixKey::new(share, path);
        let mut told: FileInfo = info;
        if told.is_directory {
            told.end_of_file = 0;
            told.allocation_size = 0;
        } else {
            match self.files.allocation_sizes.get(&key) {
                Some(size) => {
                    told.allocation_size = if *size >= told.end_of_file {
                        *size
                    } else {
                        round_allocation_size(told.end_of_file)
                    };
                },
                None => {
                    if told.end_of_file > 0 && told.allocation_size == told.end_of_file {
                        told.allocation_size = round_allocation_size(told.end_of_file);
                    }
                },
            }
        }
        let attributes: u32 = match self.files.file_attributes.get(&key) {
            Some(a) => *a,
            None => {
                if told.file_attributes == 0 {
                    default_file_attributes(told.is_directory)
                } else {
                    told.file_attributes
                }
            },
        };
        told.file_attributes = normalize_stored_file_attributes(attributes, told.is_directory);
        match self.files.file_times.get(&key) {
            None => {},
            Some(times) => {
                match times.creation_time {
                    Some(t) => {
                        told.creation_time = t;
                    },
                    None => {},
                }
                match times.last_access_time {
                    Some(t) => {
                        told.last_access_time = t;
                    },
                    None => {},
                }
                match times.last_write_time {
                    Some(t) => {
                        told.last_write_time = t;
                    },
                    None => {},
                }
                match times.change_time {
                    Some(t) => {
                        told.change_time = t;
                    },
                    None => {},
                }
            },
        }
        told
    }

    /// Keeps the attributes of a path.
    pub fn set_file_attributes(
        &mut self,
        share: &str,
        path: &SmbPath,
        attributes: u32,
        is_directory: bool,
    )
        ensures
            final(self)@ == (StateModel {
                files: FilesModel {
                    file_attributes: old(self)@.files.file_attributes.insert(
                        key_of(share@, path@),
                        rules::stored_attributes(attributes, is_directory),
                    ),
                    ..old(self)@.files
                },
                ..old(self)@
            }),
    {
        let kept: u32 = normalize_stored_file_attributes(attributes, is_directory);
        self.files.file_attributes.set(PosixKey::new(share, path), kept);
    }

    fn kept_times(&self, key: &PosixKey) -> (r: FileTimes)
        ensures
            r == times_of(self@, key@),
    {
        match self.files.file_times.get(key) {
            Some(t) => *t,
            None => FileTimes::default(),
        }
    }

    fn apply_file_times_with_sticky_owner(
        &mut self,
        share: &str,
        path: &SmbPath,
        times: FileTimes,
        sticky_owner: Option<FileId>,
    )
        ensures
            final(self)@ == times_applied(old(self)@, key_of(share@, path@), times, sticky_owner),
    {
        if times.creation_time.is_none() && times.last_access_time.is_none()
            && times.last_write_time.is_none() && times.change_time.is_none() {
            return;
        }
        let key = PosixKey::new(share, path);
        match sticky_owner {
            Some(file_id) => {
                if times.last_write_time.is_some() {
                    self.files.pinned_write_times.remove(&key);
                    self.files.sticky_write_time_owners.set(PosixKey::new(share, path), file_id);
                }
            },
            None => {},
        }
        let mut current: FileTimes = self.kept_times(&key);
        if times.creation_time.is_some() {
            current.creation_time = times.creation_time;
        }
        if times.last_access_time.is_some() {
            current.last_access_time = times.last_access_time;
        }
        if times.last_write_time.is_some() {
            current.last_write_time = times.last_write_time;
        }
        if times.change_time.is_some() {
            current.change_time = times.change_time;
        }
        self.files.file_times.set(key, current);
    }

    /// Sets times of a path.
    pub fn apply_file_times(&mut self, share: &str, path: &SmbPath, times: FileTimes)
        ensures
            final(self)@ == times_applied(old(self)@, key_of(share@, path@), times, None),
    {
        self.apply_file_times_with_sticky_owner(share, path, times, None);
    }

    /// Sets times of a path for an open, which keeps the time of the last write through its
    /// own writes.
    pub fn apply_file_times_for_open(
        &mut self,
        share: &str,
        path: &SmbPath,
        times: FileTimes,
        file_id: FileId,
    )
        ensures
            final(self)@ == times_applied(old(self)@, key_of(share@, path@), times, Some(file_id)),
    {
        self.apply_file_times_with_sticky_owner(share, path, times, Some(file_id));
    }

    /// Adjusts the times of a path to a write of an open.
    pub fn update_file_times_after_write(
        &mut self,
        share: &str,
        path: &SmbPath,
        file_id: FileId,
        now: u64,
    )
        ensures
            final(self)@ == times_after_write(old(self)@, key_of(share@, path@), file_id, now),
    {
        let key = PosixKey::new(share, path);
        if self.files.pinned_write_times.contains(&key) {
            return;
        }
        match self.files.sticky_write_time_owners.get(&key) {
            Some(owner) => {
                if *owner == file_id {
                    return;
                }
                self.force_update_file_times_after_write(share, path, now);
                return;
            },
            None => {},
        }
        if self.files.file_times.contains(&key) {
            let mut current: FileTimes = self.kept_times(&key);
            current.last_write_time = None;
            current.change_time = None;
            if current.creation_time.is_none() && current.last_access_time.is_none() {
                self.files.file_times.remove(&key);
            } else {
                self.files.file_times.set(key, current);
            }
        }
    }

    /// Sets the time of the last write of a path to the present, for good.
    pub fn force_update_file_times_after_write(&mut self, share: &str, path: &SmbPath, now: u64)
        ensures
            final(self)@ == write_time_forced(old(self)@, key_of(share@, path@), now),
    {
        let key = PosixKey::new(share, path);
        self.files.sticky_write_time_owners.remove(&key);
        self.files.pinned_write_times.set(key, true);
        self.apply_file_times(
            share,
            path,
            FileTimes {
                creation_time: None,
                last_access_time: None,
                last_write_time: Some(now),
                change_time: Some(now),
            },
        );
    }

    /// Sets the change time of a path to the present.
    pub fn update_change_time_after_metadata_mutation(
        &mut self,
        share: &str,
        path: &SmbPath,
        now: u64,
    )
        ensures
            final(self)@ == times_applied(
                old(self)@,
                key_of(share@, path@),
                (FileTimes { change_time: Some(now), ..unset_times() }),
                None,
            ),
    {
        self.apply_file_times(
            share,
            path,
            FileTimes {
                creation_time: None,
                last_access_time: None,
                last_write_time: None,
                change_time: Some(now),
            },
        );
    }

    /// Keeps the allocation size of a path; zero stands for none.
    pub fn set_allocation_size(&mut self, share: &str, path: &SmbPath, allocation_size: u64)
        ensures
            final(self)@ == (StateModel {
                files: FilesModel {
                    allocation_sizes: if allocation_size == 0 {
                        old(self)@.files.allocation_sizes.remove(key_of(share@, path@))
                    } else {
                        old(self)@.files.allocation_sizes.insert(
                            key_of(share@, path@),
                            allocation_size,
                        )
                    },
                    ..old(self)@.files
                },
                ..old(self)@
            }),
    {
        let key = PosixKey::new(share, path);
        if allocation_size == 0 {
            self.files.allocation_sizes.remove(&key);
        } else {
            self.files.allocation_sizes.set(key, allocation_size);
        }
    }

    /// Forgets the POSIX metadata of a path.
    pub fn delete_posix_metadata(&mut self, share: &str, path: &SmbPath)
        ensures
            final(self)@ == posix_metadata_dropped(old(self)@, key_of(share@, path@)),
    {
        let key = PosixKey::new(share, path);
        self.files.posix_metadata.remove(&key);
    }

    /// Forgets the security descriptor of a path.
    pub fn delete_security_descriptor(&mut self, share: &str, path: &SmbPath)
        ensures
            final(self)@ == security_dropped(old(self)@, key_of(share@, path@)),
    {
        let key = PosixKey::new(share, path);
        self.files.security_descriptors.remove(&key);
    }

    /// Forgets the extended attributes of a path.
    pub fn delete_extended_attributes(&mut self, share: &str, path: &SmbPath)
        ensures
            final(self)@ == attributes_dropped(old(self)@, key_of(share@, path@)),
    {
        let key = PosixKey::new(share, path);
        self.files.extended_attributes.remove(&key);
    }

    /// Forgets the attributes of a path.
    pub fn delete_file_attributes(&mut self, share: &str, path: &SmbPath)
        ensures
            final(self)@ == file_attributes_dropped(old(self)@, key_of(share@, path@)),
    {
        let key = PosixKey::new(share, path);
        self.files.file_attributes.remove(&key);
    }

    /// Forgets the times of a path.
    pub fn delete_file_times(&mut self, share: &str, path: &SmbPath)
        ensures
            final(self)@ == times_dropped(old(self)@, key_of(share@, path@)),
    {
        let key = PosixKey::new(share, path);
        self.files.file_times.remove(&key);
        self.files.sticky_write_time_owners.remove(&key);
        self.files.pinned_write_times.remove(&key);
    }

    /// Forgets the allocation size of a path.
    pub fn delete_allocation_size(&mut self, share: &str, path: &SmbPath)
        ensures
            final(self)@ == allocation_dropped(old(self)@, key_of(share@, path@)),
    {
        let key = PosixKey::new(share, path);
        self.files.allocation_sizes.remove(&key);
    }

    /// Forgets the streams of a path.
    pub fn delete_streams(&mut self, share: &str, path: &SmbPath)
        ensures
            final(self)@ == streams_dropped(old(self)@, key_of(share@, path@)),
    {
        let key = PosixKey::new(share, path);
        self.files.streams.remove(&key);
    }

    /// Moves the POSIX metadata of a path and of the paths below it to another path.
    pub fn rekey_posix_metadata(&mut self, share: &str, from: &SmbPath, to: &SmbPath)
        ensures
            final(self)@ == (StateModel {
                files: FilesModel {
                    posix_metadata: final(self)@.files.posix_metadata,
                    ..old(self)@.files
                },
                ..old(self)@
            }),
            table::rekeyed_paths(
                old(self)@.files.posix_metadata,
                final(self)@.files.posix_metadata,
                share@,
                from@,
                to@,
            ),
    {
        self.files.posix_metadata.rekey(share, from, to);
    }

    /// Moves the security descriptors of a path and of the paths below it to another path.
    pub fn rekey_security_descriptor(&mut self, share: &str, from: &SmbPath, to: &SmbPath)
        ensures
            final(self)@ == (StateModel {
                files: FilesModel {
                    security_descriptors: final(self)@.files.security_descriptors,
                    ..old(self)@.files
                },
                ..old(self)@
            }),
            table::rekeyed_paths(
                old(self)@.files.security_descriptors,
                final(self)@.files.security_descriptors,
                share@,
                from@,
                to@,
            ),
    {
        self.files.security_descriptors.rekey(share, from, to);
    }

    /// Moves the extended attributes of a path and of the paths below it to another path.
    pub fn rekey_extended_attributes(&mut self, share: &str, from: &SmbPath, to: &SmbPath)
        ensures
            final(self)@ == (StateModel {
                files: FilesModel {
                    extended_attributes: final(self)@.files.extended_attributes,
                    ..old(self)@.files
                },
                ..old(self)@
            }),
            table::rekeyed_paths(
                old(self)@.files.extended_attributes,
                final(self)@.files.extended_attributes,
                share@,
                from@,
                to@,
            ),
    {
        self.files.extended_attributes.rekey(share, from, to);
    }

    /// Moves the attributes of a path and of the paths below it to another path.
    pub fn rekey_file_attributes(&mut self, share: &str, from: &SmbPath, to: &SmbPath)
        ensures
            final(self)@ == (StateModel {
                files: FilesModel {
                    file_attributes: final(self)@.files.file_attributes,
                    ..old(self)@.files
                },
                ..old(self)@
            }),
            table::rekeyed_paths(
                old(self)@.files.file_attributes,
                final(self)@.files.file_attributes,
                share@,
                from@,
                to@,
            ),
    {
        self.files.file_attributes.rekey(share, from, to);
    }

    /// Moves the times of a path and of the paths below it to another path.
    pub fn rekey_file_times(&mut self, share: &str, from: &SmbPath, to: &SmbPath)
        ensures
            final(self)@ == (StateModel {
                files: FilesModel {
                    file_times: final(self)@.files.file_times,
                    sticky_write_time_owners: final(self)@.files.sticky_write_time_owners,
                    pinned_write_times: final(self)@.files.pinned_write_times,
                    ..old(self)@.files
                },
                ..old(self)@
            }),
            table::rekeyed_paths(
                old(self)@.files.file_times,
                final(self)@.files.file_times,
                share@,
                from@,
                to@,
            ), 
            table::rekeyed_paths(
                old(self)@.files.sticky_write_time_owners,
                final(self)@.files.sticky_write_time_owners,
                share@,
                from@,
                to@,
            ), 
            table::rekeyed_paths(
                old(self)@.files.pinned_write_times,
                final(self)@.files.pinned_write_times,
                share@,
                from@,
                to@,
            ),
    {
        self.files.file_times.rekey(share, from, to);
        self.files.sticky_write_time_owners.rekey(share, from, to);
        self.files.pinned_write_times.rekey(share, from, to);
    }

    /// Moves the allocation sizes of a path and of the paths below it to another path.
    pub fn rekey_allocation_size(&mut self, share: &str, from: &SmbPath, to: &SmbPath)
        ensures
            final(self)@ == (StateModel {
                files: FilesModel {
                    allocation_sizes: final(self)@.files.allocation_sizes,
                    ..old(self)@.files
                },
                ..old(self)@
            }),
            table::rekeyed_paths(
                old(self)@.files.allocation_sizes,
                final(self)@.files.allocation_sizes,
                share@,
                from@,
                to@,
            ),
    {
        self.files.allocation_sizes.rekey(share, from, to);
    }

    /// Moves the streams of a path and of the paths below it to another path.
    pub fn rekey_streams(&mut self, share: &str, from: &SmbPath, to: &SmbPath)
        ensures
            final(self)@ == (StateModel {
                files: FilesModel {
                    streams: final(self)@.files.streams,
                    ..old(self)@.files
                },
                ..old(self)@
            }),
            table::rekeyed_paths(
                old(self)@.files.streams,
                final(self)@.files.streams,
                share@,
                from@,
                to@,
            ),
    {
        self.files.streams.rekey(share, from, to);
    }
}

} // verus!
