//! What clients are told of a file, from what is kept beside it.

use crate::backend::{FileInfo, FileTimes};
use crate::proto::messages::FileId;
use crate::server::files;
use crate::server::lists;
use crate::server::rules;
use crate::server::state::StateModel;
use crate::server::table::KeyModel;
use crate::info_class::ea::EaModel;
use crate::text;
use vstd::prelude::*;

verus! {

/// The four times that clients are told are those that were set, each on its own, and the
/// file's own where none was.
pub proof fn set_times_are_told(m: StateModel, key: KeyModel, info: FileInfo, told: FileInfo)
    requires
        files::is_told(m, key, info, told),
    ensures
        !m.files.file_times.contains_key(key) ==> told.creation_time == info.creation_time
            && told.last_access_time == info.last_access_time && told.last_write_time
            == info.last_write_time && told.change_time == info.change_time,
        m.files.file_times.contains_key(key) ==> ({
            let t = m.files.file_times[key];
            &&& told.creation_time == match t.creation_time {
                Some(x) => x,
                None => info.creation_time,
            }
            &&& told.last_access_time == match t.last_access_time {
                Some(x) => x,
                None => info.last_access_time,
            }
            &&& told.last_write_time == match t.last_write_time {
                Some(x) => x,
                None => info.last_write_time,
            }
            &&& told.change_time == match t.change_time {
                Some(x) => x,
                None => info.change_time,
            }
        }),
{
}

/// A directory has no size; a file has its own end, and what is allocated for it holds it where
/// a size was set.
pub proof fn sizes_are_told(m: StateModel, key: KeyModel, info: FileInfo, told: FileInfo)
    requires
        files::is_told(m, key, info, told),
    ensures
        info.is_directory ==> told.end_of_file == 0 && told.allocation_size == 0,
        !info.is_directory ==> told.end_of_file == info.end_of_file,
        !info.is_directory && m.files.allocation_sizes.contains_key(key)
            && m.files.allocation_sizes[key] >= info.end_of_file ==> told.allocation_size
            == m.files.allocation_sizes[key],
        !info.is_directory && m.files.allocation_sizes.contains_key(key)
            && m.files.allocation_sizes[key] < info.end_of_file ==> told.allocation_size
            == rules::rounded_allocation(info.end_of_file),
        !info.is_directory && !m.files.allocation_sizes.contains_key(key) && (info.end_of_file == 0
            || info.allocation_size != info.end_of_file) ==> told.allocation_size
            == info.allocation_size,
        told.name == info.name,
        told.is_directory == info.is_directory,
{
}

/// Attributes that were set are told, in the form in which they are kept; else the file's own;
/// else directory (0x10) or archive (0x20).
pub proof fn attributes_are_told(m: StateModel, key: KeyModel, info: FileInfo, told: FileInfo)
    requires
        files::is_told(m, key, info, told),
    ensures
        m.files.file_attributes.contains_key(key) ==> told.file_attributes
            == rules::stored_attributes(m.files.file_attributes[key], info.is_directory),
        !m.files.file_attributes.contains_key(key) && info.file_attributes != 0
            ==> told.file_attributes == rules::stored_attributes(
            info.file_attributes,
            info.is_directory,
        ),
        !m.files.file_attributes.contains_key(key) && info.file_attributes == 0
            && info.is_directory ==> told.file_attributes == rules::stored_attributes(0x10, true),
        !m.files.file_attributes.contains_key(key) && info.file_attributes == 0
            && !info.is_directory ==> told.file_attributes == rules::stored_attributes(0x20, false),
{
}

/// A time that is set is kept in place of one that was; times that are not set stay as they were;
/// other files keep theirs.
pub proof fn times_are_set_one_by_one(
    m: StateModel,
    key: KeyModel,
    t: FileTimes,
    owner: Option<FileId>,
    other: KeyModel,
)
    requires
        t.creation_time is Some || t.last_access_time is Some || t.last_write_time is Some
            || t.change_time is Some,
    ensures
        ({
            let after = files::times_applied(m, key, t, owner);
            let now = after.files.file_times[key];
            let had = m.files.file_times.contains_key(key);
            let old_times = m.files.file_times[key];
            &&& after.files.file_times.contains_key(key)
            &&& t.creation_time is Some ==> now.creation_time == t.creation_time
            &&& t.last_access_time is Some ==> now.last_access_time == t.last_access_time
            &&& t.last_write_time is Some ==> now.last_write_time == t.last_write_time
            &&& t.change_time is Some ==> now.change_time == t.change_time
            &&& had && t.creation_time is None ==> now.creation_time == old_times.creation_time
            &&& had && t.last_access_time is None ==> now.last_access_time
                == old_times.last_access_time
            &&& had && t.last_write_time is None ==> now.last_write_time
                == old_times.last_write_time
            &&& had && t.change_time is None ==> now.change_time == old_times.change_time
            &&& !had && t.last_write_time is None ==> now.last_write_time is None
            &&& other != key ==> after.files.file_times.contains_key(other)
                == m.files.file_times.contains_key(other) && after.files.file_times[other]
                == m.files.file_times[other]
            &&& t.last_write_time is Some && owner is Some
                ==> after.files.sticky_write_time_owners.contains_key(key)
                && after.files.sticky_write_time_owners[key] == owner->0
                && !after.files.pinned_write_times.contains_key(key)
            &&& t.last_write_time is None || owner is None
                ==> after.files.sticky_write_time_owners == m.files.sticky_write_time_owners
                && after.files.pinned_write_times == m.files.pinned_write_times
        }),
{
}

/// Nothing is set where there is no time to set.
pub proof fn no_times_change_nothing(m: StateModel, key: KeyModel, owner: Option<FileId>)
    ensures
        files::times_applied(
            m,
            key,
            FileTimes {
                creation_time: None,
                last_access_time: None,
                last_write_time: None,
                change_time: None,
            },
            owner,
        ) == m,
{
}

/// A write by the open that set the time of the last write, or to a file whose time was set for
/// good, leaves the time alone; after a write by another open the time is now, and stays so; and
/// where no open set it, the file's own times of writing and changing count again.
pub proof fn writes_set_the_time_of_the_last_write(
    m: StateModel,
    key: KeyModel,
    file_id: FileId,
    now: u64,
)
    ensures
        ({
            let after = files::times_after_write(m, key, file_id, now);
            let pinned = m.files.pinned_write_times.contains_key(key);
            let owned = m.files.sticky_write_time_owners.contains_key(key);
            let own = owned && m.files.sticky_write_time_owners[key] == file_id;
            &&& pinned || own ==> after == m
            &&& !pinned && owned && !own ==> {
                &&& after.files.file_times[key].last_write_time == Some(now)
                &&& after.files.file_times[key].change_time == Some(now)
                &&& after.files.pinned_write_times.contains_key(key)
                &&& !after.files.sticky_write_time_owners.contains_key(key)
            }
            &&& !pinned && !owned && m.files.file_times.contains_key(key) ==> {
                &&& after.files.file_times.contains_key(key)
                    ==> after.files.file_times[key].last_write_time is None
                    && after.files.file_times[key].change_time is None
                    && after.files.file_times[key].creation_time
                    == m.files.file_times[key].creation_time
                    && after.files.file_times[key].last_access_time
                    == m.files.file_times[key].last_access_time
                &&& after.files.file_times.contains_key(key) <==> (
                m.files.file_times[key].creation_time is Some
                    || m.files.file_times[key].last_access_time is Some)
            }
            &&& !pinned && !owned && !m.files.file_times.contains_key(key) ==> after == m
        }),
{
}

/// An extended attribute that is set to a value replaces the one with its name, but for case, in
/// its place, or is put behind the others; set to nothing it is removed; others stay.
pub proof fn attributes_are_set_by_name(list: Seq<EaModel>, update: EaModel, i: int)
    requires
        0 <= i < list.len(),
        text::same_ignoring_case(list[i].name, update.name),
        forall|k: int|
            0 <= k < i ==> !text::same_ignoring_case((#[trigger] list[k]).name, update.name),
    ensures
        update.value.len() > 0 ==> files::with_attribute(list, update) == list.update(i, update),
        update.value.len() == 0 ==> files::with_attribute(list, update) == list.remove(i),
{
    let test = files::attribute_is(update.name);
    assert forall|k: int| 0 <= k < i implies !test(#[trigger] list[k]) by {
        assert(!text::same_ignoring_case(list[k].name, update.name));
    }
    lists::first_at(list, test, i);
}

/// An attribute whose name is new is put behind the others, unless it has no value.
pub proof fn new_attributes_come_last(list: Seq<EaModel>, update: EaModel)
    requires
        forall|k: int|
            0 <= k < list.len() ==> !text::same_ignoring_case(
                (#[trigger] list[k]).name,
                update.name,
            ),
    ensures
        update.value.len() > 0 ==> files::with_attribute(list, update) == list.push(update),
        update.value.len() == 0 ==> files::with_attribute(list, update) == list,
{
    let test = files::attribute_is(update.name);
    assert forall|k: int| 0 <= k < list.len() implies !test(#[trigger] list[k]) by {
        assert(!text::same_ignoring_case(list[k].name, update.name));
    }
    lists::first_at(list, test, list.len() as int);
}

/// A file without extended attributes has no entry; what is set is what is found.
pub proof fn applied_attributes_are_found(m: StateModel, key: KeyModel, updates: Seq<EaModel>)
    ensures
        ({
            let after = files::attributes_applied(m, key, updates);
            let list = files::with_attributes(files::attributes_of(m, key), updates);
            &&& files::attributes_of(after, key) == list
            &&& after.files.extended_attributes.contains_key(key) <==> list.len() > 0
            &&& forall|k: KeyModel|
                k != key ==> #[trigger] after.files.extended_attributes.contains_key(k)
                    == m.files.extended_attributes.contains_key(k)
        }),
{
    let list = files::with_attributes(files::attributes_of(m, key), updates);
    if list.len() == 0 {
        assert(list =~= Seq::empty());
    }
}

} // verus!
