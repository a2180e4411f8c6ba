//! What opening, renaming, resizing and showing named streams does.

use crate::backend::{FileInfo, OpenIntent};
use crate::error::SmbError;
use crate::server::lists;
use crate::server::state::StateModel;
use crate::server::streams;
use crate::server::streams::{NamedStreamModel, ShownStream};
use crate::server::table::KeyModel;
use crate::text;
use vstd::prelude::*;

verus! {

/// Whether a file has a stream with a name, but for case, first at a place.
pub open spec fn stands_at(list: Seq<NamedStreamModel>, name: Seq<char>, i: int) -> bool {
    &&& 0 <= i < list.len()
    &&& text::lowered(list[i].name) == text::lowered(name)
    &&& forall|k: int| 0 <= k < i ==> text::lowered((#[trigger] list[k]).name) != text::lowered(name)
}

/// Whether no stream has a name, but for case.
pub open spec fn is_missing(list: Seq<NamedStreamModel>, name: Seq<char>) -> bool {
    forall|k: int|
        0 <= k < list.len() ==> text::lowered((#[trigger] list[k]).name) != text::lowered(name)
}

proof fn lemma_stands(list: Seq<NamedStreamModel>, name: Seq<char>, i: int)
    requires
        stands_at(list, name, i),
    ensures
        streams::stream_at(list, name) == i,
        streams::has_stream(list, name),
{
    let test = streams::stream_is(name);
    assert forall|k: int| 0 <= k < i implies !test(#[trigger] list[k]) by {
        assert(text::lowered(list[k].name) != text::lowered(name));
    }
    lists::first_at(list, test, i);
}

proof fn lemma_missing(list: Seq<NamedStreamModel>, name: Seq<char>)
    requires
        is_missing(list, name),
    ensures
        !streams::has_stream(list, name),
{
    let test = streams::stream_is(name);
    assert forall|k: int| 0 <= k < list.len() implies !test(#[trigger] list[k]) by {
        assert(text::lowered(list[k].name) != text::lowered(name));
    }
    lists::first_at(list, test, list.len() as int);
}

/// A stream that is there can be opened, and not created anew; to truncate or overwrite it
/// empties it and keeps its name and times.
pub proof fn streams_that_are_there_are_opened(
    list: Seq<NamedStreamModel>,
    name: Seq<char>,
    i: int,
    creation_time: u64,
    now: u64,
)
    requires
        stands_at(list, name, i),
    ensures
        streams::open_error(list, name, OpenIntent::Open) is None,
        streams::open_error(list, name, OpenIntent::OpenOrCreate) is None,
        streams::open_error(list, name, OpenIntent::Create) == Some(SmbError::Exists),
        streams::opened_streams(list, name, OpenIntent::Open, creation_time, now) == list,
        streams::opened_streams(list, name, OpenIntent::OpenOrCreate, creation_time, now) == list,
        streams::opened_streams(list, name, OpenIntent::Create, creation_time, now) == list,
        streams::opened_streams(list, name, OpenIntent::Truncate, creation_time, now)
            == list.update(i, NamedStreamModel { data: Seq::empty(), ..list[i] }),
        streams::opened_streams(list, name, OpenIntent::OverwriteOrCreate, creation_time, now)
            == list.update(i, NamedStreamModel { data: Seq::empty(), ..list[i] }),
{
    lemma_stands(list, name, i);
}

/// A stream that is missing is not found where it is only to be opened or truncated, and is made
/// where it may be: empty, behind the others, created when its file was, and written now.
pub proof fn missing_streams_are_made(
    list: Seq<NamedStreamModel>,
    name: Seq<char>,
    creation_time: u64,
    now: u64,
)
    requires
        is_missing(list, name),
    ensures
        streams::open_error(list, name, OpenIntent::Open) == Some(SmbError::NotFound),
        streams::open_error(list, name, OpenIntent::Truncate) == Some(SmbError::NotFound),
        ({
            let new = NamedStreamModel {
                name,
                data: Seq::empty(),
                creation_time,
                last_access_time: now,
                last_write_time: now,
                change_time: now,
            };
            &&& streams::opened_streams(list, name, OpenIntent::Create, creation_time, now)
                == list.push(new)
            &&& streams::opened_streams(list, name, OpenIntent::OpenOrCreate, creation_time, now)
                == list.push(new)
            &&& streams::opened_streams(
                list,
                name,
                OpenIntent::OverwriteOrCreate,
                creation_time,
                now,
            ) == list.push(new)
            &&& streams::opened_streams(list, name, OpenIntent::Open, creation_time, now) == list
        }),
{
    lemma_missing(list, name);
}

/// Data that is resized keeps what is left of it and is zero behind that.
pub proof fn resized_data_is_cut_or_filled(data: Seq<u8>, len: int, i: int)
    requires
        0 <= i < len,
    ensures
        streams::resized(data, len).len() == len,
        i < data.len() ==> streams::resized(data, len)[i] == data[i],
        i >= data.len() ==> streams::resized(data, len)[i] == 0,
{
}

/// A write covers its range; before it a gap is zero; the data ends where the later of both
/// ends.
pub proof fn writes_cover_their_range(data: Seq<u8>, offset: int, new: Seq<u8>, i: int)
    requires
        0 <= offset,
        0 <= i < streams::written(data, offset, new).len(),
    ensures
        offset <= i < offset + new.len() ==> streams::written(data, offset, new)[i] == new[i
            - offset],
        i < data.len() && i < offset ==> streams::written(data, offset, new)[i] == data[i],
        data.len() <= i < offset ==> streams::written(data, offset, new)[i] == 0,
        data.len() >= offset + new.len() ==> streams::written(data, offset, new).len()
            == data.len(),
        data.len() < offset + new.len() ==> streams::written(data, offset, new).len() == offset
            + new.len(),
{
}

/// A read gives the bytes from the offset on, as many as are asked for and there; behind the end
/// there are none.
pub proof fn reads_end_with_the_data(data: Seq<u8>, offset: int, len: int, i: int)
    requires
        0 <= offset,
        0 <= len,
    ensures
        offset >= data.len() ==> streams::read_of(data, offset, len).len() == 0,
        offset + len <= data.len() ==> streams::read_of(data, offset, len).len() == len,
        offset < data.len() < offset + len ==> streams::read_of(data, offset, len).len()
            == data.len() - offset,
        0 <= i < streams::read_of(data, offset, len).len() ==> streams::read_of(
            data,
            offset,
            len,
        )[i] == data[offset + i],
{
}

/// A stream is renamed in place and keeps data and times; a name that another stream has is
/// taken only where it may be replaced, and the other stream goes. One that is missing is not
/// found.
pub proof fn streams_are_renamed_in_place(
    list: Seq<NamedStreamModel>,
    from: Seq<char>,
    to: Seq<char>,
    replace: bool,
    i: int,
)
    ensures
        is_missing(list, from) ==> streams::rename_error(list, from, to, replace) == Some(
            SmbError::NotFound,
        ),
        stands_at(list, from, i) && is_missing(list, to) ==> streams::rename_error(
            list,
            from,
            to,
            replace,
        ) is None && streams::renamed_streams(list, from, to) == list.update(
            i,
            NamedStreamModel { name: to, ..list[i] },
        ),
        stands_at(list, from, i) && text::lowered(from) == text::lowered(to)
            ==> streams::rename_error(list, from, to, replace) is None && streams::renamed_streams(
            list,
            from,
            to,
        ) == list.update(i, NamedStreamModel { name: to, ..list[i] }),
{
    if is_missing(list, from) {
        lemma_missing(list, from);
    }
    if stands_at(list, from, i) {
        lemma_stands(list, from, i);
    }
    if is_missing(list, to) {
        lemma_missing(list, to);
    }
}

/// A name that another stream has is taken only where it may be replaced.
pub proof fn names_of_others_are_replaced_on_request(
    list: Seq<NamedStreamModel>,
    from: Seq<char>,
    to: Seq<char>,
    i: int,
    j: int,
)
    requires
        stands_at(list, from, i),
        stands_at(list, to, j),
        text::lowered(from) != text::lowered(to),
    ensures
        streams::rename_error(list, from, to, false) == Some(SmbError::Exists),
        streams::rename_error(list, from, to, true) is None,
        streams::renamed_streams(list, from, to) == list.remove(j).update(
            if i < j { i } else { i - 1 },
            NamedStreamModel { name: to, ..list[i] },
        ),
{
    lemma_stands(list, from, i);
    lemma_stands(list, to, j);
    let rest = list.remove(j);
    let k = if i < j { i } else { i - 1 };
    assert(i != j);
    assert(rest[k] == list[i]);
    assert forall|n: int| 0 <= n < k implies text::lowered((#[trigger] rest[n]).name)
        != text::lowered(from) by {
        if n < j {
            assert(rest[n] == list[n]);
        } else {
            assert(rest[n] == list[n + 1]);
        }
    }
    lemma_stands(rest, from, k);
}

/// A stream that is deleted is gone, and the others stay; with the last one the list goes.
pub proof fn deleted_streams_are_gone(m: StateModel, key: KeyModel, name: Seq<char>, i: int)
    requires
        m.files.streams.contains_key(key),
        stands_at(m.files.streams[key], name, i),
    ensures
        ({
            let after = streams::stream_deleted(m, key, name);
            let list = m.files.streams[key];
            &&& list.len() == 1 ==> !after.files.streams.contains_key(key)
            &&& list.len() > 1 ==> after.files.streams.contains_key(key)
                && after.files.streams[key] == list.remove(i)
            &&& after.opens == m.opens
        }),
{
    lemma_stands(m.files.streams[key], name, i);
}

/// A file shows its own data first, as `::$DATA`, then its streams as `:name:$DATA`, each with
/// its size; a directory shows its streams alone.
pub proof fn streams_are_shown_behind_the_data(
    list: Seq<NamedStreamModel>,
    info: FileInfo,
    i: int,
)
    requires
        0 <= i < list.len(),
        list[i].data.len() <= u64::MAX,
    ensures
        ({
            let shown = streams::shown_streams(list, info);
            let first = if info.is_directory { 0int } else { 1int };
            &&& shown.len() == first + list.len()
            &&& shown[first + i].name == seq![':'] + list[i].name + seq![
                ':',
                '$',
                'D',
                'A',
                'T',
                'A',
            ]
            &&& shown[first + i].size == list[i].data.len()
            &&& shown[first + i].allocation == list[i].data.len()
            &&& !info.is_directory ==> shown[0] == (ShownStream {
                name: seq![':', ':', '$', 'D', 'A', 'T', 'A'],
                size: info.end_of_file,
                allocation: info.allocation_size,
            })
        }),
{
}

} // verus!
