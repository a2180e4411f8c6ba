//! Named streams of files.

use crate::backend::{
    default_file_attributes, FileInfo, FileTimes, OpenIntent, FILE_ATTRIBUTE_ARCHIVE,
};
use crate::error::{SmbError, SmbResult};
use crate::info_class::FileStream;
use crate::path;
use crate::path::SmbPath;
use crate::server::files;
use crate::server::lists;
use crate::server::state::{FilesModel, ServerState, StateModel};
use crate::server::table::{key_of, KeyModel, PosixKey};
use crate::text;
use crate::text::{eq_ignore_ascii_case, push_str, string_of_str};
use crate::wire::{copy_range, put_zeros};
use vstd::prelude::*;

verus! {

/// A named stream of a file.
#[derive(Debug, Clone, PartialEq, Eq)]
pub struct NamedStream {
    pub name: String,
    pub data: Vec<u8>,
    pub creation_time: u64,
    pub last_access_time: u64,
    pub last_write_time: u64,
    pub change_time: u64,
}

/// What a named stream holds.
#[verifier::ext_equal]
pub struct NamedStreamModel {
    pub name: Seq<char>,
    pub data: Seq<u8>,
    pub creation_time: u64,
    pub last_access_time: u64,
    pub last_write_time: u64,
    pub change_time: u64,
}

impl View for NamedStream {
    type V = NamedStreamModel;

    open spec fn view(&self) -> NamedStreamModel {
        NamedStreamModel {
            name: self.name@,
            data: self.data@,
            creation_time: self.creation_time,
            last_access_time: self.last_access_time,
            last_write_time: self.last_write_time,
            change_time: self.change_time,
        }
    }
}

/// The named streams of a file.
#[derive(Debug, Clone, PartialEq, Eq)]
pub struct StreamList {
    pub items: Vec<NamedStream>,
}

impl View for StreamList {
    type V = Seq<NamedStreamModel>;

    open spec fn view(&self) -> Seq<NamedStreamModel> {
        stream_models(self.items@)
    }
}

/// What named streams hold.
pub open spec fn stream_models(s: Seq<NamedStream>) -> Seq<NamedStreamModel> {
    s.map_values(|e: NamedStream| e@)
}

// ---------------------------------------------------------------------------
// The model
// ---------------------------------------------------------------------------

/// Whether a stream has a name.
pub open spec fn stream_is(name: Seq<char>) -> spec_fn(NamedStreamModel) -> bool {
    |s: NamedStreamModel| text::same_ignoring_case(s.name, name)
}

/// Where a stream stands among the streams of a file.
pub open spec fn stream_at(list: Seq<NamedStreamModel>, name: Seq<char>) -> int {
    lists::first(list, stream_is(name))
}

/// Whether a file has a stream.
pub open spec fn has_stream(list: Seq<NamedStreamModel>, name: Seq<char>) -> bool {
    lists::found(list, stream_is(name))
}

/// The streams of a file.
pub open spec fn streams_of(m: StateModel, key: KeyModel) -> Seq<NamedStreamModel> {
    if m.files.streams.contains_key(key) {
        m.files.streams[key]
    } else {
        Seq::empty()
    }
}

/// The stream of a file with a name.
pub open spec fn stream_of(m: StateModel, key: KeyModel, name: Seq<char>) -> Option<
    NamedStreamModel,
> {
    let list = streams_of(m, key);
    if has_stream(list, name) {
        Some(list[stream_at(list, name)])
    } else {
        None
    }
}

/// The state with other streams of a file.
pub open spec fn with_streams(
    m: StateModel,
    key: KeyModel,
    list: Seq<NamedStreamModel>,
) -> StateModel {
    StateModel {
        files: FilesModel { streams: m.files.streams.insert(key, list), ..m.files },
        ..m
    }
}

/// The state with another stream in place of one of a file.
pub open spec fn with_stream(
    m: StateModel,
    key: KeyModel,
    name: Seq<char>,
    s: NamedStreamModel,
) -> StateModel {
    let list = streams_of(m, key);
    if has_stream(list, name) {
        with_streams(m, key, list.update(stream_at(list, name), s))
    } else {
        m
    }
}

/// A stream that was just created.
pub open spec fn new_stream(name: Seq<char>, creation_time: u64, now: u64) -> NamedStreamModel {
    NamedStreamModel {
        name,
        data: Seq::empty(),
        creation_time,
        last_access_time: now,
        last_write_time: now,
        change_time: now,
    }
}

/// The state after a stream was deleted, and with the last one the list.
pub open spec fn stream_deleted(m: StateModel, key: KeyModel, name: Seq<char>) -> StateModel {
    let list = streams_of(m, key);
    let left = list.remove(stream_at(list, name));
    if !has_stream(list, name) {
        m
    } else if left.len() == 0 {
        files::streams_dropped(m, key)
    } else {
        with_streams(m, key, left)
    }
}

/// Why a stream cannot be renamed.
pub open spec fn rename_error(
    list: Seq<NamedStreamModel>,
    from: Seq<char>,
    to: Seq<char>,
    replace: bool,
) -> Option<SmbError> {
    if !has_stream(list, from) {
        Some(SmbError::NotFound)
    } else if !text::same_ignoring_case(list[stream_at(list, from)].name, to) && has_stream(
        list,
        to,
    ) && !replace {
        Some(SmbError::Exists)
    } else {
        None
    }
}

/// A list in which a stream was given another name.
pub open spec fn named_anew(
    list: Seq<NamedStreamModel>,
    from: Seq<char>,
    to: Seq<char>,
) -> Seq<NamedStreamModel> {
    let i = stream_at(list, from);
    list.update(i, NamedStreamModel { name: to, ..list[i] })
}

/// The streams of a file after one was renamed; it takes the place of one that has the new
/// name.
pub open spec fn renamed_streams(
    list: Seq<NamedStreamModel>,
    from: Seq<char>,
    to: Seq<char>,
) -> Seq<NamedStreamModel> {
    if !text::same_ignoring_case(list[stream_at(list, from)].name, to) && has_stream(list, to) {
        named_anew(list.remove(stream_at(list, to)), from, to)
    } else {
        named_anew(list, from, to)
    }
}

/// Why a stream cannot be opened.
pub open spec fn open_error(
    list: Seq<NamedStreamModel>,
    name: Seq<char>,
    intent: OpenIntent,
) -> Option<SmbError> {
    match intent {
        OpenIntent::Open | OpenIntent::Truncate => if has_stream(list, name) {
            None
        } else {
            Some(SmbError::NotFound)
        },
        OpenIntent::Create => if has_stream(list, name) {
            Some(SmbError::Exists)
        } else {
            None
        },
        OpenIntent::OpenOrCreate | OpenIntent::OverwriteOrCreate => None,
    }
}

/// The streams of a file after one was opened: it is created where it is not there, and
/// emptied where it is to be overwritten.
pub open spec fn opened_streams(
    list: Seq<NamedStreamModel>,
    name: Seq<char>,
    intent: OpenIntent,
    creation_time: u64,
    now: u64,
) -> Seq<NamedStreamModel> {
    let i = stream_at(list, name);
    if open_error(list, name, intent) is Some {
        list
    } else if !has_stream(list, name) {
        list.push(new_stream(name, creation_time, now))
    } else if intent is Truncate || intent is OverwriteOrCreate {
        list.update(i, NamedStreamModel { data: Seq::empty(), ..list[i] })
    } else {
        list
    }
}

/// Data cut to a length or filled up with zeros.
pub open spec fn resized(data: Seq<u8>, len: int) -> Seq<u8> {
    Seq::new(
        len as nat,
        |i: int|
            if i < data.len() {
                data[i]
            } else {
                0u8
            },
    )
}

/// Data after a write; a gap before it is filled up with zeros.
pub open spec fn written(data: Seq<u8>, offset: int, new: Seq<u8>) -> Seq<u8> {
    Seq::new(
        if data.len() >= offset + new.len() {
            data.len()
        } else {
            (offset + new.len()) as nat
        },
        |i: int|
            if offset <= i < offset + new.len() {
                new[i - offset]
            } else if i < data.len() {
                data[i]
            } else {
                0u8
            },
    )
}

/// What is read of data.
pub open spec fn read_of(data: Seq<u8>, offset: int, len: int) -> Seq<u8> {
    if offset >= data.len() {
        Seq::empty()
    } else if offset + len <= data.len() {
        data.subrange(offset, offset + len)
    } else {
        data.subrange(offset, data.len() as int)
    }
}

/// What was written is read back, and what was there elsewhere stays.
pub proof fn reads_give_back_writes(data: Seq<u8>, offset: int, new: Seq<u8>, i: int)
    requires
        0 <= offset,
    ensures
        read_of(written(data, offset, new), offset, new.len() as int) == new,
        0 <= i < data.len() && !(offset <= i < offset + new.len()) ==> written(
            data,
            offset,
            new,
        )[i] == data[i],
        written(data, offset, new).len() >= data.len(),
{
    assert(read_of(written(data, offset, new), offset, new.len() as int) =~= new);
}

/// A stream that was written to holds what was written, under its name, for as long as
/// nothing else happens to it.
pub proof fn written_streams_are_found(
    m: StateModel,
    key: KeyModel,
    name: Seq<char>,
    s: NamedStreamModel,
)
    requires
        stream_of(m, key, name) is Some,
        s.name == stream_of(m, key, name)->0.name,
    ensures
        stream_of(with_stream(m, key, name, s), key, name) == Some(s),
{
    let list = streams_of(m, key);
    let i = stream_at(list, name);
    let after = list.update(i, s);
    lists::first_is_first(list, stream_is(name));
    assert forall|j: int| 0 <= j < i implies !stream_is(name)(#[trigger] after[j]) by {
        assert(after[j] == list[j]);
        assert(!stream_is(name)(list[j]));
    }
    lists::first_at(after, stream_is(name), i);
}

/// A time, unless another is to be set.
pub open spec fn set_time(old: u64, new: Option<u64>) -> u64 {
    match new {
        Some(t) => t,
        None => old,
    }
}

/// How a stream is shown beside the file's own data.
pub open spec fn shown_stream(s: NamedStreamModel) -> ShownStream {
    ShownStream {
        name: seq![':'] + s.name + seq![':', '$', 'D', 'A', 'T', 'A'],
        size: s.data.len() as u64,
        allocation: s.data.len() as u64,
    }
}

/// How a stream is shown.
#[verifier::ext_equal]
pub struct ShownStream {
    pub name: Seq<char>,
    pub size: u64,
    pub allocation: u64,
}

/// How streams are shown.
pub open spec fn shown_models(s: Seq<FileStream>) -> Seq<ShownStream> {
    s.map_values(
        |f: FileStream| ShownStream { name: f.name@, size: f.size, allocation: f.allocation },
    )
}

/// The streams of a file as they are shown: its own data first, where it is no directory.
pub open spec fn shown_streams(list: Seq<NamedStreamModel>, info: FileInfo) -> Seq<ShownStream> {
    (if info.is_directory {
        Seq::empty()
    } else {
        seq![
            ShownStream {
                name: seq![':', ':', '$', 'D', 'A', 'T', 'A'],
                size: info.end_of_file,
                allocation: info.allocation_size,
            },
        ]
    }) + list.map_values(|s: NamedStreamModel| shown_stream(s))
}

// ---------------------------------------------------------------------------
// Code
// ---------------------------------------------------------------------------

impl NamedStream {
    /// A stream that was just created.
    pub fn new(name: &str, creation_time: u64, now: u64) -> (r: Self)
        ensures
            r@ == new_stream(name@, creation_time, now),
    {
        let r = NamedStream {
            name: string_of_str(name),
            data: Vec::new(),
            creation_time,
            last_access_time: now,
            last_write_time: now,
            change_time: now,
        };
        assert(r@ =~= new_stream(name@, creation_time, now));
        r
    }
}

fn find_stream(list: &Vec<NamedStream>, name: &str) -> (r: Option<usize>)
    ensures
        match r {
            None => !has_stream(stream_models(list@), name@),
            Some(i) => i < list@.len() && i == stream_at(stream_models(list@), name@),
        },
{
    let ghost all = stream_models(list@);
    let mut i: usize = 0;
    while i < list.len()
        invariant
            i <= list@.len(),
            all == stream_models(list@),
            forall|j: int| 0 <= j < i ==> !stream_is(name@)(#[trigger] all[j]),
        decreases list@.len() - i,
    {
        assert(all[i as int] == list@[i as int]@);
        if eq_ignore_ascii_case(list[i].name.as_str(), name) {
            proof {
                lists::first_at(all, stream_is(name@), i as int);
            }
            return Some(i);
        }
        i += 1;
    }
    proof {
        lists::first_at(all, stream_is(name@), i as int);
    }
    None
}

fn resize(data: &mut Vec<u8>, len: usize)
    ensures
        final(data)@ == resized(old(data)@, len as int),
{
    if data.len() > len {
        data.truncate(len);
    } else {
        let missing: usize = len - data.len();
        put_zeros(data, missing);
    }
    assert(data@ =~= resized(old(data)@, len as int));
}

fn write_at(data: &mut Vec<u8>, offset: usize, new: &[u8])
    requires
        offset + new@.len() <= usize::MAX,
    ensures
        final(data)@ == written(old(data)@, offset as int, new@),
{
    let ghost before = data@;
    let end: usize = offset + new.len();
    if data.len() < end {
        resize(data, end);
    }
    let ghost wide = data@;
    let mut i: usize = 0;
    while i < new.len()
        invariant
            i <= new@.len(),
            offset + new@.len() == end,
            data@.len() == wide.len(),
            end <= wide.len(),
            forall|j: int|
                0 <= j < wide.len() ==> data@[j] == if offset <= j < offset + i {
                    new@[j - offset]
                } else {
                    wide[j]
                },
        decreases new@.len() - i,
    {
        data[offset + i] = new[i];
        i += 1;
    }
    assert(data@ =~= written(before, offset as int, new@));
}

impl ServerState {
    fn stream_index(&self, key: &PosixKey, name: &str) -> (r: Option<usize>)
        ensures
            match r {
                None => stream_of(self@, key@, name@) is None,
                Some(i) => self@.files.streams.contains_key(key@)
                    && i < self@.files.streams[key@].len()
                    && i == stream_at(streams_of(self@, key@), name@) && has_stream(
                    streams_of(self@, key@),
                    name@,
                ),
            },
    {
        match self.files.streams.get(key) {
            None => None,
            Some(list) => find_stream(&list.items, name),
        }
    }

    /// Deletes a stream.
    pub fn delete_stream(
        &mut self,
        share: &str,
        base: &SmbPath,
        stream_name: &str,
    ) -> (r: SmbResult<
        (),
    >)
        ensures
            r == (if stream_of(old(self)@, key_of(share@, base@), stream_name@) is None {
                Err(SmbError::NotFound)
            } else {
                Ok(())
            }),
            final(self)@ == stream_deleted(old(self)@, key_of(share@, base@), stream_name@),
    {
        let key = PosixKey::new(share, base);
        match self.stream_index(&key, stream_name) {
            None => Err(SmbError::NotFound),
            Some(i) => {
                match self.files.streams.take(&key) {
                    None => Err(SmbError::NotFound),
                    Some(list) => {
                        let mut list: StreamList = list;
                        let ghost before = list@;
                        let _ = list.items.remove(i);
                        assert(list@ =~= before.remove(i as int));
                        if list.items.len() > 0 {
                            self.files.streams.set(key, list);
                        }
                        assert(self@.files.streams =~= stream_deleted(
                            old(self)@,
                            key@,
                            stream_name@,
                        ).files.streams);
                        Ok(())
                    },
                }
            },
        }
    }

    /// Renames a stream.
    pub fn rename_stream(
        &mut self,
        share: &str,
        base: &SmbPath,
        from_stream: &str,
        to_stream: &str,
        replace_if_exists: bool,
    ) -> (r: SmbResult<()>)
        ensures
            ({
                let key = key_of(share@, base@);
                let list = streams_of(old(self)@, key);
                match rename_error(list, from_stream@, to_stream@, replace_if_exists) {
                    Some(e) => r == Err::<(), SmbError>(e) && final(self)@ == old(self)@,
                    None => r == Ok::<(), SmbError>(()) && final(self)@ == with_streams(
                        old(self)@,
                        key,
                        renamed_streams(list, from_stream@, to_stream@),
                    ),
                }
            }),
    {
        let key = PosixKey::new(share, base);
        let from_index: usize = match self.stream_index(&key, from_stream) {
            None => {
                return Err(SmbError::NotFound);
            },
            Some(i) => i,
        };
        let to_index: Option<usize> = self.stream_index(&key, to_stream);
        let ghost all = streams_of(old(self)@, key@);
        let (same, taken) = match self.files.streams.get(&key) {
            None => {
                return Err(SmbError::NotFound);
            },
            Some(list) => {
                assert(list@[from_index as int] == list.items@[from_index as int]@);
                (
                    eq_ignore_ascii_case(list.items[from_index].name.as_str(), to_stream),
                    to_index.is_some(),
                )
            },
        };
        if !same && taken && !replace_if_exists {
            return Err(SmbError::Exists);
        }
        match self.files.streams.take(&key) {
            None => Err(SmbError::NotFound),
            Some(list) => {
                let mut list: StreamList = list;
                let mut at: usize = from_index;
                if !same {
                    match to_index {
                        None => {},
                        Some(t) => {
                            let _ = list.items.remove(t);
                            proof {
                                lemma_from_after_removal(
                                    all,
                                    from_stream@,
                                    to_stream@,
                                    from_index as int,
                                    t as int,
                                );
                            }
                            if t < at {
                                at = at - 1;
                            }
                            assert(list@ =~= all.remove(t as int));
                        },
                    }
                }
                let ghost before = list@;
                assert(before[at as int] == list.items@[at as int]@);
                list.items[at].name = string_of_str(to_stream);
                assert(list@ =~= before.update(
                    at as int,
                    NamedStreamModel { name: to_stream@, ..before[at as int] },
                ));
                self.files.streams.set(key, list);
                assert(self@.files.streams =~= old(self)@.files.streams.insert(
                    key@,
                    renamed_streams(all, from_stream@, to_stream@),
                ));
                Ok(())
            },
        }
    }

    /// The data of a stream.
    pub fn stream_data(&self, share: &str, base: &SmbPath, stream_name: &str) -> (r: SmbResult<
        Vec<u8>,
    >)
        ensures
            match stream_of(self@, key_of(share@, base@), stream_name@) {
                None => r matches Err(e) && e == SmbError::NotFound,
                Some(s) => r matches Ok(d) && d@ == s.data,
            },
    {
        match self.find_named_stream(share, base, stream_name) {
            None => Err(SmbError::NotFound),
            Some(s) => Ok(copy_range(s.data.as_slice(), 0, s.data.len())),
        }
    }

    fn find_named_stream(&self, share: &str, base: &SmbPath, stream_name: &str) -> (r: Option<
        &NamedStream,
    >)
        ensures
            match r {
                None => stream_of(self@, key_of(share@, base@), stream_name@) is None,
                Some(s) => stream_of(self@, key_of(share@, base@), stream_name@) == Some(s@),
            },
    {
        match self.files.streams.get(&PosixKey::new(share, base)) {
            None => None,
            Some(list) => match find_stream(&list.items, stream_name) {
                None => None,
                Some(i) => {
                    assert(list@[i as int] == list.items@[i as int]@);
                    Some(&list.items[i])
                },
            },
        }
    }

    /// Opens a stream; returns its name and whether it was there.
    pub fn open_stream(
        &mut self,
        share: &str,
        base: &SmbPath,
        stream_name: &str,
        intent: OpenIntent,
        base_creation_time: u64,
        now: u64,
    ) -> (r: SmbResult<(String, bool)>)
        ensures
            ({
                let key = key_of(share@, base@);
                let list = streams_of(old(self)@, key);
                &&& match open_error(list, stream_name@, intent) {
                    Some(e) => r matches Err(x) && x == e,
                    None => r matches Ok((name, found)) && found == has_stream(list, stream_name@)
                        && name@ == if found {
                        list[stream_at(list, stream_name@)].name
                    } else {
                        stream_name@
                    },
                }
                &&& final(self)@ == with_streams(
                    old(self)@,
                    key,
                    opened_streams(list, stream_name@, intent, base_creation_time, now),
                )
            }),
    {
        let key = PosixKey::new(share, base);
        let ghost all = streams_of(self@, key@);
        let mut list: StreamList = match self.files.streams.take(&key) {
            Some(list) => list,
            None => StreamList { items: Vec::new() },
        };
        assert(list@ =~= all);
        let position: Option<usize> = find_stream(&list.items, stream_name);
        let overwrite: bool = match intent {
            OpenIntent::Truncate | OpenIntent::OverwriteOrCreate => true,
            _ => false,
        };
        let must_exist: bool = match intent {
            OpenIntent::Open | OpenIntent::Truncate => true,
            _ => false,
        };
        let must_not_exist: bool = match intent {
            OpenIntent::Create => true,
            _ => false,
        };
        let r: SmbResult<(String, bool)> = match position {
            None => {
                if must_exist {
                    Err(SmbError::NotFound)
                } else {
                    let s = NamedStream::new(stream_name, base_creation_time, now);
                    list.items.push(s);
                    assert(list@ =~= all.push(s@));
                    Ok((string_of_str(stream_name), false))
                }
            },
            Some(i) => {
                if must_not_exist {
                    Err(SmbError::Exists)
                } else {
                    assert(all[i as int] == list.items@[i as int]@);
                    if overwrite {
                        list.items[i].data = Vec::new();
                        assert(list.items@[i as int].data@ =~= Seq::empty());
                        assert(list@ =~= all.update(
                            i as int,
                            NamedStreamModel { data: Seq::empty(), ..all[i as int] },
                        ));
                    }
                    Ok((list.items[i].name.clone(), true))
                }
            },
        };
        assert(list@ == opened_streams(all, stream_name@, intent, base_creation_time, now));
        self.files.streams.set(key, list);
        assert(self@.files.streams =~= with_streams(
            old(self)@,
            key@,
            opened_streams(all, stream_name@, intent, base_creation_time, now),
        ).files.streams);
        r
    }

    /// The streams of a file as they are shown.
    pub fn stream_info(&self, share: &str, base: &SmbPath, base_info: &FileInfo) -> (r: Vec<
        FileStream,
    >)
        ensures
            shown_models(r@) == shown_streams(
                streams_of(self@, key_of(share@, base@)),
                *base_info,
            ),
    {
        let mut out: Vec<FileStream> = Vec::new();
        let ghost list = streams_of(self@, key_of(share@, base@));
        let ghost none = Seq::<NamedStreamModel>::empty();
        proof {
            reveal_strlit("::$DATA");
            reveal_strlit(":$DATA");
            reveal_strlit(":");
        }
        if !base_info.is_directory {
            let name: String = string_of_str("::$DATA");
            assert(name@ =~= seq![':', ':', '$', 'D', 'A', 'T', 'A']);
            out.push(
                FileStream {
                    name,
                    size: base_info.end_of_file,
                    allocation: base_info.allocation_size,
                },
            );
        }
        assert(shown_models(out@) =~= shown_streams(none, *base_info));
        match self.files.streams.get(&PosixKey::new(share, base)) {
            None => {
                assert(list =~= none);
            },
            Some(streams) => {
                let mut i: usize = 0;
                assert(list.take(0) =~= none);
                while i < streams.items.len()
                    invariant
                        i <= streams.items@.len(),
                        list == stream_models(streams.items@),
                        ":$DATA"@ == seq![':', '$', 'D', 'A', 'T', 'A'],
                        ":"@ == seq![':'],
                        shown_models(out@) == shown_streams(list.take(i as int), *base_info),
                    decreases streams.items@.len() - i,
                {
                    let s: &NamedStream = &streams.items[i];
                    assert(list[i as int] == s@);
                    let ghost before = shown_models(out@);
                    let mut name: String = string_of_str(":");
                    push_str(&mut name, s.name.as_str());
                    push_str(&mut name, ":$DATA");
                    let size: u64 = s.data.len() as u64;
                    out.push(FileStream { name, size, allocation: size });
                    proof {
                        assert(name@ =~= shown_stream(s@).name);
                        assert(shown_models(out@) =~= before.push(shown_stream(s@)));
                        assert(list.take(i + 1) =~= list.take(i as int).push(s@));
                        assert(shown_streams(list.take(i + 1), *base_info) =~= shown_streams(
                            list.take(i as int),
                            *base_info,
                        ).push(shown_stream(s@)));
                    }
                    i += 1;
                }
                assert(list.take(i as int) =~= list);
            },
        }
        out
    }

    /// Reads from a stream.
    pub fn read_stream(
        &self,
        share: &str,
        base: &SmbPath,
        stream_name: &str,
        offset: u64,
        len: u32,
    ) -> (r: SmbResult<Vec<u8>>)
        ensures
            match stream_of(self@, key_of(share@, base@), stream_name@) {
                None => r matches Err(e) && e == SmbError::NotFound,
                Some(s) => r matches Ok(d) && d@ == read_of(s.data, offset as int, len as int),
            },
    {
        match self.find_named_stream(share, base, stream_name) {
            None => Err(SmbError::NotFound),
            Some(s) => {
                let n: usize = s.data.len();
                if offset >= n as u64 {
                    let none: Vec<u8> = Vec::new();
                    assert(none@ =~= Seq::empty());
                    return Ok(none);
                }
                let start: usize = offset as usize;
                let rest: u64 = (n - start) as u64;
                let end: usize = if (len as u64) < rest {
                    start + len as usize
                } else {
                    n
                };
                Ok(copy_range(s.data.as_slice(), start, end))
            },
        }
    }

    fn replace_stream(
        &mut self,
        key: PosixKey,
        at: usize,
        stream: NamedStream,
        Ghost(name): Ghost<Seq<char>>,
    )
        requires
            old(self)@.files.streams.contains_key(key@),
            at < old(self)@.files.streams[key@].len(),
            at == stream_at(streams_of(old(self)@, key@), name),
            has_stream(streams_of(old(self)@, key@), name),
        ensures
            final(self)@ == with_stream(old(self)@, key@, name, stream@),
    {
        let ghost all = streams_of(self@, key@);
        match self.files.streams.take(&key) {
            None => {},
            Some(list) => {
                let mut list: StreamList = list;
                list.items[at] = stream;
                assert(list@ =~= all.update(at as int, stream@));
                self.files.streams.set(key, list);
                assert(self@.files.streams =~= with_stream(
                    old(self)@,
                    key@,
                    name,
                    stream@,
                ).files.streams);
            },
        }
    }

    fn copy_stream(&self, key: &PosixKey, at: usize) -> (r: NamedStream)
        requires
            self@.files.streams.contains_key(key@),
            at < self@.files.streams[key@].len(),
        ensures
            r@ == self@.files.streams[key@][at as int],
    {
        match self.files.streams.get(key) {
            None => NamedStream::new("", 0, 0),
            Some(list) => {
                let s: &NamedStream = &list.items[at];
                assert(list@[at as int] == s@);
                NamedStream {
                    name: s.name.clone(),
                    data: copy_range(s.data.as_slice(), 0, s.data.len()),
                    creation_time: s.creation_time,
                    last_access_time: s.last_access_time,
                    last_write_time: s.last_write_time,
                    change_time: s.change_time,
                }
            },
        }
    }

    /// Writes to a stream; returns how many bytes.
    pub fn write_stream(
        &mut self,
        share: &str,
        base: &SmbPath,
        stream_name: &str,
        offset: u64,
        data: &[u8],
        now: u64,
    ) -> (r: SmbResult<u32>)
        requires
            offset + data@.len() <= usize::MAX,
        ensures
            match stream_of(old(self)@, key_of(share@, base@), stream_name@) {
                None => r == Err::<u32, SmbError>(SmbError::NotFound) && final(self)@
                    == old(self)@,
                Some(s) => r == Ok::<u32, SmbError>(data@.len() as u32) && final(self)@
                    == with_stream(
                    old(self)@,
                    key_of(share@, base@),
                    stream_name@,
                    (NamedStreamModel {
                        data: written(s.data, offset as int, data@),
                        last_write_time: now,
                        change_time: now,
                        ..s
                    }),
                ),
            },
    {
        let key = PosixKey::new(share, base);
        match self.stream_index(&key, stream_name) {
            None => Err(SmbError::NotFound),
            Some(i) => {
                let mut s: NamedStream = self.copy_stream(&key, i);
                write_at(&mut s.data, offset as usize, data);
                s.last_write_time = now;
                s.change_time = now;
                self.replace_stream(key, i, s, Ghost(stream_name@));
                Ok(data.len() as u32)
            },
        }
    }

    /// Sets times of a stream.
    pub fn set_stream_times(
        &mut self,
        share: &str,
        base: &SmbPath,
        stream_name: &str,
        times: FileTimes,
    ) -> (r: SmbResult<()>)
        ensures
            match stream_of(old(self)@, key_of(share@, base@), stream_name@) {
                None => r == Err::<(), SmbError>(SmbError::NotFound) && final(self)@ == old(self)@,
                Some(s) => r == Ok::<(), SmbError>(()) && final(self)@ == with_stream(
                    old(self)@,
                    key_of(share@, base@),
                    stream_name@,
                    (NamedStreamModel {
                        creation_time: set_time(s.creation_time, times.creation_time),
                        last_access_time: set_time(s.last_access_time, times.last_access_time),
                        last_write_time: set_time(s.last_write_time, times.last_write_time),
                        change_time: set_time(s.change_time, times.change_time),
                        ..s
                    }),
                ),
            },
    {
        let key = PosixKey::new(share, base);
        match self.stream_index(&key, stream_name) {
            None => Err(SmbError::NotFound),
            Some(i) => {
                let mut s: NamedStream = self.copy_stream(&key, i);
                match times.creation_time {
                    Some(t) => {
                        s.creation_time = t;
                    },
                    None => {},
                }
                match times.last_access_time {
                    Some(t) => {
                        s.last_access_time = t;
                    },
                    None => {},
                }
                match times.last_write_time {
                    Some(t) => {
                        s.last_write_time = t;
                    },
                    None => {},
                }
                match times.change_time {
                    Some(t) => {
                        s.change_time = t;
                    },
                    None => {},
                }
                self.replace_stream(key, i, s, Ghost(stream_name@));
                Ok(())
            },
        }
    }

    /// Cuts a stream to a length or fills it up with zeros.
    pub fn truncate_stream(
        &mut self,
        share: &str,
        base: &SmbPath,
        stream_name: &str,
        len: u64,
        now: u64,
    ) -> (r: SmbResult<()>)
        requires
            len <= usize::MAX,
        ensures
            match stream_of(old(self)@, key_of(share@, base@), stream_name@) {
                None => r == Err::<(), SmbError>(SmbError::NotFound) && final(self)@ == old(self)@,
                Some(s) => r == Ok::<(), SmbError>(()) && final(self)@ == with_stream(
                    old(self)@,
                    key_of(share@, base@),
                    stream_name@,
                    (NamedStreamModel {
                        data: resized(s.data, len as int),
                        last_write_time: now,
                        change_time: now,
                        ..s
                    }),
                ),
            },
    {
        let key = PosixKey::new(share, base);
        match self.stream_index(&key, stream_name) {
            None => Err(SmbError::NotFound),
            Some(i) => {
                let mut s: NamedStream = self.copy_stream(&key, i);
                resize(&mut s.data, len as usize);
                s.last_write_time = now;
                s.change_time = now;
                self.replace_stream(key, i, s, Ghost(stream_name@));
                Ok(())
            },
        }
    }

    /// What is known of a stream, as of a file.
    pub fn stream_file_info(&self, share: &str, base: &SmbPath, stream_name: &str) -> (r: SmbResult<
        FileInfo,
    >)
        ensures
            match stream_of(self@, key_of(share@, base@), stream_name@) {
                None => r matches Err(e) && e == SmbError::NotFound,
                Some(s) => r matches Ok(info) && info.name@ == path::displayed(base@) + seq![':']
                    + s.name && info.end_of_file == s.data.len() && info.allocation_size
                    == s.data.len() && info.creation_time == s.creation_time
                    && info.last_access_time == s.last_access_time && info.last_write_time
                    == s.last_write_time && info.change_time == s.change_time && !info.is_directory
                    && info.file_index == 0 && info.file_attributes == FILE_ATTRIBUTE_ARCHIVE,
            },
    {
        match self.find_named_stream(share, base, stream_name) {
            None => Err(SmbError::NotFound),
            Some(s) => {
                proof {
                    reveal_strlit(":");
                }
                let mut name: String = base.display_backslash();
                push_str(&mut name, ":");
                push_str(&mut name, s.name.as_str());
                assert(name@ =~= path::displayed(base@) + seq![':'] + s@.name);
                let size: u64 = s.data.len() as u64;
                Ok(
                    FileInfo {
                        name,
                        end_of_file: size,
                        allocation_size: size,
                        creation_time: s.creation_time,
                        last_access_time: s.last_access_time,
                        last_write_time: s.last_write_time,
                        change_time: s.change_time,
                        is_directory: false,
                        file_index: 0,
                        file_attributes: default_file_attributes(false),
                    },
                )
            },
        }
    }
}

proof fn lemma_from_after_removal(
    list: Seq<NamedStreamModel>,
    from: Seq<char>,
    to: Seq<char>,
    f: int,
    t: int,
)
    requires
        f == stream_at(list, from),
        has_stream(list, from),
        t == stream_at(list, to),
        has_stream(list, to),
        !text::same_ignoring_case(list[f].name, to),
    ensures
        0 <= f < list.len(),
        0 <= t < list.len(),
        f != t,
        stream_at(list.remove(t), from) == if t < f {
            f - 1
        } else {
            f
        },
        stream_at(list.remove(t), from) < list.len() - 1,
{
    lists::first_is_first(list, stream_is(from));
    lists::first_is_first(list, stream_is(to));
    let left = list.remove(t);
    let at = if t < f {
        f - 1
    } else {
        f
    };
    assert forall|j: int| 0 <= j < at implies !stream_is(from)(#[trigger] left[j]) by {
        if j < t {
            assert(left[j] == list[j]);
            assert(!stream_is(from)(list[j]));
        } else {
            assert(left[j] == list[j + 1]);
            assert(!stream_is(from)(list[j + 1]));
        }
    }
    lists::first_at(left, stream_is(from), at);
}

} // verus!
