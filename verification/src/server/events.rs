//! Change events: how they are named, matched, coalesced and written.

use crate::backend::{
    WatchAction, WatchEvent, WatchRecord, WATCH_CHANGE_ATTRIBUTES, WATCH_CHANGE_CREATION,
    WATCH_CHANGE_LAST_ACCESS, WATCH_CHANGE_LAST_WRITE, WATCH_CHANGE_SECURITY, WATCH_CHANGE_SIZE,
};
use crate::path;
use crate::path::{path_is_descendant, PathModel, SmbPath};
use crate::text;
use crate::text::{encode_utf16le, lower_char};
use crate::wire;
use vstd::prelude::*;

verus! {

/// The name of a file changes.
pub const FILE_NOTIFY_CHANGE_FILE_NAME: u32 = 0x0000_0001;

/// The name of a directory changes.
pub const FILE_NOTIFY_CHANGE_DIR_NAME: u32 = 0x0000_0002;

/// Attributes change.
pub const FILE_NOTIFY_CHANGE_ATTRIBUTES: u32 = 0x0000_0004;

/// The size changes.
pub const FILE_NOTIFY_CHANGE_SIZE: u32 = 0x0000_0008;

/// The time of the last write changes.
pub const FILE_NOTIFY_CHANGE_LAST_WRITE: u32 = 0x0000_0010;

/// The time of the last access changes.
pub const FILE_NOTIFY_CHANGE_LAST_ACCESS: u32 = 0x0000_0020;

/// The creation time changes.
pub const FILE_NOTIFY_CHANGE_CREATION: u32 = 0x0000_0040;

/// The security descriptor changes.
pub const FILE_NOTIFY_CHANGE_SECURITY: u32 = 0x0000_0100;

/// A file was added.
pub const FILE_ACTION_ADDED: u32 = 0x0000_0001;

/// A file was removed.
pub const FILE_ACTION_REMOVED: u32 = 0x0000_0002;

/// A file was modified.
pub const FILE_ACTION_MODIFIED: u32 = 0x0000_0003;

/// A file was renamed: its old name.
pub const FILE_ACTION_RENAMED_OLD_NAME: u32 = 0x0000_0004;

/// A file was renamed: its new name.
pub const FILE_ACTION_RENAMED_NEW_NAME: u32 = 0x0000_0005;

/// Something that happened to a file, named as the watcher sees it.
#[derive(Debug, Clone, PartialEq, Eq)]
pub struct NotifyEvent {
    pub action: u32,
    pub name: String,
    pub is_directory: bool,
}

/// What an event says.
#[verifier::ext_equal]
pub struct EventModel {
    pub action: u32,
    pub name: Seq<char>,
    pub is_directory: bool,
}

impl View for NotifyEvent {
    type V = EventModel;

    open spec fn view(&self) -> EventModel {
        EventModel { action: self.action, name: self.name@, is_directory: self.is_directory }
    }
}

/// What the events of a list say.
pub open spec fn event_models(events: Seq<NotifyEvent>) -> Seq<EventModel> {
    events.map_values(|e: NotifyEvent| e@)
}

impl NotifyEvent {
    /// Makes a copy.
    pub fn duplicate(&self) -> (r: Self)
        ensures
            r@ == self@,
    {
        NotifyEvent {
            action: self.action,
            name: self.name.clone(),
            is_directory: self.is_directory,
        }
    }
}

// ---------------------------------------------------------------------------
// Matching
// ---------------------------------------------------------------------------

/// Whether a watch on `watch` sees what happens to `event` in the directory `parent`.
pub open spec fn watch_sees(
    watch: PathModel,
    recursive: bool,
    event: PathModel,
    parent: PathModel,
) -> bool {
    watch == parent || (recursive && path::is_below(event, watch))
}

/// Whether a watch on `watch` sees what happens to `event` in the directory `parent`.
pub fn notify_watch_matches(
    watch: &SmbPath,
    recursive: bool,
    event: &SmbPath,
    parent: &SmbPath,
) -> (r: bool)
    ensures
        r == watch_sees(watch@, recursive, event@, parent@),
{
    watch.same(parent) || (recursive && path_is_descendant(event, watch))
}

/// Whether a filter lets changes of a kind through; an empty filter lets all through.
pub open spec fn filter_passes(completion_filter: u32, wanted_filter: u32) -> bool {
    completion_filter == 0 || completion_filter & wanted_filter != 0
}

/// Whether a filter lets changes of a kind through.
pub fn notify_filter_matches(completion_filter: u32, wanted_filter: u32) -> (r: bool)
    ensures
        r == filter_passes(completion_filter, wanted_filter),
{
    completion_filter == 0 || completion_filter & wanted_filter != 0
}

/// The name of a file relative to a watched directory; its own name where it does not
/// lie below the directory.
pub open spec fn relative_name(watch: PathModel, event: PathModel) -> Seq<char> {
    let n = watch.len() as int;
    if event.len() > n && event.take(n) == watch {
        path::displayed(event.skip(n))
    } else if event.len() > 0 {
        event.last()
    } else {
        Seq::empty()
    }
}

/// The name of a file relative to a watched directory.
pub fn notify_relative_name(watch: &SmbPath, event: &SmbPath) -> (r: String)
    ensures
        r@ == relative_name(watch@, event@),
{
    let n: usize = watch.components.len();
    let mut below: bool = event.components.len() > n;
    let mut i: usize = 0;
    while below && i < n
        invariant
            i <= n,
            n == watch.components@.len(),
            below ==> event.components@.len() > n && forall|j: int|
                0 <= j < i ==> event@[j] == watch@[j],
            !below ==> !(event@.len() > n && event@.take(n as int) == watch@),
        decreases
                n - i,
                if below {
                    1int
                } else {
                    0
                },
    {
        if event.components[i] != watch.components[i] {
            assert(event@.take(n as int)[i as int] == event@[i as int]);
            assert(event@[i as int] != watch@[i as int]);
            below = false;
        } else {
            i += 1;
        }
    }
    if below {
        assert(event@.take(n as int) =~= watch@);
        path::join_components(&event.components, n)
    } else {
        match event.file_name() {
            Some(name) => name.clone(),
            None => String::new(),
        }
    }
}

// ---------------------------------------------------------------------------
// Coalescing
// ---------------------------------------------------------------------------

/// A character of a name by which events of one file are recognised.
pub open spec fn key_char(c: char) -> char {
    if text::lower(c) == '/' {
        '\\'
    } else {
        text::lower(c)
    }
}

/// The text by which events of one file are recognised: the name in lower case with
/// backslashes, and whether it is a directory.
pub open spec fn event_key(e: EventModel) -> Seq<char> {
    e.name.map_values(|c: char| key_char(c)) + seq!['\0', if e.is_directory { 'd' } else { 'f' }]
}

/// Events while they are coalesced.
#[verifier::ext_equal]
pub struct Coalescing {
    /// What is kept so far.
    pub out: Seq<EventModel>,
    /// Files that were added and not removed since.
    pub added: Set<Seq<char>>,
    /// Files that were removed or renamed away.
    pub replaced: Set<Seq<char>>,
}

/// Whether the last event is a modification of the file with a key.
pub open spec fn ends_modified(out: Seq<EventModel>, key: Seq<char>) -> bool {
    out.len() > 0 && out.last().action == FILE_ACTION_MODIFIED && event_key(out.last()) == key
}

/// Events without the modifications of a file that stand at the end.
pub open spec fn without_modified(out: Seq<EventModel>, key: Seq<char>) -> Seq<EventModel>
    decreases out.len(),
{
    if ends_modified(out, key) {
        without_modified(out.drop_last(), key)
    } else {
        out
    }
}

/// What one more event adds. A modification says nothing new of a file that was added, or
/// behind another modification of it; a removal makes the modifications before it moot.
pub open spec fn coalesce_step(s: Coalescing, e: EventModel) -> Coalescing {
    let key = event_key(e);
    if e.action == FILE_ACTION_ADDED {
        Coalescing { out: s.out.push(e), added: s.added.insert(key), ..s }
    } else if e.action == FILE_ACTION_MODIFIED {
        if (s.added.contains(key) && !s.replaced.contains(key)) || ends_modified(s.out, key) {
            s
        } else {
            Coalescing { out: s.out.push(e), ..s }
        }
    } else if e.action == FILE_ACTION_REMOVED || e.action == FILE_ACTION_RENAMED_OLD_NAME {
        Coalescing {
            out: without_modified(s.out, key).push(e),
            added: s.added.remove(key),
            replaced: s.replaced.insert(key),
        }
    } else {
        Coalescing { out: s.out.push(e), ..s }
    }
}

/// Events coalesced one by one.
pub open spec fn coalescing(events: Seq<EventModel>) -> Coalescing
    decreases events.len(),
{
    if events.len() == 0 {
        Coalescing { out: Seq::empty(), added: Set::empty(), replaced: Set::empty() }
    } else {
        coalesce_step(coalescing(events.drop_last()), events.last())
    }
}

/// Events coalesced.
pub open spec fn coalesced(events: Seq<EventModel>) -> Seq<EventModel> {
    coalescing(events).out
}

/// The events that are no modifications.
pub open spec fn structural(events: Seq<EventModel>) -> Seq<EventModel>
    decreases events.len(),
{
    if events.len() == 0 {
        Seq::empty()
    } else if events.last().action == FILE_ACTION_MODIFIED {
        structural(events.drop_last())
    } else {
        structural(events.drop_last()).push(events.last())
    }
}

proof fn lemma_structural_without_modified(out: Seq<EventModel>, key: Seq<char>)
    ensures
        structural(without_modified(out, key)) == structural(out),
    decreases out.len(),
{
    if ends_modified(out, key) {
        lemma_structural_without_modified(out.drop_last(), key);
    }
}

/// Coalescing drops modifications only, and keeps the order of everything else.
pub proof fn coalescing_keeps_what_is_no_modification(events: Seq<EventModel>)
    ensures
        structural(coalesced(events)) == structural(events),
        coalesced(events).len() <= events.len(),
    decreases events.len(),
{
    if events.len() > 0 {
        let before = coalescing(events.drop_last());
        let e = events.last();
        coalescing_keeps_what_is_no_modification(events.drop_last());
        lemma_structural_without_modified(before.out, event_key(e));
        lemma_without_modified_len(before.out, event_key(e));
        assert(before.out.push(e).drop_last() =~= before.out);
        assert(without_modified(before.out, event_key(e)).push(e).drop_last() =~= without_modified(
            before.out,
            event_key(e),
        ));
    }
}

proof fn lemma_without_modified_len(out: Seq<EventModel>, key: Seq<char>)
    ensures
        without_modified(out, key).len() <= out.len(),
    decreases out.len(),
{
    if ends_modified(out, key) {
        lemma_without_modified_len(out.drop_last(), key);
    }
}

/// The text by which events of one file are recognised.
fn notify_event_coalesce_key(event: &NotifyEvent) -> (r: String)
    ensures
        r@ == event_key(event@),
{
    let mut r: String = String::new();
    for c in it: event.name.as_str().chars()
        invariant
            it.seq() == event.name@,
            r@ == it.seq().take(it.index()).map_values(|c: char| key_char(c)),
    {
        let l: char = lower_char(c);
        if l == '/' {
            r.push('\\');
        } else {
            r.push(l);
        }
        assert(r@ =~= it.seq().take(it.index() + 1).map_values(|c: char| key_char(c)));
    }
    assert(event.name@.take(event.name@.len() as int) =~= event.name@);
    r.push('\0');
    if event.is_directory {
        r.push('d');
    } else {
        r.push('f');
    }
    assert(r@ =~= event_key(event@));
    r
}

/// The texts of a list.
pub open spec fn text_set(list: Seq<String>) -> Set<Seq<char>> {
    Set::new(|k: Seq<char>| exists|i: int| 0 <= i < list.len() && #[trigger] list[i]@ == k)
}

fn contains_text(list: &Vec<String>, key: &String) -> (r: bool)
    ensures
        r == text_set(list@).contains(key@),
{
    let mut i: usize = 0;
    while i < list.len()
        invariant
            i <= list@.len(),
            forall|j: int| 0 <= j < i ==> #[trigger] list@[j]@ != key@,
        decreases list@.len() - i,
    {
        if list[i] == *key {
            return true;
        }
        i += 1;
    }
    false
}

fn insert_text(list: &mut Vec<String>, key: String)
    ensures
        text_set(final(list)@) == text_set(old(list)@).insert(key@),
{
    list.push(key);
    proof {
        assert forall|k: Seq<char>| text_set(list@).contains(k) <==> text_set(old(list)@).insert(
            key@,
        ).contains(k) by {
            if text_set(old(list)@).contains(k) {
                let i = choose|i: int| 0 <= i < old(list)@.len() && #[trigger] old(list)@[i]@ == k;
                assert(list@[i]@ == k);
            }
            if k == key@ {
                assert(list@[old(list)@.len() as int]@ == k);
            }
            if text_set(list@).contains(k) {
                let i = choose|i: int| 0 <= i < list@.len() && #[trigger] list@[i]@ == k;
                if i < old(list)@.len() {
                    assert(old(list)@[i]@ == k);
                }
            }
        }
        assert(text_set(list@) =~= text_set(old(list)@).insert(key@));
    }
}

fn remove_text(list: &Vec<String>, key: &String) -> (r: Vec<String>)
    ensures
        text_set(r@) == text_set(list@).remove(key@),
{
    let mut out: Vec<String> = Vec::new();
    let mut i: usize = 0;
    while i < list.len()
        invariant
            i <= list@.len(),
            forall|j: int| 0 <= j < out@.len() ==> #[trigger] out@[j]@ != key@,
            forall|k: Seq<char>|
                text_set(list@.take(i as int)).contains(k) && k != key@ ==> text_set(
                    out@,
                ).contains(k),
            forall|k: Seq<char>|
                text_set(out@).contains(k) ==> text_set(list@.take(i as int)).contains(k),
        decreases list@.len() - i,
    {
        let ghost before = out@;
        let ghost seen = list@.take(i as int);
        let ghost next = list@.take(i + 1);
        let item: &String = &list[i];
        if *item != *key {
            out.push(item.clone());
        }
        proof {
            assert forall|k: Seq<char>| text_set(next).contains(k) && k != key@ implies text_set(
                out@,
            ).contains(k) by {
                let j = choose|j: int| 0 <= j < next.len() && #[trigger] next[j]@ == k;
                if j < i {
                    assert(seen[j]@ == k);
                    assert(text_set(seen).contains(k));
                    assert(text_set(before).contains(k));
                    let m = choose|m: int| 0 <= m < before.len() && #[trigger] before[m]@ == k;
                    assert(out@[m]@ == k);
                } else {
                    assert(out@[before.len() as int]@ == k);
                }
            }
            assert forall|k: Seq<char>| text_set(out@).contains(k) implies text_set(next).contains(
                k,
            ) by {
                let m = choose|m: int| 0 <= m < out@.len() && #[trigger] out@[m]@ == k;
                if m < before.len() {
                    assert(before[m]@ == k);
                    assert(text_set(before).contains(k));
                    let j = choose|j: int| 0 <= j < seen.len() && #[trigger] seen[j]@ == k;
                    assert(next[j]@ == k);
                } else {
                    assert(next[i as int]@ == k);
                }
            }
        }
        i += 1;
    }
    proof {
        assert(list@.take(i as int) =~= list@);
        assert forall|k: Seq<char>| text_set(out@).contains(k) <==> text_set(list@).remove(
            key@,
        ).contains(k) by {
            if text_set(out@).contains(k) {
                let m = choose|m: int| 0 <= m < out@.len() && #[trigger] out@[m]@ == k;
                assert(out@[m]@ != key@);
            }
        }
        assert(text_set(out@) =~= text_set(list@).remove(key@));
    }
    out
}

fn last_is_modified(out: &Vec<NotifyEvent>, key: &String) -> (r: bool)
    ensures
        r == ends_modified(event_models(out@), key@),
{
    if out.len() == 0 {
        return false;
    }
    let last: &NotifyEvent = &out[out.len() - 1];
    assert(event_models(out@).last() == last@);
    last.action == FILE_ACTION_MODIFIED && notify_event_coalesce_key(last) == *key
}

/// Coalesces events.
pub fn coalesce_notify_events(events: &[NotifyEvent]) -> (r: Vec<NotifyEvent>)
    ensures
        event_models(r@) == coalesced(event_models(events@)),
{
    let ghost all = event_models(events@);
    let mut out: Vec<NotifyEvent> = Vec::new();
    let mut added: Vec<String> = Vec::new();
    let mut replaced: Vec<String> = Vec::new();
    let mut i: usize = 0;
    proof {
        assert(text_set(added@) =~= Set::empty());
        assert(text_set(replaced@) =~= Set::empty());
        assert(event_models(out@) =~= Seq::empty());
        assert(all.take(0) =~= Seq::empty());
    }
    while i < events.len()
        invariant
            i <= events@.len(),
            all == event_models(events@),
            coalescing(all.take(i as int)) == (Coalescing {
                out: event_models(out@),
                added: text_set(added@),
                replaced: text_set(replaced@),
            }),
        decreases events@.len() - i,
    {
        let event: &NotifyEvent = &events[i];
        let key: String = notify_event_coalesce_key(event);
        let ghost before = coalescing(all.take(i as int));
        proof {
            assert(all.take(i + 1).drop_last() =~= all.take(i as int));
            assert(all.take(i + 1).last() == event@);
        }
        let mut keep: bool = true;
        if event.action == FILE_ACTION_ADDED {
            insert_text(&mut added, key);
        } else if event.action == FILE_ACTION_MODIFIED {
            if (contains_text(&added, &key) && !contains_text(&replaced, &key)) || last_is_modified(
                &out,
                &key,
            ) {
                keep = false;
            }
        } else if event.action == FILE_ACTION_REMOVED || event.action
            == FILE_ACTION_RENAMED_OLD_NAME {
            while last_is_modified(&out, &key)
                invariant
                    without_modified(event_models(out@), key@) == without_modified(
                        before.out,
                        key@,
                    ),
                decreases out@.len(),
            {
                let ghost longer = out@;
                let _ = out.pop();
                assert(event_models(out@) =~= event_models(longer).drop_last());
            }
            added = remove_text(&added, &key);
            insert_text(&mut replaced, key);
        }
        let ghost kept = event_models(out@);
        if keep {
            out.push(event.duplicate());
            assert(event_models(out@) =~= kept.push(event@));
        }
        i += 1;
        assert(coalescing(all.take(i as int)) =~= Coalescing {
            out: event_models(out@),
            added: text_set(added@),
            replaced: text_set(replaced@),
        });
    }
    assert(all.take(i as int) =~= all);
    out
}

// ---------------------------------------------------------------------------
// Writing
// ---------------------------------------------------------------------------

/// The number of bytes of a record, with its padding.
pub open spec fn notify_record_len(name: Seq<char>) -> int {
    (19int + text::utf16le(name).len()) / 8 * 8
}

/// A record; `next` is the distance to the record behind it, zero for the last.
#[verifier::opaque]
pub open spec fn notify_record(action: u32, name: Seq<char>, next: u32) -> Seq<u8> {
    let bytes = text::utf16le(name);
    wire::bytes32(next) + wire::bytes32(action) + wire::bytes32(bytes.len() as u32) + bytes
        + wire::zeros(notify_record_len(name) - 12 - bytes.len())
}

/// The records of the first `n` events.
pub open spec fn notify_records(events: Seq<EventModel>, n: int) -> Seq<u8>
    decreases n,
{
    if n <= 0 {
        Seq::empty()
    } else {
        let e = events[n - 1];
        notify_records(events, n - 1) + notify_record(
            e.action,
            e.name,
            if n < events.len() {
                notify_record_len(e.name) as u32
            } else {
                0
            },
        )
    }
}

/// Events as they are written: coalesced, one record behind the other.
pub open spec fn written_events(events: Seq<EventModel>) -> Seq<u8> {
    notify_records(coalesced(events), coalesced(events).len() as int)
}

proof fn lemma_notify_record_next(action: u32, name: Seq<char>, next: u32)
    ensures
        wire::overwritten(notify_record(action, name, 0), 0, wire::bytes32(next)) == notify_record(
            action,
            name,
            next,
        ),
{
    reveal(notify_record);
    assert(wire::overwritten(notify_record(action, name, 0), 0, wire::bytes32(next))
        =~= notify_record(action, name, next));
}

/// How many bytes are missing to a multiple of eight.
fn padding8(n: usize) -> (r: usize)
    ensures
        n + r == (n + 7) / 8 * 8,
        r < 8,
{
    (8 - n % 8) % 8
}

fn encode_file_notify_information(action: u32, name: &str, last: bool) -> (r: Vec<u8>)
    ensures
        r@ == notify_record(
            action,
            name@,
            if last {
                0
            } else {
                notify_record_len(name@) as u32
            },
        ),
{
    let bytes: Vec<u8> = encode_utf16le(name);
    let mut rec: Vec<u8> = Vec::new();
    wire::put_u32(&mut rec, 0);
    assert(rec@ =~= wire::bytes32(0));
    wire::put_u32(&mut rec, action);
    wire::put_u32(&mut rec, bytes.len() as u32);
    wire::put_bytes(&mut rec, bytes.as_slice());
    let len: usize = rec.len();
    assert(len == 12 + bytes@.len());
    wire::put_zeros(&mut rec, padding8(len));
    let padded: usize = rec.len();
    assert(padded == notify_record_len(name@));
    assert(rec@ == notify_record(action, name@, 0)) by {
        reveal(notify_record);
    }
    if !last {
        wire::set_u32(&mut rec, 0, padded as u32);
        proof {
            lemma_notify_record_next(action, name@, padded as u32);
        }
    }
    rec
}

/// Writes events one behind the other, as they are.
pub fn encode_file_notify_records(events: &[NotifyEvent]) -> (r: Vec<u8>)
    ensures
        r@ == notify_records(event_models(events@), events@.len() as int),
{
    let ghost all = event_models(events@);
    let mut out: Vec<u8> = Vec::new();
    let mut i: usize = 0;
    while i < events.len()
        invariant
            i <= events@.len(),
            all == event_models(events@),
            out@ == notify_records(all, i as int),
        decreases events@.len() - i,
    {
        let e: &NotifyEvent = &events[i];
        let rec: Vec<u8> = encode_file_notify_information(
            e.action,
            e.name.as_str(),
            i == events.len() - 1,
        );
        wire::put_bytes(&mut out, rec.as_slice());
        assert(all[i as int] == e@);
        i += 1;
    }
    out
}

/// Writes events, coalesced.
pub fn encode_file_notify_events(events: &[NotifyEvent]) -> (r: Vec<u8>)
    ensures
        r@ == written_events(event_models(events@)),
{
    let kept: Vec<NotifyEvent> = coalesce_notify_events(events);
    encode_file_notify_records(kept.as_slice())
}

/// The body of a response with changes.
pub open spec fn notify_body(output: Seq<u8>) -> Seq<u8> {
    wire::bytes16(9) + wire::bytes16(72) + wire::bytes32(output.len() as u32)
        + if output.len() == 0 {
        seq![0u8]
    } else {
        output
    }
}

/// The body of a response with changes.
pub fn encode_change_notify_response_body(output: &[u8]) -> (r: Vec<u8>)
    ensures
        r@ == notify_body(output@),
{
    let mut body: Vec<u8> = Vec::new();
    wire::put_u16(&mut body, 9);
    wire::put_u16(&mut body, 72);
    wire::put_u32(&mut body, output.len() as u32);
    if output.len() == 0 {
        body.push(0);
    } else {
        wire::put_bytes(&mut body, output);
    }
    assert(body@ =~= notify_body(output@));
    body
}

// ---------------------------------------------------------------------------
// Changes that backends see
// ---------------------------------------------------------------------------

/// The filter that lets changes through that a backend reports of a modified file.
pub open spec fn change_filter(change: u32) -> u32 {
    let a = if change & WATCH_CHANGE_ATTRIBUTES != 0 {
        FILE_NOTIFY_CHANGE_ATTRIBUTES
    } else {
        0
    };
    let b = if change & WATCH_CHANGE_SIZE != 0 {
        a | FILE_NOTIFY_CHANGE_SIZE
    } else {
        a
    };
    let c = if change & WATCH_CHANGE_LAST_WRITE != 0 {
        b | FILE_NOTIFY_CHANGE_LAST_WRITE
    } else {
        b
    };
    let d = if change & WATCH_CHANGE_LAST_ACCESS != 0 {
        c | FILE_NOTIFY_CHANGE_LAST_ACCESS
    } else {
        c
    };
    let e = if change & WATCH_CHANGE_CREATION != 0 {
        d | FILE_NOTIFY_CHANGE_CREATION
    } else {
        d
    };
    if change & WATCH_CHANGE_SECURITY != 0 {
        e | FILE_NOTIFY_CHANGE_SECURITY
    } else {
        e
    }
}

/// The filter that lets changes through that a backend reports of a modified file.
pub fn watch_change_to_notify_filter(change: u32) -> (r: u32)
    ensures
        r == change_filter(change),
{
    let mut out: u32 = 0;
    if change & WATCH_CHANGE_ATTRIBUTES != 0 {
        out = FILE_NOTIFY_CHANGE_ATTRIBUTES;
    }
    if change & WATCH_CHANGE_SIZE != 0 {
        out = out | FILE_NOTIFY_CHANGE_SIZE;
    }
    if change & WATCH_CHANGE_LAST_WRITE != 0 {
        out = out | FILE_NOTIFY_CHANGE_LAST_WRITE;
    }
    if change & WATCH_CHANGE_LAST_ACCESS != 0 {
        out = out | FILE_NOTIFY_CHANGE_LAST_ACCESS;
    }
    if change & WATCH_CHANGE_CREATION != 0 {
        out = out | FILE_NOTIFY_CHANGE_CREATION;
    }
    if change & WATCH_CHANGE_SECURITY != 0 {
        out = out | FILE_NOTIFY_CHANGE_SECURITY;
    }
    out
}

/// What a backend reports of one file.
#[verifier::ext_equal]
pub struct RecordModel {
    pub action: WatchAction,
    pub path: PathModel,
    pub is_directory: bool,
}

impl View for WatchRecord {
    type V = RecordModel;

    open spec fn view(&self) -> RecordModel {
        RecordModel { action: self.action, path: self.path@, is_directory: self.is_directory }
    }
}

/// The filter bit for the names of files or of directories.
pub open spec fn name_filter(is_directory: bool) -> u32 {
    if is_directory {
        FILE_NOTIFY_CHANGE_DIR_NAME
    } else {
        FILE_NOTIFY_CHANGE_FILE_NAME
    }
}

/// The filter bit for the names of files or of directories.
pub fn name_change_filter(is_directory: bool) -> (r: u32)
    ensures
        r == name_filter(is_directory),
{
    if is_directory {
        FILE_NOTIFY_CHANGE_DIR_NAME
    } else {
        FILE_NOTIFY_CHANGE_FILE_NAME
    }
}

/// The action that a watcher is told of.
pub open spec fn watch_action_code(action: WatchAction) -> u32 {
    match action {
        WatchAction::Added => FILE_ACTION_ADDED,
        WatchAction::Removed => FILE_ACTION_REMOVED,
        WatchAction::RenamedOld => FILE_ACTION_RENAMED_OLD_NAME,
        WatchAction::RenamedNew => FILE_ACTION_RENAMED_NEW_NAME,
        WatchAction::Modified => FILE_ACTION_MODIFIED,
    }
}

/// The event that a watch on `watch` makes of what a backend reports, if it is asked for.
pub open spec fn backend_event(
    watch: PathModel,
    completion_filter: u32,
    record: RecordModel,
    change: u32,
) -> Option<EventModel> {
    let wanted = if record.action == WatchAction::Modified {
        change_filter(change)
    } else {
        name_filter(record.is_directory)
    };
    if record.action == WatchAction::Modified && record.path == watch {
        None
    } else if wanted == 0 || !filter_passes(completion_filter, wanted) {
        None
    } else {
        Some(
            EventModel {
                action: watch_action_code(record.action),
                name: relative_name(watch, record.path),
                is_directory: record.is_directory,
            },
        )
    }
}

/// The event that a watch makes of what a backend reports, if it is asked for.
pub fn backend_record_to_notify_event(
    watch: &SmbPath,
    completion_filter: u32,
    record: &WatchRecord,
    change: u32,
) -> (r: Option<NotifyEvent>)
    ensures
        match r {
            None => backend_event(watch@, completion_filter, record@, change) is None,
            Some(e) => backend_event(watch@, completion_filter, record@, change) == Some(e@),
        },
{
    let (wanted, action): (u32, u32) = match record.action {
        WatchAction::Added => (name_change_filter(record.is_directory), FILE_ACTION_ADDED),
        WatchAction::Removed => (name_change_filter(record.is_directory), FILE_ACTION_REMOVED),
        WatchAction::RenamedOld => (
            name_change_filter(record.is_directory),
            FILE_ACTION_RENAMED_OLD_NAME,
        ),
        WatchAction::RenamedNew => (
            name_change_filter(record.is_directory),
            FILE_ACTION_RENAMED_NEW_NAME,
        ),
        WatchAction::Modified => {
            if record.path.same(watch) {
                return None;
            }
            (watch_change_to_notify_filter(change), FILE_ACTION_MODIFIED)
        },
    };
    if wanted == 0 || !notify_filter_matches(completion_filter, wanted) {
        return None;
    }
    Some(
        NotifyEvent {
            action,
            name: notify_relative_name(watch, &record.path),
            is_directory: record.is_directory,
        },
    )
}

/// Whether a record says that the watched directory itself was removed.
pub open spec fn removes_watch(watch: PathModel, record: RecordModel) -> bool {
    record.action == WatchAction::Removed && record.path == watch
}

/// The event that a watch makes of a record that it sees.
pub open spec fn seen_event(
    watch: PathModel,
    recursive: bool,
    completion_filter: u32,
    record: RecordModel,
    change: u32,
) -> Option<EventModel> {
    match path::parent_of(record.path) {
        None => None,
        Some(parent) => if watch_sees(watch, recursive, record.path, parent) {
            backend_event(watch, completion_filter, record, change)
        } else {
            None
        },
    }
}

/// The events that a watch makes of records.
pub open spec fn seen_events(
    watch: PathModel,
    recursive: bool,
    completion_filter: u32,
    records: Seq<RecordModel>,
    change: u32,
) -> Seq<EventModel>
    decreases records.len(),
{
    if records.len() == 0 {
        Seq::empty()
    } else {
        let before = seen_events(watch, recursive, completion_filter, records.drop_last(), change);
        match seen_event(watch, recursive, completion_filter, records.last(), change) {
            None => before,
            Some(e) => before.push(e),
        }
    }
}

/// How a watch ends by what a backend reports.
#[derive(Debug, Clone, PartialEq, Eq)]
pub enum BackendWatchCompletion {
    /// The watched directory was removed.
    DeletePending,
    /// Changes, as they are written.
    Output(Vec<u8>),
}

/// Whether records say that the watched directory itself was removed.
pub open spec fn some_removes_watch(watch: PathModel, records: Seq<RecordModel>) -> bool {
    exists|i: int| 0 <= i < records.len() && removes_watch(watch, #[trigger] records[i])
}

/// What a backend reports of its files.
pub open spec fn record_models(event: WatchEvent) -> Seq<RecordModel> {
    event.records@.map_values(|r: WatchRecord| r@)
}

/// How a watch ends by what a backend reports; `None` where it goes on.
pub fn backend_watch_completion(
    watch: &SmbPath,
    recursive: bool,
    completion_filter: u32,
    event: &WatchEvent,
) -> (r: Option<BackendWatchCompletion>)
    ensures
        ({
            let records = record_models(*event);
            let events = seen_events(watch@, recursive, completion_filter, records, event.change);
            match r {
                Some(BackendWatchCompletion::DeletePending) => some_removes_watch(watch@, records),
                Some(BackendWatchCompletion::Output(out)) => !some_removes_watch(watch@, records)
                    && events.len() > 0 && out@ == written_events(events),
                None => !some_removes_watch(watch@, records) && events.len() == 0,
            }
        }),
{
    let ghost records = record_models(*event);
    let mut seen: Vec<NotifyEvent> = Vec::new();
    let mut i: usize = 0;
    proof {
        assert(records.take(0) =~= Seq::empty());
        assert(event_models(seen@) =~= Seq::empty());
    }
    while i < event.records.len()
        invariant
            i <= event.records@.len(),
            records == record_models(*event),
            forall|j: int| 0 <= j < i ==> !removes_watch(watch@, #[trigger] records[j]),
            event_models(seen@) == seen_events(
                watch@,
                recursive,
                completion_filter,
                records.take(i as int),
                event.change,
            ),
        decreases event.records@.len() - i,
    {
        let record: &WatchRecord = &event.records[i];
        assert(records[i as int] == record@);
        assert(records.take(i + 1).drop_last() =~= records.take(i as int));
        assert(records.take(i + 1).last() == record@);
        if record.action == WatchAction::Removed && record.path.same(watch) {
            assert(removes_watch(watch@, records[i as int]));
            return Some(BackendWatchCompletion::DeletePending);
        }
        let ghost before = event_models(seen@);
        match record.path.parent() {
            None => {},
            Some(parent) => {
                if notify_watch_matches(watch, recursive, &record.path, &parent) {
                    match backend_record_to_notify_event(
                        watch,
                        completion_filter,
                        record,
                        event.change,
                    ) {
                        None => {},
                        Some(e) => {
                            seen.push(e);
                            assert(event_models(seen@) =~= before.push(e@));
                        },
                    }
                }
            },
        }
        i += 1;
    }
    assert(records.take(i as int) =~= records);
    if seen.len() == 0 {
        return None;
    }
    Some(BackendWatchCompletion::Output(encode_file_notify_events(seen.as_slice())))
}

} // verus!
