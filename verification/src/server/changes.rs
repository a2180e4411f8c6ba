//! Changes to files, and the watches that hear of them.

use crate::backend::WatchEvent;
use crate::ntstatus::STATUS_DELETE_PENDING;
use crate::path;
use crate::path::{path_is_descendant, PathModel, SmbPath};
use crate::server::compounds;
use crate::server::compounds::find_request;
use crate::server::events;
use crate::server::events::{
    backend_watch_completion, encode_file_notify_events, name_change_filter, notify_filter_matches,
    notify_relative_name, notify_watch_matches, BackendWatchCompletion, EventModel, NotifyEvent,
    FILE_ACTION_ADDED, FILE_ACTION_MODIFIED, FILE_ACTION_REMOVED, FILE_ACTION_RENAMED_NEW_NAME,
    FILE_ACTION_RENAMED_OLD_NAME, FILE_NOTIFY_CHANGE_ATTRIBUTES, FILE_NOTIFY_CHANGE_LAST_WRITE,
    FILE_NOTIFY_CHANGE_SECURITY, FILE_NOTIFY_CHANGE_SIZE,
};
use crate::server::lists;
use crate::server::notify;
use crate::server::state::{ServerState, StateModel};
use crate::server::types::{
    Action, ActionModel, NotifyWait, NotifyWaitModel, OpenModel, OpenRecord, OpenRecordModel,
    WatchState,
};
use crate::server::waiting;
use crate::server::waiting::{
    take_selected, take_waiting_flagged, Selector, Waiting, WaitingModel,
};
use crate::text;
use crate::text::lower_string;
use vstd::prelude::*;

verus! {

/// One of the things that happened to a path.
pub struct Step {
    pub action: u32,
    pub path: SmbPath,
}

/// A change, as watches are asked whether they want to hear of it.
pub struct Change {
    /// The share, in lower case.
    pub share: String,
    /// What kind of change it is.
    pub wanted: u32,
    /// What it happened to, and in which directory.
    pub path: SmbPath,
    pub parent: SmbPath,
    pub is_directory: bool,
    /// Whether watches collect it with others for a while.
    pub coalesce: bool,
    /// Whether watches on the changed directory itself are left out.
    pub not_itself: bool,
    /// Watches whose filter lets this kind through are left out.
    pub unless: Option<u32>,
    /// What is reported.
    pub steps: Vec<Step>,
}

/// One of the things that happened to a path.
#[verifier::ext_equal]
pub struct StepModel {
    pub action: u32,
    pub path: PathModel,
}

/// A change.
#[verifier::ext_equal]
pub struct ChangeModel {
    pub share: Seq<char>,
    pub wanted: u32,
    pub path: PathModel,
    pub parent: PathModel,
    pub is_directory: bool,
    pub coalesce: bool,
    pub not_itself: bool,
    pub unless: Option<u32>,
    pub steps: Seq<StepModel>,
}

impl View for Step {
    type V = StepModel;

    open spec fn view(&self) -> StepModel {
        StepModel { action: self.action, path: self.path@ }
    }
}

impl View for Change {
    type V = ChangeModel;

    open spec fn view(&self) -> ChangeModel {
        ChangeModel {
            share: self.share@,
            wanted: self.wanted,
            path: self.path@,
            parent: self.parent@,
            is_directory: self.is_directory,
            coalesce: self.coalesce,
            not_itself: self.not_itself,
            unless: self.unless,
            steps: self.steps@.map_values(|s: Step| s@),
        }
    }
}

// ---------------------------------------------------------------------------
// Who hears of a change
// ---------------------------------------------------------------------------

/// The events that a watch on a directory makes of a change.
pub open spec fn change_events(ch: ChangeModel, watch: PathModel) -> Seq<EventModel> {
    ch.steps.map_values(
        |s: StepModel|
            EventModel {
                action: s.action,
                name: events::relative_name(watch, s.path),
                is_directory: ch.is_directory,
            },
    )
}

/// Whether a change is meant for watches on a directory with a filter.
pub open spec fn is_meant(ch: ChangeModel, watch: PathModel, filter: u32) -> bool {
    !(ch.not_itself && ch.is_directory && ch.path == watch) && (ch.unless is None
        || !events::filter_passes(filter, ch.unless->0))
}

/// Whether a waiting watch hears of a change.
pub open spec fn hears(ch: ChangeModel, w: NotifyWaitModel) -> bool {
    w.share == ch.share && is_meant(ch, w.path, w.completion_filter) && events::filter_passes(
        w.completion_filter,
        ch.wanted,
    ) && events::watch_sees(w.path, w.recursive, ch.path, ch.parent)
}

/// Whether a watch is never told changes one by one.
pub open spec fn wants_listing(w: NotifyWaitModel) -> bool {
    w.output_buffer_length == 0 || w.notify_force_enum_dir
}

/// Whether a watch that hears of a change is answered at once.
pub open spec fn answers_now(ch: ChangeModel, w: NotifyWaitModel) -> bool {
    hears(ch, w) && (!ch.coalesce || wants_listing(w))
}

/// A watch after a change: it collects the events where it is not answered at once.
pub open spec fn collected(
    ch: ChangeModel,
    w: WaitingModel<NotifyWaitModel>,
) -> WaitingModel<NotifyWaitModel> {
    if hears(ch, w.detail) && !answers_now(ch, w.detail) {
        WaitingModel {
            detail: NotifyWaitModel {
                events: w.detail.events + change_events(ch, w.detail.path),
                scheduled: true,
                ..w.detail
            },
            ..w
        }
    } else {
        w
    }
}

/// Watches after a change.
pub open spec fn all_collected(
    ch: ChangeModel,
    ws: Seq<WaitingModel<NotifyWaitModel>>,
) -> Seq<WaitingModel<NotifyWaitModel>> {
    ws.map_values(|w: WaitingModel<NotifyWaitModel>| collected(ch, w))
}

/// Which watches are answered at once.
pub open spec fn answered_flags(
    ch: ChangeModel,
    ws: Seq<WaitingModel<NotifyWaitModel>>,
) -> Seq<bool> {
    ws.map_values(|w: WaitingModel<NotifyWaitModel>| answers_now(ch, w.detail))
}

/// The timers that are started for the first `n` watches.
pub open spec fn started_timers(
    ch: ChangeModel,
    ws: Seq<WaitingModel<NotifyWaitModel>>,
    n: int,
) -> Seq<ActionModel>
    decreases n,
{
    if n <= 0 {
        Seq::empty()
    } else {
        let before = started_timers(ch, ws, n - 1);
        let w = ws[n - 1];
        if hears(ch, w.detail) && !answers_now(ch, w.detail) && !w.detail.scheduled {
            before.push(ActionModel::NotifyTimer { conn: w.conn, async_id: w.async_id })
        } else {
            before
        }
    }
}

/// The opens of the first `n` watches that hear of a change.
pub open spec fn hearing_opens(
    ch: ChangeModel,
    ws: Seq<WaitingModel<NotifyWaitModel>>,
    n: int,
) -> Seq<u64>
    decreases n,
{
    if n <= 0 {
        Seq::empty()
    } else if hears(ch, ws[n - 1].detail) {
        hearing_opens(ch, ws, n - 1).push(ws[n - 1].detail.open)
    } else {
        hearing_opens(ch, ws, n - 1)
    }
}

/// The opens of the first `n` watches that hear of a change and are never told changes
/// one by one.
pub open spec fn listing_opens(
    ch: ChangeModel,
    ws: Seq<WaitingModel<NotifyWaitModel>>,
    n: int,
) -> Seq<u64>
    decreases n,
{
    if n <= 0 {
        Seq::empty()
    } else if hears(ch, ws[n - 1].detail) && wants_listing(ws[n - 1].detail) {
        listing_opens(ch, ws, n - 1).push(ws[n - 1].detail.open)
    } else {
        listing_opens(ch, ws, n - 1)
    }
}

/// Whether an open that watches keeps a change for its next watch.
pub open spec fn keeps_change(ch: ChangeModel, r: OpenRecordModel) -> bool {
    r.registration is Some && r.registration->0.share == ch.share && r.open.is_directory
        && r.open.watch.started && !r.open.watch.buffer_suppressed && is_meant(
        ch,
        r.open.last_path,
        r.open.watch.completion_filter,
    ) && events::filter_passes(r.open.watch.completion_filter, ch.wanted) && (r.open.last_path
        == ch.parent || path::is_below(ch.path, r.open.last_path))
}

/// An open that keeps no more changes, where it is one of some.
pub open spec fn listed(r: OpenRecordModel, listing: Seq<u64>) -> OpenRecordModel {
    if listing.contains(r.key) {
        OpenRecordModel {
            open: OpenModel {
                watch: WatchState { buffer_suppressed: true, ..r.open.watch },
                ..r.open
            },
            ..r
        }
    } else {
        r
    }
}

/// An open after a change: it keeps the events where no waiting watch of it heard of them.
pub open spec fn buffered(
    ch: ChangeModel,
    r: OpenRecordModel,
    hearing: Seq<u64>,
    listing: Seq<u64>,
) -> OpenRecordModel {
    let l = listed(r, listing);
    if keeps_change(ch, l) && !hearing.contains(r.key) {
        OpenRecordModel {
            open: OpenModel {
                notify_buffer: l.open.notify_buffer + change_events(ch, l.open.last_path),
                ..l.open
            },
            ..l
        }
    } else {
        l
    }
}

/// Opens after a change.
pub open spec fn buffered_opens(
    ch: ChangeModel,
    ws: Seq<WaitingModel<NotifyWaitModel>>,
    records: Seq<OpenRecordModel>,
) -> Seq<OpenRecordModel> {
    let n = ws.len() as int;
    records.map_values(
        |r: OpenRecordModel| buffered(ch, r, hearing_opens(ch, ws, n), listing_opens(ch, ws, n)),
    )
}

/// The state after watches were told of a change.
pub open spec fn watches_told(
    m: StateModel,
    ch: ChangeModel,
    ws: Seq<WaitingModel<NotifyWaitModel>>,
) -> StateModel
    decreases ws.len(),
{
    if ws.len() == 0 {
        m
    } else {
        let w = ws.last();
        notify::watch_told(
            watches_told(m, ch, ws.drop_last()),
            w,
            events::written_events(change_events(ch, w.detail.path)),
        )
    }
}

/// The state after a change was made known: watches collect its events or are answered,
/// and opens without a waiting watch keep them for the next one.
pub open spec fn changed(m: StateModel, ch: ChangeModel) -> StateModel {
    let ws = m.change_notifies;
    let after = all_collected(ch, ws);
    let flags = answered_flags(ch, ws);
    watches_told(
        StateModel {
            change_notifies: waiting::unflagged(after, flags),
            opens: buffered_opens(ch, ws, m.opens),
            outbox: m.outbox + started_timers(ch, ws, ws.len() as int),
            ..m
        },
        ch,
        waiting::flagged(after, flags),
    )
}

// ---------------------------------------------------------------------------
// Kinds of changes
// ---------------------------------------------------------------------------

/// A change of one path.
pub open spec fn simple_change(
    share: Seq<char>,
    wanted: u32,
    path: PathModel,
    is_directory: bool,
    not_itself: bool,
    action: u32,
) -> ChangeModel {
    ChangeModel {
        share: text::lowered(share),
        wanted,
        path,
        parent: path::parent_of(path)->0,
        is_directory,
        coalesce: true,
        not_itself,
        unless: None,
        steps: seq![StepModel { action, path }],
    }
}

/// The state after a change of one path was made known; the root has no changes.
pub open spec fn simply_changed(
    m: StateModel,
    share: Seq<char>,
    wanted: u32,
    path: PathModel,
    is_directory: bool,
    not_itself: bool,
    action: u32,
) -> StateModel {
    if path::parent_of(path) is None {
        m
    } else {
        changed(m, simple_change(share, wanted, path, is_directory, not_itself, action))
    }
}

/// The state after it was made known that a file was removed.
pub open spec fn removal_notified(
    m: StateModel,
    share: Seq<char>,
    path: PathModel,
    is_directory: bool,
) -> StateModel {
    simply_changed(
        m,
        share,
        events::name_filter(is_directory),
        path,
        is_directory,
        false,
        FILE_ACTION_REMOVED,
    )
}

/// The state after it was made known that a file was modified in some way.
pub open spec fn modification_notified(
    m: StateModel,
    share: Seq<char>,
    path: PathModel,
    is_directory: bool,
    wanted: u32,
) -> StateModel {
    simply_changed(m, share, wanted, path, is_directory, true, FILE_ACTION_MODIFIED)
}

/// A rename, as it is reported: as old and new name within a directory, as removal and
/// addition from one directory to another.
pub open spec fn rename_change(
    share: Seq<char>,
    from: PathModel,
    to: PathModel,
    is_directory: bool,
) -> ChangeModel {
    let same = path::parent_of(from) == path::parent_of(to);
    ChangeModel {
        share: text::lowered(share),
        wanted: events::name_filter(is_directory),
        path: from,
        parent: path::parent_of(from)->0,
        is_directory,
        coalesce: true,
        not_itself: false,
        unless: None,
        steps: seq![
            StepModel {
                action: if same {
                    FILE_ACTION_RENAMED_OLD_NAME
                } else {
                    FILE_ACTION_REMOVED
                },
                path: from,
            },
            StepModel {
                action: if same {
                    FILE_ACTION_RENAMED_NEW_NAME
                } else {
                    FILE_ACTION_ADDED
                },
                path: to,
            },
        ],
    }
}

/// What watches on attributes hear of the rename of a file, where they do not hear of
/// names.
pub open spec fn rename_attributes_change(
    share: Seq<char>,
    from: PathModel,
    to: PathModel,
) -> ChangeModel {
    let same = path::parent_of(from) == path::parent_of(to);
    ChangeModel {
        share: text::lowered(share),
        wanted: FILE_NOTIFY_CHANGE_ATTRIBUTES,
        path: if same {
            to
        } else {
            from
        },
        parent: path::parent_of(from)->0,
        is_directory: false,
        coalesce: false,
        not_itself: false,
        unless: Some(events::name_filter(false)),
        steps: seq![StepModel { action: FILE_ACTION_MODIFIED, path: to }],
    }
}

/// The state after a rename was made known; nothing is renamed from or to the root.
pub open spec fn rename_notified(
    m: StateModel,
    share: Seq<char>,
    from: PathModel,
    to: PathModel,
    is_directory: bool,
) -> StateModel {
    if path::parent_of(from) is None || path::parent_of(to) is None {
        m
    } else {
        let told = changed(m, rename_change(share, from, to, is_directory));
        if is_directory {
            told
        } else {
            changed(told, rename_attributes_change(share, from, to))
        }
    }
}

// ---------------------------------------------------------------------------
// Code
// ---------------------------------------------------------------------------

impl Change {
    fn events(&self, watch: &SmbPath) -> (r: Vec<NotifyEvent>)
        ensures
            events::event_models(r@) == change_events(self@, watch@),
    {
        let mut r: Vec<NotifyEvent> = Vec::new();
        let mut i: usize = 0;
        while i < self.steps.len()
            invariant
                i <= self.steps@.len(),
                r@.len() == i,
                forall|j: int| 0 <= j < i
                    ==> (#[trigger] r@[j])@ == change_events(self@, watch@)[j],
            decreases self.steps@.len() - i,
        {
            let s: &Step = &self.steps[i];
            assert(self@.steps[i as int] == s@);
            r.push(
                NotifyEvent {
                    action: s.action,
                    name: notify_relative_name(watch, &s.path),
                    is_directory: self.is_directory,
                },
            );
            i += 1;
        }
        assert(events::event_models(r@) =~= change_events(self@, watch@));
        r
    }

    fn is_meant_for(&self, watch: &SmbPath, filter: u32) -> (r: bool)
        ensures
            r == is_meant(self@, watch@, filter),
    {
        if self.not_itself && self.is_directory && self.path.same(watch) {
            return false;
        }
        match self.unless {
            None => true,
            Some(unless) => !notify_filter_matches(filter, unless),
        }
    }

    fn is_heard_by(&self, w: &NotifyWait) -> (r: bool)
        ensures
            r == hears(self@, w@),
    {
        w.share == self.share && self.is_meant_for(&w.path, w.completion_filter)
            && notify_filter_matches(w.completion_filter, self.wanted) && notify_watch_matches(
            &w.path,
            w.recursive,
            &self.path,
            &self.parent,
        )
    }

    fn is_kept_by(&self, r: &OpenRecord) -> (b: bool)
        ensures
            b == keeps_change(self@, r@),
    {
        let here: bool = match &r.registration {
            None => false,
            Some(g) => g.share == self.share,
        };
        here && r.open.is_directory && r.open.watch.started && !r.open.watch.buffer_suppressed
            && self.is_meant_for(&r.open.last_path, r.open.watch.completion_filter)
            && notify_filter_matches(r.open.watch.completion_filter, self.wanted) && (
        r.open.last_path.same(&self.parent) || path_is_descendant(&self.path, &r.open.last_path))
    }
}

fn contains_number(list: &Vec<u64>, x: u64) -> (r: bool)
    ensures
        r == list@.contains(x),
{
    let mut i: usize = 0;
    while i < list.len()
        invariant
            i <= list@.len(),
            forall|j: int| 0 <= j < i ==> list@[j] != x,
        decreases list@.len() - i,
    {
        if list[i] == x {
            assert(list@[i as int] == x);
            return true;
        }
        i += 1;
    }
    false
}

fn extend_events(to: &mut Vec<NotifyEvent>, more: Vec<NotifyEvent>)
    ensures
        events::event_models(final(to)@) == events::event_models(old(to)@) + events::event_models(
            more@,
        ),
{
    let mut more: Vec<NotifyEvent> = more;
    let ghost a = to@;
    let ghost b = more@;
    to.append(&mut more);
    assert(events::event_models(to@) =~= events::event_models(a) + events::event_models(b));
}

/// What came of asking the watches.
struct Asked {
    flags: Vec<bool>,
    hearing: Vec<u64>,
    listing: Vec<u64>,
}

impl ServerState {
    fn ask_watches(&mut self, ch: &Change) -> (r: Asked)
        ensures
            ({
                let ws = old(self)@.change_notifies;
                &&& r.flags@ == answered_flags(ch@, ws)
                &&& r.hearing@ == hearing_opens(ch@, ws, ws.len() as int)
                &&& r.listing@ == listing_opens(ch@, ws, ws.len() as int)
                &&& final(self)@ == (StateModel {
                    change_notifies: all_collected(ch@, ws),
                    outbox: old(self)@.outbox + started_timers(ch@, ws, ws.len() as int),
                    ..old(self)@
                })
            }),
    {
        let ghost m = self@;
        let ghost ws = m.change_notifies;
        let ghost c = ch@;
        let mut flags: Vec<bool> = Vec::new();
        let mut hearing: Vec<u64> = Vec::new();
        let mut listing: Vec<u64> = Vec::new();
        let mut i: usize = 0;
        assert(m.outbox + Seq::<ActionModel>::empty() =~= m.outbox);
        while i < self.change_notifies.len()
            invariant
                i <= self.change_notifies@.len(),
                ws == m.change_notifies,
                c == ch@,
                self@.change_notifies.len() == ws.len(),
                flags@.len() == i,
                forall|j: int| 0 <= j < i
                    ==> flags@[j] == answers_now(c, (#[trigger] ws[j]).detail),
                hearing@ == hearing_opens(c, ws, i as int),
                listing@ == listing_opens(c, ws, i as int),
                self@ == (StateModel {
                    change_notifies: self@.change_notifies,
                    outbox: m.outbox + started_timers(c, ws, i as int),
                    ..m
                }),
                forall|j: int|
                    0 <= j < i ==> (#[trigger] self@.change_notifies[j]) == collected(c, ws[j]),
                forall|j: int|
                    i <= j < ws.len() ==> (#[trigger] self@.change_notifies[j]) == ws[j],
            decreases self.change_notifies@.len() - i,
        {
            assert(self@.change_notifies[i as int] == self.change_notifies@[i as int]@);
            let heard: bool = ch.is_heard_by(&self.change_notifies[i].detail);
            let open: u64 = self.change_notifies[i].detail.open;
            let list: bool = self.change_notifies[i].detail.output_buffer_length == 0
                || self.change_notifies[i].detail.notify_force_enum_dir;
            let now: bool = heard && (!ch.coalesce || list);
            flags.push(now);
            if heard {
                hearing.push(open);
                if list {
                    listing.push(open);
                }
                if !now {
                    self.collect_change(ch, i);
                }
            }
            assert(self@.change_notifies.len() == self.change_notifies@.len());
            i += 1;
        }
        proof {
            assert(flags@ =~= answered_flags(c, ws));
            assert(self@.change_notifies =~= all_collected(c, ws));
        }
        Asked { flags, hearing, listing }
    }

    fn collect_change(&mut self, ch: &Change, at: usize)
        requires
            at < old(self).change_notifies@.len(),
            hears(ch@, old(self).change_notifies@[at as int]@.detail),
            !answers_now(ch@, old(self).change_notifies@[at as int]@.detail),
        ensures
            ({
                let m = old(self)@;
                let w = m.change_notifies[at as int];
                final(self)@ == (StateModel {
                    change_notifies: m.change_notifies.update(at as int, collected(ch@, w)),
                    outbox: if w.detail.scheduled {
                        m.outbox
                    } else {
                        m.outbox.push(
                            ActionModel::NotifyTimer { conn: w.conn, async_id: w.async_id },
                        )
                    },
                    ..m
                })
            }),
    {
        let ghost before = self@.change_notifies;
        assert(before[at as int] == self.change_notifies@[at as int]@);
        let conn: u64 = self.change_notifies[at].conn;
        let async_id: u64 = self.change_notifies[at].async_id;
        let scheduled: bool = self.change_notifies[at].detail.scheduled;
        let more: Vec<NotifyEvent> = ch.events(&self.change_notifies[at].detail.path);
        extend_events(&mut self.change_notifies[at].detail.events, more);
        self.change_notifies[at].detail.scheduled = true;
        assert(self.change_notifies@[at as int]@ =~= collected(ch@, before[at as int]));
        assert(self@.change_notifies =~= before.update(
            at as int,
            collected(ch@, before[at as int]),
        ));
        if !scheduled {
            self.act(Action::NotifyTimer { conn, async_id });
        }
    }

    fn buffer_direct_change_notify_events(
        &mut self,
        ch: &Change,
        hearing: &Vec<u64>,
        listing: &Vec<u64>,
    )
        ensures
            final(self)@ == (StateModel {
                opens: old(self)@.opens.map_values(
                    |r: OpenRecordModel| buffered(ch@, r, hearing@, listing@),
                ),
                ..old(self)@
            }),
    {
        let ghost m = self@;
        let mut i: usize = 0;
        while i < self.opens.len()
            invariant
                i <= self.opens@.len(),
                self@.opens.len() == m.opens.len(),
                self@ == (StateModel { opens: self@.opens, ..m }),
                forall|j: int|
                    0 <= j < i ==> (#[trigger] self@.opens[j]) == buffered(
                        ch@,
                        m.opens[j],
                        hearing@,
                        listing@,
                    ),
                forall|j: int|
                    i <= j < self@.opens.len() ==> (#[trigger] self@.opens[j]) == m.opens[j],
            decreases self.opens@.len() - i,
        {
            assert(self@.opens[i as int] == self.opens@[i as int]@);
            let ghost before = self@.opens;
            let key: u64 = self.opens[i].key;
            if contains_number(listing, key) {
                self.opens[i].open.watch.buffer_suppressed = true;
            }
            assert(self.opens@[i as int]@ =~= listed(m.opens[i as int], listing@));
            if ch.is_kept_by(&self.opens[i]) && !contains_number(hearing, key) {
                let more: Vec<NotifyEvent> = ch.events(&self.opens[i].open.last_path);
                extend_events(&mut self.opens[i].open.notify_buffer, more);
            }
            assert(self.opens@[i as int]@ =~= buffered(
                ch@,
                m.opens[i as int],
                hearing@,
                listing@,
            ));
            assert(self@.opens =~= before.update(
                i as int,
                buffered(ch@, m.opens[i as int], hearing@, listing@),
            ));
            i += 1;
        }
        assert(self@.opens =~= m.opens.map_values(
            |r: OpenRecordModel| buffered(ch@, r, hearing@, listing@),
        ));
    }

    /// Makes a change known.
    pub fn notify_change(&mut self, ch: &Change)
        ensures
            final(self)@ == changed(old(self)@, ch@),
    {
        let ghost m = self@;
        let ghost ws = m.change_notifies;
        let asked: Asked = self.ask_watches(ch);
        assert(self@.change_notifies.len() == self.change_notifies@.len());
        let now: Vec<Waiting<NotifyWait>> = take_waiting_flagged(
            &mut self.change_notifies,
            &asked.flags,
        );
        self.buffer_direct_change_notify_events(ch, &asked.hearing, &asked.listing);
        assert(self@.opens =~= buffered_opens(ch@, ws, m.opens));
        let ghost told = self@;
        let ghost all = waiting::models(now@);
        let mut i: usize = 0;
        assert(all.take(0) =~= Seq::empty());
        while i < now.len()
            invariant
                i <= now@.len(),
                all == waiting::models(now@),
                self@ == watches_told(told, ch@, all.take(i as int)),
            decreases now@.len() - i,
        {
            proof {
                assert(all.take(i + 1).drop_last() =~= all.take(i as int));
                assert(all.take(i + 1).last() == now@[i as int]@);
            }
            let list: Vec<NotifyEvent> = ch.events(&now[i].detail.path);
            let output: Vec<u8> = encode_file_notify_events(list.as_slice());
            self.complete_file_notify_output(&now[i], &output);
            i += 1;
        }
        assert(all.take(i as int) =~= all);
    }

    fn notify_simple_change(
        &mut self,
        share: &str,
        wanted: u32,
        path: &SmbPath,
        is_directory: bool,
        not_itself: bool,
        action: u32,
    )
        ensures
            final(self)@ == simply_changed(
                old(self)@,
                share@,
                wanted,
                path@,
                is_directory,
                not_itself,
                action,
            ),
    {
        match path.parent() {
            None => {},
            Some(parent) => {
                let mut steps: Vec<Step> = Vec::new();
                steps.push(Step { action, path: path.duplicate() });
                let ch = Change {
                    share: lower_string(share),
                    wanted,
                    path: path.duplicate(),
                    parent,
                    is_directory,
                    coalesce: true,
                    not_itself,
                    unless: None,
                    steps,
                };
                assert(ch@ =~= simple_change(
                    share@,
                    wanted,
                    path@,
                    is_directory,
                    not_itself,
                    action,
                ));
                self.notify_change(&ch);
            },
        }
    }

    /// Makes known that a file was added.
    pub fn notify_child_added(&mut self, share: &str, path: &SmbPath, is_directory: bool)
        ensures
            final(self)@ == simply_changed(
                old(self)@,
                share@,
                events::name_filter(is_directory),
                path@,
                is_directory,
                false,
                FILE_ACTION_ADDED,
            ),
    {
        self.notify_simple_change(
            share,
            name_change_filter(is_directory),
            path,
            is_directory,
            false,
            FILE_ACTION_ADDED,
        );
    }

    /// Makes known that a file was removed.
    pub fn notify_removed(&mut self, share: &str, path: &SmbPath, is_directory: bool)
        ensures
            final(self)@ == removal_notified(old(self)@, share@, path@, is_directory),
    {
        self.notify_simple_change(
            share,
            name_change_filter(is_directory),
            path,
            is_directory,
            false,
            FILE_ACTION_REMOVED,
        );
    }

    /// Makes known that the contents of a file changed.
    pub fn notify_data_modified(&mut self, share: &str, path: &SmbPath, is_directory: bool)
        ensures
            final(self)@ == modification_notified(
                old(self)@,
                share@,
                path@,
                is_directory,
                FILE_NOTIFY_CHANGE_SIZE | FILE_NOTIFY_CHANGE_LAST_WRITE,
            ),
    {
        self.notify_simple_change(
            share,
            FILE_NOTIFY_CHANGE_SIZE | FILE_NOTIFY_CHANGE_LAST_WRITE,
            path,
            is_directory,
            true,
            FILE_ACTION_MODIFIED,
        );
    }

    /// Makes known that the attributes of a file changed.
    pub fn notify_attributes_modified(&mut self, share: &str, path: &SmbPath, is_directory: bool)
        ensures
            final(self)@ == modification_notified(
                old(self)@,
                share@,
                path@,
                is_directory,
                FILE_NOTIFY_CHANGE_ATTRIBUTES,
            ),
    {
        self.notify_simple_change(
            share,
            FILE_NOTIFY_CHANGE_ATTRIBUTES,
            path,
            is_directory,
            true,
            FILE_ACTION_MODIFIED,
        );
    }

    /// Makes known that the security descriptor of a file changed.
    pub fn notify_security_modified(&mut self, share: &str, path: &SmbPath, is_directory: bool)
        ensures
            final(self)@ == modification_notified(
                old(self)@,
                share@,
                path@,
                is_directory,
                FILE_NOTIFY_CHANGE_SECURITY,
            ),
    {
        self.notify_simple_change(
            share,
            FILE_NOTIFY_CHANGE_SECURITY,
            path,
            is_directory,
            true,
            FILE_ACTION_MODIFIED,
        );
    }

    /// Makes known that a file was renamed.
    pub fn notify_renamed(&mut self, share: &str, from: &SmbPath, to: &SmbPath, is_directory: bool)
        ensures
            final(self)@ == rename_notified(old(self)@, share@, from@, to@, is_directory),
    {
        let from_parent: SmbPath = match from.parent() {
            None => {
                return;
            },
            Some(p) => p,
        };
        let to_parent: SmbPath = match to.parent() {
            None => {
                return;
            },
            Some(p) => p,
        };
        let same: bool = to_parent.same(&from_parent);
        let mut steps: Vec<Step> = Vec::new();
        steps.push(
            Step {
                action: if same {
                    FILE_ACTION_RENAMED_OLD_NAME
                } else {
                    FILE_ACTION_REMOVED
                },
                path: from.duplicate(),
            },
        );
        steps.push(
            Step {
                action: if same {
                    FILE_ACTION_RENAMED_NEW_NAME
                } else {
                    FILE_ACTION_ADDED
                },
                path: to.duplicate(),
            },
        );
        let ch = Change {
            share: lower_string(share),
            wanted: name_change_filter(is_directory),
            path: from.duplicate(),
            parent: from_parent.duplicate(),
            is_directory,
            coalesce: true,
            not_itself: false,
            unless: None,
            steps,
        };
        assert(ch@ =~= rename_change(share@, from@, to@, is_directory));
        self.notify_change(&ch);
        if !is_directory {
            let mut steps: Vec<Step> = Vec::new();
            steps.push(Step { action: FILE_ACTION_MODIFIED, path: to.duplicate() });
            let ch = Change {
                share: lower_string(share),
                wanted: FILE_NOTIFY_CHANGE_ATTRIBUTES,
                path: if same {
                    to.duplicate()
                } else {
                    from.duplicate()
                },
                parent: from_parent,
                is_directory,
                coalesce: false,
                not_itself: false,
                unless: Some(name_change_filter(false)),
                steps,
            };
            assert(ch@ =~= rename_attributes_change(share@, from@, to@));
            self.notify_change(&ch);
        }
    }
}

// ---------------------------------------------------------------------------
// Timers and backends
// ---------------------------------------------------------------------------

/// The state after watches were told the events that they collected.
pub open spec fn collections_told(
    m: StateModel,
    ws: Seq<WaitingModel<NotifyWaitModel>>,
) -> StateModel
    decreases ws.len(),
{
    if ws.len() == 0 {
        m
    } else {
        let w = ws.last();
        notify::watch_told(
            collections_told(m, ws.drop_last()),
            w,
            events::written_events(w.detail.events),
        )
    }
}

/// The state after the timer of a watch went off.
pub open spec fn notify_timer_fired(m: StateModel, conn: u64, async_id: u64) -> StateModel {
    let sel = Selector::Id { conn, async_id };
    collections_told(
        StateModel { change_notifies: waiting::left(m.change_notifies, sel), ..m },
        waiting::taken(m.change_notifies, sel),
    )
}

/// Where the watch stands whose backend reports.
pub open spec fn reporting_at(m: StateModel, conn: u64, async_id: u64) -> int {
    lists::first(m.change_notifies, compounds::request_is(conn, async_id))
}

/// The events that a watch makes of what its backend reports.
pub open spec fn reported_events(w: NotifyWaitModel, event: WatchEvent) -> Seq<EventModel> {
    events::seen_events(
        w.path,
        w.recursive,
        w.completion_filter,
        events::record_models(event),
        event.change,
    )
}

/// The state after a backend reported to a watch.
pub open spec fn backend_reported(
    m: StateModel,
    conn: u64,
    async_id: u64,
    event: WatchEvent,
) -> StateModel {
    let at = reporting_at(m, conn, async_id);
    let w = m.change_notifies[at];
    let seen = reported_events(w.detail, event);
    let left = StateModel { change_notifies: m.change_notifies.remove(at), ..m };
    if at >= m.change_notifies.len() {
        m
    } else if events::some_removes_watch(w.detail.path, events::record_models(event)) {
        notify::watch_done(left, w, STATUS_DELETE_PENDING, Seq::empty())
    } else if seen.len() > 0 {
        notify::watch_told(left, w, events::written_events(seen))
    } else {
        m
    }
}

/// Every watch that hears of a change is answered at once or keeps its events; a watch
/// that does not hear of it stays as it is.
pub proof fn heard_changes_are_kept(ch: ChangeModel, w: WaitingModel<NotifyWaitModel>)
    ensures
        hears(ch, w.detail) ==> answers_now(ch, w.detail) || (collected(ch, w).detail.events
            == w.detail.events + change_events(ch, w.detail.path) && collected(
            ch,
            w,
        ).detail.scheduled),
        !hears(ch, w.detail) ==> collected(ch, w) == w && !answers_now(ch, w.detail),
{
}

/// Shares are known in any case: a watch that is kept hears of the changes of its share,
/// and ends with what is deleted there, however the share is spelt. Where the first change
/// does not answer it at once, a timer is started for it.
pub proof fn kept_watches_hear_in_any_case(
    w: WaitingModel<NotifyWaitModel>,
    share: Seq<char>,
    ch: ChangeModel,
)
    requires
        ch.share == text::lowered(share),
    ensures
        hears(ch, notify::kept_watch(w).detail) == (text::same_ignoring_case(
            w.detail.share,
            share,
        ) && is_meant(ch, w.detail.path, w.detail.completion_filter) && events::filter_passes(
            w.detail.completion_filter,
            ch.wanted,
        ) && events::watch_sees(w.detail.path, w.detail.recursive, ch.path, ch.parent)),
        notify::watches_below(seq![notify::kept_watch(w)], share, w.detail.path)[0]
            == text::same_ignoring_case(w.detail.share, share),
        hears(ch, notify::kept_watch(w).detail) && !answers_now(
            ch,
            notify::kept_watch(w).detail,
        ) ==> started_timers(ch, seq![notify::kept_watch(w)], 1) == seq![
            ActionModel::NotifyTimer { conn: w.conn, async_id: w.async_id },
        ],
{
    reveal_with_fuel(started_timers, 2);
}

/// A watch with a buffer and without a wish for listings collects every change that may be
/// collected, and is answered by a timer.
pub proof fn ordinary_watches_collect(ch: ChangeModel, w: NotifyWaitModel)
    requires
        ch.coalesce,
        w.output_buffer_length > 0,
        !w.notify_force_enum_dir,
    ensures
        !answers_now(ch, w),
{
}

impl ServerState {
    /// Tells a watch what it collected, now that its timer went off.
    pub fn change_notify_timer_fired(&mut self, conn: u64, async_id: u64)
        ensures
            final(self)@ == notify_timer_fired(old(self)@, conn, async_id),
    {
        let ws: Vec<Waiting<NotifyWait>> = take_selected(
            &mut self.change_notifies,
            Selector::Id { conn, async_id },
        );
        let ghost m = self@;
        let ghost all = waiting::models(ws@);
        let mut i: usize = 0;
        assert(all.take(0) =~= Seq::empty());
        while i < ws.len()
            invariant
                i <= ws@.len(),
                all == waiting::models(ws@),
                self@ == collections_told(m, all.take(i as int)),
            decreases ws@.len() - i,
        {
            proof {
                assert(all.take(i + 1).drop_last() =~= all.take(i as int));
                assert(all.take(i + 1).last() == ws@[i as int]@);
            }
            let output: Vec<u8> = encode_file_notify_events(ws[i].detail.events.as_slice());
            self.complete_file_notify_output(&ws[i], &output);
            i += 1;
        }
        assert(all.take(i as int) =~= all);
    }

    /// Takes note of what a backend reports to a watch; returns whether the watch goes on.
    pub fn complete_backend_watch_event(
        &mut self,
        conn: u64,
        async_id: u64,
        event: &WatchEvent,
    ) -> (r: bool)
        ensures
            ({
                let m = old(self)@;
                let at = reporting_at(m, conn, async_id);
                let w = m.change_notifies[at].detail;
                r == (at < m.change_notifies.len() && !events::some_removes_watch(
                    w.path,
                    events::record_models(*event),
                ) && reported_events(w, *event).len() == 0)
            }),
            final(self)@ == backend_reported(old(self)@, conn, async_id, *event),
    {
        match find_request(&self.change_notifies, conn, async_id) {
            None => false,
            Some(at) => {
                assert(self@.change_notifies[at as int] == self.change_notifies@[at as int]@);
                let completion: Option<BackendWatchCompletion> = backend_watch_completion(
                    &self.change_notifies[at].detail.path,
                    self.change_notifies[at].detail.recursive,
                    self.change_notifies[at].detail.completion_filter,
                    event,
                );
                match completion {
                    None => true,
                    Some(c) => {
                        let w: Waiting<NotifyWait> = self.change_notifies.remove(at);
                        assert(self@.change_notifies =~= old(self)@.change_notifies.remove(
                            at as int,
                        ));
                        match c {
                            BackendWatchCompletion::DeletePending => {
                                let none: Vec<u8> = Vec::new();
                                assert(none@ =~= Seq::empty());
                                let _ = self.complete_change_notify_response(
                                    &w,
                                    STATUS_DELETE_PENDING,
                                    &none,
                                );
                            },
                            BackendWatchCompletion::Output(output) => {
                                self.complete_file_notify_output(&w, &output);
                            },
                        }
                        false
                    },
                }
            },
        }
    }
}

} // verus!
