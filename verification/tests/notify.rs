use smb_server::backend::{
    WATCH_CHANGE_SECURITY, WATCH_CHANGE_SIZE, WatchAction, WatchEvent, WatchRecord,
};
use smb_server::ntstatus::{
    STATUS_CANCELLED, STATUS_DELETE_PENDING, STATUS_NOTIFY_CLEANUP, STATUS_NOTIFY_ENUM_DIR,
    STATUS_SUCCESS,
};
use smb_server::path::SmbPath;
use smb_server::proto::messages::{ChangeNotifyResponse, Dialect, FileId};
use smb_server::server::events::{
    FILE_ACTION_ADDED, FILE_ACTION_MODIFIED, FILE_ACTION_REMOVED, FILE_ACTION_RENAMED_NEW_NAME,
    FILE_ACTION_RENAMED_OLD_NAME, FILE_NOTIFY_CHANGE_FILE_NAME, FILE_NOTIFY_CHANGE_SIZE,
    NotifyEvent, coalesce_notify_events, encode_file_notify_events,
};
use smb_server::server::rules::{FILE_SHARE_ALL, MAX_PENDING_ASYNC_REQUESTS};
use smb_server::server::shares::{ServerShares, ServerUsers, ShareBindings, ShareMode};
use smb_server::server::state::{ServerConfig, ServerState};
use smb_server::server::types::{Action, Negotiated, NotifyWait, Open, OpenRecord, ResponseBody};
use smb_server::server::waiting::{RequestHeader, Waiting};

const CONN: u64 = 1;

fn new_state() -> ServerState {
    let config = ServerConfig {
        max_read_size: 0x0010_0000,
        max_write_size: 0x0010_0000,
        max_credits: 512,
        durable_handle_timeout: 60_000,
        cache_break_timeout: 35_000,
        server_guid: [0x5A; 16],
        require_signing: false,
        encrypt_data: false,
        disable_compression: false,
    };
    let shares = ServerShares::new(vec![ShareBindings::new(
        "share".to_string(),
        ShareMode::Public,
        vec![],
        false,
    )]);
    let mut state = ServerState::new(config, ServerUsers { table: vec![] }, shares, 0);
    connect(&mut state, CONN, [0x11; 16]);
    state
}

fn connect(state: &mut ServerState, key: u64, client_guid: [u8; 16]) {
    let negotiated = Negotiated {
        client_guid,
        dialect: Some(Dialect::Smb311),
        signing_algo: 0,
        signing_context_present: false,
        encryption_cipher: 0,
    };
    assert!(state.add_connection(key, negotiated, true));
    let _ = state.register(key);
}

fn dir() -> SmbPath {
    SmbPath::parse("dir")
}

fn watch(async_id: u64, recursive: bool, completion_filter: u32) -> Waiting<NotifyWait> {
    Waiting {
        conn: CONN,
        async_id,
        request: RequestHeader { session_id: 3, tree_id: Some(4), message_id: async_id + 100 },
        file_id: FileId { persistent: 1, volatile: 1 },
        detail: NotifyWait {
            open: 11,
            share: "share".to_string(),
            path: dir(),
            recursive,
            output_buffer_length: 4096,
            completion_filter,
            notify_first: false,
            notify_force_enum_dir: false,
            events: Vec::new(),
            scheduled: false,
            watched: false,
        },
    }
}

fn watching_state(w: Waiting<NotifyWait>) -> ServerState {
    let mut state = new_state();
    let open = Open::new(w.file_id, 1, FILE_SHARE_ALL, dir(), true, false, None);
    state.opens.push(OpenRecord { key: 11, registration: None, open });
    assert!(state.reserve_change_notify_async_slot(CONN));
    state.register_change_notify(w);
    state
}

/// The answers that were given: id, status and the bytes of the changes.
fn answers(state: &mut ServerState) -> Vec<(u64, u32, Vec<u8>)> {
    let mut done = Vec::new();
    while !state.outbox.is_empty() {
        match state.outbox.remove(0) {
            Action::NotifyTimer { conn, async_id } => {
                state.change_notify_timer_fired(conn, async_id)
            }
            Action::Respond { async_id, status, body: ResponseBody::Data(body), .. } => {
                let r = ChangeNotifyResponse::parse(&body).expect("a notify response");
                done.push((async_id, status, r.buffer));
            }
            _ => {}
        }
    }
    done
}

fn written(events: &[(u32, &str)]) -> Vec<u8> {
    let events: Vec<NotifyEvent> = events
        .iter()
        .map(|(action, name)| NotifyEvent {
            action: *action,
            name: name.to_string(),
            is_directory: false,
        })
        .collect();
    encode_file_notify_events(&events)
}

#[test]
fn heard_changes_are_told_once() {
    let mut state = watching_state(watch(9, false, FILE_NOTIFY_CHANGE_FILE_NAME));
    state.notify_child_added("SHARE", &SmbPath::parse("dir\\a"), false);
    state.notify_removed("share", &SmbPath::parse("dir\\b"), false);
    assert_eq!(
        answers(&mut state),
        vec![(9, STATUS_SUCCESS, written(&[(FILE_ACTION_ADDED, "a"), (FILE_ACTION_REMOVED, "b")]))]
    );
    assert!(state.change_notifies.is_empty());
    state.notify_child_added("share", &SmbPath::parse("dir\\c"), false);
    assert!(answers(&mut state).is_empty());
}

#[test]
fn watches_hear_what_they_asked_for() {
    let mut state = watching_state(watch(9, false, FILE_NOTIFY_CHANGE_FILE_NAME));
    state.notify_child_added("share", &SmbPath::parse("dir\\a"), true);
    state.notify_child_added("other", &SmbPath::parse("dir\\a"), false);
    state.notify_child_added("share", &SmbPath::parse("a"), false);
    state.notify_child_added("share", &SmbPath::parse("dir\\sub\\a"), false);
    state.notify_data_modified("share", &SmbPath::parse("dir\\a"), false);
    state.notify_attributes_modified("share", &SmbPath::parse("dir\\a"), false);
    assert!(answers(&mut state).is_empty());
    assert_eq!(state.change_notifies.len(), 1);
}

#[test]
fn recursive_watches_hear_what_happens_below() {
    let mut state = watching_state(watch(9, true, FILE_NOTIFY_CHANGE_FILE_NAME));
    state.notify_child_added("share", &SmbPath::parse("dir\\sub\\a"), false);
    assert_eq!(
        answers(&mut state),
        vec![(9, STATUS_SUCCESS, written(&[(FILE_ACTION_ADDED, "sub\\a")]))]
    );
}

#[test]
fn renames_tell_both_names() {
    let mut state = watching_state(watch(9, false, FILE_NOTIFY_CHANGE_FILE_NAME));
    state.notify_renamed("share", &SmbPath::parse("dir\\a"), &SmbPath::parse("dir\\b"), false);
    assert_eq!(
        answers(&mut state),
        vec![(
            9,
            STATUS_SUCCESS,
            written(&[(FILE_ACTION_RENAMED_OLD_NAME, "a"), (FILE_ACTION_RENAMED_NEW_NAME, "b")])
        )]
    );
}

#[test]
fn changes_that_do_not_fit_are_not_told() {
    let mut w = watch(9, false, FILE_NOTIFY_CHANGE_FILE_NAME);
    w.detail.output_buffer_length = 4;
    let mut state = watching_state(w);
    state.notify_child_added("share", &SmbPath::parse("dir\\a"), false);
    assert_eq!(answers(&mut state), vec![(9, STATUS_NOTIFY_ENUM_DIR, vec![])]);
    assert!(state.opens[0].open.watch.buffer_suppressed);
}

#[test]
fn watches_are_cancelled_by_their_message() {
    let mut state = watching_state(watch(9, false, FILE_NOTIFY_CHANGE_FILE_NAME));
    assert!(!state.cancel_change_notify_by_message_id(CONN, 109, 4, STATUS_CANCELLED));
    assert!(!state.cancel_change_notify_by_message_id(CONN, 110, 3, STATUS_CANCELLED));
    assert!(state.cancel_change_notify_by_message_id(CONN, 109, 3, STATUS_CANCELLED));
    assert_eq!(answers(&mut state), vec![(9, STATUS_CANCELLED, vec![])]);
    assert!(state.change_notifies.is_empty());
}

#[test]
fn watches_end_with_what_they_belong_to() {
    let ends: [fn(&mut ServerState) -> usize; 5] = [
        |s| s.cleanup_change_notifies_for_session(CONN, 3, STATUS_NOTIFY_CLEANUP),
        |s| s.cleanup_change_notifies_for_session_id(3, STATUS_NOTIFY_CLEANUP),
        |s| s.cleanup_change_notifies_for_tree(CONN, 3, 4, STATUS_NOTIFY_CLEANUP),
        |s| {
            let file_id = FileId { persistent: 1, volatile: 1 };
            s.cleanup_change_notifies_for_file(CONN, file_id, STATUS_NOTIFY_CLEANUP)
        },
        |s| {
            let path = SmbPath::parse("dir");
            s.cleanup_change_notifies_for_deleted_path("Share", &path, STATUS_NOTIFY_CLEANUP)
        },
    ];
    for end in ends {
        let mut state = watching_state(watch(9, false, FILE_NOTIFY_CHANGE_FILE_NAME));
        assert_eq!(end(&mut state), 1);
        assert_eq!(answers(&mut state), vec![(9, STATUS_NOTIFY_CLEANUP, vec![])]);
        assert_eq!(end(&mut state), 0);
    }
}

#[test]
fn deleted_paths_end_the_watches_on_them_and_below() {
    let mut state = watching_state(watch(9, false, FILE_NOTIFY_CHANGE_FILE_NAME));
    let mut below = watch(10, false, FILE_NOTIFY_CHANGE_FILE_NAME);
    below.detail.path = SmbPath::parse("Dir\\Sub");
    state.register_change_notify(below);
    // The path itself is compared as it is spelt, what is above another without case.
    let path = SmbPath::parse("DIR");
    assert_eq!(
        state.cleanup_change_notifies_for_deleted_path("SHARE", &path, STATUS_NOTIFY_CLEANUP),
        1
    );
    assert_eq!(answers(&mut state), vec![(10, STATUS_NOTIFY_CLEANUP, vec![])]);
    assert_eq!(state.change_notifies.len(), 1);
}

#[test]
fn shares_are_watched_in_any_case() {
    let mut w = watch(9, false, FILE_NOTIFY_CHANGE_FILE_NAME);
    w.detail.share = "Docs".to_string();
    let mut state = watching_state(w.clone());
    assert_eq!(state.change_notifies[0].detail.share, "docs");
    state.notify_child_added("Docs", &SmbPath::parse("dir\\a"), false);
    state.notify_child_added("DOCS", &SmbPath::parse("dir\\b"), false);
    assert_eq!(
        answers(&mut state),
        vec![(9, STATUS_SUCCESS, written(&[(FILE_ACTION_ADDED, "a"), (FILE_ACTION_ADDED, "b")]))]
    );
    let mut state = watching_state(w);
    assert_eq!(
        state.cleanup_change_notifies_for_deleted_path("Docs", &dir(), STATUS_NOTIFY_CLEANUP),
        1
    );
}

#[test]
fn watches_start_with_nothing_heard() {
    let mut w = watch(9, false, FILE_NOTIFY_CHANGE_FILE_NAME);
    w.detail.scheduled = true;
    w.detail.events = vec![NotifyEvent {
        action: FILE_ACTION_ADDED,
        name: "before".to_string(),
        is_directory: false,
    }];
    let mut state = watching_state(w);
    assert!(state.change_notifies[0].detail.events.is_empty());
    state.notify_child_added("share", &SmbPath::parse("dir\\a"), false);
    assert_eq!(
        answers(&mut state),
        vec![(9, STATUS_SUCCESS, written(&[(FILE_ACTION_ADDED, "a")]))]
    );
}

fn report(action: WatchAction, path: &str, change: u32) -> WatchEvent {
    WatchEvent {
        records: vec![WatchRecord { action, path: SmbPath::parse(path), is_directory: false }],
        change,
    }
}

#[test]
fn backends_report_to_their_watch() {
    let filter = FILE_NOTIFY_CHANGE_FILE_NAME | FILE_NOTIFY_CHANGE_SIZE;
    let mut w = watch(9, false, filter);
    w.detail.watched = true;
    let mut state = watching_state(w);
    let unseen = report(WatchAction::Added, "other\\a", 0);
    assert!(state.complete_backend_watch_event(CONN, 9, &unseen));
    let unwanted = report(WatchAction::Modified, "dir\\a", WATCH_CHANGE_SECURITY);
    assert!(state.complete_backend_watch_event(CONN, 9, &unwanted));
    let seen = report(WatchAction::Modified, "dir\\a", WATCH_CHANGE_SIZE);
    assert!(!state.complete_backend_watch_event(CONN, 9, &seen));
    assert!(state.outbox.contains(&Action::EndWatch { conn: CONN, async_id: 9 }));
    assert_eq!(
        answers(&mut state),
        vec![(9, STATUS_SUCCESS, written(&[(FILE_ACTION_MODIFIED, "a")]))]
    );
    assert!(!state.complete_backend_watch_event(CONN, 9, &seen));
}

#[test]
fn backends_report_that_the_watched_directory_goes() {
    let mut state = watching_state(watch(9, false, FILE_NOTIFY_CHANGE_FILE_NAME));
    let gone = report(WatchAction::Removed, "dir", 0);
    assert!(!state.complete_backend_watch_event(CONN, 9, &gone));
    assert_eq!(answers(&mut state), vec![(9, STATUS_DELETE_PENDING, vec![])]);
}

#[test]
fn answers_give_their_slot_back() {
    let mut state = watching_state(watch(9, false, FILE_NOTIFY_CHANGE_FILE_NAME));
    for _ in 1..MAX_PENDING_ASYNC_REQUESTS {
        assert!(state.reserve_change_notify_async_slot(CONN));
    }
    assert!(!state.reserve_change_notify_async_slot(CONN));
    assert!(state.cancel_change_notify(CONN, 9, 3, STATUS_CANCELLED));
    assert!(state.reserve_change_notify_async_slot(CONN));
}

#[test]
fn modifications_are_told_once() {
    let event = |action: u32, name: &str| NotifyEvent {
        action,
        name: name.to_string(),
        is_directory: false,
    };
    let burst = [
        event(FILE_ACTION_MODIFIED, "a"),
        event(FILE_ACTION_MODIFIED, "A"),
        event(FILE_ACTION_MODIFIED, "b"),
        event(FILE_ACTION_REMOVED, "b"),
    ];
    let left = coalesce_notify_events(&burst);
    let removed: Vec<_> = left.iter().filter(|e| e.action == FILE_ACTION_REMOVED).collect();
    assert_eq!(removed.len(), 1);
    assert_eq!(left.iter().filter(|e| e.name.eq_ignore_ascii_case("a")).count(), 1);
}
