use smb_server::path::SmbPath;
use smb_server::proto::messages::{Dialect, FileId};
use smb_server::server::cleanup::FreshOpen;
use smb_server::server::closing::{UnlinkOutcome, UnlinkReason};
use smb_server::server::detaching::Reconnect;
use smb_server::server::rules::{
    FILE_READ_ATTRIBUTES, FILE_READ_DATA, FILE_SHARE_ALL, OPLOCK_BATCH, OPLOCK_NONE,
};
use smb_server::server::shares::{ServerShares, ServerUsers, ShareBindings, ShareMode};
use smb_server::server::state::{ServerConfig, ServerState};
use smb_server::server::trees::TreeRef;
use smb_server::server::types::{
    Action, BreakWait, CreateWait, Negotiated, Open, ReplayKey, ResponseBody, TaskWait, TreeOpen,
};
use smb_server::server::waiting::{RequestHeader, Waiting};

const CONN: u64 = 1;

fn new_state() -> ServerState {
    let config = ServerConfig {
        max_read_size: 0x0010_0000,
        max_write_size: 0x0010_0000,
        max_credits: 512,
        durable_handle_timeout: 60_000,
        cache_break_timeout: 35_000,
        server_guid: [0x5A; 16],
        require_signing: false,
        encrypt_data: false,
        disable_compression: false,
    };
    let shares = ServerShares::new(vec![ShareBindings::new(
        "share".to_string(),
        ShareMode::Public,
        vec![],
        false,
    )]);
    let mut state = ServerState::new(config, ServerUsers { table: vec![] }, shares, 0);
    connect(&mut state, CONN, [0x11; 16]);
    state
}

fn connect(state: &mut ServerState, key: u64, client_guid: [u8; 16]) {
    let negotiated = Negotiated {
        client_guid,
        dialect: Some(Dialect::Smb311),
        signing_algo: 0,
        signing_context_present: false,
        encryption_cipher: 0,
    };
    assert!(state.add_connection(key, negotiated, true));
    let _ = state.register(key);
}

const ONE: FileId = FileId { persistent: 1, volatile: 1 };
const TWO: FileId = FileId { persistent: 2, volatile: 2 };
const GUID: [u8; 16] = [0x22; 16];
const CLIENT: [u8; 16] = [0x11; 16];
const TREE: TreeRef = TreeRef { conn: CONN, session_id: 3, tree_id: 4 };

fn path() -> SmbPath {
    SmbPath::parse("a.txt")
}

fn durable_open(file_id: FileId) -> Open {
    let mut open = Open::new(
        file_id,
        FILE_READ_DATA,
        FILE_SHARE_ALL,
        path(),
        false,
        false,
        None,
    );
    open.oplock.level = OPLOCK_BATCH;
    open.durability.enabled = true;
    open.durability.version = 2;
    open.durability.create_guid = GUID;
    open
}

/// A state with one durable open in a tree connect.
fn durable_state(open: Open) -> ServerState {
    let mut state = new_state();
    assert!(state.add_session(CONN, 3, [0x33; 16]));
    assert!(state.add_tree(TREE, "Share".to_string()));
    state.register_open("share", &path(), None, 10, open, CONN);
    state.set_tree_opens(TREE, vec![TreeOpen { file_id: ONE, open: 10 }]);
    state.register_durable_open("Share", ONE, 10, CONN, 3, CLIENT, "alice");
    state
}

fn back(owner: &str) -> Reconnect {
    Reconnect {
        file_id: ONE,
        version: 2,
        create_guid: Some(GUID),
        lease_key: None,
        client_guid: CLIENT,
        owner: owner.to_string(),
    }
}

fn tree_opens(state: &ServerState) -> Vec<TreeOpen> {
    state.tree_opens(TREE).expect("a tree").1
}

#[test]
fn durable_opens_are_found_again_in_time() {
    let mut state = durable_state(durable_open(ONE));
    assert_eq!(state.detach_durable_opens_for_tree(TREE, 1_000), 1);
    assert!(tree_opens(&state).is_empty());
    assert_eq!(state.durable_open_version(ONE), Some(2));
    assert_eq!(state.reconnect_durable_open(TREE, &back("bob"), 2_000), None);
    assert_eq!(state.reconnect_durable_open(TREE, &back("alice"), 60_999), Some(10));
    assert_eq!(tree_opens(&state), vec![TreeOpen { file_id: ONE, open: 10 }]);
    assert_eq!(state.durable_opens[0].attached_session_id, Some(3));
    assert_eq!(state.durable_opens[0].expires_at, None);
}

#[test]
fn durable_opens_are_closed_when_their_time_is_over() {
    let mut state = durable_state(durable_open(ONE));
    assert_eq!(state.detach_durable_opens_for_session(CONN, 3, 1_000), 1);
    assert_eq!(state.reconnect_durable_open(TREE, &back("alice"), 61_000), None);
    assert!(state.durable_opens.is_empty());
    assert!(state.opens.is_empty());
    assert!(state.outbox.contains(&Action::CloseHandle { open: 10 }));
}

#[test]
fn clients_must_name_the_open_they_come_back_for() {
    let wrong: [fn(&mut Reconnect); 4] = [
        |r| r.version = 1,
        |r| r.create_guid = Some([0x99; 16]),
        |r| r.lease_key = Some([1; 16]),
        |r| r.file_id = TWO,
    ];
    for change in wrong {
        let mut state = durable_state(durable_open(ONE));
        assert_eq!(state.detach_durable_opens_for_connection(CONN, 0), 1);
        let mut r = back("alice");
        change(&mut r);
        assert_eq!(state.reconnect_durable_open(TREE, &r, 1), None);
        assert_eq!(state.reconnect_durable_open(TREE, &back("alice"), 1), Some(10));
    }
}

#[test]
fn opens_without_caching_lose_their_durability() {
    let mut open = durable_open(ONE);
    open.oplock.level = OPLOCK_NONE;
    let mut state = durable_state(open);
    assert_eq!(state.detach_durable_opens_for_tree(TREE, 0), 0);
    assert_eq!(tree_opens(&state).len(), 1);
    assert!(state.durable_opens.is_empty());
    assert!(state.opens[0].registration.is_none());
}

#[test]
fn application_instances_are_taken_over() {
    let mut open = durable_open(ONE);
    open.durability.app_instance_id = [7; 16];
    let mut state = durable_state(open);
    assert_eq!(state.close_durable_open_for_app_instance([0; 16]), 0);
    assert_eq!(state.close_durable_open_for_app_instance([8; 16]), 0);
    assert_eq!(state.close_durable_open_for_app_instance([7; 16]), 1);
    assert!(state.opens.is_empty());
    assert!(tree_opens(&state).is_empty());
}

#[test]
fn detached_opens_below_a_path_are_purged() {
    let mut state = durable_state(durable_open(ONE));
    assert_eq!(state.purge_detached_durable_opens_under_path("share", &path()), 0);
    assert_eq!(state.detach_durable_opens_for_tree(TREE, 0), 1);
    let other = SmbPath::parse("b.txt");
    assert_eq!(state.purge_detached_durable_opens_under_path("share", &other), 0);
    assert_eq!(state.purge_detached_durable_opens_under_path("SHARE", &path()), 1);
    assert!(state.durable_opens.is_empty());
    assert!(state.opens.is_empty());
}

#[test]
fn mismatches_of_a_reconnect_are_told() {
    let mut state = durable_state(durable_open(ONE));
    assert!(state.durable_open_client_guid_mismatch(ONE, [9; 16]));
    assert!(!state.durable_open_client_guid_mismatch(ONE, CLIENT));
    assert!(!state.durable_open_client_guid_mismatch(TWO, CLIENT));
    assert_eq!(state.detach_durable_opens_for_tree(TREE, 0), 1);
    let wrong = SmbPath::parse("b.txt");
    assert!(state.durable_reconnect_path_mismatch("share", ONE, CLIENT, "alice", &wrong, 1));
    assert!(!state.durable_reconnect_path_mismatch("share", ONE, CLIENT, "alice", &path(), 1));
}

#[test]
fn new_opens_drive_detached_ones_out() {
    let mut state = durable_state(durable_open(ONE));
    assert_eq!(state.detach_durable_opens_for_tree(TREE, 0), 1);
    let p = path();
    let mut fresh = FreshOpen {
        share: "SHARE",
        path: &p,
        stream_name: None,
        access: FILE_READ_ATTRIBUTES,
        lease: None,
    };
    assert!(state.invalidate_detached_durable_opens_for_path(&fresh).opens.is_empty());
    fresh.access = FILE_READ_DATA;
    let mut work = state.invalidate_detached_durable_opens_for_path(&fresh);
    assert_eq!(work.opens, vec![TreeOpen { file_id: ONE, open: 10 }]);
    assert!(state.durable_opens.is_empty());
    assert!(state.invalidate_next(&mut work).is_none());
    assert!(state.opens.is_empty());
    assert!(state.outbox.contains(&Action::CloseHandle { open: 10 }));
}

#[test]
fn driven_out_opens_delete_what_they_were_to_delete() {
    let mut open = durable_open(ONE);
    open.delete_on_close = true;
    let mut state = durable_state(open);
    assert_eq!(state.detach_durable_opens_for_tree(TREE, 0), 1);
    state.set_security_descriptor("share", &path(), vec![1]);
    let p = path();
    let fresh = FreshOpen {
        share: "share",
        path: &p,
        stream_name: None,
        access: FILE_READ_DATA,
        lease: None,
    };
    let mut work = state.invalidate_detached_durable_opens_for_path(&fresh);
    let u = state.invalidate_next(&mut work).expect("a file to unlink");
    assert_eq!(u.reason, UnlinkReason::LastDetached);
    assert_eq!(u.path, path());
    state.finish_unlink(&u, UnlinkOutcome::Done);
    assert_eq!(state.security_descriptor("share", &path()), None);
    assert!(state.invalidate_next(&mut work).is_none());
}

#[test]
fn sessions_are_taken_over_with_their_durable_opens() {
    let mut state = durable_state(durable_open(ONE));
    let plain = Open::new(TWO, FILE_READ_DATA, FILE_SHARE_ALL, path(), false, false, None);
    state.register_open("share", &path(), None, 20, plain, CONN);
    let mut opens = tree_opens(&state);
    opens.push(TreeOpen { file_id: TWO, open: 20 });
    state.set_tree_opens(TREE, opens);
    assert!(state.takeover_previous_session(99, 0).is_none());
    let mut work = state.takeover_previous_session(3, 0).expect("a session");
    assert!(state.session_state(3).is_none());
    assert!(state.durable_opens[0].expires_at.is_some());
    let (closed, unlink) = state.cleanup_next(&mut work);
    assert_eq!(closed, 1);
    assert!(unlink.is_none());
    let left: Vec<u64> = state.opens.iter().map(|r| r.key).collect();
    assert_eq!(left, vec![10]);
}

#[test]
fn detached_opens_that_are_closed_by_force_are_forgotten() {
    let mut state = durable_state(durable_open(ONE));
    assert_eq!(state.detach_durable_opens_for_tree(TREE, 1_000), 1);
    let ids = state.break_conflicting_oplocks_for_open("share", &path(), None, OPLOCK_NONE);
    assert_eq!(ids, vec![ONE]);
    assert!(state.reserve_cache_break_task_async_slot(CONN));
    state.register_cache_break_task(Waiting {
        conn: CONN,
        async_id: 12,
        request: RequestHeader { session_id: 3, tree_id: Some(4), message_id: 12 },
        file_id: TWO,
        detail: TaskWait {
            wait: BreakWait { lease_keys: Vec::new(), oplock_file_ids: ids.clone() },
            task: 1,
            replay: ReplayKey { create_guid: None, client_guid: [0; 16], owner: String::new() },
            compound: None,
        },
    });
    state.outbox.clear();
    state.connections[0].force_unacked = true;
    state.cache_break_timed_out(&Vec::new(), &ids);
    assert!(state.durable_opens.is_empty());
    assert!(state.opens.is_empty());
    assert!(state.outbox.contains(&Action::DropHandle { open: 10 }));
    let started = state.outbox.iter().any(|a| matches!(a, Action::RunTask { async_id: 12, .. }));
    assert!(started);
    assert!(state.cache_break_tasks.is_empty());
}

#[test]
fn opens_are_forgotten_when_nothing_refers_to_them() {
    // A tree connect keeps the open.
    let mut state = durable_state(durable_open(ONE));
    state.remove_durable_open(ONE);
    assert!(state.durable_opens.is_empty());
    assert_eq!(state.opens.len(), 1);
    assert!(state.outbox.is_empty());
    // Nothing keeps it.
    let mut state = durable_state(durable_open(ONE));
    state.set_tree_opens(TREE, vec![]);
    assert_eq!(state.opens.len(), 1);
    state.remove_durable_open(ONE);
    assert!(state.opens.is_empty());
    assert_eq!(state.outbox, vec![Action::DropHandle { open: 10 }]);
    // Another connection keeps it.
    let mut state = durable_state(durable_open(ONE));
    connect(&mut state, 2, [0x22; 16]);
    let other = TreeRef { conn: 2, session_id: 5, tree_id: 6 };
    assert!(state.add_session(2, 5, [0; 16]));
    assert!(state.add_tree(other, "share".to_string()));
    state.set_tree_opens(other, vec![TreeOpen { file_id: ONE, open: 10 }]);
    state.set_tree_opens(TREE, vec![]);
    state.force_close_open_on_connection(CONN, ONE);
    assert!(state.durable_opens.is_empty());
    assert_eq!(state.opens.len(), 1);
}

#[test]
fn undone_creates_let_their_durable_open_go() {
    let mut state = durable_state(durable_open(ONE));
    state.set_tree_opens(TREE, vec![]);
    assert!(state.reserve_cache_break_create_async_slot(CONN));
    state.register_cache_break_create(Waiting {
        conn: CONN,
        async_id: 50,
        request: RequestHeader { session_id: 3, tree_id: Some(99), message_id: 50 },
        file_id: ONE,
        detail: CreateWait {
            wait: BreakWait { lease_keys: Vec::new(), oplock_file_ids: Vec::new() },
            status: 0,
            body: ResponseBody::Error,
            replay: ReplayKey { create_guid: None, client_guid: [0; 16], owner: String::new() },
            compound: None,
        },
    });
    assert!(state.cancel_cache_break_create(CONN, 50, 3, 0xC000_0120));
    assert!(state.durable_opens.is_empty());
    assert!(state.opens.is_empty());
    assert!(state.outbox.contains(&Action::DropHandle { open: 10 }));
}

#[test]
fn connections_take_their_opens_with_them() {
    let mut state = durable_state(durable_open(ONE));
    let plain = Open::new(TWO, FILE_READ_DATA, FILE_SHARE_ALL, path(), false, false, None);
    state.register_open("share", &path(), None, 11, plain, CONN);
    let list = vec![
        TreeOpen { file_id: ONE, open: 10 },
        TreeOpen { file_id: TWO, open: 11 },
    ];
    state.set_tree_opens(TREE, list);
    state.drop_connection(CONN);
    // The durable one outlives its connection.
    let left: Vec<u64> = state.opens.iter().map(|r| r.key).collect();
    assert_eq!(left, vec![10]);
    assert_eq!(state.outbox, vec![Action::DropHandle { open: 11 }]);
}

#[test]
fn opens_that_are_known_are_registered_again() {
    let mut state = durable_state(durable_open(ONE));
    assert!(!state.register_known_open("share", &path(), None, 99, CONN));
    state.unregister_open(10);
    assert!(state.opens[0].registration.is_none());
    connect(&mut state, 2, [0x22; 16]);
    let there = SmbPath::parse("dir\\b.txt");
    assert!(state.register_known_open("SHARE", &there, None, 10, 2));
    assert_eq!(state.opens.len(), 1);
    let place = state.opens[0].registration.as_ref().expect("a registration");
    assert_eq!((place.share.as_str(), place.conn), ("share", 2));
    assert_eq!(place.path, there);
    assert_eq!(state.opens[0].open, durable_open(ONE));
    // An open that is known keeps its state.
    let mut told = durable_open(ONE);
    told.oplock.level = OPLOCK_NONE;
    state.register_open("share", &path(), None, 10, told, CONN);
    assert_eq!(state.opens.len(), 1);
    assert_eq!(state.opens[0].open.oplock.level, OPLOCK_BATCH);
}

#[test]
fn opens_that_are_given_up_stay_while_a_tree_connect_keeps_them() {
    let mut open = durable_open(ONE);
    open.durability.app_instance_id = [7; 16];
    open.delete_on_close = true;
    let mut state = durable_state(open);
    // Opens are taken from the tree connects of active connections only.
    state.unregister(1);
    assert_eq!(state.close_durable_open_for_app_instance([7; 16]), 1);
    assert!(state.durable_opens.is_empty());
    assert_eq!(tree_opens(&state), vec![TreeOpen { file_id: ONE, open: 10 }]);
    assert!(state.outbox.contains(&Action::CloseHandle { open: 10 }));
    let left = &state.opens[0];
    assert!(left.registration.is_none());
    assert!(!left.open.has_handle);
    assert!(!left.open.durability.enabled);
    assert_eq!(left.open.durability.app_instance_id, [0; 16]);
    assert_eq!(left.open.oplock.level, OPLOCK_NONE);
    assert_eq!(left.open.share_access, 7);
    assert!(left.open.delete_on_close);
}

#[test]
fn opens_that_are_closed_by_force_stay_while_a_tree_connect_keeps_them() {
    let mut state = durable_state(durable_open(ONE));
    connect(&mut state, 2, [0x22; 16]);
    let other = TreeRef { conn: 2, session_id: 5, tree_id: 6 };
    assert!(state.add_session(2, 5, [0; 16]));
    assert!(state.add_tree(other, "share".to_string()));
    state.set_tree_opens(other, vec![TreeOpen { file_id: ONE, open: 10 }]);
    let _ = state.break_conflicting_oplocks_for_open("share", &path(), None, OPLOCK_NONE);
    assert!(state.opens[0].open.oplock.breaking);
    state.force_close_open_on_connection(CONN, ONE);
    assert!(tree_opens(&state).is_empty());
    assert_eq!(state.opens.len(), 1);
    assert!(!state.opens[0].open.has_handle);
    assert!(!state.opens[0].open.oplock.breaking);
}
