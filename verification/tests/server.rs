use smb_server::ntstatus::STATUS_SUCCESS;
use smb_server::path::SmbPath;
use smb_server::proto::messages::{ChangeNotifyResponse, Dialect, FileId, WriteResponse};
use smb_server::server::durable::Replayer;
use smb_server::server::events::{coalesce_notify_events, encode_file_notify_records, NotifyEvent};
use smb_server::server::rules::{
    DELETE, FILE_READ_DATA, FILE_SHARE_DELETE, FILE_SHARE_READ, FILE_SHARE_WRITE, FILE_WRITE_DATA,
    LEASE_READ_CACHING, LEASE_WRITE_CACHING,
};
use smb_server::server::shares::{ServerShares, ServerUsers, ShareBindings, ShareMode};
use smb_server::server::state::{CompletedReplay, ServerConfig, ServerState};
use smb_server::server::trees::TreeRef;
use smb_server::server::types::{
    Action, BreakWait, CreateWait, DurableReplayLookup, Negotiated, NotifyWait, Open, OpenRecord,
    ReplayKey, ResponseBody, TreeOpen, WriteWait,
};
use smb_server::server::waiting::{RequestHeader, Waiting};

const CONN: u64 = 1;
const SHARE_ALL: u32 = FILE_SHARE_READ | FILE_SHARE_WRITE | FILE_SHARE_DELETE;

fn new_state() -> ServerState {
    let config = ServerConfig {
        max_read_size: 0x0010_0000,
        max_write_size: 0x0010_0000,
        max_credits: 512,
        durable_handle_timeout: 60_000,
        cache_break_timeout: 35_000,
        server_guid: [0x5A; 16],
        require_signing: false,
        encrypt_data: false,
        disable_compression: false,
    };
    let shares = ServerShares::new(vec![ShareBindings::new(
        "share".to_string(),
        ShareMode::Public,
        vec![],
        false,
    )]);
    let mut state = ServerState::new(config, ServerUsers { table: vec![] }, shares, 0);
    let negotiated = Negotiated {
        client_guid: [0; 16],
        dialect: Some(Dialect::Smb311),
        signing_algo: 0,
        signing_context_present: false,
        encryption_cipher: 0,
    };
    assert!(state.add_connection(CONN, negotiated, true));
    let _ = state.register(CONN);
    state
}

fn header(session_id: u64, tree_id: u32, message_id: u64) -> RequestHeader {
    RequestHeader { session_id, tree_id: Some(tree_id), message_id }
}

/// Keeps an open that is not registered on its path.
fn keep_open(state: &mut ServerState, key: u64, open: Open) {
    state.opens.push(OpenRecord { key, registration: None, open });
}

/// Hands out the work of the state, and lets the timers of watches fire.
fn settle(state: &mut ServerState) -> Vec<Action> {
    let mut done = Vec::new();
    while !state.outbox.is_empty() {
        match state.outbox.remove(0) {
            Action::NotifyTimer { conn, async_id } => {
                state.change_notify_timer_fired(conn, async_id)
            }
            other => done.push(other),
        }
    }
    done
}

fn watch(path: &SmbPath, recursive: bool, completion_filter: u32) -> Waiting<NotifyWait> {
    Waiting {
        conn: CONN,
        async_id: 99,
        request: header(42, 7, 1),
        file_id: FileId::new(1, 1),
        detail: NotifyWait {
            open: 11,
            share: "share".to_string(),
            path: path.clone(),
            recursive,
            output_buffer_length: 4096,
            completion_filter,
            notify_first: false,
            notify_force_enum_dir: false,
            events: Vec::new(),
            scheduled: false,
            watched: false,
        },
    }
}

fn watching_state(path: &SmbPath, recursive: bool, completion_filter: u32) -> ServerState {
    let mut state = new_state();
    let open = Open::new(FileId::new(1, 1), 0x0000_0001, SHARE_ALL, path.clone(), true, false, None);
    keep_open(&mut state, 11, open);
    assert!(state.reserve_change_notify_async_slot(CONN));
    state.register_change_notify(watch(path, recursive, completion_filter));
    state
}

fn notify_answer(actions: &[Action]) -> Vec<(u32, String)> {
    assert_eq!(actions.len(), 1);
    match &actions[0] {
        Action::Respond {
            conn: CONN,
            async_id: 99,
            status: STATUS_SUCCESS,
            body: ResponseBody::Data(body),
            compound: None,
        } => {
            let notify = ChangeNotifyResponse::parse(body).expect("parse notify response");
            decode_file_notify_records_for_test(&notify.buffer)
        }
        other => panic!("no answer to the watch: {other:?}"),
    }
}

fn decode_file_notify_records_for_test(mut buf: &[u8]) -> Vec<(u32, String)> {
    let mut records = Vec::new();
    while !buf.is_empty() {
        assert!(buf.len() >= 12, "short notify record");
        let next = u32::from_le_bytes(buf[0..4].try_into().unwrap()) as usize;
        let action = u32::from_le_bytes(buf[4..8].try_into().unwrap());
        let name_len = u32::from_le_bytes(buf[8..12].try_into().unwrap()) as usize;
        assert!(buf.len() >= 12 + name_len, "short notify name");
        records.push((action, utf16_bytes_to_string_for_test(&buf[12..12 + name_len])));
        if next == 0 {
            break;
        }
        assert!(buf.len() >= next, "invalid notify next offset");
        buf = &buf[next..];
    }
    records
}

fn utf16_bytes_to_string_for_test(bytes: &[u8]) -> String {
    let units = bytes
        .chunks_exact(2)
        .map(|chunk| u16::from_le_bytes([chunk[0], chunk[1]]))
        .collect::<Vec<_>>();
    String::from_utf16(&units).expect("utf16 notify name")
}

fn event(action: u32, name: &str) -> NotifyEvent {
    NotifyEvent { action, name: name.to_string(), is_directory: false }
}

#[test]
fn change_notify_coalesces_create_write_burst() {
    let events = coalesce_notify_events(&[
        event(0x0000_0001, "created.txt"),
        event(0x0000_0003, "created.txt"),
    ]);

    assert_eq!(events, vec![event(0x0000_0001, "created.txt")]);
}

#[test]
fn change_notify_keeps_later_modify_after_remove() {
    let events = coalesce_notify_events(&[
        event(0x0000_0003, "replace.txt"),
        event(0x0000_0002, "replace.txt"),
        event(0x0000_0001, "replace.txt"),
        event(0x0000_0003, "replace.txt"),
        event(0x0000_0003, "replace.txt"),
    ]);

    assert_eq!(
        events,
        vec![
            event(0x0000_0002, "replace.txt"),
            event(0x0000_0001, "replace.txt"),
            event(0x0000_0003, "replace.txt"),
        ]
    );
}

#[test]
fn file_notify_information_encodes_multi_record_chain() {
    let output = encode_file_notify_records(&[
        event(0x0000_0001, "hello.txt"),
        event(0x0000_0003, "docs/nested.txt"),
    ]);

    let first_next = u32::from_le_bytes(output[0..4].try_into().unwrap()) as usize;
    assert!(first_next > 0);
    assert!(first_next < output.len());
    assert_eq!(u32::from_le_bytes(output[4..8].try_into().unwrap()), 0x0000_0001);
    let first_name_len = u32::from_le_bytes(output[8..12].try_into().unwrap()) as usize;
    let first_name = utf16_bytes_to_string_for_test(&output[12..12 + first_name_len]);
    assert_eq!(first_name, "hello.txt");

    let second = &output[first_next..];
    assert_eq!(u32::from_le_bytes(second[0..4].try_into().unwrap()), 0);
    assert_eq!(u32::from_le_bytes(second[4..8].try_into().unwrap()), 0x0000_0003);
    let second_name_len = u32::from_le_bytes(second[8..12].try_into().unwrap()) as usize;
    let second_name = utf16_bytes_to_string_for_test(&second[12..12 + second_name_len]);
    assert_eq!(second_name, "docs/nested.txt");
}

#[test]
fn recursive_change_notify_ignores_base_directory_metadata() {
    let watch_path = SmbPath::parse("base");
    let child_path = SmbPath::parse("base/child.txt");
    let mut state = watching_state(&watch_path, true, 0x0000_0004);

    state.notify_attributes_modified("share", &watch_path, true);
    assert!(settle(&mut state).is_empty());
    assert_eq!(state.change_notifies.len(), 1);

    state.notify_attributes_modified("share", &child_path, false);
    let actions = settle(&mut state);
    assert_eq!(notify_answer(&actions), vec![(0x0000_0003, "child.txt".to_string())]);
    assert!(state.change_notifies.is_empty());
}

#[test]
fn change_notify_security_modified_completes_parent_watch() {
    let watch_path = SmbPath::parse("base");
    let child_path = SmbPath::parse("base/sec_notify.txt");
    let mut state = watching_state(&watch_path, false, 0x0000_0100);

    state.notify_security_modified("share", &child_path, false);

    let actions = settle(&mut state);
    assert_eq!(notify_answer(&actions), vec![(0x0000_0003, "sec_notify.txt".to_string())]);
}

#[test]
fn change_notify_batches_replace_burst_records() {
    let watch_path = SmbPath::parse("base");
    let child_path = SmbPath::parse("base/replace.txt");
    let mut state =
        watching_state(&watch_path, true, 0x0000_0001 | 0x0000_0008 | 0x0000_0010);

    state.notify_removed("share", &child_path, false);
    state.notify_child_added("share", &child_path, false);
    state.notify_data_modified("share", &child_path, false);

    let actions = settle(&mut state);
    assert_eq!(
        notify_answer(&actions),
        vec![
            (0x0000_0002, "replace.txt".to_string()),
            (0x0000_0001, "replace.txt".to_string()),
            (0x0000_0003, "replace.txt".to_string()),
        ]
    );
    assert!(state.change_notifies.is_empty());
}

#[test]
fn durable_replay_state_is_scoped_by_owner() {
    let mut state = new_state();
    let client_guid = [0x11; 16];
    let create_guid = [0x22; 16];
    let owner = "DOMAIN\\ALICE";
    let other_owner = "DOMAIN\\BOB";
    let file_id = FileId::new(7, 9);
    let mut open = Open::new(
        file_id,
        FILE_READ_DATA,
        SHARE_ALL,
        SmbPath::parse("hello.txt"),
        false,
        false,
        None,
    );
    open.durability.enabled = true;
    open.durability.version = 2;
    open.durability.replay_eligible = true;
    open.durability.create_guid = create_guid;
    keep_open(&mut state, 21, open);
    state.register_durable_open("share", file_id, 21, CONN, 1, client_guid, owner);

    let who = |owner: &str| Replayer {
        share: "share".to_string(),
        create_guid,
        client_guid,
        owner: owner.to_string(),
        conn: CONN,
        session_id: 1,
    };
    assert!(matches!(
        state.durable_replay_open(&who(other_owner), 0),
        DurableReplayLookup::NotFound
    ));
    assert!(matches!(
        state.durable_replay_open(&who(owner), 0),
        DurableReplayLookup::Available(21)
    ));

    state.register_cache_break_create(Waiting {
        conn: CONN,
        async_id: 99,
        request: header(0, 0, 0),
        file_id,
        detail: CreateWait {
            wait: BreakWait { lease_keys: Vec::new(), oplock_file_ids: Vec::new() },
            status: STATUS_SUCCESS,
            body: ResponseBody::Data(b"pending".to_vec()),
            replay: ReplayKey {
                create_guid: Some(create_guid),
                client_guid,
                owner: owner.to_string(),
            },
            compound: None,
        },
    });
    assert!(!state.durable_pending_create_replay(create_guid, client_guid, other_owner));
    assert!(state.durable_pending_create_replay(create_guid, client_guid, owner));

    state.completed_create_replays.push(CompletedReplay {
        key: ReplayKey {
            create_guid: Some(create_guid),
            client_guid,
            owner: owner.to_string(),
        },
        body: ResponseBody::Data(b"completed".to_vec()),
    });
    assert_eq!(state.completed_create_replay(create_guid, client_guid, other_owner), None);
    assert_eq!(
        state.completed_create_replay(create_guid, client_guid, owner),
        Some(ResponseBody::Data(b"completed".to_vec()))
    );
}

#[test]
fn delete_sharing_conflict_ignores_current_open_but_blocks_on_peer_without_share_delete() {
    let mut state = new_state();
    let path = SmbPath::parse("hello.txt");
    let current =
        Open::new(FileId::new(1, 1), DELETE, SHARE_ALL, path.clone(), false, false, None);
    let peer_without_share_delete = Open::new(
        FileId::new(2, 2),
        FILE_READ_DATA,
        FILE_SHARE_READ | FILE_SHARE_WRITE,
        path.clone(),
        false,
        false,
        None,
    );
    state.register_open("share", &path, None, 1, current, CONN);
    assert!(!state.delete_sharing_conflict("share", &path, None, Some(1)));

    state.register_open("share", &path, None, 2, peer_without_share_delete, CONN);
    assert!(state.delete_sharing_conflict("share", &path, None, Some(1)));
}

#[test]
fn write_waits_for_lease_break_ack_before_mutating() {
    const TEST_LEASE_NONE: u32 = 0;
    let mut state = new_state();
    let tree = TreeRef { conn: CONN, session_id: 1, tree_id: 1 };
    assert!(state.add_session(CONN, 1, [0; 16]));
    assert!(state.add_tree(tree, "share".to_string()));

    let mut data = b"hello".to_vec();
    let path = SmbPath::parse("hello.txt");
    let lease_key = *b"0123456789abcdef";
    let leased_id = FileId::new(1, 1);
    let writer_id = FileId::new(2, 2);
    let access = FILE_WRITE_DATA | FILE_READ_DATA;
    let mut leased = Open::new(leased_id, access, SHARE_ALL, path.clone(), false, false, None);
    leased.lease.key = lease_key;
    leased.lease.state = LEASE_READ_CACHING | LEASE_WRITE_CACHING;
    leased.lease.epoch = 1;
    leased.lease.version = 2;
    let writer = Open::new(writer_id, access, SHARE_ALL, path.clone(), false, false, None);
    state.set_tree_opens(
        tree,
        vec![
            TreeOpen { file_id: leased_id, open: 1 },
            TreeOpen { file_id: writer_id, open: 2 },
        ],
    );
    state.register_open("share", &path, None, 1, leased, CONN);
    state.register_open("share", &path, None, 2, writer, CONN);

    // The write has to wait for the lease: a break goes out, and nothing is written.
    let keys = state.break_conflicting_leases_for_open_waiting_for_ack(
        "share",
        &path,
        None,
        [0; 16],
        TEST_LEASE_NONE,
    );
    assert_eq!(keys, vec![lease_key]);
    assert!(state.reserve_cache_break_write_async_slot(CONN));
    let async_id = 77;
    state.register_cache_break_write(Waiting {
        conn: CONN,
        async_id,
        request: header(1, 1, 10),
        file_id: writer_id,
        detail: WriteWait {
            wait: BreakWait { lease_keys: keys, oplock_file_ids: Vec::new() },
            open: 2,
            share: "share".to_string(),
            path: path.clone(),
            stream_name: None,
            offset: 0,
            data: b"bye".to_vec(),
            is_directory: false,
            compound: None,
        },
    });
    let actions = settle(&mut state);
    assert!(actions.iter().any(|a| matches!(
        a,
        Action::LeaseBreak { conn: CONN, notifications } if notifications[0].lease_key == lease_key
    )));
    assert!(!actions.iter().any(|a| matches!(a, Action::Write { .. } | Action::Respond { .. })));
    assert_eq!(&data, b"hello");

    // The acknowledgment lets the write go on.
    assert_eq!(state.acknowledge_lease_break(lease_key, TEST_LEASE_NONE), STATUS_SUCCESS);
    let mut actions = settle(&mut state);
    assert_eq!(actions.len(), 1);
    let (conn, id, file_id, write) = match actions.remove(0) {
        Action::Write { conn, async_id, file_id, write } => (conn, async_id, file_id, write),
        other => panic!("no write: {other:?}"),
    };
    assert_eq!((conn, id, file_id), (CONN, async_id, writer_id));
    let end = write.offset as usize + write.data.len();
    data[write.offset as usize..end].copy_from_slice(&write.data);
    state.finish_cache_break_write(conn, id, file_id, &write, Ok(write.data.len() as u32), 5);

    let actions = settle(&mut state);
    assert_eq!(actions.len(), 1);
    match &actions[0] {
        Action::Respond {
            conn: CONN,
            async_id: 77,
            status: STATUS_SUCCESS,
            body: ResponseBody::Data(body),
            compound: None,
        } => assert_eq!(WriteResponse::parse(body).expect("write response").count, 3),
        other => panic!("no answer to the write: {other:?}"),
    }
    assert_eq!(&data, b"byelo");
    assert_eq!(state.opens[0].open.lease.state, TEST_LEASE_NONE);
    assert!(!state.opens[0].open.lease.breaking);
    assert_eq!(state.opens[1].open.current_offset, 3);
}
