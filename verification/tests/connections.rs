use smb_server::proto::messages::Dialect;
use smb_server::server::rules::MAX_PENDING_ASYNC_REQUESTS;
use smb_server::server::shares::{ServerShares, ServerUsers, ShareBindings, ShareMode};
use smb_server::server::state::{ServerConfig, ServerState};
use smb_server::server::trees::TreeRef;
use smb_server::server::types::Negotiated;

const CONN: u64 = 1;

fn new_state() -> ServerState {
    let config = ServerConfig {
        max_read_size: 0x0010_0000,
        max_write_size: 0x0010_0000,
        max_credits: 512,
        durable_handle_timeout: 60_000,
        cache_break_timeout: 35_000,
        server_guid: [0x5A; 16],
        require_signing: false,
        encrypt_data: false,
        disable_compression: false,
    };
    let shares = ServerShares::new(vec![ShareBindings::new(
        "share".to_string(),
        ShareMode::Public,
        vec![],
        false,
    )]);
    let mut state = ServerState::new(config, ServerUsers { table: vec![] }, shares, 0);
    connect(&mut state, CONN, [0x11; 16]);
    state
}

fn connect(state: &mut ServerState, key: u64, client_guid: [u8; 16]) {
    let negotiated = Negotiated {
        client_guid,
        dialect: Some(Dialect::Smb311),
        signing_algo: 0,
        signing_context_present: false,
        encryption_cipher: 0,
    };
    assert!(state.add_connection(key, negotiated, true));
    let _ = state.register(key);
}

#[test]
fn connections_are_numbered_in_order() {
    let mut state = new_state();
    connect(&mut state, 9, [1; 16]);
    connect(&mut state, 5, [2; 16]);
    assert_eq!(state.live(), vec![CONN, 9, 5]);
    let ids: Vec<_> = state.live_with_ids().iter().map(|l| (l.id, l.key)).collect();
    assert_eq!(ids, vec![(1, CONN), (2, 9), (3, 5)]);
    state.unregister(2);
    assert_eq!(state.live(), vec![CONN, 5]);
    // A connection that is registered again has two numbers.
    let id = state.register(CONN);
    assert_eq!(id, 4);
    let ids: Vec<_> = state.live_with_ids().iter().map(|l| (l.id, l.key)).collect();
    assert_eq!(ids, vec![(1, CONN), (3, 5), (4, CONN)]);
    state.unregister(1);
    let ids: Vec<_> = state.live_with_ids().iter().map(|l| (l.id, l.key)).collect();
    assert_eq!(ids, vec![(3, 5), (4, CONN)]);
    state.drop_connection(5);
    assert_eq!(state.live(), vec![CONN]);
}

#[test]
fn connections_are_taken_in_once() {
    let mut state = new_state();
    let negotiated = state.connections[0].negotiated;
    assert!(!state.add_connection(CONN, negotiated, true));
    assert_eq!(state.connections.len(), 1);
}

#[test]
fn sessions_are_found_on_active_connections() {
    let mut state = new_state();
    assert!(state.add_session(CONN, 3, [0x33; 16]));
    assert!(!state.add_session(CONN, 3, [0x44; 16]));
    assert!(!state.add_session(77, 3, [0x44; 16]));
    let material = state.session_signing_material(3).expect("a session");
    assert_eq!(material.key, [0x33; 16]);
    assert_eq!(material.negotiated.client_guid, [0x11; 16]);
    assert_eq!(state.session_state(3).expect("a session").id, 3);
    assert!(state.session_signing_material(4).is_none());
    state.unregister(1);
    assert!(state.session_state(3).is_none());
}

#[test]
fn tree_connects_are_added_once() {
    let mut state = new_state();
    assert!(state.add_session(CONN, 3, [0; 16]));
    let t = TreeRef { conn: CONN, session_id: 3, tree_id: 4 };
    assert!(state.add_tree(t, "Share".to_string()));
    assert!(!state.add_tree(t, "share".to_string()));
    assert!(!state.add_tree(TreeRef { session_id: 9, ..t }, "share".to_string()));
    assert_eq!(state.tree_opens(t).expect("a tree").0, "Share");
}

#[test]
fn pending_requests_are_limited() {
    let mut state = new_state();
    for _ in 0..MAX_PENDING_ASYNC_REQUESTS {
        assert!(state.reserve_change_notify_async_slot(CONN));
    }
    assert!(!state.reserve_change_notify_async_slot(CONN));
    state.release_pending_async_slot(CONN);
    assert!(state.reserve_cache_break_write_async_slot(CONN));
    assert!(!state.reserve_pipe_read_async_slot(77));
}

#[test]
fn ids_are_handed_out_in_order() {
    let mut state = new_state();
    assert_eq!(state.alloc_session_id(), 1);
    assert_eq!(state.alloc_session_id(), 2);
    let id = state.alloc_file_id();
    assert_eq!((id.persistent, id.volatile), (1, 1));
    assert_eq!(state.alloc_file_id().volatile, 2);
}
