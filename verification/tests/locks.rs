use smb_server::ntstatus::{
    STATUS_CANCELLED, STATUS_FILE_LOCK_CONFLICT, STATUS_INVALID_PARAMETER, STATUS_LOCK_NOT_GRANTED,
    STATUS_NOTIFY_CLEANUP, STATUS_RANGE_NOT_LOCKED, STATUS_SUCCESS,
};
use smb_server::path::SmbPath;
use smb_server::proto::messages::{Dialect, FileId};
use smb_server::server::rules::{FILE_READ_DATA, FILE_SHARE_ALL};
use smb_server::server::shares::{ServerShares, ServerUsers, ShareBindings, ShareMode};
use smb_server::server::state::{ServerConfig, ServerState};
use smb_server::server::types::{Action, ByteRangeLockRequest, LockWait, Negotiated, Open};
use smb_server::server::waiting::{RequestHeader, Waiting};

const CONN: u64 = 1;

fn new_state() -> ServerState {
    let config = ServerConfig {
        max_read_size: 0x0010_0000,
        max_write_size: 0x0010_0000,
        max_credits: 512,
        durable_handle_timeout: 60_000,
        cache_break_timeout: 35_000,
        server_guid: [0x5A; 16],
        require_signing: false,
        encrypt_data: false,
        disable_compression: false,
    };
    let shares = ServerShares::new(vec![ShareBindings::new(
        "share".to_string(),
        ShareMode::Public,
        vec![],
        false,
    )]);
    let mut state = ServerState::new(config, ServerUsers { table: vec![] }, shares, 0);
    connect(&mut state, CONN, [0x11; 16]);
    state
}

fn connect(state: &mut ServerState, key: u64, client_guid: [u8; 16]) {
    let negotiated = Negotiated {
        client_guid,
        dialect: Some(Dialect::Smb311),
        signing_algo: 0,
        signing_context_present: false,
        encryption_cipher: 0,
    };
    assert!(state.add_connection(key, negotiated, true));
    let _ = state.register(key);
}

fn lock(fid: FileId, offset: u64, length: u64, exclusive: bool) -> ByteRangeLockRequest {
    ByteRangeLockRequest { fid, offset, length, exclusive }
}

const ONE: FileId = FileId { persistent: 1, volatile: 1 };
const TWO: FileId = FileId { persistent: 2, volatile: 2 };

#[test]
fn exclusive_locks_keep_others_out() {
    let mut state = new_state();
    let path = SmbPath::parse("a.txt");
    let mine = [lock(ONE, 0, 10, true)];
    assert_eq!(state.apply_byte_range_locks("share", &path, None, &mine), STATUS_SUCCESS);
    let theirs = [lock(TWO, 5, 1, false)];
    assert_eq!(
        state.apply_byte_range_locks("SHARE", &path, None, &theirs),
        STATUS_LOCK_NOT_GRANTED
    );
    assert_eq!(
        state.check_read_lock("share", &path, None, TWO, 5, 1),
        STATUS_FILE_LOCK_CONFLICT
    );
    assert_eq!(state.check_read_lock("share", &path, None, ONE, 5, 1), STATUS_SUCCESS);
    assert_eq!(state.check_read_lock("share", &path, None, TWO, 10, 1), STATUS_SUCCESS);
    // Another stream is another file.
    assert_eq!(
        state.apply_byte_range_locks("share", &path, Some("s"), &theirs),
        STATUS_SUCCESS
    );
}

#[test]
fn the_holder_of_an_exclusive_lock_may_write() {
    let mut state = new_state();
    let path = SmbPath::parse("a.txt");
    let mine = [lock(ONE, 10, 10, true)];
    assert_eq!(state.apply_byte_range_locks("share", &path, None, &mine), STATUS_SUCCESS);
    assert_eq!(state.check_write_lock("share", &path, None, ONE, 10, 10), STATUS_SUCCESS);
    assert_eq!(state.check_write_lock("share", &path, None, ONE, 12, 3), STATUS_SUCCESS);
    assert_eq!(
        state.check_write_lock("share", &path, None, TWO, 19, 5),
        STATUS_FILE_LOCK_CONFLICT
    );
    assert_eq!(state.check_write_lock("share", &path, None, TWO, 20, 5), STATUS_SUCCESS);
}

#[test]
fn shared_locks_let_others_read_but_not_write() {
    let mut state = new_state();
    let path = SmbPath::parse("a.txt");
    for fid in [ONE, TWO] {
        let request = [lock(fid, 0, 10, false)];
        assert_eq!(state.apply_byte_range_locks("share", &path, None, &request), STATUS_SUCCESS);
    }
    assert_eq!(state.check_read_lock("share", &path, None, TWO, 0, 10), STATUS_SUCCESS);
    assert_eq!(
        state.check_write_lock("share", &path, None, TWO, 0, 10),
        STATUS_FILE_LOCK_CONFLICT
    );
    assert_eq!(state.check_write_lock("share", &path, None, TWO, 0, 0), STATUS_SUCCESS);
}

#[test]
fn locks_are_granted_together_or_not_at_all() {
    let mut state = new_state();
    let path = SmbPath::parse("a.txt");
    let held = [lock(ONE, 100, 1, true)];
    assert_eq!(state.apply_byte_range_locks("share", &path, None, &held), STATUS_SUCCESS);
    let before = state.byte_range_locks.clone();
    let wanted = [lock(TWO, 0, 10, true), lock(TWO, 100, 1, true)];
    assert_eq!(
        state.apply_byte_range_locks("share", &path, None, &wanted),
        STATUS_LOCK_NOT_GRANTED
    );
    assert_eq!(state.byte_range_locks, before);
    assert_eq!(
        state.apply_byte_range_locks("share", &path, None, &[]),
        STATUS_INVALID_PARAMETER
    );
}

#[test]
fn unlocking_undoes_locking() {
    let mut state = new_state();
    let path = SmbPath::parse("a.txt");
    let request = [lock(ONE, 0, 10, true)];
    assert_eq!(state.apply_byte_range_locks("share", &path, None, &request), STATUS_SUCCESS);
    assert!(state.open_has_byte_range_locks("share", &path, None, ONE));
    assert!(!state.open_has_byte_range_locks("share", &path, None, TWO));
    assert_eq!(
        state.unlock_byte_ranges("share", &path, None, ONE, &[(0, 9)]),
        STATUS_RANGE_NOT_LOCKED
    );
    assert_eq!(state.unlock_byte_ranges("share", &path, None, ONE, &[]), STATUS_SUCCESS);
    assert_eq!(
        state.unlock_byte_ranges("share", &path, None, ONE, &[(0, 10)]),
        STATUS_SUCCESS
    );
    assert!(state.byte_range_locks.is_empty());
}

#[test]
fn locks_behind_the_end_are_not_backed() {
    let mut state = new_state();
    let path = SmbPath::parse("a.txt");
    let request = [lock(ONE, 10, 5, true)];
    assert_eq!(state.apply_byte_range_locks("share", &path, None, &request), STATUS_SUCCESS);
    assert!(!state.has_backed_byte_range_locks("share", &path, None, 10));
    assert!(state.has_backed_byte_range_locks("share", &path, None, 11));
}

#[test]
fn locks_follow_a_renamed_directory() {
    let mut state = new_state();
    let path = SmbPath::parse("dir\\a.txt");
    let request = [lock(ONE, 0, 10, true)];
    assert_eq!(state.apply_byte_range_locks("share", &path, None, &request), STATUS_SUCCESS);
    state.rekey_byte_range_locks("share", &SmbPath::parse("DIR"), &SmbPath::parse("new"));
    let moved = SmbPath::parse("new\\a.txt");
    assert!(!state.open_has_byte_range_locks("share", &path, None, ONE));
    assert!(state.open_has_byte_range_locks("share", &moved, None, ONE));
}

fn lock_wait(async_id: u64, open: u64, fid: FileId) -> Waiting<LockWait> {
    Waiting {
        conn: CONN,
        async_id,
        request: RequestHeader { session_id: 3, tree_id: Some(4), message_id: async_id },
        file_id: fid,
        detail: LockWait {
            open,
            share: "share".to_string(),
            path: SmbPath::parse("a.txt"),
            stream_name: None,
            dialect: Some(Dialect::Smb311),
            lock_sequence: 0,
            locks: vec![lock(fid, 0, 10, true)],
        },
    }
}

fn state_with_a_wait() -> ServerState {
    let mut state = new_state();
    let path = SmbPath::parse("a.txt");
    let open = Open::new(TWO, FILE_READ_DATA, FILE_SHARE_ALL, path.clone(), false, false, None);
    state.register_open("share", &path, None, 22, open, CONN);
    let held = [lock(ONE, 0, 10, true)];
    assert_eq!(state.apply_byte_range_locks("share", &path, None, &held), STATUS_SUCCESS);
    assert!(state.reserve_byte_range_lock_wait_async_slot(CONN));
    state.register_byte_range_lock_wait(lock_wait(9, 22, TWO));
    state
}

fn answers(state: &mut ServerState) -> Vec<(u64, u32)> {
    let actions = std::mem::take(&mut state.outbox);
    actions
        .into_iter()
        .filter_map(|a| match a {
            Action::Respond { async_id, status, .. } => Some((async_id, status)),
            _ => None,
        })
        .collect()
}

#[test]
fn waiting_locks_are_granted_when_the_range_is_free() {
    let mut state = state_with_a_wait();
    let path = SmbPath::parse("a.txt");
    assert_eq!(state.try_complete_byte_range_lock_waits("share", &path, None), 0);
    assert_eq!(
        state.unlock_byte_ranges("share", &path, None, ONE, &[(0, 10)]),
        STATUS_SUCCESS
    );
    assert_eq!(state.try_complete_byte_range_lock_waits("share", &path, None), 1);
    assert_eq!(answers(&mut state), vec![(9, STATUS_SUCCESS)]);
    assert!(state.open_has_byte_range_locks("share", &path, None, TWO));
    assert_eq!(state.connections[0].pending_async, 0);
}

#[test]
fn waiting_locks_can_be_cancelled_by_their_session_only() {
    let mut state = state_with_a_wait();
    assert!(!state.cancel_byte_range_lock_wait(CONN, 9, 4, STATUS_CANCELLED));
    assert!(state.cancel_byte_range_lock_wait(CONN, 9, 3, STATUS_CANCELLED));
    assert_eq!(answers(&mut state), vec![(9, STATUS_CANCELLED)]);
    assert!(state.byte_range_lock_waits.is_empty());
    assert_eq!(state.connections[0].pending_async, 0);
}

#[test]
fn waiting_locks_end_with_their_file() {
    let mut state = state_with_a_wait();
    assert_eq!(
        state.cleanup_byte_range_lock_waits_for_file(CONN, ONE, STATUS_NOTIFY_CLEANUP),
        0
    );
    assert_eq!(
        state.cleanup_byte_range_lock_waits_for_file(CONN, TWO, STATUS_NOTIFY_CLEANUP),
        1
    );
    assert_eq!(answers(&mut state), vec![(9, STATUS_RANGE_NOT_LOCKED)]);
}

#[test]
fn waiting_locks_know_their_share_in_lower_case() {
    let mut state = state_with_a_wait();
    let mut wait = lock_wait(9, 22, TWO);
    wait.detail.share = "SHARE".to_string();
    state.register_byte_range_lock_wait(wait);
    assert_eq!(state.byte_range_lock_waits.len(), 1);
    assert_eq!(state.byte_range_lock_waits[0].detail.share, "share");
}
