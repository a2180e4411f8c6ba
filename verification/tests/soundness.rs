use smb_server::ntstatus::{STATUS_LOCK_NOT_GRANTED, STATUS_SUCCESS};
use smb_server::path::SmbPath;
use smb_server::proto::messages::{Dialect, FileId};
use smb_server::server::closing::UnlinkOutcome;
use smb_server::server::detaching::Reconnect;
use smb_server::server::rules::{
    FILE_READ_DATA, FILE_SHARE_ALL, LEASE_READ_CACHING, LEASE_WRITE_CACHING,
    MAX_PENDING_ASYNC_REQUESTS, OPLOCK_BATCH, OPLOCK_LEVEL_II,
};
use smb_server::server::shares::{ServerShares, ServerUsers, ShareBindings, ShareMode};
use smb_server::server::state::{ServerConfig, ServerState};
use smb_server::server::trees::TreeRef;
use smb_server::server::types::{
    ByteRangeLockRequest, HeldLock, LockWait, Negotiated, Open, TreeOpen,
};
use smb_server::server::waiting::{RequestHeader, Waiting};

const CONN: u64 = 1;

fn new_state() -> ServerState {
    let config = ServerConfig {
        max_read_size: 0x0010_0000,
        max_write_size: 0x0010_0000,
        max_credits: 512,
        durable_handle_timeout: 60_000,
        cache_break_timeout: 35_000,
        server_guid: [0x5A; 16],
        require_signing: false,
        encrypt_data: false,
        disable_compression: false,
    };
    let shares = ServerShares::new(vec![ShareBindings::new(
        "share".to_string(),
        ShareMode::Public,
        vec![],
        false,
    )]);
    let mut state = ServerState::new(config, ServerUsers { table: vec![] }, shares, 0);
    connect(&mut state, CONN, [0x11; 16]);
    state
}

fn connect(state: &mut ServerState, key: u64, client_guid: [u8; 16]) {
    let negotiated = Negotiated {
        client_guid,
        dialect: Some(Dialect::Smb311),
        signing_algo: 0,
        signing_context_present: false,
        encryption_cipher: 0,
    };
    assert!(state.add_connection(key, negotiated, true));
    let _ = state.register(key);
}

/// A small source of numbers that look random.
struct Dice(u64);

impl Dice {
    fn roll(&mut self, sides: u64) -> u64 {
        self.0 = self.0.wrapping_mul(6_364_136_223_846_793_005).wrapping_add(12_345);
        (self.0 >> 33) % sides
    }
}

fn assert_distinct<K: PartialEq + std::fmt::Debug>(keys: Vec<K>) {
    for i in 0..keys.len() {
        for j in 0..i {
            assert_ne!(keys[i], keys[j]);
        }
    }
}

fn overlap(a: &HeldLock, b: &HeldLock) -> bool {
    let end = |l: &HeldLock| l.lock.offset + l.lock.length;
    a.lock.offset < end(b) && b.lock.offset < end(a)
}

fn assert_sound(state: &ServerState) {
    assert_distinct(state.connections.iter().map(|c| c.key).collect());
    for c in &state.connections {
        assert!(c.pending_async <= MAX_PENDING_ASYNC_REQUESTS);
        assert_distinct(c.sessions.iter().map(|s| s.id).collect());
        for s in &c.sessions {
            assert_distinct(s.trees.iter().map(|t| t.id).collect());
            for t in &s.trees {
                assert_distinct(t.opens.iter().map(|o| o.file_id).collect());
            }
        }
    }
    assert_distinct(state.opens.iter().map(|r| r.key).collect());
    assert_distinct(state.durable_opens.iter().map(|d| d.file_id).collect());
    assert_distinct(state.change_notifies.iter().map(|w| (w.conn, w.async_id)).collect());
    assert_distinct(state.byte_range_lock_waits.iter().map(|w| (w.conn, w.async_id)).collect());
    assert_distinct(state.lease_break_generations.iter().map(|g| g.key).collect());
    for (i, a) in state.byte_range_locks.iter().enumerate() {
        for b in &state.byte_range_locks[..i] {
            if a.key == b.key && a.lock.fid != b.lock.fid && overlap(a, b) {
                assert!(!a.lock.exclusive && !b.lock.exclusive);
            }
        }
    }
}

fn path(dice: &mut Dice) -> SmbPath {
    SmbPath::parse(["a", "b", "dir\\c", "dir"][dice.roll(4) as usize])
}

fn tree(dice: &mut Dice) -> TreeRef {
    TreeRef { conn: CONN + dice.roll(2), session_id: 1 + dice.roll(2), tree_id: 1 }
}

fn make_open(state: &mut ServerState, dice: &mut Dice, key: u64) {
    let t = tree(dice);
    let p = path(dice);
    let file_id = state.alloc_file_id();
    let access = FILE_READ_DATA;
    let mut open = Open::new(file_id, access, FILE_SHARE_ALL, p.clone(), false, false, None);
    if dice.roll(2) == 0 {
        open.oplock.level = OPLOCK_BATCH;
        open.durability.enabled = true;
        open.durability.version = 2;
    }
    open.delete_on_close = dice.roll(3) == 0;
    open.lease.version = 1 + dice.roll(2) as u8;
    open.lease.state = LEASE_READ_CACHING | LEASE_WRITE_CACHING;
    open.lease.key = [dice.roll(3) as u8; 16];
    let Some((_, mut opens)) = state.tree_opens(t) else {
        return;
    };
    let durable = open.durability.enabled;
    state.register_open("share", &p, None, key, open, t.conn);
    opens.push(TreeOpen { file_id, open: key });
    state.set_tree_opens(t, opens);
    if durable {
        state.register_durable_open("share", file_id, key, t.conn, t.session_id, [1; 16], "al");
    }
}

fn lock_something(state: &mut ServerState, dice: &mut Dice, async_id: u64) {
    if state.opens.is_empty() {
        return;
    }
    let at = dice.roll(state.opens.len() as u64) as usize;
    let key = state.opens[at].key;
    let fid = state.opens[at].open.file_id;
    let p = state.opens[at].open.last_path.clone();
    let locks: Vec<ByteRangeLockRequest> = (0..1 + dice.roll(3))
        .map(|_| ByteRangeLockRequest {
            fid,
            offset: dice.roll(8),
            length: 1 + dice.roll(4),
            exclusive: dice.roll(2) == 0,
        })
        .collect();
    let status = state.apply_byte_range_locks("share", &p, None, &locks);
    if status != STATUS_SUCCESS && state.reserve_byte_range_lock_wait_async_slot(CONN) {
        state.register_byte_range_lock_wait(Waiting {
            conn: CONN,
            async_id,
            request: RequestHeader { session_id: 1, tree_id: Some(1), message_id: async_id },
            file_id: fid,
            detail: LockWait {
                open: key,
                share: "share".to_string(),
                path: p.clone(),
                stream_name: None,
                dialect: Some(Dialect::Smb311),
                lock_sequence: 0,
                locks,
            },
        });
    }
    if dice.roll(3) == 0 {
        let _ = state.unlock_byte_ranges("share", &p, None, fid, &[(dice.roll(8), 1)]);
        let _ = state.try_complete_byte_range_lock_waits("share", &p, None);
    }
}

fn close_something(state: &mut ServerState, dice: &mut Dice, now: u64) {
    let t = tree(dice);
    let mut work = match dice.roll(4) {
        0 => state.cleanup_opens_for_tree(t),
        1 => state.cleanup_tree_disconnect_opens(t),
        2 => {
            let _ = state.detach_durable_opens_for_tree(t, now);
            return;
        }
        _ => match state.takeover_previous_session(t.session_id, now) {
            Some(work) => work,
            None => return,
        },
    };
    while let (_, Some(u)) = state.cleanup_next(&mut work) {
        assert_sound(state);
        let outcome = [UnlinkOutcome::Done, UnlinkOutcome::NotFound, UnlinkOutcome::Failed]
            [dice.roll(3) as usize];
        state.finish_unlink(&u, outcome);
        assert_sound(state);
    }
}

fn step(state: &mut ServerState, dice: &mut Dice, n: u64) {
    match dice.roll(10) {
        0..=2 => make_open(state, dice, n),
        3..=4 => lock_something(state, dice, n),
        5 => close_something(state, dice, n),
        6 => {
            let p = path(dice);
            let _ = state.break_conflicting_leases_for_open(
                "share",
                &p,
                None,
                [9; 16],
                LEASE_READ_CACHING,
            );
            let key = [dice.roll(3) as u8; 16];
            let _ = state.acknowledge_lease_break(key, LEASE_READ_CACHING);
        }
        7 => {
            let p = path(dice);
            let _ =
                state.break_conflicting_oplocks_for_open("share", &p, None, OPLOCK_LEVEL_II);
            let ids: Vec<FileId> = state.opens.iter().map(|r| r.open.file_id).collect();
            state.force_complete_cache_break_oplocks(&ids);
        }
        8 => {
            let t = tree(dice);
            let _ = state.add_session(t.conn, t.session_id, [0; 16]);
            let _ = state.add_tree(t, "share".to_string());
        }
        _ => {
            let ids: Vec<FileId> = state.durable_opens.iter().map(|d| d.file_id).collect();
            for file_id in ids {
                let r = Reconnect {
                    file_id,
                    version: 2,
                    create_guid: None,
                    lease_key: Some([dice.roll(3) as u8; 16]),
                    client_guid: [1; 16],
                    owner: "al".to_string(),
                };
                let _ = state.reconnect_durable_open(tree(dice), &r, n);
            }
        }
    }
}

#[test]
fn every_step_leaves_the_state_sound() {
    for seed in 0..12 {
        let mut dice = Dice(seed);
        let mut state = new_state();
        connect(&mut state, CONN + 1, [0x22; 16]);
        for n in 1..400 {
            step(&mut state, &mut dice, n);
            assert_sound(&state);
        }
    }
}

#[test]
fn connections_are_never_there_twice() {
    let mut state = new_state();
    let negotiated = state.connections[0].negotiated;
    assert!(!state.add_connection(CONN, negotiated, true));
    assert!(state.add_session(CONN, 1, [0; 16]));
    assert!(!state.add_session(CONN, 1, [0; 16]));
    assert_sound(&state);
}

#[test]
fn renamed_locks_agree_where_nothing_is_locked_on_the_new_name() {
    let mut state = new_state();
    let lock = |fid: u64, exclusive: bool| ByteRangeLockRequest {
        fid: FileId { persistent: fid, volatile: fid },
        offset: 0,
        length: 4,
        exclusive,
    };
    let (a, b) = (SmbPath::parse("a"), SmbPath::parse("b"));
    assert_eq!(state.apply_byte_range_locks("share", &a, None, &[lock(1, true)]), STATUS_SUCCESS);
    state.rekey_open_path("share", &a, &b);
    assert_sound(&state);
    assert_eq!(
        state.apply_byte_range_locks("share", &b, None, &[lock(2, false)]),
        STATUS_LOCK_NOT_GRANTED
    );
    assert_eq!(state.apply_byte_range_locks("share", &a, None, &[lock(2, true)]), STATUS_SUCCESS);
    assert_sound(&state);
}
