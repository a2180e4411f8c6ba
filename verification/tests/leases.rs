use smb_server::ntstatus::{
    STATUS_CANCELLED, STATUS_INVALID_PARAMETER, STATUS_NOTIFY_CLEANUP,
    STATUS_OBJECT_NAME_NOT_FOUND, STATUS_REQUEST_NOT_ACCEPTED, STATUS_SUCCESS, STATUS_UNSUCCESSFUL,
};
use smb_server::path::SmbPath;
use smb_server::proto::messages::{Dialect, FileId};
use smb_server::server::rules::{
    FILE_READ_DATA, FILE_SHARE_ALL, LEASE_BREAK_ACK_REQUIRED, OPLOCK_BATCH, OPLOCK_EXCLUSIVE,
    OPLOCK_LEVEL_II, OPLOCK_NONE,
};
use smb_server::server::shares::{ServerShares, ServerUsers, ShareBindings, ShareMode};
use smb_server::server::state::{ServerConfig, ServerState};
use smb_server::server::trees::TreeRef;
use smb_server::server::types::{
    Action, BreakWait, CreateWait, LeaseGeneration, Negotiated, Open, PipeReadWait, ReplayKey,
    ResponseBody, TaskWait, TreeOpen, WriteWait,
};
use smb_server::server::waiting::{RequestHeader, Waiting};

const CONN: u64 = 1;

fn new_state() -> ServerState {
    let config = ServerConfig {
        max_read_size: 0x0010_0000,
        max_write_size: 0x0010_0000,
        max_credits: 512,
        durable_handle_timeout: 60_000,
        cache_break_timeout: 35_000,
        server_guid: [0x5A; 16],
        require_signing: false,
        encrypt_data: false,
        disable_compression: false,
    };
    let shares = ServerShares::new(vec![ShareBindings::new(
        "share".to_string(),
        ShareMode::Public,
        vec![],
        false,
    )]);
    let mut state = ServerState::new(config, ServerUsers { table: vec![] }, shares, 0);
    connect(&mut state, CONN, [0x11; 16]);
    state
}

fn connect(state: &mut ServerState, key: u64, client_guid: [u8; 16]) {
    let negotiated = Negotiated {
        client_guid,
        dialect: Some(Dialect::Smb311),
        signing_algo: 0,
        signing_context_present: false,
        encryption_cipher: 0,
    };
    assert!(state.add_connection(key, negotiated, true));
    let _ = state.register(key);
}

const KEY: [u8; 16] = *b"0123456789abcdef";
const OTHER: [u8; 16] = *b"fedcba9876543210";
const ONE: FileId = FileId { persistent: 1, volatile: 1 };
const TWO: FileId = FileId { persistent: 2, volatile: 2 };

fn path() -> SmbPath {
    SmbPath::parse("a.txt")
}

fn plain_open(file_id: FileId) -> Open {
    Open::new(file_id, FILE_READ_DATA, FILE_SHARE_ALL, path(), false, false, None)
}

fn leased(file_id: FileId, key: [u8; 16], state: u32) -> Open {
    let mut open = plain_open(file_id);
    open.lease.key = key;
    open.lease.state = state;
    open.lease.epoch = 5;
    open.lease.version = 2;
    open
}

fn leased_state(lease_state: u32) -> ServerState {
    let mut state = new_state();
    state.register_open("share", &path(), None, 1, leased(ONE, KEY, lease_state), CONN);
    state
}

fn notices(state: &mut ServerState) -> Vec<(u64, [u8; 16], u32, u32, u32, u16)> {
    std::mem::take(&mut state.outbox)
        .into_iter()
        .flat_map(|a| match a {
            Action::LeaseBreak { conn, notifications } => notifications
                .into_iter()
                .map(|n| {
                    (
                        conn,
                        n.lease_key,
                        n.flags,
                        n.current_lease_state,
                        n.new_lease_state,
                        n.new_epoch,
                    )
                })
                .collect(),
            _ => Vec::new(),
        })
        .collect()
}

#[test]
fn write_leases_are_broken_with_an_acknowledgment() {
    let mut state = leased_state(7);
    let keys = state.break_conflicting_leases_for_open("share", &path(), None, OTHER, 3);
    assert_eq!(keys, vec![KEY]);
    assert_eq!(
        notices(&mut state),
        vec![(CONN, KEY, LEASE_BREAK_ACK_REQUIRED, 7, 3, 6)]
    );
    assert!(state.lease_key_is_breaking(KEY));
    assert_eq!(state.lease_break_generation(KEY), 1);
    assert_eq!(state.acknowledge_lease_break(KEY, 3), STATUS_SUCCESS);
    assert_eq!(state.opens[0].open.lease.state, 3);
    assert!(!state.lease_key_is_breaking(KEY));
}

#[test]
fn read_leases_are_broken_at_once() {
    let mut state = leased_state(1);
    let keys = state.break_conflicting_leases_for_open("share", &path(), None, OTHER, 0);
    assert!(keys.is_empty());
    assert_eq!(notices(&mut state), vec![(CONN, KEY, 0, 1, 0, 6)]);
    assert_eq!(state.opens[0].open.lease.state, 0);
    assert_eq!(state.lease_break_generation(KEY), 0);
}

#[test]
fn the_same_key_breaks_nothing() {
    let mut state = leased_state(7);
    let keys = state.break_conflicting_leases_for_open("share", &path(), None, KEY, 0);
    assert!(keys.is_empty());
    assert!(notices(&mut state).is_empty());
    assert_eq!(state.opens[0].open.lease.state, 7);
}

#[test]
fn breaks_never_add_to_a_lease() {
    for target in 0..8 {
        let mut state = leased_state(7);
        let _ = state.break_conflicting_leases_for_open("share", &path(), None, OTHER, target);
        let lease = state.opens[0].open.lease;
        assert_eq!(lease.state & !7, 0);
        assert_eq!(lease.break_to & !(7 & target), 0);
    }
}

#[test]
fn wrong_acknowledgments_change_nothing() {
    let mut state = leased_state(7);
    assert_eq!(state.acknowledge_lease_break([0; 16], 0), STATUS_OBJECT_NAME_NOT_FOUND);
    assert_eq!(state.acknowledge_lease_break(OTHER, 0), STATUS_OBJECT_NAME_NOT_FOUND);
    assert_eq!(state.acknowledge_lease_break(KEY, 0), STATUS_UNSUCCESSFUL);
    let _ = state.break_conflicting_leases_for_open("share", &path(), None, OTHER, 3);
    let before = state.opens.clone();
    assert_eq!(state.acknowledge_lease_break(KEY, 7), STATUS_REQUEST_NOT_ACCEPTED);
    assert_eq!(state.opens, before);
}

#[test]
fn breaks_that_go_further_are_taken_by_stages() {
    let mut state = leased_state(7);
    let _ = state.break_conflicting_leases_for_open("share", &path(), None, OTHER, 3);
    let keys = state.break_conflicting_leases_for_open("share", &path(), None, OTHER, 0);
    assert_eq!(keys, vec![KEY]);
    assert_eq!(notices(&mut state).len(), 1);
    assert_eq!(state.acknowledge_lease_break(KEY, 3), STATUS_SUCCESS);
    assert_eq!(
        notices(&mut state),
        vec![(CONN, KEY, LEASE_BREAK_ACK_REQUIRED, 3, 1, 6)]
    );
    assert_eq!(state.acknowledge_lease_break(KEY, 1), STATUS_SUCCESS);
    assert_eq!(notices(&mut state), vec![(CONN, KEY, 0, 1, 0, 6)]);
    assert_eq!(state.opens[0].open.lease.state, 0);
    assert!(!state.lease_key_is_breaking(KEY));
}

#[test]
fn clients_are_told_over_their_first_connection() {
    let mut state = new_state();
    connect(&mut state, 2, [0x11; 16]);
    state.register_open("share", &path(), None, 1, leased(ONE, KEY, 7), 2);
    let _ = state.break_conflicting_leases_for_open("share", &path(), None, OTHER, 3);
    assert_eq!(notices(&mut state)[0].0, CONN);
}

#[test]
fn leases_below_a_directory_are_broken() {
    let mut state = new_state();
    let below = SmbPath::parse("dir\\a.txt");
    let mut open = leased(ONE, KEY, 3);
    open.last_path = below.clone();
    state.register_open("share", &below, None, 1, open, CONN);
    let elsewhere = state.break_conflicting_leases_under_directory(
        "share",
        &SmbPath::parse("other"),
        OTHER,
        1,
    );
    assert!(elsewhere.is_empty());
    let keys =
        state.break_conflicting_leases_under_directory("share", &SmbPath::parse("DIR"), OTHER, 1);
    assert_eq!(keys, vec![KEY]);
}

#[test]
fn generations_count_the_breaks_of_a_key() {
    let mut state = new_state();
    assert_eq!(state.advance_lease_break_generation(KEY), 1);
    assert_eq!(state.advance_lease_break_generation(KEY), 2);
    assert_eq!(state.lease_break_generation(OTHER), 0);
    assert!(state.lease_break_generation_matches(KEY, 2));
    assert!(!state.lease_break_generation_matches(KEY, 1));
    assert_eq!(state.advance_lease_break_generation([0; 16]), 0);
}

fn waiting_create(wait: BreakWait, file_id: FileId) -> Waiting<CreateWait> {
    Waiting {
        conn: CONN,
        async_id: 50,
        request: RequestHeader { session_id: 3, tree_id: Some(4), message_id: 5 },
        file_id,
        detail: CreateWait {
            wait,
            status: STATUS_SUCCESS,
            body: ResponseBody::Data(b"created".to_vec()),
            replay: ReplayKey { create_guid: None, client_guid: [0x11; 16], owner: String::new() },
            compound: None,
        },
    }
}

fn answers(state: &mut ServerState) -> Vec<(u64, u32)> {
    std::mem::take(&mut state.outbox)
        .into_iter()
        .filter_map(|a| match a {
            Action::Respond { async_id, status, .. } => Some((async_id, status)),
            _ => None,
        })
        .collect()
}

#[test]
fn creates_wait_until_the_lease_is_settled() {
    let mut state = leased_state(7);
    let lease_keys = state.break_conflicting_leases_for_open("share", &path(), None, OTHER, 3);
    assert!(state.reserve_cache_break_create_async_slot(CONN));
    state.register_cache_break_create(waiting_create(
        BreakWait { lease_keys, oplock_file_ids: Vec::new() },
        TWO,
    ));
    assert!(answers(&mut state).is_empty());
    assert_eq!(state.acknowledge_lease_break(KEY, 3), STATUS_SUCCESS);
    assert_eq!(answers(&mut state), vec![(50, STATUS_SUCCESS)]);
    assert!(state.cache_break_creates.is_empty());
    assert_eq!(state.connections[0].pending_async, 0);
}

#[test]
fn breaks_that_are_not_acknowledged_end_by_force() {
    let mut state = leased_state(7);
    let lease_keys = state.break_conflicting_leases_for_open("share", &path(), None, OTHER, 3);
    assert!(state.reserve_cache_break_create_async_slot(CONN));
    state.register_cache_break_create(waiting_create(
        BreakWait { lease_keys: lease_keys.clone(), oplock_file_ids: Vec::new() },
        TWO,
    ));
    assert_eq!(state.cache_break_patience(&lease_keys, &Vec::new()), 35_000);
    let timer = std::mem::take(&mut state.outbox).into_iter().find_map(|a| match a {
        Action::BreakTimer { leases, oplocks } => Some((leases, oplocks)),
        _ => None,
    });
    let (leases, oplocks) = timer.expect("a timer");
    assert_eq!(leases, vec![LeaseGeneration { key: KEY, generation: 1 }]);
    state.cache_break_timed_out(&leases, &oplocks);
    assert_eq!(answers(&mut state), vec![(50, STATUS_SUCCESS)]);
    assert!(!state.lease_key_is_breaking(KEY));
}

#[test]
fn timers_of_older_breaks_are_void() {
    let mut state = leased_state(7);
    let _ = state.break_conflicting_leases_for_open("share", &path(), None, OTHER, 3);
    let old = vec![LeaseGeneration { key: KEY, generation: 0 }];
    state.cache_break_timed_out(&old, &Vec::new());
    assert!(state.lease_key_is_breaking(KEY));
}

#[test]
fn polling_ends_with_the_break_or_with_patience() {
    let mut state = leased_state(7);
    assert!(state.poll_lease_breaks(&vec![KEY], 0, 100));
    let _ = state.break_conflicting_leases_for_open("share", &path(), None, OTHER, 3);
    assert!(!state.poll_lease_breaks(&vec![KEY], 99, 100));
    assert!(state.lease_key_is_breaking(KEY));
    assert!(state.poll_lease_breaks(&vec![KEY], 100, 100));
    assert!(!state.lease_key_is_breaking(KEY));
}

fn oplocked_state(level: u8) -> ServerState {
    let mut state = new_state();
    let mut open = plain_open(ONE);
    open.oplock.level = level;
    state.register_open("share", &path(), None, 1, open, CONN);
    assert!(state.add_session(CONN, 3, [0; 16]));
    let tree = TreeRef { conn: CONN, session_id: 3, tree_id: 4 };
    assert!(state.add_tree(tree, "share".to_string()));
    state.set_tree_opens(tree, vec![TreeOpen { file_id: ONE, open: 1 }]);
    state
}

#[test]
fn batch_oplocks_are_broken_and_acknowledged() {
    let mut state = oplocked_state(OPLOCK_BATCH);
    let ids =
        state.break_conflicting_oplocks_for_open("share", &path(), None, OPLOCK_LEVEL_II);
    assert_eq!(ids, vec![ONE]);
    let told: Vec<_> = std::mem::take(&mut state.outbox)
        .into_iter()
        .filter_map(|a| match a {
            Action::OplockBreak { conn, notification } => {
                Some((conn, notification.file_id, notification.oplock_level))
            }
            _ => None,
        })
        .collect();
    assert_eq!(told, vec![(CONN, ONE, OPLOCK_LEVEL_II)]);
    assert!(state.opens[0].open.oplock.breaking);
    assert_eq!(
        state.acknowledge_oplock_break(CONN, ONE, OPLOCK_BATCH),
        STATUS_INVALID_PARAMETER
    );
}

#[test]
fn acknowledged_oplocks_have_the_level_that_was_asked_for() {
    let mut state = oplocked_state(OPLOCK_EXCLUSIVE);
    let _ = state.break_conflicting_oplocks_for_open("share", &path(), None, OPLOCK_LEVEL_II);
    assert_eq!(
        state.acknowledge_oplock_break(CONN, ONE, OPLOCK_LEVEL_II),
        STATUS_SUCCESS
    );
    assert_eq!(state.opens[0].open.oplock.level, OPLOCK_LEVEL_II);
    assert!(!state.opens[0].open.oplock.breaking);
}

#[test]
fn level_two_oplocks_go_without_an_acknowledgment() {
    let mut state = oplocked_state(OPLOCK_LEVEL_II);
    assert_eq!(state.break_level_ii_oplocks_for_mutation("share", &path(), None), 1);
    assert_eq!(state.opens[0].open.oplock.level, OPLOCK_NONE);
    let mut state = oplocked_state(OPLOCK_LEVEL_II);
    assert_eq!(state.drop_level_ii_oplocks_without_notification("share", &path(), None), 1);
    assert!(state.outbox.is_empty());
    assert_eq!(state.opens[0].open.oplock.level, OPLOCK_NONE);
}

fn waiting_task(async_id: u64, task: u64) -> Waiting<TaskWait> {
    Waiting {
        conn: CONN,
        async_id,
        request: RequestHeader { session_id: 3, tree_id: Some(4), message_id: async_id },
        file_id: TWO,
        detail: TaskWait {
            wait: BreakWait { lease_keys: vec![KEY], oplock_file_ids: Vec::new() },
            task,
            replay: ReplayKey { create_guid: None, client_guid: [0; 16], owner: String::new() },
            compound: None,
        },
    }
}

#[test]
fn tasks_run_in_the_order_of_their_ids() {
    let mut state = leased_state(7);
    let _ = state.break_conflicting_leases_for_open("share", &path(), None, OTHER, 3);
    for (async_id, task) in [(12, 1), (10, 2), (11, 3)] {
        assert!(state.reserve_cache_break_task_async_slot(CONN));
        state.register_cache_break_task(waiting_task(async_id, task));
    }
    assert!(state.attach_cache_break_compound_completion(CONN, 11, 77));
    assert!(!state.attach_cache_break_compound_completion(CONN, 13, 78));
    state.outbox.clear();
    assert_eq!(state.acknowledge_lease_break(KEY, 3), STATUS_SUCCESS);
    let started: Vec<_> = std::mem::take(&mut state.outbox)
        .into_iter()
        .filter_map(|a| match a {
            Action::RunTask { async_id, task, .. } => Some((async_id, task.task, task.compound)),
            _ => None,
        })
        .collect();
    assert_eq!(started, vec![(10, 2, None), (11, 3, Some(77)), (12, 1, None)]);
    let replay = ReplayKey { create_guid: None, client_guid: [0; 16], owner: String::new() };
    let body = ResponseBody::Data(vec![1]);
    state.finish_cache_break_task(CONN, 10, &replay, None, STATUS_SUCCESS, body);
    assert_eq!(answers(&mut state), vec![(10, STATUS_SUCCESS)]);
}

#[test]
fn waiting_requests_are_cancelled_by_their_session() {
    let mut state = leased_state(7);
    let _ = state.break_conflicting_leases_for_open("share", &path(), None, OTHER, 3);
    assert!(state.reserve_cache_break_task_async_slot(CONN));
    state.register_cache_break_task(waiting_task(12, 1));
    assert!(!state.cancel_cache_break_task(CONN, 12, 9, STATUS_CANCELLED));
    assert!(state.cancel_cache_break_task(CONN, 12, 3, STATUS_CANCELLED));
    assert_eq!(answers(&mut state), vec![(12, STATUS_CANCELLED)]);
    assert_eq!(state.connections[0].pending_async, 0);
    assert!(state.reserve_pipe_read_async_slot(CONN));
    state.register_pipe_read(Waiting {
        conn: CONN,
        async_id: 13,
        request: RequestHeader { session_id: 3, tree_id: Some(4), message_id: 13 },
        file_id: TWO,
        detail: PipeReadWait {},
    });
    assert_eq!(state.cleanup_pipe_reads_for_file(CONN, TWO, STATUS_NOTIFY_CLEANUP), 1);
    assert_eq!(answers(&mut state), vec![(13, STATUS_NOTIFY_CLEANUP)]);
}

#[test]
fn discarded_requests_are_not_answered() {
    let mut state = new_state();
    assert!(state.reserve_pipe_read_async_slot(CONN));
    state.register_pipe_read(Waiting {
        conn: CONN,
        async_id: 13,
        request: RequestHeader { session_id: 3, tree_id: Some(4), message_id: 13 },
        file_id: TWO,
        detail: PipeReadWait {},
    });
    assert!(!state.discard_pending_async(CONN, 14));
    assert!(state.discard_pending_async(CONN, 13));
    assert!(state.outbox.is_empty());
    assert!(state.pipe_reads.is_empty());
    assert_eq!(state.connections[0].pending_async, 0);
}

#[test]
fn lease_and_oplock_availability_looks_at_other_opens() {
    let mut state = new_state();
    assert!(state.oplock_exclusive_available("share", &path(), None));
    assert!(state.lease_caching_available("share", &path(), None, KEY));
    assert!(!state.lease_caching_available("share", &path(), None, [0; 16]));
    state.register_open("share", &path(), None, 1, leased(ONE, KEY, 3), CONN);
    assert!(!state.oplock_exclusive_available("share", &path(), None));
    assert!(state.lease_caching_available("share", &path(), None, KEY));
    assert!(!state.lease_caching_available("share", &path(), None, OTHER));
    assert!(state.lease_handle_caching_available("share", &path(), None, OTHER));
    assert!(state.lease_state_can_share_with_other_keys("share", &path(), None, OTHER, 3, 4));
    assert!(!state.lease_state_can_share_with_other_keys("share", &path(), None, OTHER, 7, 4));
    assert!(state.lease_key_exists(KEY));
    let elsewhere = SmbPath::parse("b.txt");
    assert!(state.lease_key_conflicts_with_path("share", &elsewhere, None, KEY));
    assert!(!state.lease_key_conflicts_with_path("share", &path(), None, KEY));
    let same = state.same_key_lease_state("share", &path(), None, KEY).expect("a lease");
    assert_eq!((same.state, same.epoch, same.version, same.breaking), (3, 5, 2, false));
    assert!(state.same_key_lease_state("share", &path(), None, OTHER).is_none());
}

#[test]
fn requests_begin_to_wait_without_a_compound_behind_them() {
    let mut state = leased_state(7);
    let _ = state.break_conflicting_leases_for_open("share", &path(), None, OTHER, 3);
    let replay = ReplayKey {
        create_guid: Some([6; 16]),
        client_guid: [7; 16],
        owner: "alice".to_string(),
    };
    let mut task = waiting_task(12, 1);
    task.detail.replay = replay.clone();
    task.detail.compound = Some(5);
    state.register_cache_break_task_with_replay(task.clone());
    assert_eq!(state.cache_break_tasks[0].detail.replay, replay);
    assert_eq!(state.cache_break_tasks[0].detail.compound, None);
    assert!(state.durable_pending_create_replay([6; 16], [7; 16], "alice"));
    // The same request without a replay takes its place.
    state.register_cache_break_task(task);
    assert_eq!(state.cache_break_tasks.len(), 1);
    assert_eq!(state.cache_break_tasks[0].detail.replay.create_guid, None);
    assert!(!state.durable_pending_create_replay([6; 16], [7; 16], "alice"));

    let wait = BreakWait { lease_keys: vec![KEY], oplock_file_ids: vec![ONE] };
    state.register_cache_break_write(Waiting {
        conn: CONN,
        async_id: 13,
        request: RequestHeader { session_id: 3, tree_id: Some(4), message_id: 13 },
        file_id: TWO,
        detail: WriteWait {
            wait,
            open: 2,
            share: "Share".to_string(),
            path: path(),
            stream_name: None,
            offset: 0,
            data: vec![1],
            is_directory: false,
            compound: Some(5),
        },
    });
    let kept = &state.cache_break_writes[0].detail;
    assert_eq!(kept.share, "share");
    assert_eq!(kept.compound, None);
    assert!(kept.wait.oplock_file_ids.is_empty());
    assert_eq!(kept.wait.lease_keys, vec![KEY]);
}
