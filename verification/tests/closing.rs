use smb_server::backend::OpenIntent;
use smb_server::ntstatus::STATUS_SUCCESS;
use smb_server::path::SmbPath;
use smb_server::proto::messages::{Dialect, FileId};
use smb_server::server::closing::{Unlink, UnlinkOutcome, UnlinkReason};
use smb_server::server::rules::{DELETE, FILE_READ_ATTRIBUTES, FILE_READ_DATA, FILE_SHARE_ALL};
use smb_server::server::shares::{ServerShares, ServerUsers, ShareBindings, ShareMode};
use smb_server::server::state::{ServerConfig, ServerState};
use smb_server::server::trees::TreeRef;
use smb_server::server::types::{Action, ByteRangeLockRequest, Negotiated, Open, TreeOpen};

const CONN: u64 = 1;

fn new_state() -> ServerState {
    let config = ServerConfig {
        max_read_size: 0x0010_0000,
        max_write_size: 0x0010_0000,
        max_credits: 512,
        durable_handle_timeout: 60_000,
        cache_break_timeout: 35_000,
        server_guid: [0x5A; 16],
        require_signing: false,
        encrypt_data: false,
        disable_compression: false,
    };
    let shares = ServerShares::new(vec![ShareBindings::new(
        "share".to_string(),
        ShareMode::Public,
        vec![],
        false,
    )]);
    let mut state = ServerState::new(config, ServerUsers { table: vec![] }, shares, 0);
    connect(&mut state, CONN, [0x11; 16]);
    state
}

fn connect(state: &mut ServerState, key: u64, client_guid: [u8; 16]) {
    let negotiated = Negotiated {
        client_guid,
        dialect: Some(Dialect::Smb311),
        signing_algo: 0,
        signing_context_present: false,
        encryption_cipher: 0,
    };
    assert!(state.add_connection(key, negotiated, true));
    let _ = state.register(key);
}

const ONE: FileId = FileId { persistent: 1, volatile: 1 };
const TWO: FileId = FileId { persistent: 2, volatile: 2 };
const TREE: TreeRef = TreeRef { conn: CONN, session_id: 3, tree_id: 4 };

fn path() -> SmbPath {
    SmbPath::parse("dir\\a.txt")
}

fn plain_open(file_id: FileId) -> Open {
    Open::new(file_id, FILE_READ_DATA, FILE_SHARE_ALL, path(), false, false, None)
}

/// A state with opens of one path in a tree connect.
fn state_with(opens: Vec<Open>) -> ServerState {
    let mut state = new_state();
    assert!(state.add_session(CONN, 3, [0x33; 16]));
    assert!(state.add_tree(TREE, "share".to_string()));
    let mut list = Vec::new();
    for (i, open) in opens.into_iter().enumerate() {
        let key = 10 + i as u64;
        list.push(TreeOpen { file_id: open.file_id, open: key });
        state.register_open("share", &path(), None, key, open, CONN);
    }
    state.set_tree_opens(TREE, list);
    state
}

fn close_first(state: &mut ServerState) -> Option<Unlink> {
    let (_, mut opens) = state.tree_opens(TREE).expect("a tree");
    let t = opens.remove(0);
    state.set_tree_opens(TREE, opens);
    state.cleanup_closed_open(CONN, "share", t, false)
}

#[test]
fn closed_opens_give_back_what_they_held() {
    let mut state = state_with(vec![plain_open(ONE), plain_open(TWO)]);
    let lock = ByteRangeLockRequest { fid: ONE, offset: 0, length: 1, exclusive: true };
    assert_eq!(
        state.apply_byte_range_locks("share", &path(), None, &[lock]),
        STATUS_SUCCESS
    );
    assert!(close_first(&mut state).is_none());
    assert!(state.byte_range_locks.is_empty());
    assert_eq!(state.outbox, vec![Action::CloseHandle { open: 10 }]);
    let left: Vec<u64> = state.opens.iter().map(|r| r.key).collect();
    assert_eq!(left, vec![11]);
}

#[test]
fn the_last_open_deletes_its_file() {
    let mut open = plain_open(ONE);
    open.delete_on_close = true;
    let mut state = state_with(vec![open]);
    state.set_file_attributes("share", &path(), 1, false);
    assert!(state.open_stream("share", &path(), "s", OpenIntent::Create, 0, 0).is_ok());
    let u = close_first(&mut state).expect("a file to unlink");
    assert_eq!(
        u,
        Unlink {
            share: "share".to_string(),
            path: path(),
            is_directory: false,
            reason: UnlinkReason::LastClosed,
        }
    );
    state.finish_unlink(&u, UnlinkOutcome::Failed);
    assert!(state.stream_data("share", &path(), "s").is_ok());
    state.finish_unlink(&u, UnlinkOutcome::Done);
    assert!(state.stream_data("share", &path(), "s").is_err());
}

#[test]
fn files_that_others_have_open_are_marked() {
    let mut open = plain_open(ONE);
    open.delete_on_close = true;
    let mut state = state_with(vec![open, plain_open(TWO)]);
    assert!(close_first(&mut state).is_none());
    assert!(state.open_delete_pending("share", &path()));
    let u = close_first(&mut state).expect("a file to unlink");
    assert_eq!(u.reason, UnlinkReason::MarkedBefore);
    state.finish_unlink(&u, UnlinkOutcome::NotFound);
    assert!(!state.open_delete_pending("share", &path()));
}

#[test]
fn names_go_at_once_where_that_is_asked_for() {
    let mut open = plain_open(ONE);
    open.delete_on_close = true;
    open.delete_on_close_unlinks_name = true;
    let mut state = state_with(vec![open, plain_open(TWO)]);
    assert!(state.open_stream("share", &path(), "s", OpenIntent::Create, 0, 0).is_ok());
    let u = close_first(&mut state).expect("a name to unlink");
    assert_eq!(u.reason, UnlinkReason::NameWithOthers);
    state.finish_unlink(&u, UnlinkOutcome::Done);
    assert!(state.opens[0].open.posix_deleted);
    // The streams stay for those who still have the file open.
    assert!(state.stream_data("share", &path(), "s").is_ok());
}

#[test]
fn directories_that_others_have_open_are_unlinked_or_marked() {
    for outcome in [UnlinkOutcome::Done, UnlinkOutcome::Failed] {
        let mut open = plain_open(ONE);
        open.delete_on_close = true;
        open.is_directory = true;
        let mut state = state_with(vec![open, plain_open(TWO)]);
        let u = close_first(&mut state).expect("a directory to unlink");
        assert_eq!(u.reason, UnlinkReason::DirectoryWithOthers);
        state.finish_unlink(&u, outcome);
        assert!(state.open_delete_pending("share", &path()));
        assert_eq!(state.opens[0].open.posix_deleted, outcome == UnlinkOutcome::Done);
    }
}

#[test]
fn streams_are_deleted_with_their_open() {
    let mut open = plain_open(ONE);
    open.delete_on_close = true;
    open.stream_name = Some("s".to_string());
    let mut state = state_with(vec![open]);
    assert!(state.open_stream("share", &path(), "s", OpenIntent::Create, 0, 0).is_ok());
    assert!(close_first(&mut state).is_none());
    assert!(state.stream_data("share", &path(), "s").is_err());
}

#[test]
fn durable_opens_that_are_to_delete_stay_behind_a_tree_disconnect() {
    let mut open = plain_open(ONE);
    open.delete_on_close = true;
    open.durability.enabled = true;
    open.durability.version = 2;
    let mut state = state_with(vec![open]);
    state.register_durable_open("share", ONE, 10, CONN, 3, [0x11; 16], "alice");
    let mut work = state.cleanup_tree_disconnect_opens(TREE);
    let (closed, unlink) = state.cleanup_next(&mut work);
    assert_eq!(closed, 1);
    assert!(unlink.is_none());
    assert_eq!(state.durable_opens.len(), 1);
    assert_eq!(state.durable_opens[0].attached_conn, None);
    assert_eq!(state.opens.len(), 1);
    assert!(!state.opens[0].open.has_handle);
    assert!(state.opens[0].open.delete_on_close);
}

#[test]
fn work_is_taken_up_again_after_each_unlink() {
    let other = SmbPath::parse("dir\\b.txt");
    let mut first = plain_open(ONE);
    first.delete_on_close = true;
    let mut state = state_with(vec![first]);
    let mut second = plain_open(TWO);
    second.delete_on_close = true;
    second.last_path = other.clone();
    state.register_open("share", &other, None, 11, second, CONN);
    let (_, mut opens) = state.tree_opens(TREE).expect("a tree");
    opens.push(TreeOpen { file_id: TWO, open: 11 });
    state.set_tree_opens(TREE, opens);

    let mut work = state.cleanup_opens_for_connection(CONN);
    let (closed, u) = state.cleanup_next(&mut work);
    assert_eq!((closed, u.expect("first").path), (1, path()));
    let (closed, u) = state.cleanup_next(&mut work);
    assert_eq!((closed, u.expect("second").path), (1, other));
    let (closed, u) = state.cleanup_next(&mut work);
    assert_eq!(closed, 0);
    assert!(u.is_none());
    assert!(state.opens.is_empty());
    assert!(state.tree_opens(TREE).expect("a tree").1.is_empty());
}

#[test]
fn sessions_and_trees_name_their_opens() {
    let state = state_with(vec![plain_open(ONE)]);
    assert_eq!(state.cleanup_opens_for_tree(TREE).trees, vec![TREE]);
    assert!(!state.cleanup_opens_for_tree(TREE).preserve);
    assert_eq!(state.cleanup_opens_for_session(CONN, 3).trees, vec![TREE]);
    assert!(state.cleanup_opens_for_session(CONN, 9).trees.is_empty());
    assert_eq!(state.cleanup_opens_for_connection(CONN).trees, vec![TREE]);
}

#[test]
fn renamed_opens_are_found_on_their_new_path() {
    let mut state = state_with(vec![plain_open(ONE)]);
    let to = SmbPath::parse("new");
    state.rekey_open_path("SHARE", &SmbPath::parse("DIR"), &to);
    let moved = SmbPath::parse("new\\a.txt");
    assert_eq!(state.opens[0].open.last_path, moved);
    assert!(state.has_other_open("share", &moved, 99));
    assert!(!state.has_other_open("share", &path(), 99));
    assert!(state.has_other_open_under_directory("share", &to, 99));
    assert!(!state.has_other_open_under_directory("share", &to, 10));
}

#[test]
fn open_conflicts_are_mutual() {
    let mut state = state_with(vec![plain_open(ONE)]);
    assert!(!state.share_conflicts("share", &path(), None, FILE_READ_DATA, FILE_SHARE_ALL));
    assert!(state.share_conflicts("share", &path(), None, FILE_READ_DATA, 0));
    state.opens[0].open.share_access = 0;
    assert!(state.share_conflicts("share", &path(), None, FILE_READ_DATA, FILE_SHARE_ALL));
    assert!(!state.share_conflicts("share", &path(), None, FILE_READ_ATTRIBUTES, 0));
    assert!(!state.share_conflicts("share", &path(), Some("s"), FILE_READ_DATA, 0));
}

#[test]
fn parents_that_may_be_deleted_stop_a_rename() {
    let dir = SmbPath::parse("dir");
    let mut state = new_state();
    let mut open = Open::new(ONE, DELETE, FILE_SHARE_ALL, dir.clone(), true, false, None);
    open.is_directory = true;
    state.register_open("share", &dir, None, 10, open, CONN);
    let to = SmbPath::parse("b.txt");
    assert!(state.rename_parent_delete_conflict("share", &path(), &to, 99));
    assert!(!state.rename_parent_delete_conflict("share", &path(), &to, 10));
    assert!(!state.rename_parent_delete_conflict("share", &to, &to, 99));
}
