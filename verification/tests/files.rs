use smb_server::backend::{FileInfo, FileTimes};
use smb_server::info_class::PosixMetadata;
use smb_server::info_class::ea::ExtendedAttribute;
use smb_server::path::SmbPath;
use smb_server::proto::messages::{Dialect, FileId};
use smb_server::server::shares::{ServerShares, ServerUsers, ShareBindings, ShareMode};
use smb_server::server::state::{ServerConfig, ServerState};
use smb_server::server::types::Negotiated;

const CONN: u64 = 1;

fn new_state() -> ServerState {
    let config = ServerConfig {
        max_read_size: 0x0010_0000,
        max_write_size: 0x0010_0000,
        max_credits: 512,
        durable_handle_timeout: 60_000,
        cache_break_timeout: 35_000,
        server_guid: [0x5A; 16],
        require_signing: false,
        encrypt_data: false,
        disable_compression: false,
    };
    let shares = ServerShares::new(vec![ShareBindings::new(
        "share".to_string(),
        ShareMode::Public,
        vec![],
        false,
    )]);
    let mut state = ServerState::new(config, ServerUsers { table: vec![] }, shares, 0);
    connect(&mut state, CONN, [0x11; 16]);
    state
}

fn connect(state: &mut ServerState, key: u64, client_guid: [u8; 16]) {
    let negotiated = Negotiated {
        client_guid,
        dialect: Some(Dialect::Smb311),
        signing_algo: 0,
        signing_context_present: false,
        encryption_cipher: 0,
    };
    assert!(state.add_connection(key, negotiated, true));
    let _ = state.register(key);
}

fn file() -> SmbPath {
    SmbPath::parse("dir\\File.txt")
}

fn info() -> FileInfo {
    FileInfo {
        name: "File.txt".to_string(),
        end_of_file: 100,
        allocation_size: 100,
        creation_time: 1,
        last_access_time: 2,
        last_write_time: 3,
        change_time: 4,
        is_directory: false,
        file_index: 5,
        file_attributes: 0x20,
    }
}

const ONE: FileId = FileId { persistent: 1, volatile: 1 };
const TWO: FileId = FileId { persistent: 2, volatile: 2 };

#[test]
fn metadata_is_kept_by_path_whatever_its_case() {
    let mut state = new_state();
    let metadata = PosixMetadata { mode: 0o600, uid: 10, gid: 20 };
    assert_eq!(state.posix_metadata("share", &file()), None);
    state.set_posix_metadata("share", &file(), metadata);
    assert_eq!(state.posix_metadata("SHARE", &SmbPath::parse("DIR/file.TXT")), Some(metadata));
    state.delete_posix_metadata("share", &file());
    assert_eq!(state.posix_metadata("share", &file()), None);
}

#[test]
fn security_descriptors_follow_a_renamed_directory() {
    let mut state = new_state();
    state.set_security_descriptor("share", &file(), vec![1, 2, 3]);
    state.rekey_security_descriptor("share", &SmbPath::parse("DIR"), &SmbPath::parse("new"));
    assert_eq!(state.security_descriptor("share", &file()), None);
    let moved = SmbPath::parse("new\\file.txt");
    assert_eq!(state.security_descriptor("share", &moved), Some(vec![1, 2, 3]));
    state.delete_security_descriptor("share", &moved);
    assert_eq!(state.security_descriptor("share", &moved), None);
}

#[test]
fn deleted_names_are_remembered() {
    let mut state = new_state();
    assert!(!state.name_was_deleted("share", &file()));
    state.mark_name_deleted("share", &file());
    assert!(state.name_was_deleted("share", &file()));
    state.clear_name_deleted("share", &file());
    assert!(!state.name_was_deleted("share", &file()));
}

fn attribute(name: &str, value: &[u8]) -> ExtendedAttribute {
    ExtendedAttribute { flags: 0, name: name.to_string(), value: value.to_vec() }
}

#[test]
fn extended_attributes_are_replaced_added_and_removed() {
    let mut state = new_state();
    assert!(state.extended_attributes("share", &file()).is_empty());
    state.apply_extended_attributes(
        "share",
        &file(),
        &[attribute("ONE", b"1"), attribute("TWO", b"2")],
    );
    state.apply_extended_attributes(
        "share",
        &file(),
        &[attribute("one", b"3"), attribute("two", b"")],
    );
    let left = state.extended_attributes("share", &file());
    assert_eq!(left.len(), 1);
    assert!(left[0].name.eq_ignore_ascii_case("one"));
    assert_eq!(left[0].value, b"3");
    state.delete_extended_attributes("share", &file());
    assert!(state.extended_attributes("share", &file()).is_empty());
}

#[test]
fn set_attributes_times_and_sizes_are_shown() {
    let mut state = new_state();
    assert_eq!(state.effective_file_info("share", &file(), info()).file_attributes, 0x20);
    state.set_file_attributes("share", &file(), 0x01, false);
    state.set_allocation_size("share", &file(), 5000);
    let times = FileTimes { creation_time: Some(11), ..FileTimes::default() };
    state.apply_file_times("share", &file(), times);
    let shown = state.effective_file_info("share", &file(), info());
    assert_eq!(shown.file_attributes, 0x01);
    assert_eq!(shown.creation_time, 11);
    assert_eq!(shown.last_write_time, 3);
    assert_eq!(shown.allocation_size, 5000);
    state.delete_file_attributes("share", &file());
    state.delete_file_times("share", &file());
    state.delete_allocation_size("share", &file());
    let shown = state.effective_file_info("share", &file(), info());
    assert_eq!(shown.file_attributes, 0x20);
    assert_eq!(shown.creation_time, 1);
}

#[test]
fn own_writes_keep_a_write_time_that_was_set() {
    let mut state = new_state();
    let times = FileTimes { last_write_time: Some(500), ..FileTimes::default() };
    state.apply_file_times_for_open("share", &file(), times, ONE);
    state.update_file_times_after_write("share", &file(), ONE, 900);
    assert_eq!(state.effective_file_info("share", &file(), info()).last_write_time, 500);
}

#[test]
fn other_writes_set_the_write_time() {
    let mut state = new_state();
    state.update_file_times_after_write("share", &file(), TWO, 800);
    assert_eq!(state.effective_file_info("share", &file(), info()).last_write_time, 3);
    let times = FileTimes { last_write_time: Some(500), ..FileTimes::default() };
    state.apply_file_times_for_open("share", &file(), times, ONE);
    state.update_file_times_after_write("share", &file(), TWO, 900);
    let shown = state.effective_file_info("share", &file(), info());
    assert_eq!(shown.last_write_time, 900);
    assert_eq!(shown.change_time, 900);
}

#[test]
fn metadata_changes_set_the_change_time_only() {
    let mut state = new_state();
    state.update_change_time_after_metadata_mutation("share", &file(), 700);
    let shown = state.effective_file_info("share", &file(), info());
    assert_eq!(shown.change_time, 700);
    assert_eq!(shown.last_write_time, 3);
}
