use smb_server::backend::{FileInfo, FileTimes, OpenIntent};
use smb_server::error::SmbError;
use smb_server::path::SmbPath;
use smb_server::proto::messages::Dialect;
use smb_server::server::shares::{ServerShares, ServerUsers, ShareBindings, ShareMode};
use smb_server::server::state::{ServerConfig, ServerState};
use smb_server::server::types::{Negotiated, Open};

const CONN: u64 = 1;

fn new_state() -> ServerState {
    let config = ServerConfig {
        max_read_size: 0x0010_0000,
        max_write_size: 0x0010_0000,
        max_credits: 512,
        durable_handle_timeout: 60_000,
        cache_break_timeout: 35_000,
        server_guid: [0x5A; 16],
        require_signing: false,
        encrypt_data: false,
        disable_compression: false,
    };
    let shares = ServerShares::new(vec![ShareBindings::new(
        "share".to_string(),
        ShareMode::Public,
        vec![],
        false,
    )]);
    let mut state = ServerState::new(config, ServerUsers { table: vec![] }, shares, 0);
    connect(&mut state, CONN, [0x11; 16]);
    state
}

fn connect(state: &mut ServerState, key: u64, client_guid: [u8; 16]) {
    let negotiated = Negotiated {
        client_guid,
        dialect: Some(Dialect::Smb311),
        signing_algo: 0,
        signing_context_present: false,
        encryption_cipher: 0,
    };
    assert!(state.add_connection(key, negotiated, true));
    let _ = state.register(key);
}

fn file() -> SmbPath {
    SmbPath::parse("dir\\file.txt")
}

#[test]
fn streams_are_opened_by_intent() {
    let mut state = new_state();
    let f = file();
    assert_eq!(state.open_stream("share", &f, "s", OpenIntent::Open, 7, 9), Err(SmbError::NotFound));
    assert_eq!(
        state.open_stream("share", &f, "s", OpenIntent::Truncate, 7, 9),
        Err(SmbError::NotFound)
    );
    assert_eq!(
        state.open_stream("share", &f, "Stream", OpenIntent::Create, 7, 9),
        Ok(("Stream".to_string(), false))
    );
    assert_eq!(
        state.open_stream("SHARE", &f, "STREAM", OpenIntent::Create, 7, 9),
        Err(SmbError::Exists)
    );
    assert_eq!(
        state.open_stream("share", &f, "stream", OpenIntent::OpenOrCreate, 7, 9),
        Ok(("Stream".to_string(), true))
    );
    assert_eq!(state.write_stream("share", &f, "stream", 0, b"abc", 10), Ok(3));
    assert_eq!(
        state.open_stream("share", &f, "stream", OpenIntent::OverwriteOrCreate, 7, 9),
        Ok(("Stream".to_string(), true))
    );
    assert_eq!(state.stream_data("share", &f, "stream"), Ok(Vec::new()));
}

#[test]
fn streams_give_back_what_was_written() {
    let mut state = new_state();
    let f = file();
    assert!(state.open_stream("share", &f, "s", OpenIntent::Create, 7, 9).is_ok());
    assert_eq!(state.write_stream("share", &f, "s", 2, b"xyz", 10), Ok(3));
    assert_eq!(state.stream_data("share", &f, "S"), Ok(b"\0\0xyz".to_vec()));
    assert_eq!(state.write_stream("share", &f, "s", 0, b"ab", 11), Ok(2));
    assert_eq!(state.read_stream("share", &f, "s", 1, 3), Ok(b"bxy".to_vec()));
    assert_eq!(state.read_stream("share", &f, "s", 4, 100), Ok(b"z".to_vec()));
    assert_eq!(state.read_stream("share", &f, "s", 5, 1), Ok(Vec::new()));
    assert_eq!(state.truncate_stream("share", &f, "s", 3, 12), Ok(()));
    assert_eq!(state.stream_data("share", &f, "s"), Ok(b"abx".to_vec()));
    let info = state.stream_file_info("share", &f, "s").expect("info");
    assert_eq!(info.name, "dir\\file.txt:s");
    assert_eq!((info.end_of_file, info.allocation_size), (3, 3));
    assert_eq!((info.creation_time, info.last_access_time), (7, 9));
    assert_eq!((info.last_write_time, info.change_time), (12, 12));
}

#[test]
fn missing_streams_are_not_found() {
    let mut state = new_state();
    let f = file();
    assert_eq!(state.read_stream("share", &f, "s", 0, 1), Err(SmbError::NotFound));
    assert_eq!(state.write_stream("share", &f, "s", 0, b"a", 1), Err(SmbError::NotFound));
    assert_eq!(state.truncate_stream("share", &f, "s", 0, 1), Err(SmbError::NotFound));
    assert_eq!(state.stream_data("share", &f, "s"), Err(SmbError::NotFound));
    assert_eq!(state.delete_stream("share", &f, "s"), Err(SmbError::NotFound));
    assert_eq!(state.rename_stream("share", &f, "s", "t", true), Err(SmbError::NotFound));
    assert!(state.stream_file_info("share", &f, "s").is_err());
    assert_eq!(
        state.set_stream_times("share", &f, "s", FileTimes::default()),
        Err(SmbError::NotFound)
    );
}

#[test]
fn streams_are_renamed_and_deleted() {
    let mut state = new_state();
    let f = file();
    for name in ["a", "b"] {
        assert!(state.open_stream("share", &f, name, OpenIntent::Create, 0, 0).is_ok());
        assert_eq!(state.write_stream("share", &f, name, 0, name.as_bytes(), 0), Ok(1));
    }
    assert_eq!(state.rename_stream("share", &f, "a", "B", false), Err(SmbError::Exists));
    assert_eq!(state.rename_stream("share", &f, "a", "A", false), Ok(()));
    assert_eq!(state.rename_stream("share", &f, "a", "b", true), Ok(()));
    assert_eq!(state.stream_data("share", &f, "b"), Ok(b"a".to_vec()));
    assert_eq!(state.stream_data("share", &f, "a"), Err(SmbError::NotFound));
    assert_eq!(state.delete_stream("share", &f, "B"), Ok(()));
    assert_eq!(state.stream_data("share", &f, "b"), Err(SmbError::NotFound));
}

#[test]
fn stream_lists_start_with_the_data_of_a_file() {
    let mut state = new_state();
    let f = file();
    assert!(state.open_stream("share", &f, "s", OpenIntent::Create, 0, 0).is_ok());
    assert_eq!(state.write_stream("share", &f, "s", 0, b"12345", 0), Ok(5));
    let mut info = FileInfo {
        name: "file.txt".to_string(),
        end_of_file: 100,
        allocation_size: 4096,
        creation_time: 1,
        last_access_time: 2,
        last_write_time: 3,
        change_time: 4,
        is_directory: false,
        file_index: 5,
        file_attributes: 0x80,
    };
    let list = state.stream_info("share", &f, &info);
    let shown: Vec<_> = list.iter().map(|s| (s.name.as_str(), s.size, s.allocation)).collect();
    assert_eq!(shown, vec![("::$DATA", 100, 4096), (":s:$DATA", 5, 5)]);
    info.is_directory = true;
    assert_eq!(state.stream_info("share", &f, &info).len(), 1);
}

#[test]
fn stream_times_are_set_one_by_one() {
    let mut state = new_state();
    let f = file();
    assert!(state.open_stream("share", &f, "s", OpenIntent::Create, 1, 2).is_ok());
    let times = FileTimes {
        creation_time: None,
        last_access_time: Some(20),
        last_write_time: None,
        change_time: Some(40),
    };
    assert_eq!(state.set_stream_times("share", &f, "s", times), Ok(()));
    let info = state.stream_file_info("share", &f, "s").expect("info");
    assert_eq!((info.creation_time, info.last_access_time), (1, 20));
    assert_eq!((info.last_write_time, info.change_time), (2, 40));
}

#[test]
fn streams_follow_a_renamed_file() {
    let mut state = new_state();
    assert!(state.open_stream("share", &file(), "s", OpenIntent::Create, 1, 2).is_ok());
    let to = SmbPath::parse("dir\\other.txt");
    state.rekey_streams("share", &file(), &to);
    assert_eq!(state.stream_data("share", &to, "s"), Ok(Vec::new()));
    assert_eq!(state.stream_data("share", &file(), "s"), Err(SmbError::NotFound));
    state.delete_streams("share", &to);
    assert_eq!(state.stream_data("share", &to, "s"), Err(SmbError::NotFound));
}
