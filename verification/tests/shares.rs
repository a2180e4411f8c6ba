use smb_server::proto::messages::Dialect;
use smb_server::server::shares::{
    Access, ConfigError, ServerShares, ServerUsers, ShareBindings, ShareMode, ShareUser, UserCreds,
};
use smb_server::server::state::{ServerConfig, ServerState};
use smb_server::server::types::{Action, Negotiated};

const CONN: u64 = 1;

fn new_state() -> ServerState {
    let config = ServerConfig {
        max_read_size: 0x0010_0000,
        max_write_size: 0x0010_0000,
        max_credits: 512,
        durable_handle_timeout: 60_000,
        cache_break_timeout: 35_000,
        server_guid: [0x5A; 16],
        require_signing: false,
        encrypt_data: false,
        disable_compression: false,
    };
    let shares = ServerShares::new(vec![ShareBindings::new(
        "share".to_string(),
        ShareMode::Public,
        vec![],
        false,
    )]);
    let mut state = ServerState::new(config, ServerUsers { table: vec![] }, shares, 0);
    connect(&mut state, CONN, [0x11; 16]);
    state
}

fn connect(state: &mut ServerState, key: u64, client_guid: [u8; 16]) {
    let negotiated = Negotiated {
        client_guid,
        dialect: Some(Dialect::Smb311),
        signing_algo: 0,
        signing_context_present: false,
        encryption_cipher: 0,
    };
    assert!(state.add_connection(key, negotiated, true));
    let _ = state.register(key);
}

fn creds() -> UserCreds {
    UserCreds { nt_hash: [5; 16] }
}

fn closed_share(name: &str, users: &[&str]) -> ShareBindings {
    ShareBindings::new(
        name.to_string(),
        ShareMode::AuthenticatedOnly,
        users
            .iter()
            .map(|u| ShareUser { name: u.to_string(), access: Access::Read })
            .collect(),
        false,
    )
}

#[test]
fn user_names_are_checked() {
    let mut state = new_state();
    assert_eq!(state.add_user("", creds()), Err(ConfigError::EmptyUserName));
    assert_eq!(
        state.add_user("Anonymous", creds()),
        Err(ConfigError::ReservedUserName("Anonymous".to_string()))
    );
    assert_eq!(state.add_user("alice", creds()), Ok(()));
    assert_eq!(state.lookup_user("alice"), Some(creds()));
    assert_eq!(state.lookup_user("Alice"), None);
    assert_eq!(
        state.remove_user("bob"),
        Err(ConfigError::UnknownUser("bob".to_string()))
    );
    assert_eq!(state.remove_user("alice"), Ok(()));
    assert_eq!(state.lookup_user("alice"), None);
    assert!(state.outbox.contains(&Action::CloseUserSessions {
        conn: CONN,
        user: "alice".to_string()
    }));
}

#[test]
fn shares_are_checked() {
    let mut state = new_state();
    assert_eq!(state.add_user("alice", creds()), Ok(()));
    assert_eq!(
        state.add_share(closed_share("ipc$", &[])),
        Err(ConfigError::ReservedShareName("ipc$".to_string()))
    );
    assert_eq!(
        state.add_share(closed_share("home", &["bob"])),
        Err(ConfigError::UnknownUser("bob".to_string()))
    );
    let mut mixed = closed_share("home", &["alice"]);
    mixed.acl.mode = ShareMode::Public;
    assert_eq!(
        state.add_share(mixed),
        Err(ConfigError::PublicMixedWithUsers("home".to_string()))
    );
    assert_eq!(state.add_share(closed_share("home", &["alice"])), Ok(()));
    assert_eq!(
        state.add_share(closed_share("HOME", &[])),
        Err(ConfigError::DuplicateShare("HOME".to_string()))
    );
    assert!(state.find_share("Home").is_some());
    assert_eq!(
        state.remove_share("away"),
        Err(ConfigError::UnknownShare("away".to_string()))
    );
    assert_eq!(state.remove_share("home"), Ok(()));
    assert!(state.find_share("home").is_none());
    assert_eq!(
        state.outbox,
        vec![Action::CloseShareTrees { conn: CONN, share: "home".to_string() }]
    );
}

#[test]
fn modes_and_users_are_never_mixed() {
    let mut state = new_state();
    assert_eq!(state.add_user("alice", creds()), Ok(()));
    assert_eq!(
        state.grant_share_user("share", "alice", Access::ReadWrite),
        Err(ConfigError::PublicMixedWithUsers("share".to_string()))
    );
    assert_eq!(state.set_share_mode("share", ShareMode::AuthenticatedOnly), Ok(()));
    assert_eq!(state.grant_share_user("share", "alice", Access::ReadWrite), Ok(()));
    assert_eq!(
        state.grant_share_user("share", "bob", Access::Read),
        Err(ConfigError::UnknownUser("bob".to_string()))
    );
    assert_eq!(
        state.set_share_mode("share", ShareMode::PublicReadOnly),
        Err(ConfigError::PublicMixedWithUsers("share".to_string()))
    );
    assert!(!state.anonymous_allowed());
    assert_eq!(state.revoke_share_user("share", "alice"), Ok(()));
    assert_eq!(state.set_share_mode("share", ShareMode::PublicReadOnly), Ok(()));
    assert!(state.anonymous_allowed());
    assert_eq!(
        state.set_share_mode("away", ShareMode::Public),
        Err(ConfigError::UnknownShare("away".to_string()))
    );
}

#[test]
fn configuration_errors_speak() {
    let s = || "x".to_string();
    let cases = [
        (ConfigError::UnknownUser(s()), "user `x` does not exist"),
        (ConfigError::UnknownShare(s()), "share `x` does not exist"),
        (ConfigError::DuplicateShare(s()), "duplicate share `x`"),
        (
            ConfigError::PublicMixedWithUsers(s()),
            "share `x` mixes public mode with explicit users",
        ),
        (ConfigError::ReservedUserName(s()), "user name `x` is reserved"),
        (ConfigError::EmptyUserName, "user name must be non-empty"),
        (ConfigError::ReservedShareName(s()), "share name `x` is reserved"),
    ];
    for (e, words) in cases {
        assert_eq!(e.message(), words);
    }
}

#[test]
fn the_pipe_share_is_public() {
    let ipc = ShareBindings::ipc();
    assert_eq!(ipc.name, "IPC$");
    assert!(ipc.is_ipc);
    assert!(ipc.acl.users.is_empty());
}

#[test]
fn shares_name_each_user_once() {
    let mut state = new_state();
    assert_eq!(state.add_user("alice", creds()), Ok(()));
    assert_eq!(state.add_user("bob", creds()), Ok(()));
    let user = |name: &str, access| ShareUser { name: name.to_string(), access };
    let share = ShareBindings::new(
        "home".to_string(),
        ShareMode::AuthenticatedOnly,
        vec![
            user("alice", Access::Read),
            user("bob", Access::Read),
            user("alice", Access::ReadWrite),
        ],
        false,
    );
    assert_eq!(share.acl.users, vec![user("alice", Access::ReadWrite), user("bob", Access::Read)]);
    assert_eq!(state.add_share(share), Ok(()));
    assert_eq!(state.revoke_share_user("home", "alice"), Ok(()));
    let home = state.find_share("home").expect("a share");
    assert_eq!(home.acl.users, vec![user("bob", Access::Read)]);
}
