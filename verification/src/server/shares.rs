//! Users, shares, and who may use which.

use crate::server::connections;
use crate::server::connections::Live;
use crate::server::lists;
use crate::server::state::{ServerState, StateModel};
use crate::server::types::{Action, ActionModel, ConnectionModel};
use crate::text;
use crate::text::{eq_ignore_ascii_case, push_str, string_of_str};
use vstd::prelude::*;

verus! {

/// Who may use a share.
#[derive(Debug, Clone, Copy, PartialEq, Eq, Structural)]
pub enum ShareMode {
    Public,
    PublicReadOnly,
    /// Only the users that are named.
    AuthenticatedOnly,
}

/// What a user may do in a share.
#[derive(Debug, Clone, Copy, PartialEq, Eq, Structural)]
pub enum Access {
    Read,
    ReadWrite,
}

/// A user of a share.
#[derive(Debug, Clone, PartialEq, Eq)]
pub struct ShareUser {
    pub name: String,
    pub access: Access,
}

/// A user of a share.
#[verifier::ext_equal]
pub struct ShareUserModel {
    pub name: Seq<char>,
    pub access: Access,
}

impl View for ShareUser {
    type V = ShareUserModel;

    open spec fn view(&self) -> ShareUserModel {
        ShareUserModel { name: self.name@, access: self.access }
    }
}

/// Who may use a share.
#[derive(Debug, Clone, PartialEq, Eq)]
pub struct ShareAcl {
    pub mode: ShareMode,
    pub users: Vec<ShareUser>,
}

/// Who may use a share.
#[verifier::ext_equal]
pub struct AclModel {
    pub mode: ShareMode,
    pub users: Seq<ShareUserModel>,
}

impl View for ShareAcl {
    type V = AclModel;

    open spec fn view(&self) -> AclModel {
        AclModel { mode: self.mode, users: self.users@.map_values(|u: ShareUser| u@) }
    }
}

/// A share.
#[derive(Debug, Clone, PartialEq, Eq)]
pub struct ShareBindings {
    pub name: String,
    pub acl: ShareAcl,
    /// Whether it is the share of named pipes, which clients probe before any other.
    pub is_ipc: bool,
}

/// A share.
#[verifier::ext_equal]
pub struct ShareModel {
    pub name: Seq<char>,
    pub acl: AclModel,
    pub is_ipc: bool,
}

impl View for ShareBindings {
    type V = ShareModel;

    open spec fn view(&self) -> ShareModel {
        ShareModel { name: self.name@, acl: self.acl@, is_ipc: self.is_ipc }
    }
}

/// What a user logs on with.
#[derive(Debug, Clone, Copy, PartialEq, Eq)]
pub struct UserCreds {
    pub nt_hash: [u8; 16],
}

/// A user.
#[derive(Debug, Clone, PartialEq, Eq)]
pub struct User {
    pub name: String,
    pub creds: UserCreds,
}

/// A user.
#[verifier::ext_equal]
pub struct UserModel {
    pub name: Seq<char>,
    pub creds: UserCreds,
}

impl View for User {
    type V = UserModel;

    open spec fn view(&self) -> UserModel {
        UserModel { name: self.name@, creds: self.creds }
    }
}

/// The users.
#[derive(Debug, Clone, PartialEq, Eq)]
pub struct ServerUsers {
    pub table: Vec<User>,
}

/// The shares.
#[derive(Debug, Clone, PartialEq, Eq)]
pub struct ServerShares {
    pub list: Vec<ShareBindings>,
}

/// What users hold.
pub open spec fn user_models(s: Seq<User>) -> Seq<UserModel> {
    s.map_values(|u: User| u@)
}

/// What shares hold.
pub open spec fn share_models(s: Seq<ShareBindings>) -> Seq<ShareModel> {
    s.map_values(|b: ShareBindings| b@)
}

impl View for ServerUsers {
    type V = Seq<UserModel>;

    open spec fn view(&self) -> Seq<UserModel> {
        user_models(self.table@)
    }
}

impl View for ServerShares {
    type V = Seq<ShareModel>;

    open spec fn view(&self) -> Seq<ShareModel> {
        share_models(self.list@)
    }
}

/// Why a configuration is refused.
#[derive(Debug, PartialEq, Eq)]
pub enum ConfigError {
    UnknownUser(String),
    UnknownShare(String),
    DuplicateShare(String),
    PublicMixedWithUsers(String),
    ReservedUserName(String),
    EmptyUserName,
    ReservedShareName(String),
}

/// Why a configuration is refused.
#[verifier::ext_equal]
pub enum ConfigErrorModel {
    UnknownUser(Seq<char>),
    UnknownShare(Seq<char>),
    DuplicateShare(Seq<char>),
    PublicMixedWithUsers(Seq<char>),
    ReservedUserName(Seq<char>),
    EmptyUserName,
    ReservedShareName(Seq<char>),
}

impl View for ConfigError {
    type V = ConfigErrorModel;

    open spec fn view(&self) -> ConfigErrorModel {
        match self {
            ConfigError::UnknownUser(s) => ConfigErrorModel::UnknownUser(s@),
            ConfigError::UnknownShare(s) => ConfigErrorModel::UnknownShare(s@),
            ConfigError::DuplicateShare(s) => ConfigErrorModel::DuplicateShare(s@),
            ConfigError::PublicMixedWithUsers(s) => ConfigErrorModel::PublicMixedWithUsers(s@),
            ConfigError::ReservedUserName(s) => ConfigErrorModel::ReservedUserName(s@),
            ConfigError::EmptyUserName => ConfigErrorModel::EmptyUserName,
            ConfigError::ReservedShareName(s) => ConfigErrorModel::ReservedShareName(s@),
        }
    }
}

/// Whether a result is that of a test that found an error or none.
pub open spec fn says(r: Result<(), ConfigError>, e: Option<ConfigErrorModel>) -> bool {
    match r {
        Ok(_) => e is None,
        Err(x) => e == Some(x@),
    }
}

impl ConfigErrorModel {
    /// The error in words.
    pub open spec fn words(self) -> Seq<char> {
        match self {
            ConfigErrorModel::UnknownUser(s) => "user `"@ + s + "` does not exist"@,
            ConfigErrorModel::UnknownShare(s) => "share `"@ + s + "` does not exist"@,
            ConfigErrorModel::DuplicateShare(s) => "duplicate share `"@ + s + "`"@,
            ConfigErrorModel::PublicMixedWithUsers(s) => "share `"@ + s
                + "` mixes public mode with explicit users"@,
            ConfigErrorModel::ReservedUserName(s) => "user name `"@ + s + "` is reserved"@,
            ConfigErrorModel::EmptyUserName => "user name must be non-empty"@,
            ConfigErrorModel::ReservedShareName(s) => "share name `"@ + s + "` is reserved"@,
        }
    }
}

fn around(before: &str, s: &String, after: &str) -> (r: String)
    ensures
        r@ == before@ + s@ + after@,
{
    let mut r: String = string_of_str(before);
    push_str(&mut r, s.as_str());
    push_str(&mut r, after);
    r
}

impl ConfigError {
    /// The error in words.
    pub fn message(&self) -> (r: String)
        ensures
            r@ == self@.words(),
    {
        match self {
            ConfigError::UnknownUser(s) => around("user `", s, "` does not exist"),
            ConfigError::UnknownShare(s) => around("share `", s, "` does not exist"),
            ConfigError::DuplicateShare(s) => around("duplicate share `", s, "`"),
            ConfigError::PublicMixedWithUsers(s) => around(
                "share `",
                s,
                "` mixes public mode with explicit users",
            ),
            ConfigError::ReservedUserName(s) => around("user name `", s, "` is reserved"),
            ConfigError::EmptyUserName => string_of_str("user name must be non-empty"),
            ConfigError::ReservedShareName(s) => around("share name `", s, "` is reserved"),
        }
    }
}

// ---------------------------------------------------------------------------
// Looking up
// ---------------------------------------------------------------------------

/// Whether a share has a name.
pub open spec fn share_is(name: Seq<char>) -> spec_fn(ShareModel) -> bool {
    |s: ShareModel| text::same_ignoring_case(s.name, name)
}

/// Whether a user has a name.
pub open spec fn user_is(name: Seq<char>) -> spec_fn(UserModel) -> bool {
    |u: UserModel| u.name == name
}

/// Whether a user of a share has a name.
pub open spec fn share_user_is(name: Seq<char>) -> spec_fn(ShareUserModel) -> bool {
    |u: ShareUserModel| u.name == name
}

/// Where a share stands.
pub open spec fn share_at(shares: Seq<ShareModel>, name: Seq<char>) -> int {
    lists::first(shares, share_is(name))
}

/// The share with a name.
pub open spec fn share_of(shares: Seq<ShareModel>, name: Seq<char>) -> Option<ShareModel> {
    let i = share_at(shares, name);
    if i < shares.len() {
        Some(shares[i])
    } else {
        None
    }
}

/// Whether there is a user with a name.
pub open spec fn user_known(users: Seq<UserModel>, name: Seq<char>) -> bool {
    lists::found(users, user_is(name))
}

/// Whether anybody may use a share.
pub open spec fn is_public(mode: ShareMode) -> bool {
    mode is Public || mode is PublicReadOnly
}

/// Shares with another, in place of one that has its name.
pub open spec fn share_put(shares: Seq<ShareModel>, s: ShareModel) -> Seq<ShareModel> {
    let i = share_at(shares, s.name);
    if i < shares.len() {
        shares.update(i, s)
    } else {
        shares.push(s)
    }
}

/// Shares with others, one after the other.
pub open spec fn all_put(shares: Seq<ShareModel>) -> Seq<ShareModel>
    decreases shares.len(),
{
    if shares.len() == 0 {
        shares
    } else {
        share_put(all_put(shares.drop_last()), shares.last())
    }
}

/// Users of a share without one.
pub open spec fn without_user(users: Seq<ShareUserModel>, name: Seq<char>) -> Seq<ShareUserModel> {
    let i = lists::first(users, share_user_is(name));
    if i < users.len() {
        users.remove(i)
    } else {
        users
    }
}

/// Users of a share with one.
pub open spec fn with_user(users: Seq<ShareUserModel>, u: ShareUserModel) -> Seq<ShareUserModel> {
    let i = lists::first(users, share_user_is(u.name));
    if i < users.len() {
        users.update(i, u)
    } else {
        users.push(u)
    }
}

/// Users of a share, one after the other: of those with one name the last counts.
pub open spec fn all_with(users: Seq<ShareUserModel>) -> Seq<ShareUserModel>
    decreases users.len(),
{
    if users.len() == 0 {
        users
    } else {
        with_user(all_with(users.drop_last()), users.last())
    }
}

/// A share with other users.
pub open spec fn share_with_users(s: ShareModel, users: Seq<ShareUserModel>) -> ShareModel {
    ShareModel { acl: AclModel { users, ..s.acl }, ..s }
}

/// Users with one, in place of one that has its name.
pub open spec fn user_put(users: Seq<UserModel>, u: UserModel) -> Seq<UserModel> {
    let i = lists::first(users, user_is(u.name));
    if i < users.len() {
        users.update(i, u)
    } else {
        users.push(u)
    }
}

impl ShareBindings {
    /// A share. Of users with one name the last counts.
    pub fn new(name: String, mode: ShareMode, users: Vec<ShareUser>, is_ipc: bool) -> (r: Self)
        ensures
            r@ == (ShareModel {
                name: name@,
                acl: AclModel { mode, users: all_with(users@.map_values(|u: ShareUser| u@)) },
                is_ipc,
            }),
    {
        let ghost all = users@.map_values(|u: ShareUser| u@);
        let mut acl = ShareAcl { mode, users: Vec::new() };
        let mut i: usize = 0;
        assert(all.take(0) =~= Seq::empty());
        assert(acl@.users =~= Seq::empty());
        while i < users.len()
            invariant
                i <= users@.len(),
                all == users@.map_values(|u: ShareUser| u@),
                acl@ == (AclModel { mode, users: all_with(all.take(i as int)) }),
            decreases users@.len() - i,
        {
            let u: &ShareUser = &users[i];
            proof {
                assert(all.take(i + 1).drop_last() =~= all.take(i as int));
                assert(all.take(i + 1).last() == u@);
            }
            acl.grant(u.name.as_str(), u.access);
            i += 1;
        }
        assert(all.take(i as int) =~= all);
        ShareBindings { name, acl, is_ipc }
    }

    /// The share of named pipes.
    pub fn ipc() -> (r: Self)
        ensures
            r@ == (ShareModel {
                name: "IPC$"@,
                acl: AclModel { mode: ShareMode::PublicReadOnly, users: Seq::empty() },
                is_ipc: true,
            }),
    {
        let users: Vec<ShareUser> = Vec::new();
        let r = ShareBindings::new(
            string_of_str("IPC$"),
            ShareMode::PublicReadOnly,
            users,
            true,
        );
        assert(r@.acl.users =~= Seq::empty());
        r
    }
}

impl ServerShares {
    fn index_of(&self, name: &str) -> (r: Option<usize>)
        ensures
            match r {
                None => !lists::found(self@, share_is(name@)),
                Some(i) => i < self.list@.len() && i == share_at(self@, name@),
            },
    {
        let mut i: usize = 0;
        while i < self.list.len()
            invariant
                i <= self.list@.len(),
                forall|j: int| 0 <= j < i ==> !share_is(name@)(#[trigger] self@[j]),
            decreases self.list@.len() - i,
        {
            assert(self@[i as int] == self.list@[i as int]@);
            if eq_ignore_ascii_case(self.list[i].name.as_str(), name) {
                proof {
                    lists::first_at(self@, share_is(name@), i as int);
                }
                return Some(i);
            }
            i += 1;
        }
        proof {
            lists::first_at(self@, share_is(name@), i as int);
        }
        None
    }

    fn put(&mut self, share: ShareBindings)
        ensures
            final(self)@ == share_put(old(self)@, share@),
    {
        let ghost before = self@;
        match self.index_of(share.name.as_str()) {
            Some(i) => {
                self.list[i] = share;
                assert(self@ =~= before.update(i as int, share@));
            },
            None => {
                self.list.push(share);
                assert(self@ =~= before.push(share@));
            },
        }
    }

    /// Shares; of those with one name the last counts.
    pub fn new(shares: Vec<ShareBindings>) -> (r: Self)
        ensures
            r@ == all_put(share_models(shares@)),
    {
        let mut rest: Vec<ShareBindings> = shares;
        let ghost all = share_models(rest@);
        let mut r = ServerShares { list: Vec::new() };
        let ghost mut n: int = 0;
        assert(all.skip(0) =~= all);
        assert(all.take(0) =~= Seq::empty());
        assert(r@ =~= Seq::empty());
        while rest.len() > 0
            invariant
                0 <= n,
                n + rest@.len() == all.len(),
                share_models(rest@) == all.skip(n),
                r@ == all_put(all.take(n)),
            decreases rest@.len(),
        {
            let ghost before = rest@;
            let s: ShareBindings = rest.remove(0);
            proof {
                assert(share_models(before)[0] == all[n]);
                assert(share_models(rest@) =~= share_models(before).skip(1));
                assert(all.skip(n).skip(1) =~= all.skip(n + 1));
                assert(all.take(n + 1).drop_last() =~= all.take(n));
                assert(all.take(n + 1).last() == all[n]);
                n = n + 1;
            }
            r.put(s);
        }
        assert(all.take(n) =~= all);
        r
    }

    /// The share with a name, in any case.
    pub fn find(&self, name: &str) -> (r: Option<&ShareBindings>)
        ensures
            match r {
                None => share_of(self@, name@) is None,
                Some(s) => share_of(self@, name@) == Some(s@),
            },
    {
        match self.index_of(name) {
            None => None,
            Some(i) => {
                assert(self@[i as int] == self.list@[i as int]@);
                Some(&self.list[i])
            },
        }
    }

    /// Adds a share whose name is not taken.
    pub fn insert(&mut self, share: ShareBindings) -> (r: Result<(), ConfigError>)
        ensures
            says(
                r,
                if share_of(old(self)@, share@.name) is Some {
                    Some(ConfigErrorModel::DuplicateShare(share@.name))
                } else {
                    None
                },
            ),
            final(self)@ == if r is Ok {
                old(self)@.push(share@)
            } else {
                old(self)@
            },
    {
        match self.index_of(share.name.as_str()) {
            Some(_) => Err(ConfigError::DuplicateShare(share.name)),
            None => {
                self.list.push(share);
                assert(self@ =~= old(self)@.push(share@));
                Ok(())
            },
        }
    }

    /// Takes a share away.
    pub fn remove(&mut self, name: &str) -> (r: Option<ShareBindings>)
        ensures
            match r {
                None => share_of(old(self)@, name@) is None && final(self)@ == old(self)@,
                Some(s) => share_of(old(self)@, name@) == Some(s@) && final(self)@
                    == old(self)@.remove(share_at(old(self)@, name@)),
            },
    {
        match self.index_of(name) {
            None => None,
            Some(i) => {
                assert(self@[i as int] == self.list@[i as int]@);
                let s: ShareBindings = self.list.remove(i);
                assert(self@ =~= old(self)@.remove(i as int));
                Some(s)
            },
        }
    }

    /// All shares.
    pub fn all(&self) -> (r: &Vec<ShareBindings>)
        ensures
            share_models(r@) == self@,
    {
        &self.list
    }
}

impl ServerUsers {
    fn index_of(&self, name: &str) -> (r: Option<usize>)
        ensures
            match r {
                None => !user_known(self@, name@),
                Some(i) => i < self.table@.len() && i == lists::first(self@, user_is(name@)),
            },
    {
        let mut i: usize = 0;
        while i < self.table.len()
            invariant
                i <= self.table@.len(),
                forall|j: int| 0 <= j < i ==> !user_is(name@)(#[trigger] self@[j]),
            decreases self.table@.len() - i,
        {
            assert(self@[i as int] == self.table@[i as int]@);
            if text::str_equal(self.table[i].name.as_str(), name) {
                proof {
                    lists::first_at(self@, user_is(name@), i as int);
                }
                return Some(i);
            }
            i += 1;
        }
        proof {
            lists::first_at(self@, user_is(name@), i as int);
        }
        None
    }
}

impl ShareAcl {
    fn index_of(&self, name: &str) -> (r: Option<usize>)
        ensures
            match r {
                None => !lists::found(self@.users, share_user_is(name@)),
                Some(i) => i < self.users@.len() && i == lists::first(
                    self@.users,
                    share_user_is(name@),
                ),
            },
    {
        let mut i: usize = 0;
        while i < self.users.len()
            invariant
                i <= self.users@.len(),
                forall|j: int| 0 <= j < i ==> !share_user_is(name@)(#[trigger] self@.users[j]),
            decreases self.users@.len() - i,
        {
            assert(self@.users[i as int] == self.users@[i as int]@);
            if text::str_equal(self.users[i].name.as_str(), name) {
                proof {
                    lists::first_at(self@.users, share_user_is(name@), i as int);
                }
                return Some(i);
            }
            i += 1;
        }
        proof {
            lists::first_at(self@.users, share_user_is(name@), i as int);
        }
        None
    }

    fn revoke(&mut self, name: &str)
        ensures
            final(self)@ == (AclModel {
                users: without_user(old(self)@.users, name@),
                ..old(self)@
            }),
    {
        match self.index_of(name) {
            None => {},
            Some(i) => {
                let _ = self.users.remove(i);
                assert(self@.users =~= old(self)@.users.remove(i as int));
            },
        }
    }

    fn grant(&mut self, name: &str, access: Access)
        ensures
            final(self)@ == (AclModel {
                users: with_user(old(self)@.users, ShareUserModel { name: name@, access }),
                ..old(self)@
            }),
    {
        let u = ShareUser { name: string_of_str(name), access };
        match self.index_of(name) {
            None => {
                self.users.push(u);
                assert(self@.users =~= old(self)@.users.push(u@));
            },
            Some(i) => {
                self.users[i] = u;
                assert(self@.users =~= old(self)@.users.update(i as int, u@));
            },
        }
    }
}

// ---------------------------------------------------------------------------
// Configuration
// ---------------------------------------------------------------------------

/// Why a name cannot be that of a user.
pub open spec fn user_name_error(name: Seq<char>) -> Option<ConfigErrorModel> {
    if name.len() == 0 {
        Some(ConfigErrorModel::EmptyUserName)
    } else if text::same_ignoring_case(name, "anonymous"@) {
        Some(ConfigErrorModel::ReservedUserName(name))
    } else {
        None
    }
}

/// Why a name cannot be that of a share.
pub open spec fn share_name_error(name: Seq<char>) -> Option<ConfigErrorModel> {
    if text::same_ignoring_case(name, "IPC$"@) {
        Some(ConfigErrorModel::ReservedShareName(name))
    } else {
        None
    }
}

/// The first error of two tests.
pub open spec fn first_error(
    a: Option<ConfigErrorModel>,
    b: Option<ConfigErrorModel>,
) -> Option<ConfigErrorModel> {
    if a is Some {
        a
    } else {
        b
    }
}

/// Whether a name can be that of a user.
pub fn validate_user_name(name: &str) -> (r: Result<(), ConfigError>)
    ensures
        says(r, user_name_error(name@)),
{
    if name.unicode_len() == 0 {
        return Err(ConfigError::EmptyUserName);
    }
    if eq_ignore_ascii_case(name, "anonymous") {
        return Err(ConfigError::ReservedUserName(string_of_str(name)));
    }
    Ok(())
}

/// Whether a name can be that of a share.
pub fn validate_share_name(name: &str) -> (r: Result<(), ConfigError>)
    ensures
        says(r, share_name_error(name@)),
{
    if eq_ignore_ascii_case(name, "IPC$") {
        return Err(ConfigError::ReservedShareName(string_of_str(name)));
    }
    Ok(())
}

/// What every active connection is told.
pub open spec fn to_all(
    conns: Seq<ConnectionModel>,
    message: spec_fn(u64) -> ActionModel,
) -> Seq<ActionModel> {
    connections::live_of(conns).map_values(|l: Live| message(l.key))
}

/// The state after every active connection was told something.
pub open spec fn all_told(m: StateModel, message: spec_fn(u64) -> ActionModel) -> StateModel {
    StateModel {
        outbox: m.outbox + to_all(m.connections, message),
        ..m
    }
}

/// A connection is to close the sessions of a user.
pub open spec fn close_user(user: Seq<char>) -> spec_fn(u64) -> ActionModel {
    |conn: u64| ActionModel::CloseUserSessions { conn, user }
}

/// A connection is to close the tree connects to a share.
pub open spec fn close_share(share: Seq<char>) -> spec_fn(u64) -> ActionModel {
    |conn: u64| ActionModel::CloseShareTrees { conn, share }
}

/// A connection is to close the tree connects of a user to a share.
pub open spec fn close_user_share(user: Seq<char>, share: Seq<char>) -> spec_fn(
    u64,
) -> ActionModel {
    |conn: u64| ActionModel::CloseUserShareTrees { conn, user, share }
}

/// Shares after a user was taken from all of them.
pub open spec fn user_revoked(shares: Seq<ShareModel>, name: Seq<char>) -> Seq<ShareModel> {
    shares.map_values(|s: ShareModel| share_with_users(s, without_user(s.acl.users, name)))
}

/// The first user of a share, from the `n`-th on, that there is not.
pub open spec fn unknown_user(
    users: Seq<UserModel>,
    list: Seq<ShareUserModel>,
    n: int,
) -> Option<ConfigErrorModel>
    decreases list.len() - n,
{
    if n < 0 || n >= list.len() {
        None
    } else if !user_known(users, list[n].name) {
        Some(ConfigErrorModel::UnknownUser(list[n].name))
    } else {
        unknown_user(users, list, n + 1)
    }
}

/// Why a share cannot be added.
pub open spec fn add_share_error(m: StateModel, s: ShareModel) -> Option<ConfigErrorModel> {
    first_error(
        share_name_error(s.name),
        if is_public(s.acl.mode) && s.acl.users.len() > 0 {
            Some(ConfigErrorModel::PublicMixedWithUsers(s.name))
        } else {
            first_error(
                unknown_user(m.users, s.acl.users, 0),
                if share_of(m.shares, s.name) is Some {
                    Some(ConfigErrorModel::DuplicateShare(s.name))
                } else {
                    None
                },
            )
        },
    )
}

/// Why a user cannot be granted a share.
pub open spec fn grant_error(m: StateModel, share: Seq<char>, user: Seq<char>) -> Option<
    ConfigErrorModel,
> {
    first_error(
        user_name_error(user),
        first_error(
            share_name_error(share),
            if !user_known(m.users, user) {
                Some(ConfigErrorModel::UnknownUser(user))
            } else {
                match share_of(m.shares, share) {
                    None => Some(ConfigErrorModel::UnknownShare(share)),
                    Some(s) => if is_public(s.acl.mode) {
                        Some(ConfigErrorModel::PublicMixedWithUsers(s.name))
                    } else {
                        None
                    },
                }
            },
        ),
    )
}

/// Why a user cannot be denied a share.
pub open spec fn revoke_error(m: StateModel, share: Seq<char>, user: Seq<char>) -> Option<
    ConfigErrorModel,
> {
    first_error(
        user_name_error(user),
        first_error(
            share_name_error(share),
            if share_of(m.shares, share) is None {
                Some(ConfigErrorModel::UnknownShare(share))
            } else {
                None
            },
        ),
    )
}

/// Why a share cannot be given a mode.
pub open spec fn mode_error(m: StateModel, share: Seq<char>, mode: ShareMode) -> Option<
    ConfigErrorModel,
> {
    first_error(
        share_name_error(share),
        match share_of(m.shares, share) {
            None => Some(ConfigErrorModel::UnknownShare(share)),
            Some(s) => if is_public(mode) && s.acl.users.len() > 0 {
                Some(ConfigErrorModel::PublicMixedWithUsers(s.name))
            } else {
                None
            },
        },
    )
}

/// The state with another share in the place of one.
pub open spec fn share_changed(m: StateModel, name: Seq<char>, s: ShareModel) -> StateModel {
    StateModel { shares: m.shares.update(share_at(m.shares, name), s), ..m }
}

/// Whether no share that anybody may use names users.
pub open spec fn modes_are_clear(shares: Seq<ShareModel>) -> bool {
    forall|i: int|
        0 <= i < shares.len() ==> !(is_public((#[trigger] shares[i]).acl.mode)
            && shares[i].acl.users.len() > 0)
}

/// No configuration mixes public shares with named users: adding a share, granting one and
/// changing a mode keep that.
pub proof fn configuration_never_mixes_modes(
    m: StateModel,
    s: ShareModel,
    name: Seq<char>,
    user: ShareUserModel,
    mode: ShareMode,
)
    requires
        modes_are_clear(m.shares),
    ensures
        add_share_error(m, s) is None ==> modes_are_clear(m.shares.push(s)),
        grant_error(m, name, user.name) is None ==> modes_are_clear(
            share_changed(
                m,
                name,
                share_with_users(
                    share_of(m.shares, name)->0,
                    with_user(share_of(m.shares, name)->0.acl.users, user),
                ),
            ).shares,
        ),
        mode_error(m, name, mode) is None ==> modes_are_clear(
            share_changed(
                m,
                name,
                ShareModel {
                    acl: AclModel { mode, ..share_of(m.shares, name)->0.acl },
                    ..share_of(m.shares, name)->0
                },
            ).shares,
        ),
{
    lists::first_is_first(m.shares, share_is(name));
}

impl ServerState {
    fn tell_close_user(&mut self, user: &str)
        ensures
            final(self)@ == all_told(old(self)@, close_user(user@)),
    {
        let ghost m = self@;
        let ghost message = close_user(user@);
        let live: Vec<u64> = self.live();
        let ghost told = to_all(m.connections, message);
        let mut i: usize = 0;
        assert(m.outbox + told.take(0) =~= m.outbox);
        while i < live.len()
            invariant
                i <= live@.len() == told.len(),
                message == close_user(user@),
                forall|j: int|
                    0 <= j < live@.len() ==> #[trigger] told[j] == message(live@[j]),
                self@ == (StateModel { outbox: m.outbox + told.take(i as int), ..m }),
            decreases live@.len() - i,
        {
            let conn: u64 = live[i];
            let a = Action::CloseUserSessions { conn, user: string_of_str(user) };
            self.act(a);
            assert(told[i as int] == a@);
            assert(self@.outbox =~= m.outbox + told.take(i + 1));
            i += 1;
        }
        assert(told.take(i as int) =~= told);
    }

    fn tell_close_share(&mut self, share: &str)
        ensures
            final(self)@ == all_told(old(self)@, close_share(share@)),
    {
        let ghost m = self@;
        let ghost message = close_share(share@);
        let live: Vec<u64> = self.live();
        let ghost told = to_all(m.connections, message);
        let mut i: usize = 0;
        assert(m.outbox + told.take(0) =~= m.outbox);
        while i < live.len()
            invariant
                i <= live@.len() == told.len(),
                message == close_share(share@),
                forall|j: int|
                    0 <= j < live@.len() ==> #[trigger] told[j] == message(live@[j]),
                self@ == (StateModel { outbox: m.outbox + told.take(i as int), ..m }),
            decreases live@.len() - i,
        {
            let conn: u64 = live[i];
            let a = Action::CloseShareTrees { conn, share: string_of_str(share) };
            self.act(a);
            assert(told[i as int] == a@);
            assert(self@.outbox =~= m.outbox + told.take(i + 1));
            i += 1;
        }
        assert(told.take(i as int) =~= told);
    }

    fn tell_close_user_share(&mut self, user: &str, share: &str)
        ensures
            final(self)@ == all_told(old(self)@, close_user_share(user@, share@)),
    {
        let ghost m = self@;
        let ghost message = close_user_share(user@, share@);
        let live: Vec<u64> = self.live();
        let ghost told = to_all(m.connections, message);
        let mut i: usize = 0;
        assert(m.outbox + told.take(0) =~= m.outbox);
        while i < live.len()
            invariant
                i <= live@.len() == told.len(),
                message == close_user_share(user@, share@),
                forall|j: int|
                    0 <= j < live@.len() ==> #[trigger] told[j] == message(live@[j]),
                self@ == (StateModel { outbox: m.outbox + told.take(i as int), ..m }),
            decreases live@.len() - i,
        {
            let conn: u64 = live[i];
            let a = Action::CloseUserShareTrees {
                conn,
                user: string_of_str(user),
                share: string_of_str(share),
            };
            self.act(a);
            assert(told[i as int] == a@);
            assert(self@.outbox =~= m.outbox + told.take(i + 1));
            i += 1;
        }
        assert(told.take(i as int) =~= told);
    }

    /// Adds a user, or gives one other credentials.
    pub fn add_user(&mut self, name: &str, creds: UserCreds) -> (r: Result<(), ConfigError>)
        ensures
            says(r, user_name_error(name@)),
            final(self)@ == if r is Ok {
                StateModel {
                    users: user_put(old(self)@.users, UserModel { name: name@, creds }),
                    ..old(self)@
                }
            } else {
                old(self)@
            },
    {
        match validate_user_name(name) {
            Err(e) => Err(e),
            Ok(_) => {
                let u = User { name: string_of_str(name), creds };
                match self.users.index_of(name) {
                    Some(i) => {
                        self.users.table[i] = u;
                        assert(self@.users =~= old(self)@.users.update(i as int, u@));
                    },
                    None => {
                        self.users.table.push(u);
                        assert(self@.users =~= old(self)@.users.push(u@));
                    },
                }
                Ok(())
            },
        }
    }

    /// Takes a user away: from the users, from every share, and from every connection.
    pub fn remove_user(&mut self, name: &str) -> (r: Result<(), ConfigError>)
        ensures
            ({
                let m = old(self)@;
                let i = lists::first(m.users, user_is(name@));
                says(
                    r,
                    first_error(
                        user_name_error(name@),
                        if i < m.users.len() {
                            None
                        } else {
                            Some(ConfigErrorModel::UnknownUser(name@))
                        },
                    ),
                ) && final(self)@ == if r is Ok {
                    all_told(
                        StateModel {
                            users: m.users.remove(i),
                            shares: user_revoked(m.shares, name@),
                            ..m
                        },
                        close_user(name@),
                    )
                } else {
                    m
                }
            }),
    {
        match validate_user_name(name) {
            Err(e) => {
                return Err(e);
            },
            Ok(_) => {},
        }
        let at: usize = match self.users.index_of(name) {
            None => {
                return Err(ConfigError::UnknownUser(string_of_str(name)));
            },
            Some(i) => i,
        };
        let _ = self.users.table.remove(at);
        assert(self@.users =~= old(self)@.users.remove(at as int));
        let ghost m = self@;
        let mut i: usize = 0;
        while i < self.shares.list.len()
            invariant
                i <= self.shares.list@.len(),
                self@.shares.len() == m.shares.len(),
                self@ == (StateModel { shares: self@.shares, ..m }),
                forall|j: int|
                    0 <= j < i ==> (#[trigger] self@.shares[j]) == user_revoked(
                        m.shares,
                        name@,
                    )[j],
                forall|j: int|
                    i <= j < m.shares.len() ==> (#[trigger] self@.shares[j]) == m.shares[j],
            decreases self.shares.list@.len() - i,
        {
            let ghost before = self@.shares;
            assert(before[i as int] == self.shares.list@[i as int]@);
            self.shares.list[i].acl.revoke(name);
            assert(self@.shares =~= before.update(
                i as int,
                share_with_users(
                    before[i as int],
                    without_user(before[i as int].acl.users, name@),
                ),
            ));
            i += 1;
        }
        assert(self@.shares =~= user_revoked(m.shares, name@));
        self.tell_close_user(name);
        Ok(())
    }

    /// Adds a share.
    pub fn add_share(&mut self, share: ShareBindings) -> (r: Result<(), ConfigError>)
        ensures
            says(r, add_share_error(old(self)@, share@)),
            final(self)@ == if r is Ok {
                StateModel { shares: old(self)@.shares.push(share@), ..old(self)@ }
            } else {
                old(self)@
            },
    {
        match validate_share_name(share.name.as_str()) {
            Err(e) => {
                return Err(e);
            },
            Ok(_) => {},
        }
        let public: bool = match share.acl.mode {
            ShareMode::Public | ShareMode::PublicReadOnly => true,
            ShareMode::AuthenticatedOnly => false,
        };
        assert(share@.acl.users.len() == share.acl.users@.len());
        if public && share.acl.users.len() > 0 {
            return Err(ConfigError::PublicMixedWithUsers(share.name));
        }
        let mut i: usize = 0;
        while i < share.acl.users.len()
            invariant
                i <= share.acl.users@.len(),
                unknown_user(self@.users, share@.acl.users, 0) == unknown_user(
                    self@.users,
                    share@.acl.users,
                    i as int,
                ),
                *self == *old(self),
                share_name_error(share@.name) is None,
                !(is_public(share@.acl.mode) && share@.acl.users.len() > 0),
            decreases share.acl.users@.len() - i,
        {
            let u: &ShareUser = &share.acl.users[i];
            assert(share@.acl.users[i as int] == u@);
            if self.users.index_of(u.name.as_str()).is_none() {
                return Err(ConfigError::UnknownUser(u.name.clone()));
            }
            i += 1;
        }
        self.shares.insert(share)
    }

    /// Takes a share away, and from every connection.
    pub fn remove_share(&mut self, name: &str) -> (r: Result<(), ConfigError>)
        ensures
            ({
                let m = old(self)@;
                let i = share_at(m.shares, name@);
                says(
                    r,
                    first_error(
                        share_name_error(name@),
                        if i < m.shares.len() {
                            None
                        } else {
                            Some(ConfigErrorModel::UnknownShare(name@))
                        },
                    ),
                ) && final(self)@ == if r is Ok {
                    all_told(
                        StateModel { shares: m.shares.remove(i), ..m },
                        close_share(name@),
                    )
                } else {
                    m
                }
            }),
    {
        match validate_share_name(name) {
            Err(e) => {
                return Err(e);
            },
            Ok(_) => {},
        }
        match self.shares.remove(name) {
            None => Err(ConfigError::UnknownShare(string_of_str(name))),
            Some(_) => {
                self.tell_close_share(name);
                Ok(())
            },
        }
    }

    /// Lets a user use a share.
    pub fn grant_share_user(&mut self, share_name: &str, user: &str, access: Access) -> (r: Result<
        (),
        ConfigError,
    >)
        ensures
            ({
                let m = old(self)@;
                let s = share_of(m.shares, share_name@)->0;
                says(r, grant_error(m, share_name@, user@)) && final(self)@ == if r is Ok {
                    share_changed(
                        m,
                        share_name@,
                        share_with_users(
                            s,
                            with_user(s.acl.users, ShareUserModel { name: user@, access }),
                        ),
                    )
                } else {
                    m
                }
            }),
    {
        match validate_user_name(user) {
            Err(e) => {
                return Err(e);
            },
            Ok(_) => {},
        }
        match validate_share_name(share_name) {
            Err(e) => {
                return Err(e);
            },
            Ok(_) => {},
        }
        if self.users.index_of(user).is_none() {
            return Err(ConfigError::UnknownUser(string_of_str(user)));
        }
        match self.shares.index_of(share_name) {
            None => Err(ConfigError::UnknownShare(string_of_str(share_name))),
            Some(i) => {
                let ghost before = self@.shares;
                assert(before[i as int] == self.shares.list@[i as int]@);
                match self.shares.list[i].acl.mode {
                    ShareMode::Public | ShareMode::PublicReadOnly => {
                        return Err(
                            ConfigError::PublicMixedWithUsers(self.shares.list[i].name.clone()),
                        );
                    },
                    ShareMode::AuthenticatedOnly => {},
                }
                self.shares.list[i].acl.grant(user, access);
                assert(self@.shares =~= before.update(
                    i as int,
                    share_with_users(
                        before[i as int],
                        with_user(
                            before[i as int].acl.users,
                            ShareUserModel { name: user@, access },
                        ),
                    ),
                ));
                Ok(())
            },
        }
    }

    /// Denies a user a share.
    pub fn revoke_share_user(&mut self, share_name: &str, user: &str) -> (r: Result<
        (),
        ConfigError,
    >)
        ensures
            ({
                let m = old(self)@;
                let s = share_of(m.shares, share_name@)->0;
                says(r, revoke_error(m, share_name@, user@)) && final(self)@ == if r is Ok {
                    all_told(
                        share_changed(
                            m,
                            share_name@,
                            share_with_users(s, without_user(s.acl.users, user@)),
                        ),
                        close_user_share(user@, share_name@),
                    )
                } else {
                    m
                }
            }),
    {
        match validate_user_name(user) {
            Err(e) => {
                return Err(e);
            },
            Ok(_) => {},
        }
        match validate_share_name(share_name) {
            Err(e) => {
                return Err(e);
            },
            Ok(_) => {},
        }
        match self.shares.index_of(share_name) {
            None => Err(ConfigError::UnknownShare(string_of_str(share_name))),
            Some(i) => {
                let ghost before = self@.shares;
                assert(before[i as int] == self.shares.list@[i as int]@);
                self.shares.list[i].acl.revoke(user);
                assert(self@.shares =~= before.update(
                    i as int,
                    share_with_users(
                        before[i as int],
                        without_user(before[i as int].acl.users, user@),
                    ),
                ));
                self.tell_close_user_share(user, share_name);
                Ok(())
            },
        }
    }

    /// Changes who may use a share; those that are connected to it are cut off.
    pub fn set_share_mode(&mut self, share_name: &str, mode: ShareMode) -> (r: Result<
        (),
        ConfigError,
    >)
        ensures
            ({
                let m = old(self)@;
                let s = share_of(m.shares, share_name@)->0;
                says(r, mode_error(m, share_name@, mode)) && final(self)@ == if r is Ok
                    && s.acl.mode != mode {
                    all_told(
                        share_changed(
                            m,
                            share_name@,
                            ShareModel { acl: AclModel { mode, ..s.acl }, ..s },
                        ),
                        close_share(share_name@),
                    )
                } else {
                    m
                }
            }),
    {
        match validate_share_name(share_name) {
            Err(e) => {
                return Err(e);
            },
            Ok(_) => {},
        }
        let public: bool = match mode {
            ShareMode::Public | ShareMode::PublicReadOnly => true,
            ShareMode::AuthenticatedOnly => false,
        };
        match self.shares.index_of(share_name) {
            None => Err(ConfigError::UnknownShare(string_of_str(share_name))),
            Some(i) => {
                let ghost before = self@.shares;
                assert(before[i as int] == self.shares.list@[i as int]@);
                assert(before[i as int].acl.users.len()
                    == self.shares.list@[i as int].acl.users@.len());
                if public && self.shares.list[i].acl.users.len() > 0 {
                    return Err(
                        ConfigError::PublicMixedWithUsers(self.shares.list[i].name.clone()),
                    );
                }
                if self.shares.list[i].acl.mode == mode {
                    return Ok(());
                }
                self.shares.list[i].acl.mode = mode;
                assert(self@.shares =~= before.update(
                    i as int,
                    ShareModel {
                        acl: AclModel { mode, ..before[i as int].acl },
                        ..before[i as int]
                    },
                ));
                self.tell_close_share(share_name);
                Ok(())
            },
        }
    }

    /// The share with a name, in any case.
    pub fn find_share(&self, name: &str) -> (r: Option<&ShareBindings>)
        ensures
            match r {
                None => share_of(self@.shares, name@) is None,
                Some(s) => share_of(self@.shares, name@) == Some(s@),
            },
    {
        self.shares.find(name)
    }

    /// What a user logs on with.
    pub fn lookup_user(&self, name: &str) -> (r: Option<UserCreds>)
        ensures
            r == (if user_known(self@.users, name@) {
                Some(self@.users[lists::first(self@.users, user_is(name@))].creds)
            } else {
                None
            }),
    {
        match self.users.index_of(name) {
            None => None,
            Some(i) => {
                assert(self@.users[i as int] == self.users.table@[i as int]@);
                Some(self.users.table[i].creds)
            },
        }
    }

    /// Whether anonymous logon is permitted: some share is for anybody.
    pub fn anonymous_allowed(&self) -> (r: bool)
        ensures
            r == (exists|i: int|
                0 <= i < self@.shares.len() && is_public((#[trigger] self@.shares[i]).acl.mode)),
    {
        let mut i: usize = 0;
        while i < self.shares.list.len()
            invariant
                i <= self.shares.list@.len(),
                forall|j: int| 0 <= j < i ==> !is_public((#[trigger] self@.shares[j]).acl.mode),
            decreases self.shares.list@.len() - i,
        {
            assert(self@.shares[i as int] == self.shares.list@[i as int]@);
            match self.shares.list[i].acl.mode {
                ShareMode::Public | ShareMode::PublicReadOnly => {
                    return true;
                },
                ShareMode::AuthenticatedOnly => {},
            }
            i += 1;
        }
        false
    }
}

} // verus!
