//! Which changes to users and shares are accepted, and what they change.

use crate::server::connections;
use crate::server::lists;
use crate::server::shares;
use crate::server::shares::{
    AclModel, ConfigErrorModel, ShareMode, ShareModel, ShareUserModel, UserModel,
};
use crate::server::state::StateModel;
use crate::server::types::{ActionModel, ConnectionModel};
use crate::text;
use vstd::prelude::*;

verus! {

/// Whether there is a user with exactly that name.
pub open spec fn has_user(users: Seq<UserModel>, name: Seq<char>) -> bool {
    exists|i: int| 0 <= i < users.len() && (#[trigger] users[i]).name == name
}

/// Whether there is a share with that name, but for case.
pub open spec fn has_share(list: Seq<ShareModel>, name: Seq<char>) -> bool {
    exists|i: int|
        0 <= i < list.len() && text::lowered((#[trigger] list[i]).name) == text::lowered(name)
}

/// The name of the share of named pipes, in lower case.
pub open spec fn ipc_name() -> Seq<char> {
    seq!['i', 'p', 'c', '$']
}

/// The name of nobody, in lower case.
pub open spec fn anonymous_name() -> Seq<char> {
    seq!['a', 'n', 'o', 'n', 'y', 'm', 'o', 'u', 's']
}

proof fn lemma_known(users: Seq<UserModel>, name: Seq<char>)
    ensures
        shares::user_known(users, name) == has_user(users, name),
{
    let test = shares::user_is(name);
    lists::first_is_first(users, test);
    let n = lists::first(users, test);
    if n < users.len() {
        assert(users[n].name == name);
    } else {
        assert forall|i: int| 0 <= i < users.len() implies (#[trigger] users[i]).name != name by {
            assert(!test(users[i]));
        }
    }
}

proof fn lemma_share(list: Seq<ShareModel>, name: Seq<char>)
    ensures
        shares::share_of(list, name) is Some == has_share(list, name),
        shares::share_of(list, name) matches Some(s) ==> text::lowered(s.name) == text::lowered(
            name,
        ) && 0 <= shares::share_at(list, name) < list.len() && list[shares::share_at(list, name)]
            == s,
{
    let test = shares::share_is(name);
    lists::first_is_first(list, test);
    let n = lists::first(list, test);
    if n < list.len() {
        assert(text::lowered(list[n].name) == text::lowered(name));
    } else {
        assert forall|i: int| 0 <= i < list.len() implies text::lowered((#[trigger] list[i]).name)
            != text::lowered(name) by {
            assert(!test(list[i]));
        }
    }
}

proof fn lemma_reserved()
    ensures
        text::lowered("IPC$"@) == ipc_name(),
        text::lowered("anonymous"@) == anonymous_name(),
{
    reveal_strlit("IPC$");
    reveal_strlit("anonymous");
    assert(text::lowered("IPC$"@) =~= ipc_name());
    assert(text::lowered("anonymous"@) =~= anonymous_name());
}

/// A user has a name, and none that is reserved for nobody; a share has none that is reserved for
/// named pipes; both in any case.
pub proof fn names_are_judged(name: Seq<char>)
    ensures
        shares::user_name_error(name) is None <==> name.len() > 0 && text::lowered(name)
            != anonymous_name(),
        name.len() == 0 ==> shares::user_name_error(name) == Some(ConfigErrorModel::EmptyUserName),
        name.len() > 0 && text::lowered(name) == anonymous_name() ==> shares::user_name_error(name)
            == Some(ConfigErrorModel::ReservedUserName(name)),
        shares::share_name_error(name) is None <==> text::lowered(name) != ipc_name(),
        text::lowered(name) == ipc_name() ==> shares::share_name_error(name) == Some(
            ConfigErrorModel::ReservedShareName(name),
        ),
{
    lemma_reserved();
}

proof fn lemma_unknown(users: Seq<UserModel>, list: Seq<ShareUserModel>, n: int)
    requires
        0 <= n <= list.len(),
    ensures
        shares::unknown_user(users, list, n) is None <==> forall|i: int|
            n <= i < list.len() ==> has_user(users, (#[trigger] list[i]).name),
        shares::unknown_user(users, list, n) matches Some(e) ==> exists|i: int|
            n <= i < list.len() && !has_user(users, (#[trigger] list[i]).name) && e
                == ConfigErrorModel::UnknownUser(list[i].name),
    decreases list.len() - n,
{
    if n < list.len() {
        lemma_known(users, list[n].name);
        lemma_unknown(users, list, n + 1);
        if has_user(users, list[n].name) {
            if shares::unknown_user(users, list, n) is Some {
                let i = choose|i: int|
                    n + 1 <= i < list.len() && !has_user(users, (#[trigger] list[i]).name)
                        && shares::unknown_user(users, list, n)->0
                        == ConfigErrorModel::UnknownUser(list[i].name);
                assert(!has_user(users, list[i].name));
            }
        } else {
            assert(!has_user(users, list[n].name));
        }
    }
}

/// A share can be added where its name is not reserved and not taken, its users exist, and it
/// names none where anybody may use it; otherwise the first of these that fails is told.
pub proof fn shares_are_added_where_they_fit(m: StateModel, s: ShareModel)
    ensures
        ({
            let public = s.acl.mode is Public || s.acl.mode is PublicReadOnly;
            let error = shares::add_share_error(m, s);
            &&& error is None <==> {
                &&& text::lowered(s.name) != ipc_name()
                &&& !(public && s.acl.users.len() > 0)
                &&& forall|i: int|
                    0 <= i < s.acl.users.len() ==> has_user(m.users, (#[trigger] s.acl.users[i]).name)
                &&& !has_share(m.shares, s.name)
            }
            &&& text::lowered(s.name) == ipc_name() ==> error == Some(
                ConfigErrorModel::ReservedShareName(s.name),
            )
            &&& text::lowered(s.name) != ipc_name() && public && s.acl.users.len() > 0 ==> error
                == Some(ConfigErrorModel::PublicMixedWithUsers(s.name))
            &&& text::lowered(s.name) != ipc_name() && s.acl.users.len() == 0 && has_share(
                m.shares,
                s.name,
            ) ==> error == Some(ConfigErrorModel::DuplicateShare(s.name))
        }),
{
    names_are_judged(s.name);
    lemma_unknown(m.users, s.acl.users, 0);
    lemma_share(m.shares, s.name);
}

/// A user can be granted a share where both exist, neither name is reserved, and the share is
/// not for anybody; otherwise the first of these that fails is told.
pub proof fn shares_are_granted_to_known_users(m: StateModel, share: Seq<char>, user: Seq<char>)
    requires
        user.len() > 0,
        text::lowered(user) != anonymous_name(),
        text::lowered(share) != ipc_name(),
    ensures
        ({
            let error = shares::grant_error(m, share, user);
            &&& !has_user(m.users, user) ==> error == Some(ConfigErrorModel::UnknownUser(user))
            &&& has_user(m.users, user) && !has_share(m.shares, share) ==> error == Some(
                ConfigErrorModel::UnknownShare(share),
            )
            &&& has_user(m.users, user) ==> (shares::share_of(m.shares, share) matches Some(s)
                ==> (error is None <==> s.acl.mode is AuthenticatedOnly))
        }),
        ({
            let error = shares::revoke_error(m, share, user);
            &&& has_share(m.shares, share) ==> error is None
            &&& !has_share(m.shares, share) ==> error == Some(ConfigErrorModel::UnknownShare(share))
        }),
{
    names_are_judged(user);
    names_are_judged(share);
    lemma_known(m.users, user);
    lemma_share(m.shares, share);
}

/// Changes by or for a reserved or empty name are refused before anything else is looked at.
pub proof fn reserved_names_are_refused_first(m: StateModel, share: Seq<char>, user: Seq<char>)
    ensures
        user.len() == 0 ==> shares::grant_error(m, share, user) == Some(
            ConfigErrorModel::EmptyUserName,
        ) && shares::revoke_error(m, share, user) == Some(ConfigErrorModel::EmptyUserName),
        user.len() > 0 && text::lowered(user) != anonymous_name() && text::lowered(share)
            == ipc_name() ==> shares::grant_error(m, share, user) == Some(
            ConfigErrorModel::ReservedShareName(share),
        ) && shares::revoke_error(m, share, user) == Some(
            ConfigErrorModel::ReservedShareName(share),
        ),
{
    names_are_judged(user);
    names_are_judged(share);
}

/// A share can be given a mode where it exists; one that names users cannot be for anybody.
pub proof fn modes_are_changed_where_they_fit(
    m: StateModel,
    share: Seq<char>,
    mode: ShareMode,
)
    requires
        text::lowered(share) != ipc_name(),
    ensures
        ({
            let error = shares::mode_error(m, share, mode);
            &&& !has_share(m.shares, share) ==> error == Some(ConfigErrorModel::UnknownShare(share))
            &&& shares::share_of(m.shares, share) matches Some(s) ==> {
                &&& s.acl.users.len() == 0 || mode is AuthenticatedOnly ==> error is None
                &&& s.acl.users.len() > 0 && mode !is AuthenticatedOnly ==> error == Some(
                    ConfigErrorModel::PublicMixedWithUsers(s.name),
                )
            }
        }),
{
    names_are_judged(share);
    lemma_share(m.shares, share);
}

/// A user of a share is put in the place of one with the same name, or behind the others; taking
/// one away takes the one with the name and no other.
pub proof fn share_users_are_known_by_name(users: Seq<ShareUserModel>, u: ShareUserModel, i: int)
    requires
        0 <= i < users.len(),
        users[i].name == u.name,
        forall|k: int| 0 <= k < i ==> (#[trigger] users[k]).name != u.name,
    ensures
        shares::with_user(users, u) == users.update(i, u),
        shares::without_user(users, u.name) == users.remove(i),
{
    lists::first_at(users, shares::share_user_is(u.name), i);
}

/// A new user of a share comes last; taking away one that is not there changes nothing.
pub proof fn new_share_users_come_last(users: Seq<ShareUserModel>, u: ShareUserModel)
    requires
        forall|k: int| 0 <= k < users.len() ==> (#[trigger] users[k]).name != u.name,
    ensures
        shares::with_user(users, u) == users.push(u),
        shares::without_user(users, u.name) == users,
{
    lists::first_at(users, shares::share_user_is(u.name), users.len() as int);
}

/// A user that is added takes the place of one with the same name, or comes last.
pub proof fn users_are_known_by_name(users: Seq<UserModel>, u: UserModel, i: int)
    requires
        0 <= i < users.len(),
        users[i].name == u.name,
        forall|k: int| 0 <= k < i ==> (#[trigger] users[k]).name != u.name,
    ensures
        shares::user_put(users, u) == users.update(i, u),
{
    lists::first_at(users, shares::user_is(u.name), i);
}

/// Granting, revoking and changing a mode change that share alone, and of it nothing but its
/// users or its mode.
pub proof fn one_share_is_changed(
    m: StateModel,
    name: Seq<char>,
    users: Seq<ShareUserModel>,
    mode: ShareMode,
    k: int,
)
    requires
        has_share(m.shares, name),
        0 <= k < m.shares.len(),
    ensures
        ({
            let s = shares::share_of(m.shares, name)->0;
            let at = shares::share_at(m.shares, name);
            let granted = shares::share_changed(m, name, shares::share_with_users(s, users));
            &&& granted.shares.len() == m.shares.len()
            &&& granted.shares[at].acl.users == users && granted.shares[at].name == s.name
                && granted.shares[at].acl.mode == s.acl.mode && granted.shares[at].is_ipc
                == s.is_ipc
            &&& k != at ==> granted.shares[k] == m.shares[k]
            &&& granted.users == m.users && granted.opens == m.opens
        }),
{
    lemma_share(m.shares, name);
}

/// Every active connection is told once for each of its numbers, in order, and no other; who is
/// told to close sessions or tree connects is told of which user and share.
pub proof fn active_connections_are_told(
    conns: Seq<ConnectionModel>,
    user: Seq<char>,
    share: Seq<char>,
    i: int,
)
    requires
        0 <= i < connections::live_of(conns).len(),
    ensures
        shares::to_all(conns, shares::close_user(user)).len() == connections::live_of(conns).len(),
        shares::to_all(conns, shares::close_user(user))[i] == (ActionModel::CloseUserSessions {
            conn: connections::live_of(conns)[i].key,
            user,
        }),
        shares::to_all(conns, shares::close_share(share))[i] == (ActionModel::CloseShareTrees {
            conn: connections::live_of(conns)[i].key,
            share,
        }),
        shares::to_all(conns, shares::close_user_share(user, share))[i] == (
        ActionModel::CloseUserShareTrees {
            conn: connections::live_of(conns)[i].key,
            user,
            share,
        }),
{
}

/// A user that is removed is taken from every share, which else stay as they are.
pub proof fn removed_users_lose_every_share(list: Seq<ShareModel>, name: Seq<char>, i: int)
    requires
        0 <= i < list.len(),
    ensures
        shares::user_revoked(list, name).len() == list.len(),
        shares::user_revoked(list, name)[i] == (ShareModel {
            acl: AclModel {
                users: shares::without_user(list[i].acl.users, name),
                mode: list[i].acl.mode,
            },
            name: list[i].name,
            is_ipc: list[i].is_ipc,
        }),
{
}

} // verus!
