//! Authentication: registration, login and token-based relogin.
//!
//! Every operation runs inside the caller's exclusive-write window on the
//! store.  Each one purges expired tokens and, on success, mints a fresh
//! bearer token valid for seven days.  Roles are read live from the store,
//! never cached in the token, so a role change takes effect on the next
//! relogin.
//!
//! The full behaviour of each operation is captured by an `..._outcome`
//! predicate relating the store before and after, the response and the
//! emitted events; the laws about sequences of operations are proved from
//! those predicates alone.

use vstd::prelude::*;

use crate::crypto;
use crate::messages::{
    Authentication, AuthenticationCommand, AuthenticationResponse, Response, Update, UpdateView,
    directory, directory_of, events_of,
};
use crate::storage::{
    AttendanceMode, Role, Storage, StorageView, TokenData, TokenView, has_token, id_present,
    max_user_id, storage_wf, team_known, token_data, user_by_id, user_by_name, user_present,
    users_wf, clone_roles,
};

verus! {

/// How long a freshly minted token stays valid, in seconds: seven days.
pub const TOKEN_LIFETIME_SECONDS: u64 = 60 * 60 * 24 * 7;

/// The token collection after an operation that first purges every expired
/// entry and then mints one fresh token for `user_id`, expiring a lifetime
/// after `now`.
pub open spec fn tokens_purged_and_minted(
    pre: Seq<TokenView>,
    post: Seq<TokenView>,
    minted: Seq<char>,
    user_id: u64,
    now: u64,
) -> bool {
    &&& has_token(post, minted)
    &&& token_data(post, minted) == (TokenData {
        user_id,
        expires_at: (now + TOKEN_LIFETIME_SECONDS) as u64,
    })
    &&& forall|t: Seq<char>|
        t != minted ==> ((#[trigger] has_token(post, t)) <==> (has_token(pre, t) && token_data(
            pre,
            t,
        ).expires_at >= now))
    &&& forall|t: Seq<char>|
        t != minted && has_token(post, t) ==> (#[trigger] token_data(post, t)) == token_data(
            pre,
            t,
        )
}

/// Everything `register` promises: the store before and after, the response
/// and the broadcast events.
pub open spec fn register_outcome(
    pre: StorageView,
    name: Seq<char>,
    team: Seq<char>,
    attendance_mode: AttendanceMode,
    password: Seq<char>,
    now: u64,
    post: StorageView,
    response: Response,
    events: Seq<UpdateView>,
) -> bool {
    if !team_known(pre.teams, team) {
        &&& response is UnknownTeam
        &&& post == pre
        &&& events.len() == 0
    } else if user_present(pre.users, name, team) {
        &&& response is AlreadyRegistered
        &&& post == pre
        &&& events.len() == 0
    } else {
        let new_id = (max_user_id(pre.users) + 1) as u64;
        &&& response matches Response::Success { session } && {
            &&& session.user_id == new_id
            &&& session.roles@ == Seq::<Role>::empty()
            &&& tokens_purged_and_minted(pre.tokens, post.tokens, session.token@, new_id, now)
        }
        &&& post.users.len() == pre.users.len() + 1
        &&& post.users.drop_last() == pre.users
        &&& ({
            let u = post.users.last();
            &&& u.id == new_id
            &&& u.name == name
            &&& u.team == team
            &&& u.attendance_mode == attendance_mode
            &&& crypto::password_matches(u.hash, password)
            &&& u.roles == Seq::<Role>::empty()
        })
        &&& post.teams == pre.teams
        &&& post.talks == pre.talks
        &&& events.len() == 1
        &&& events[0] matches UpdateView::Users { users } && users == directory_of(post.users)
    }
}

/// Everything `login` promises.
pub open spec fn login_outcome(
    pre: StorageView,
    name: Seq<char>,
    team: Seq<char>,
    password: Seq<char>,
    now: u64,
    post: StorageView,
    response: Response,
    events: Seq<UpdateView>,
) -> bool {
    &&& events.len() == 0
    &&& if !team_known(pre.teams, team) {
        &&& response is UnknownTeam
        &&& post == pre
    } else if !user_present(pre.users, name, team) {
        &&& response is UnknownUser
        &&& post == pre
    } else if !crypto::password_matches(user_by_name(pre.users, name, team).hash, password) {
        &&& response is WrongPassword
        &&& post == pre
    } else {
        let u = user_by_name(pre.users, name, team);
        &&& response matches Response::Success { session } && {
            &&& session.user_id == u.id
            &&& session.roles@ == u.roles
            &&& tokens_purged_and_minted(pre.tokens, post.tokens, session.token@, u.id, now)
        }
        &&& post.users == pre.users
        &&& post.teams == pre.teams
        &&& post.talks == pre.talks
    }
}

/// Everything `relogin` promises.  Expired tokens are purged whatever the
/// outcome: every relogin is also a garbage-collection tick.
pub open spec fn relogin_outcome(
    pre: StorageView,
    token: Seq<char>,
    now: u64,
    post: StorageView,
    response: Response,
    events: Seq<UpdateView>,
) -> bool {
    &&& events.len() == 0
    &&& post.users == pre.users
    &&& post.teams == pre.teams
    &&& post.talks == pre.talks
    &&& forall|t: Seq<char>|
        #[trigger] has_token(post.tokens, t) <==> (has_token(pre.tokens, t) && token_data(
            pre.tokens,
            t,
        ).expires_at >= now)
    &&& forall|t: Seq<char>|
        has_token(post.tokens, t) ==> (#[trigger] token_data(post.tokens, t)) == token_data(
            pre.tokens,
            t,
        )
    &&& if !has_token(pre.tokens, token) || token_data(pre.tokens, token).expires_at < now {
        response is UnknownToken
    } else if !id_present(pre.users, token_data(pre.tokens, token).user_id) {
        response is UnknownUserFromToken
    } else {
        let data = token_data(pre.tokens, token);
        response matches Response::Success { session } && {
            &&& session.user_id == data.user_id
            &&& session.roles@ == user_by_id(pre.users, data.user_id).roles
            &&& session.token@ == token
        }
    }
}

/// The attendance mode a registration defaults to when the client names
/// none.
pub open spec fn mode_or_default(mode: Option<AttendanceMode>) -> AttendanceMode {
    match mode {
        Some(m) => m,
        None => AttendanceMode::OnSite,
    }
}

impl Storage {
    /// Register a new user: reject an unknown team or a taken (name, team)
    /// pair; otherwise insert the user, broadcast the new user directory,
    /// and mint a session token.
    pub fn register(
        &mut self,
        name: String,
        team: String,
        attendance_mode: AttendanceMode,
        password: String,
        now: u64,
    ) -> (r: (Response, Vec<Update>))
        requires
            storage_wf(old(self)@),
            password@.len() < 0x4000_0000,
            max_user_id(old(self)@.users) < u64::MAX,
            now <= u64::MAX - TOKEN_LIFETIME_SECONDS,
        ensures
            storage_wf(final(self)@),
            register_outcome(
                old(self)@,
                name@,
                team@,
                attendance_mode,
                password@,
                now,
                final(self)@,
                r.0,
                events_of(r.1@),
            ),
    {
        if !self.contains_team(&team) {
            return (Response::UnknownTeam, Vec::new());
        }
        if self.find_user(&name, &team).is_some() {
            return (Response::AlreadyRegistered, Vec::new());
        }
        let new_user_id = self.add_user(name, team, attendance_mode, password);
        let mut events: Vec<Update> = Vec::new();
        events.push(Update::Users { users: directory(&self.users) });
        let token = crypto::generate_token();
        let session_token = token.clone();
        self.tokens.remove_expired(now);
        self.tokens.insert(token, new_user_id, now + TOKEN_LIFETIME_SECONDS);
        let session = Authentication {
            user_id: new_user_id,
            roles: Vec::new(),
            token: session_token,
        };
        proof {
            assert(events_of(events@).len() == 1);
        }
        (Response::Success { session }, events)
    }

    /// Log an existing user in: reject an unknown team, an unknown user or
    /// a wrong password; otherwise mint a session token and return the
    /// user's current roles.  No event is broadcast: the directory did not
    /// change.
    pub fn login(&mut self, name: String, team: String, password: String, now: u64) -> (r: (
        Response,
        Vec<Update>,
    ))
        requires
            storage_wf(old(self)@),
            now <= u64::MAX - TOKEN_LIFETIME_SECONDS,
        ensures
            storage_wf(final(self)@),
            login_outcome(
                old(self)@,
                name@,
                team@,
                password@,
                now,
                final(self)@,
                r.0,
                events_of(r.1@),
            ),
    {
        if !self.contains_team(&team) {
            return (Response::UnknownTeam, Vec::new());
        }
        let index = match self.find_user(&name, &team) {
            Some(i) => i,
            None => {
                return (Response::UnknownUser, Vec::new());
            },
        };
        if !self.users[index].verify(password) {
            return (Response::WrongPassword, Vec::new());
        }
        let user_id = self.users[index].id;
        let roles = clone_roles(&self.users[index].roles);
        let token = crypto::generate_token();
        let session_token = token.clone();
        self.tokens.remove_expired(now);
        self.tokens.insert(token, user_id, now + TOKEN_LIFETIME_SECONDS);
        let session = Authentication { user_id, roles, token: session_token };
        (Response::Success { session }, Vec::new())
    }

    /// Resume a session from a bearer token: purge expired tokens, resolve
    /// the token to its user and return the user's current roles.
    pub fn relogin(&mut self, token: String, now: u64) -> (r: (Response, Vec<Update>))
        requires
            storage_wf(old(self)@),
        ensures
            storage_wf(final(self)@),
            relogin_outcome(old(self)@, token@, now, final(self)@, r.0, events_of(r.1@)),
    {
        self.tokens.remove_expired(now);
        let data = match self.tokens.get(&token) {
            Some(d) => d,
            None => {
                return (Response::UnknownToken, Vec::new());
            },
        };
        let index = match self.user_position(data.user_id) {
            Some(i) => i,
            None => {
                return (Response::UnknownUserFromToken, Vec::new());
            },
        };
        let roles = clone_roles(&self.users[index].roles);
        let session = Authentication { user_id: data.user_id, roles, token };
        (Response::Success { session }, Vec::new())
    }

    /// Run one credential command: the single entry point of the
    /// authentication phase of a connection.
    pub fn authenticate(&mut self, command: AuthenticationCommand, now: u64) -> (r: (
        Response,
        Vec<Update>,
    ))
        requires
            storage_wf(old(self)@),
            now <= u64::MAX - TOKEN_LIFETIME_SECONDS,
            command matches AuthenticationCommand::Register { .. } ==> max_user_id(
                old(self)@.users,
            ) < u64::MAX,
            (command matches AuthenticationCommand::Register { password, .. } ==> password@.len()
                < 0x4000_0000),
        ensures
            storage_wf(final(self)@),
            match command {
                AuthenticationCommand::Register {
                    name,
                    team,
                    attendance_mode,
                    password,
                } => register_outcome(
                    old(self)@,
                    name@,
                    team@,
                    mode_or_default(attendance_mode),
                    password@,
                    now,
                    final(self)@,
                    r.0,
                    events_of(r.1@),
                ),
                AuthenticationCommand::Login { name, team, password } => login_outcome(
                    old(self)@,
                    name@,
                    team@,
                    password@,
                    now,
                    final(self)@,
                    r.0,
                    events_of(r.1@),
                ),
                AuthenticationCommand::Relogin { token } => relogin_outcome(
                    old(self)@,
                    token@,
                    now,
                    final(self)@,
                    r.0,
                    events_of(r.1@),
                ),
            },
    {
        match command {
            AuthenticationCommand::Register { name, team, attendance_mode, password } => {
                let mode = match attendance_mode {
                    Some(m) => m,
                    None => AttendanceMode::OnSite,
                };
                self.register(name, team, mode, password, now)
            },
            AuthenticationCommand::Login { name, team, password } => self.login(
                name,
                team,
                password,
                now,
            ),
            AuthenticationCommand::Relogin { token } => self.relogin(token, now),
        }
    }
}

impl Response {
    /// The wire-level reply for this outcome, with the canonical reason
    /// strings for rejections.
    pub fn to_reply(&self) -> (r: AuthenticationResponse)
        ensures
            match self {
                Response::Success { session } => r
                    matches AuthenticationResponse::AuthenticationSuccess {
                    user_id,
                    roles,
                    token,
                } && user_id == session.user_id && roles@ == session.roles@ && token@
                    == session.token@,
                Response::UnknownTeam => r
                    matches AuthenticationResponse::AuthenticationError { reason } && reason@
                    == "unknown team"@,
                Response::AlreadyRegistered => r
                    matches AuthenticationResponse::AuthenticationError { reason } && reason@
                    == "already registered"@,
                Response::WrongPassword => r
                    matches AuthenticationResponse::AuthenticationError { reason } && reason@
                    == "wrong password"@,
                Response::UnknownUser => r
                    matches AuthenticationResponse::AuthenticationError { reason } && reason@
                    == "unknown user"@,
                Response::UnknownToken => r
                    matches AuthenticationResponse::AuthenticationError { reason } && reason@
                    == "unknown token"@,
                Response::UnknownUserFromToken => r
                    matches AuthenticationResponse::AuthenticationError { reason } && reason@
                    == "unknown user from token"@,
            },
    {
        match self {
            Response::Success { session } => AuthenticationResponse::AuthenticationSuccess {
                user_id: session.user_id,
                roles: clone_roles(&session.roles),
                token: session.token.clone(),
            },
            Response::UnknownTeam => AuthenticationResponse::AuthenticationError {
                reason: String::from_str("unknown team"),
            },
            Response::AlreadyRegistered => AuthenticationResponse::AuthenticationError {
                reason: String::from_str("already registered"),
            },
            Response::WrongPassword => AuthenticationResponse::AuthenticationError {
                reason: String::from_str("wrong password"),
            },
            Response::UnknownUser => AuthenticationResponse::AuthenticationError {
                reason: String::from_str("unknown user"),
            },
            Response::UnknownToken => AuthenticationResponse::AuthenticationError {
                reason: String::from_str("unknown token"),
            },
            Response::UnknownUserFromToken => AuthenticationResponse::AuthenticationError {
                reason: String::from_str("unknown user from token"),
            },
        }
    }
}

/// Law: a registration with a known team and a free (name, team) pair
/// succeeds, and a login with the same credentials against the resulting
/// store succeeds as well.
pub proof fn lemma_register_then_login(
    pre: StorageView,
    mid: StorageView,
    post: StorageView,
    name: Seq<char>,
    team: Seq<char>,
    attendance_mode: AttendanceMode,
    password: Seq<char>,
    now1: u64,
    now2: u64,
    r1: Response,
    e1: Seq<UpdateView>,
    r2: Response,
    e2: Seq<UpdateView>,
)
    requires
        storage_wf(pre),
        users_wf(mid.users),
        team_known(pre.teams, team),
        !user_present(pre.users, name, team),
        register_outcome(pre, name, team, attendance_mode, password, now1, mid, r1, e1),
        login_outcome(mid, name, team, password, now2, post, r2, e2),
    ensures
        r1 is Success,
        r2 is Success,
{
    let m = mid.users.len() - 1;
    let u = mid.users.last();
    assert(mid.users[m].name == name && mid.users[m].team == team);
    assert(user_present(mid.users, name, team));
    assert(team_known(mid.teams, team));
    let k = crate::storage::user_index_of(mid.users, name, team);
    assert(0 <= k < mid.users.len() && mid.users[k].name == name && mid.users[k].team == team);
    if k != m {
        assert(false);
    }
    assert(user_by_name(mid.users, name, team) == u);
    assert(crypto::password_matches(u.hash, password));
}

/// Law: of two registrations with the same (name, team) pair, serialized
/// by the store's single writer lock, exactly one succeeds; the second
/// fails with `AlreadyRegistered` and changes nothing.
pub proof fn lemma_register_exclusive(
    pre: StorageView,
    mid: StorageView,
    post: StorageView,
    name: Seq<char>,
    team: Seq<char>,
    mode1: AttendanceMode,
    mode2: AttendanceMode,
    password1: Seq<char>,
    password2: Seq<char>,
    now1: u64,
    now2: u64,
    r1: Response,
    e1: Seq<UpdateView>,
    r2: Response,
    e2: Seq<UpdateView>,
)
    requires
        storage_wf(pre),
        team_known(pre.teams, team),
        !user_present(pre.users, name, team),
        register_outcome(pre, name, team, mode1, password1, now1, mid, r1, e1),
        register_outcome(mid, name, team, mode2, password2, now2, post, r2, e2),
    ensures
        r1 is Success,
        r2 is AlreadyRegistered,
        post == mid,
        e2.len() == 0,
{
    let m = mid.users.len() - 1;
    assert(mid.users[m].name == name && mid.users[m].team == team);
    assert(user_present(mid.users, name, team));
    assert(team_known(mid.teams, team));
}

} // verus!
