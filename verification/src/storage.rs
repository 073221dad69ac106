//! The state store: teams, users, talks and tokens, with the invariants
//! that every mutation preserves.
//!
//! Each exec type has a mathematical view; contracts are stated over the
//! views.  Well-formedness (`storage_wf`) pins the uniqueness invariants:
//! user ids and (name, team) pairs are unique, talk ids are unique, the
//! sign-up sets of a talk are duplicate-free and disjoint, and token strings
//! are unique.

use vstd::prelude::*;

use crate::crypto;

verus! {

/// Whether a user plans to attend on site or remotely.
#[derive(Clone, Copy, Debug, PartialEq, Eq, Structural)]
pub enum AttendanceMode {
    OnSite,
    Remote,
}

/// A role held by a user; each role grants a fixed capability set.
#[derive(Clone, Copy, Debug, PartialEq, Eq, Structural)]
pub enum Role {
    Editor,
    Scheduler,
}

/// A team.  Teams are reference data: provisioned at load time, never
/// created or removed by clients, and referenced by name.
#[derive(Clone, Debug)]
pub struct Team {
    pub name: String,
}

impl View for Team {
    type V = Seq<char>;

    open spec fn view(&self) -> Seq<char> {
        self.name@
    }
}

/// Mathematical value of a `User`.
#[verifier::ext_equal]
pub struct UserView {
    pub id: u64,
    pub name: Seq<char>,
    pub team: Seq<char>,
    pub attendance_mode: AttendanceMode,
    pub hash: Seq<char>,
    pub roles: Seq<Role>,
}

/// A registered user.  The password is never stored, only its digest.
#[derive(Clone, Debug)]
pub struct User {
    pub id: u64,
    pub name: String,
    pub team: String,
    pub attendance_mode: AttendanceMode,
    pub hash: String,
    pub roles: Vec<Role>,
}

impl View for User {
    type V = UserView;

    open spec fn view(&self) -> UserView {
        UserView {
            id: self.id,
            name: self.name@,
            team: self.team@,
            attendance_mode: self.attendance_mode,
            hash: self.hash@,
            roles: self.roles@,
        }
    }
}

/// Mathematical value of a `Talk`.
#[verifier::ext_equal]
pub struct TalkView {
    pub id: u64,
    pub creator: u64,
    pub title: Seq<char>,
    pub description: Seq<char>,
    pub scheduled_at: Option<u64>,
    pub duration: u64,
    pub location: Option<Seq<char>>,
    pub nerds: Seq<u64>,
    pub noobs: Seq<u64>,
}

/// A talk.  Times are seconds since the epoch, the duration is in seconds.
/// `nerds` holds the users offering to give the talk, `noobs` the users
/// asking for it; the two sets are disjoint.
#[derive(Clone, Debug)]
pub struct Talk {
    pub id: u64,
    pub creator: u64,
    pub title: String,
    pub description: String,
    pub scheduled_at: Option<u64>,
    pub duration: u64,
    pub location: Option<String>,
    pub nerds: Vec<u64>,
    pub noobs: Vec<u64>,
}

impl View for Talk {
    type V = TalkView;

    open spec fn view(&self) -> TalkView {
        TalkView {
            id: self.id,
            creator: self.creator,
            title: self.title@,
            description: self.description@,
            scheduled_at: self.scheduled_at,
            duration: self.duration,
            location: match self.location {
                Some(ref l) => Some(l@),
                None => None,
            },
            nerds: self.nerds@,
            noobs: self.noobs@,
        }
    }
}

/// Mathematical value of a stored `Token`.
#[verifier::ext_equal]
pub struct TokenView {
    pub token: Seq<char>,
    pub user_id: u64,
    pub expires_at: u64,
}

/// A bearer token entry: the opaque token string, the owning user and the
/// expiry instant in seconds since the epoch.
#[derive(Clone, Debug)]
pub struct Token {
    pub token: String,
    pub user_id: u64,
    pub expires_at: u64,
}

impl View for Token {
    type V = TokenView;

    open spec fn view(&self) -> TokenView {
        TokenView { token: self.token@, user_id: self.user_id, expires_at: self.expires_at }
    }
}

/// What a token resolves to: its owner and expiry.
#[derive(Clone, Copy, Debug, PartialEq, Eq, Structural)]
pub struct TokenData {
    pub user_id: u64,
    pub expires_at: u64,
}

/// The token collection, a map from token string to `TokenData` represented
/// as a vector with unique token strings.
#[derive(Clone, Debug)]
pub struct TokenStore {
    pub store: Vec<Token>,
}

impl View for TokenStore {
    type V = Seq<TokenView>;

    open spec fn view(&self) -> Seq<TokenView> {
        self.store@.map_values(|t: Token| t@)
    }
}

/// Mathematical value of the whole store.
#[verifier::ext_equal]
pub struct StorageView {
    pub teams: Seq<Seq<char>>,
    pub users: Seq<UserView>,
    pub talks: Seq<TalkView>,
    pub tokens: Seq<TokenView>,
}

/// The state store: one collection per aggregate.  The single source of
/// truth for a process; callers serialize mutations externally.
#[derive(Debug)]
pub struct Storage {
    pub teams: Vec<Team>,
    pub users: Vec<User>,
    pub talks: Vec<Talk>,
    pub tokens: TokenStore,
}

impl View for Storage {
    type V = StorageView;

    open spec fn view(&self) -> StorageView {
        StorageView {
            teams: self.teams@.map_values(|t: Team| t@),
            users: self.users@.map_values(|u: User| u@),
            talks: self.talks@.map_values(|t: Talk| t@),
            tokens: self.tokens@,
        }
    }
}

// ------------------------------------------------------------------
// Presence and lookup, at the spec level.
// ------------------------------------------------------------------

/// The team name is one of the known teams.
pub open spec fn team_known(teams: Seq<Seq<char>>, name: Seq<char>) -> bool {
    teams.contains(name)
}

/// Some user carries this (name, team) pair.
pub open spec fn user_present(users: Seq<UserView>, name: Seq<char>, team: Seq<char>) -> bool {
    exists|i: int| 0 <= i < users.len() && users[i].name == name && users[i].team == team
}

/// Index of the user with this (name, team) pair; meaningful when
/// `user_present` holds and `users_wf` makes the index unique.
pub open spec fn user_index_of(users: Seq<UserView>, name: Seq<char>, team: Seq<char>) -> int {
    choose|i: int| 0 <= i < users.len() && users[i].name == name && users[i].team == team
}

/// The user with this (name, team) pair.
pub open spec fn user_by_name(users: Seq<UserView>, name: Seq<char>, team: Seq<char>) -> UserView {
    users[user_index_of(users, name, team)]
}

/// Some user carries this id.
pub open spec fn id_present(users: Seq<UserView>, id: u64) -> bool {
    exists|i: int| 0 <= i < users.len() && users[i].id == id
}

/// Index of the user with this id; meaningful when `id_present` holds.
pub open spec fn user_index_by_id(users: Seq<UserView>, id: u64) -> int {
    choose|i: int| 0 <= i < users.len() && users[i].id == id
}

/// The user with this id.
pub open spec fn user_by_id(users: Seq<UserView>, id: u64) -> UserView {
    users[user_index_by_id(users, id)]
}

/// Some talk carries this id.
pub open spec fn talk_present(talks: Seq<TalkView>, id: u64) -> bool {
    exists|i: int| 0 <= i < talks.len() && talks[i].id == id
}

/// Index of the talk with this id; meaningful when `talk_present` holds.
pub open spec fn talk_index_of(talks: Seq<TalkView>, id: u64) -> int {
    choose|i: int| 0 <= i < talks.len() && talks[i].id == id
}

/// The talk with this id.
pub open spec fn talk_by_id(talks: Seq<TalkView>, id: u64) -> TalkView {
    talks[talk_index_of(talks, id)]
}

/// Some stored token has this token string.
pub open spec fn has_token(tokens: Seq<TokenView>, token: Seq<char>) -> bool {
    exists|i: int| 0 <= i < tokens.len() && tokens[i].token == token
}

/// Index of the entry with this token string; meaningful when `has_token`
/// holds and `tokens_wf` makes the index unique.
pub open spec fn token_index_of(tokens: Seq<TokenView>, token: Seq<char>) -> int {
    choose|i: int| 0 <= i < tokens.len() && tokens[i].token == token
}

/// What this token resolves to.
pub open spec fn token_data(tokens: Seq<TokenView>, token: Seq<char>) -> TokenData {
    let e = tokens[token_index_of(tokens, token)];
    TokenData { user_id: e.user_id, expires_at: e.expires_at }
}

// ------------------------------------------------------------------
// Well-formedness.
// ------------------------------------------------------------------

/// Team names are pairwise distinct.
pub open spec fn teams_wf(teams: Seq<Seq<char>>) -> bool {
    forall|i: int, j: int| 0 <= i < j < teams.len() ==> teams[i] != teams[j]
}

/// User ids and (name, team) pairs are pairwise distinct.
pub open spec fn users_wf(users: Seq<UserView>) -> bool {
    forall|i: int, j: int|
        0 <= i < j < users.len() ==> users[i].id != users[j].id && !(users[i].name
            == users[j].name && users[i].team == users[j].team)
}

/// The sign-up sets of one talk are duplicate-free and disjoint.
pub open spec fn talk_wf(talk: TalkView) -> bool {
    &&& forall|i: int, j: int| 0 <= i < j < talk.nerds.len() ==> talk.nerds[i] != talk.nerds[j]
    &&& forall|i: int, j: int| 0 <= i < j < talk.noobs.len() ==> talk.noobs[i] != talk.noobs[j]
    &&& forall|i: int| 0 <= i < talk.nerds.len() ==> !talk.noobs.contains(#[trigger] talk.nerds[i])
}

/// Talk ids are pairwise distinct and every talk is well-formed.
pub open spec fn talks_wf(talks: Seq<TalkView>) -> bool {
    &&& forall|i: int, j: int| 0 <= i < j < talks.len() ==> talks[i].id != talks[j].id
    &&& forall|i: int| 0 <= i < talks.len() ==> talk_wf(#[trigger] talks[i])
}

/// Token strings are pairwise distinct.
pub open spec fn tokens_wf(tokens: Seq<TokenView>) -> bool {
    forall|i: int, j: int| 0 <= i < j < tokens.len() ==> tokens[i].token != tokens[j].token
}

/// The store invariant that every operation preserves.
pub open spec fn storage_wf(s: StorageView) -> bool {
    &&& teams_wf(s.teams)
    &&& users_wf(s.users)
    &&& talks_wf(s.talks)
    &&& tokens_wf(s.tokens)
}

// ------------------------------------------------------------------
// Id assignment: next id = (max existing id) + 1, never reused.
// ------------------------------------------------------------------

/// Largest user id in use, or -1 when there is none.
pub open spec fn max_user_id(users: Seq<UserView>) -> int
    decreases users.len(),
{
    if users.len() == 0 {
        -1
    } else {
        let rest = max_user_id(users.drop_last());
        if users.last().id as int > rest {
            users.last().id as int
        } else {
            rest
        }
    }
}

/// Largest talk id in use, or 0 when there is none; talk ids are handed
/// out starting from 1.
pub open spec fn max_talk_id(talks: Seq<TalkView>) -> int
    decreases talks.len(),
{
    if talks.len() == 0 {
        0
    } else {
        let rest = max_talk_id(talks.drop_last());
        if talks.last().id as int > rest {
            talks.last().id as int
        } else {
            rest
        }
    }
}

/// Every id is bounded by the maximum.
pub proof fn lemma_max_user_id_bound(users: Seq<UserView>)
    ensures
        forall|i: int| 0 <= i < users.len() ==> users[i].id as int <= max_user_id(users),
    decreases users.len(),
{
    if users.len() > 0 {
        lemma_max_user_id_bound(users.drop_last());
        assert forall|i: int| 0 <= i < users.len() implies users[i].id as int <= max_user_id(
            users,
        ) by {
            if i < users.len() - 1 {
                assert(users.drop_last()[i] == users[i]);
                assert(users.drop_last()[i].id as int <= max_user_id(users.drop_last()));
            } else {
                assert(users[i] == users.last());
            }
        }
    }
}

/// Every id is bounded by the maximum.
pub proof fn lemma_max_talk_id_bound(talks: Seq<TalkView>)
    ensures
        forall|i: int| 0 <= i < talks.len() ==> talks[i].id as int <= max_talk_id(talks),
    decreases talks.len(),
{
    if talks.len() > 0 {
        lemma_max_talk_id_bound(talks.drop_last());
        assert forall|i: int| 0 <= i < talks.len() implies talks[i].id as int <= max_talk_id(
            talks,
        ) by {
            if i < talks.len() - 1 {
                assert(talks.drop_last()[i] == talks[i]);
                assert(talks.drop_last()[i].id as int <= max_talk_id(talks.drop_last()));
            } else {
                assert(talks[i] == talks.last());
            }
        }
    }
}

// ------------------------------------------------------------------
// Users.
// ------------------------------------------------------------------

/// Membership test on a role list.
pub(crate) fn roles_contain(roles: &Vec<Role>, role: Role) -> (r: bool)
    ensures
        r == roles@.contains(role),
{
    let n = roles.len();
    let mut i: usize = 0;
    while i < n
        invariant
            n == roles.len(),
            0 <= i <= n,
            forall|j: int| 0 <= j < i ==> roles@[j] != role,
        decreases n - i,
    {
        if roles[i] == role {
            return true;
        }
        i += 1;
    }
    false
}

impl User {
    /// Create a user with a fresh password digest and no roles.
    pub fn new(
        id: u64,
        name: String,
        team: String,
        attendance_mode: AttendanceMode,
        password: String,
    ) -> (r: User)
        requires
            password@.len() < 0x4000_0000,
        ensures
            r@.id == id,
            r@.name == name@,
            r@.team == team@,
            r@.attendance_mode == attendance_mode,
            crypto::password_matches(r@.hash, password@),
            r@.roles == Seq::<Role>::empty(),
    {
        let hash = crypto::hash_password(password.as_str());
        let r = User { id, name, team, attendance_mode, hash, roles: Vec::new() };
        r
    }

    /// Check a password against the stored digest.
    pub fn verify(&self, password: String) -> (r: bool)
        ensures
            r == crypto::password_matches(self@.hash, password@),
    {
        crypto::verify_password(self.hash.as_str(), password.as_str())
    }

    /// The user holds the editor role.
    pub fn is_editor(&self) -> (r: bool)
        ensures
            r == self@.roles.contains(Role::Editor),
    {
        roles_contain(&self.roles, Role::Editor)
    }

    /// The user holds the scheduler role.
    pub fn is_scheduler(&self) -> (r: bool)
        ensures
            r == self@.roles.contains(Role::Scheduler),
    {
        roles_contain(&self.roles, Role::Scheduler)
    }

    /// The user created the talk.
    pub fn is_creator(&self, talk: &Talk) -> (r: bool)
        ensures
            r == (self@.id == talk@.creator),
    {
        self.id == talk.creator
    }
}

// ------------------------------------------------------------------
// Copying helpers.  Derived `Clone` impls carry no specification, so the
// copies that contracts depend on are built field by field.
// ------------------------------------------------------------------

/// Copy a list of ids.
pub(crate) fn copy_ids(v: &Vec<u64>) -> (r: Vec<u64>)
    ensures
        r@ == v@,
{
    let n = v.len();
    let mut r: Vec<u64> = Vec::new();
    let mut i: usize = 0;
    while i < n
        invariant
            n == v.len(),
            0 <= i <= n,
            r@ == v@.take(i as int),
        decreases n - i,
    {
        r.push(v[i]);
        proof {
            assert(r@ =~= v@.take(i + 1));
        }
        i += 1;
    }
    proof {
        assert(v@.take(n as int) =~= v@);
    }
    r
}

/// Copy a role list.
pub(crate) fn clone_roles(v: &Vec<Role>) -> (r: Vec<Role>)
    ensures
        r@ == v@,
{
    let n = v.len();
    let mut r: Vec<Role> = Vec::new();
    let mut i: usize = 0;
    while i < n
        invariant
            n == v.len(),
            0 <= i <= n,
            r@ == v@.take(i as int),
        decreases n - i,
    {
        r.push(v[i]);
        proof {
            assert(r@ =~= v@.take(i + 1));
        }
        i += 1;
    }
    proof {
        assert(v@.take(n as int) =~= v@);
    }
    r
}

/// Copy an optional string.
pub(crate) fn clone_opt_string(v: &Option<String>) -> (r: Option<String>)
    ensures
        match v {
            Some(s) => r matches Some(x) && x@ == s@,
            None => r is None,
        },
{
    match v {
        Some(s) => Some(s.clone()),
        None => None,
    }
}

impl Talk {
    /// An equal copy of the talk.
    pub fn clone_talk(&self) -> (r: Talk)
        ensures
            r@ == self@,
    {
        let r = Talk {
            id: self.id,
            creator: self.creator,
            title: self.title.clone(),
            description: self.description.clone(),
            scheduled_at: self.scheduled_at,
            duration: self.duration,
            location: clone_opt_string(&self.location),
            nerds: copy_ids(&self.nerds),
            noobs: copy_ids(&self.noobs),
        };
        proof {
            assert(r@ =~= self@);
        }
        r
    }
}

impl User {
    /// An equal copy of the user.
    pub fn clone_user(&self) -> (r: User)
        ensures
            r@ == self@,
    {
        let r = User {
            id: self.id,
            name: self.name.clone(),
            team: self.team.clone(),
            attendance_mode: self.attendance_mode,
            hash: self.hash.clone(),
            roles: clone_roles(&self.roles),
        };
        proof {
            assert(r@ =~= self@);
        }
        r
    }
}

// ------------------------------------------------------------------
// Tokens.
// ------------------------------------------------------------------

/// A token entry survives the purge at `now` when it has not expired.
pub open spec fn unexpired(e: TokenView, now: u64) -> bool {
    e.expires_at >= now
}

/// Filtering a token list with distinct token strings keeps them distinct.
proof fn lemma_filter_keeps_distinct_tokens(s: Seq<TokenView>, pred: spec_fn(TokenView) -> bool)
    requires
        tokens_wf(s),
    ensures
        tokens_wf(s.filter(pred)),
    decreases s.len(),
{
    broadcast use vstd::seq_lib::group_filter_ensures;

    reveal(Seq::filter);
    if s.len() > 0 {
        let rest = s.drop_last();
        assert(tokens_wf(rest)) by {
            assert(forall|i: int| 0 <= i < rest.len() ==> rest[i] == #[trigger] s[i]);
        }
        lemma_filter_keeps_distinct_tokens(rest, pred);
        if pred(s.last()) {
            assert(s.filter(pred) == rest.filter(pred).push(s.last()));
            let f = rest.filter(pred).push(s.last());
            assert forall|a: int, b: int| 0 <= a < b < f.len() implies f[a].token != f[b].token by {
                if b < f.len() - 1 {
                    assert(rest.filter(pred)[a] == f[a] && rest.filter(pred)[b] == f[b]);
                } else {
                    assert(rest.filter(pred).contains(f[a]));
                    rest.lemma_filter_contains_rev(pred, f[a]);
                    let k = choose|k: int| 0 <= k < rest.len() && rest[k] == f[a];
                    assert(s[k] == f[a] && s.last() == f[b]);
                }
            }
        } else {
            assert(s.filter(pred) == rest.filter(pred));
        }
    }
}

impl Token {
    /// An equal copy of the entry.
    pub fn clone_entry(&self) -> (r: Token)
        ensures
            r@ == self@,
    {
        Token { token: self.token.clone(), user_id: self.user_id, expires_at: self.expires_at }
    }
}

impl TokenStore {
    /// An empty token store.
    pub fn new() -> (r: TokenStore)
        ensures
            r@ == Seq::<TokenView>::empty(),
            tokens_wf(r@),
    {
        let r = TokenStore { store: Vec::new() };
        proof {
            assert(r@ =~= Seq::<TokenView>::empty());
        }
        r
    }

    /// Resolve a token to its owner and expiry.
    pub fn get(&self, token: &String) -> (r: Option<TokenData>)
        requires
            tokens_wf(self@),
        ensures
            r is Some <==> has_token(self@, token@),
            has_token(self@, token@) ==> r == Some(token_data(self@, token@)),
    {
        let n = self.store.len();
        let mut i: usize = 0;
        while i < n
            invariant
                n == self.store.len(),
                tokens_wf(self@),
                0 <= i <= n,
                forall|j: int| 0 <= j < i ==> self@[j].token != token@,
            decreases n - i,
        {
            if self.store[i].token == *token {
                proof {
                    assert(self@[i as int].token == token@);
                    let k = token_index_of(self@, token@);
                    assert(0 <= k < self@.len() && self@[k].token == token@);
                    if k != i as int {
                        assert(false);
                    }
                }
                return Some(
                    TokenData {
                        user_id: self.store[i].user_id,
                        expires_at: self.store[i].expires_at,
                    },
                );
            }
            i += 1;
        }
        assert(!has_token(self@, token@));
        None
    }

    /// Map the token to this owner and expiry, replacing any entry with the
    /// same token string; every other entry is untouched.
    pub fn insert(&mut self, token: String, user_id: u64, expires_at: u64)
        requires
            tokens_wf(old(self)@),
        ensures
            tokens_wf(final(self)@),
            has_token(final(self)@, token@),
            token_data(final(self)@, token@) == (TokenData { user_id, expires_at }),
            forall|t: Seq<char>|
                t != token@ ==> (#[trigger] has_token(final(self)@, t)) == has_token(
                    old(self)@,
                    t,
                ),
            forall|t: Seq<char>|
                t != token@ && has_token(old(self)@, t) ==> #[trigger] token_data(final(self)@, t)
                    == token_data(old(self)@, t),
    {
        let ghost v0 = self@;
        let n = self.store.len();
        let mut i: usize = 0;
        while i < n
            invariant
                n == self.store.len(),
                old(self)@ == self@,
                v0 == self@,
                tokens_wf(v0),
                0 <= i <= n,
                forall|j: int| 0 <= j < i ==> v0[j].token != token@,
            decreases n - i,
        {
            if self.store[i].token == token {
                let entry = Token { token, user_id, expires_at };
                proof {
                    assert(v0[i as int].token == token@);
                }
                self.store[i] = entry;
                proof {
                    let v1 = self@;
                    assert(v1 =~= v0.update(
                        i as int,
                        TokenView { token: token@, user_id, expires_at },
                    ));
                    lemma_insert_update_post(v0, v1, i as int, token@, user_id, expires_at);
                }
                return ;
            }
            i += 1;
        }
        assert(!has_token(v0, token@));
        self.store.push(Token { token, user_id, expires_at });
        proof {
            let v1 = self@;
            assert(v1 =~= v0.push(TokenView { token: token@, user_id, expires_at }));
            lemma_insert_push_post(v0, v1, token@, user_id, expires_at);
        }
    }

    /// Delete every entry whose expiry is earlier than `now`.
    pub fn remove_expired(&mut self, now: u64)
        requires
            tokens_wf(old(self)@),
        ensures
            tokens_wf(final(self)@),
            final(self)@ == old(self)@.filter(|e: TokenView| unexpired(e, now)),
            forall|t: Seq<char>|
                #[trigger] has_token(final(self)@, t) <==> (has_token(old(self)@, t) && token_data(
                    old(self)@,
                    t,
                ).expires_at >= now),
            forall|t: Seq<char>|
                has_token(final(self)@, t) ==> #[trigger] token_data(final(self)@, t) == token_data(
                    old(self)@,
                    t,
                ),
    {
        let ghost v0 = self@;
        let n = self.store.len();
        let mut kept: Vec<Token> = Vec::new();
        let mut i: usize = 0;
        proof {
            reveal(Seq::filter);
            assert(v0.take(0).len() == 0);
            assert(kept@.map_values(|t: Token| t@) =~= v0.take(0).filter(
                |e: TokenView| unexpired(e, now),
            ));
        }
        while i < n
            invariant
                n == self.store.len(),
                old(self)@ == self@,
                v0 == self@,
                tokens_wf(v0),
                0 <= i <= n,
                kept@.map_values(|t: Token| t@) == v0.take(i as int).filter(
                    |e: TokenView| unexpired(e, now),
                ),
            decreases n - i,
        {
            proof {
                reveal(Seq::filter);
                assert(v0.take(i + 1).drop_last() =~= v0.take(i as int));
                assert(v0.take(i + 1).last() == v0[i as int]);
            }
            let ghost pred = |e: TokenView| unexpired(e, now);
            let ghost kept0 = kept@.map_values(|t: Token| t@);
            if self.store[i].expires_at >= now {
                kept.push(self.store[i].clone_entry());
                proof {
                    reveal(Seq::filter);
                    assert(pred(v0.take(i + 1).last()));
                    assert(v0.take(i + 1).filter(pred) == v0.take(i as int).filter(pred).push(
                        v0[i as int],
                    ));
                    assert(kept@.map_values(|t: Token| t@) =~= kept0.push(v0[i as int]));
                }
            } else {
                proof {
                    reveal(Seq::filter);
                    assert(!pred(v0.take(i + 1).last()));
                    assert(v0.take(i + 1).filter(pred) == v0.take(i as int).filter(pred));
                }
            }
            i += 1;
        }
        proof {
            assert(v0.take(n as int) =~= v0);
        }
        self.store = kept;
        proof {
            let pred = |e: TokenView| unexpired(e, now);
            let v1 = self@;
            assert(v1 == v0.filter(pred));
            lemma_filter_keeps_distinct_tokens(v0, pred);
            lemma_purge_post(v0, v1, now);
        }
    }
}

/// Lookup-level consequences of replacing the entry at one index.
proof fn lemma_insert_update_post(
    v0: Seq<TokenView>,
    v1: Seq<TokenView>,
    i: int,
    token: Seq<char>,
    user_id: u64,
    expires_at: u64,
)
    requires
        tokens_wf(v0),
        0 <= i < v0.len(),
        v0[i].token == token,
        v1 == v0.update(i, TokenView { token, user_id, expires_at }),
    ensures
        tokens_wf(v1),
        has_token(v1, token),
        token_data(v1, token) == (TokenData { user_id, expires_at }),
        forall|t: Seq<char>| t != token ==> (#[trigger] has_token(v1, t)) == has_token(v0, t),
        forall|t: Seq<char>|
            t != token && has_token(v0, t) ==> #[trigger] token_data(v1, t) == token_data(v0, t),
{
    assert(v1[i].token == token);
    assert(has_token(v1, token));
    assert forall|a: int, b: int| 0 <= a < b < v1.len() implies v1[a].token != v1[b].token by {
        assert(v0[a].token != v0[b].token);
    }
    assert(token_data(v1, token) == (TokenData { user_id, expires_at })) by {
        let k = token_index_of(v1, token);
        assert(0 <= k < v1.len() && v1[k].token == token);
        if k != i {
            assert(v1[k] == v0[k]);
            assert(false);
        }
    }
    assert forall|t: Seq<char>| t != token implies (#[trigger] has_token(v1, t)) == has_token(
        v0,
        t,
    ) by {
        if has_token(v1, t) {
            let k = token_index_of(v1, t);
            assert(0 <= k < v1.len() && v1[k].token == t);
            assert(k != i);
            assert(v0[k].token == t);
        }
        if has_token(v0, t) {
            let k = choose|k: int| 0 <= k < v0.len() && v0[k].token == t;
            assert(k != i);
            assert(v1[k].token == t);
        }
    }
    assert forall|t: Seq<char>| t != token && has_token(v0, t) implies #[trigger] token_data(v1, t)
        == token_data(v0, t) by {
        let k0 = token_index_of(v0, t);
        assert(0 <= k0 < v0.len() && v0[k0].token == t);
        assert(k0 != i);
        assert(v1[k0].token == t);
        assert(has_token(v1, t));
        let k1 = token_index_of(v1, t);
        assert(0 <= k1 < v1.len() && v1[k1].token == t);
        assert(k1 != i);
        assert(v0[k1].token == t);
        if k0 != k1 {
            assert(false);
        }
    }
}

/// Lookup-level consequences of appending a fresh entry.
proof fn lemma_insert_push_post(
    v0: Seq<TokenView>,
    v1: Seq<TokenView>,
    token: Seq<char>,
    user_id: u64,
    expires_at: u64,
)
    requires
        tokens_wf(v0),
        !has_token(v0, token),
        v1 == v0.push(TokenView { token, user_id, expires_at }),
    ensures
        tokens_wf(v1),
        has_token(v1, token),
        token_data(v1, token) == (TokenData { user_id, expires_at }),
        forall|t: Seq<char>| t != token ==> (#[trigger] has_token(v1, t)) == has_token(v0, t),
        forall|t: Seq<char>|
            t != token && has_token(v0, t) ==> #[trigger] token_data(v1, t) == token_data(v0, t),
{
    let m = v0.len() as int;
    assert(v1[m].token == token);
    assert(has_token(v1, token));
    assert forall|a: int, b: int| 0 <= a < b < v1.len() implies v1[a].token != v1[b].token by {
        if b < m {
            assert(v0[a].token != v0[b].token);
        } else {
            assert(v1[a] == v0[a]);
            if v1[a].token == token {
                assert(has_token(v0, token));
            }
        }
    }
    assert(token_data(v1, token) == (TokenData { user_id, expires_at })) by {
        let k = token_index_of(v1, token);
        assert(0 <= k < v1.len() && v1[k].token == token);
        if k != m {
            assert(v0[k].token == token);
            assert(has_token(v0, token));
        }
    }
    assert forall|t: Seq<char>| t != token implies (#[trigger] has_token(v1, t)) == has_token(
        v0,
        t,
    ) by {
        if has_token(v1, t) {
            let k = token_index_of(v1, t);
            assert(0 <= k < v1.len() && v1[k].token == t);
            assert(k != m);
            assert(v0[k].token == t);
        }
        if has_token(v0, t) {
            let k = choose|k: int| 0 <= k < v0.len() && v0[k].token == t;
            assert(v1[k].token == t);
        }
    }
    assert forall|t: Seq<char>| t != token && has_token(v0, t) implies #[trigger] token_data(v1, t)
        == token_data(v0, t) by {
        let k0 = token_index_of(v0, t);
        assert(0 <= k0 < v0.len() && v0[k0].token == t);
        assert(v1[k0].token == t);
        assert(has_token(v1, t));
        let k1 = token_index_of(v1, t);
        assert(0 <= k1 < v1.len() && v1[k1].token == t);
        assert(k1 != m);
        assert(v0[k1].token == t);
        if k0 != k1 {
            assert(false);
        }
    }
}

/// Lookup-level consequences of purging expired entries.
proof fn lemma_purge_post(v0: Seq<TokenView>, v1: Seq<TokenView>, now: u64)
    requires
        tokens_wf(v0),
        tokens_wf(v1),
        v1 == v0.filter(|e: TokenView| unexpired(e, now)),
    ensures
        forall|t: Seq<char>|
            #[trigger] has_token(v1, t) <==> (has_token(v0, t) && token_data(v0, t).expires_at
                >= now),
        forall|t: Seq<char>|
            has_token(v1, t) ==> #[trigger] token_data(v1, t) == token_data(v0, t),
{
    broadcast use vstd::seq_lib::group_filter_ensures;

    let pred = |e: TokenView| unexpired(e, now);
    assert forall|t: Seq<char>| #[trigger] has_token(v1, t) implies (has_token(v0, t)
        && token_data(v0, t).expires_at >= now && token_data(v1, t) == token_data(v0, t)) by {
        let k1 = token_index_of(v1, t);
        assert(0 <= k1 < v1.len() && v1[k1].token == t);
        let e = v1[k1];
        assert(v1.contains(e));
        v0.lemma_filter_contains_rev(pred, e);
        let k0 = choose|k: int| 0 <= k < v0.len() && v0[k] == e;
        assert(has_token(v0, t));
        assert(pred(e));
        let j0 = token_index_of(v0, t);
        assert(0 <= j0 < v0.len() && v0[j0].token == t);
        if j0 != k0 {
            assert(false);
        }
    }
    assert forall|t: Seq<char>| has_token(v0, t) && token_data(v0, t).expires_at
        >= now implies #[trigger] has_token(v1, t) by {
        let k0 = token_index_of(v0, t);
        assert(0 <= k0 < v0.len() && v0[k0].token == t);
        assert(pred(v0[k0]));
        assert(v1.contains(v0[k0]));
        let j = choose|j: int| 0 <= j < v1.len() && v1[j] == v0[k0];
        assert(v1[j].token == t);
    }
}

// ------------------------------------------------------------------
// Store lookups.
// ------------------------------------------------------------------

impl Storage {
    /// The team name is known.
    pub fn contains_team(&self, name: &String) -> (r: bool)
        ensures
            r == team_known(self@.teams, name@),
    {
        let n = self.teams.len();
        let mut i: usize = 0;
        while i < n
            invariant
                n == self.teams.len(),
                0 <= i <= n,
                forall|j: int| 0 <= j < i ==> self@.teams[j] != name@,
            decreases n - i,
        {
            if self.teams[i].name == *name {
                assert(self@.teams[i as int] == name@);
                return true;
            }
            i += 1;
        }
        assert(forall|j: int| 0 <= j < self@.teams.len() ==> self@.teams[j] != name@);
        false
    }

    /// Position of the user with this (name, team) pair, if any.
    pub fn find_user(&self, name: &String, team: &String) -> (r: Option<usize>)
        requires
            users_wf(self@.users),
        ensures
            r is Some <==> user_present(self@.users, name@, team@),
            match r {
                Some(i) => i < self.users.len() && self@.users[i as int] == user_by_name(
                    self@.users,
                    name@,
                    team@,
                ) && i as int == user_index_of(self@.users, name@, team@),
                None => true,
            },
    {
        let n = self.users.len();
        let mut i: usize = 0;
        while i < n
            invariant
                n == self.users.len(),
                users_wf(self@.users),
                0 <= i <= n,
                forall|j: int|
                    0 <= j < i ==> !(self@.users[j].name == name@ && self@.users[j].team == team@),
            decreases n - i,
        {
            if self.users[i].name == *name && self.users[i].team == *team {
                proof {
                    assert(self@.users[i as int].name == name@ && self@.users[i as int].team
                        == team@);
                    let k = user_index_of(self@.users, name@, team@);
                    assert(0 <= k < self@.users.len() && self@.users[k].name == name@
                        && self@.users[k].team == team@);
                    if k != i as int {
                        assert(false);
                    }
                }
                return Some(i);
            }
            i += 1;
        }
        assert(!user_present(self@.users, name@, team@));
        None
    }

    /// Position of the user with this id, if any.
    pub fn user_position(&self, id: u64) -> (r: Option<usize>)
        requires
            users_wf(self@.users),
        ensures
            r is Some <==> id_present(self@.users, id),
            match r {
                Some(i) => i < self.users.len() && self@.users[i as int] == user_by_id(
                    self@.users,
                    id,
                ) && i as int == user_index_by_id(self@.users, id),
                None => true,
            },
    {
        let n = self.users.len();
        let mut i: usize = 0;
        while i < n
            invariant
                n == self.users.len(),
                users_wf(self@.users),
                0 <= i <= n,
                forall|j: int| 0 <= j < i ==> self@.users[j].id != id,
            decreases n - i,
    {
            if self.users[i].id == id {
                proof {
                    assert(self@.users[i as int].id == id);
                    let k = user_index_by_id(self@.users, id);
                    assert(0 <= k < self@.users.len() && self@.users[k].id == id);
                    if k != i as int {
                        assert(false);
                    }
                }
                return Some(i);
            }
            i += 1;
        }
        assert(!id_present(self@.users, id));
        None
    }

    /// Insert a new user with the next free id, an empty role set and a
    /// fresh password digest, and return the id.  The caller must have
    /// checked that the (name, team) pair is not taken.
    pub fn add_user(
        &mut self,
        name: String,
        team: String,
        attendance_mode: AttendanceMode,
        password: String,
    ) -> (r: u64)
        requires
            users_wf(old(self)@.users),
            !user_present(old(self)@.users, name@, team@),
            max_user_id(old(self)@.users) < u64::MAX,
            password@.len() < 0x4000_0000,
        ensures
            users_wf(final(self)@.users),
            r as int == max_user_id(old(self)@.users) + 1,
            final(self)@.users.len() == old(self)@.users.len() + 1,
            final(self)@.users.drop_last() == old(self)@.users,
            ({
                let u = final(self)@.users.last();
                &&& u.id == r
                &&& u.name == name@
                &&& u.team == team@
                &&& u.attendance_mode == attendance_mode
                &&& crypto::password_matches(u.hash, password@)
                &&& u.roles == Seq::<Role>::empty()
            }),
            final(self)@.teams == old(self)@.teams,
            final(self)@.talks == old(self)@.talks,
            final(self)@.tokens == old(self)@.tokens,
            user_present(final(self)@.users, name@, team@),
    {
        proof {
            lemma_max_user_id_bound(old(self)@.users);
        }
        let n = self.users.len();
        let mut next: u64 = 0;
        let mut i: usize = 0;
        proof {
            assert(self@.users.take(0).len() == 0);
        }
        while i < n
            invariant
                n == self.users.len(),
                old(self)@ == self@,
                0 <= i <= n,
                max_user_id(self@.users) < u64::MAX,
                forall|j: int| 0 <= j < n ==> self@.users[j].id as int <= max_user_id(self@.users),
                next as int == max_user_id(self@.users.take(i as int)) + 1,
            decreases n - i,
        {
            proof {
                assert(self@.users.take(i + 1).drop_last() =~= self@.users.take(i as int));
                assert(self@.users.take(i + 1).last() == self@.users[i as int]);
            }
            if self.users[i].id >= next {
                next = self.users[i].id + 1;
            }
            i += 1;
        }
        proof {
            assert(self@.users.take(n as int) =~= self@.users);
        }
        let ghost users0 = self@.users;
        let user = User::new(next, name, team, attendance_mode, password);
        let ghost uv = user@;
        self.users.push(user);
        proof {
            assert(self@.users =~= users0.push(uv));
            assert(self@.users.drop_last() =~= users0);
            assert forall|a: int, b: int| 0 <= a < b < self@.users.len() implies self@.users[a].id
                != self@.users[b].id && !(self@.users[a].name == self@.users[b].name
                && self@.users[a].team == self@.users[b].team) by {
                if b < self@.users.len() - 1 {
                    assert(users0[a].id != users0[b].id);
                    assert(!(users0[a].name == users0[b].name && users0[a].team == users0[b].team));
                } else {
                    assert(self@.users[a] == users0[a]);
                    assert(users0[a].id as int <= max_user_id(users0));
                    if users0[a].name == uv.name && users0[a].team == uv.team {
                        assert(user_present(users0, uv.name, uv.team));
                    }
                }
            }
            assert(self@.users.last().name == name@ && self@.users.last().team == team@);
        }
        next
    }

    /// Position of the talk with this id, if any.
    pub fn talk_position(&self, id: u64) -> (r: Option<usize>)
        requires
            talks_wf(self@.talks),
        ensures
            r is Some <==> talk_present(self@.talks, id),
            match r {
                Some(i) => i < self.talks.len() && self@.talks[i as int] == talk_by_id(
                    self@.talks,
                    id,
                ) && i as int == talk_index_of(self@.talks, id),
                None => true,
            },
    {
        let n = self.talks.len();
        let mut i: usize = 0;
        while i < n
            invariant
                n == self.talks.len(),
                talks_wf(self@.talks),
                0 <= i <= n,
                forall|j: int| 0 <= j < i ==> self@.talks[j].id != id,
            decreases n - i,
        {
            if self.talks[i].id == id {
                proof {
                    assert(self@.talks[i as int].id == id);
                    let k = talk_index_of(self@.talks, id);
                    assert(0 <= k < self@.talks.len() && self@.talks[k].id == id);
                    if k != i as int {
                        assert(false);
                    }
                }
                return Some(i);
            }
            i += 1;
        }
        assert(!talk_present(self@.talks, id));
        None
    }
}

} // verus!
