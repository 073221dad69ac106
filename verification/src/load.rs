//! Assembling a store from freshly parsed collections.
//!
//! The persisted files may have been edited by hand, so nothing about them
//! can be assumed.  `Storage::from_loaded` repairs what it must — duplicate
//! team names, user ids or (name, team) pairs, duplicate talk ids, sign-ups
//! of unknown users, overlapping sign-up sets, duplicate tokens — drops
//! orphan talks, and assigns users of an unknown team to the "Unknown"
//! team.  Collections that are already consistent pass through unchanged.

use vstd::prelude::*;

use crate::storage::{
    id_present, storage_wf, talks_wf, team_known, teams_wf, tokens_wf, user_present, users_wf,
    Storage, StorageView, Talk, TalkView, Team, Token, TokenStore, User, UserView,
};
use crate::talks::contains_id;

verus! {

/// The names of a team list.
pub open spec fn team_names(teams: Seq<Team>) -> Seq<Seq<char>> {
    teams.map_values(|t: Team| t@)
}

/// The store view assembled from four parsed collections, as they are.
pub open spec fn assembled(
    teams: Seq<Seq<char>>,
    users: Seq<UserView>,
    talks: Seq<TalkView>,
    tokens: Seq<crate::storage::TokenView>,
) -> StorageView {
    StorageView { teams, users, talks, tokens }
}

/// A loaded store that needs no repair: well-formed, every user's team
/// known, every talk's creator and sign-up a known user.
pub open spec fn loaded_sane(s: StorageView) -> bool {
    &&& storage_wf(s)
    &&& forall|i: int|
        0 <= i < s.users.len() ==> team_known(s.teams, (#[trigger] s.users[i]).team)
    &&& forall|i: int|
        0 <= i < s.talks.len() ==> id_present(s.users, (#[trigger] s.talks[i]).creator)
    &&& forall|i: int, k: int|
        0 <= i < s.talks.len() && 0 <= k < s.talks[i].nerds.len() ==> id_present(
            s.users,
            #[trigger] s.talks[i].nerds[k],
        )
    &&& forall|i: int, k: int|
        0 <= i < s.talks.len() && 0 <= k < s.talks[i].noobs.len() ==> id_present(
            s.users,
            #[trigger] s.talks[i].noobs[k],
        )
}

/// The deduplicated team list: the first occurrence of each name, in
/// order.
pub open spec fn deduped_teams(teams: Seq<Seq<char>>) -> Seq<Seq<char>>
    decreases teams.len(),
{
    if teams.len() == 0 {
        Seq::empty()
    } else {
        let prefix = deduped_teams(teams.drop_last());
        if team_known(prefix, teams.last()) {
            prefix
        } else {
            prefix.push(teams.last())
        }
    }
}

/// The team a loaded user ends up in: its own when known, else "Unknown".
pub open spec fn repaired_team(teams: Seq<Seq<char>>, team: Seq<char>) -> Seq<char> {
    if team_known(teams, team) {
        team
    } else {
        "Unknown"@
    }
}

/// A loaded user with its team repaired.
pub open spec fn repaired_user(teams: Seq<Seq<char>>, u: UserView) -> UserView {
    UserView { team: repaired_team(teams, u.team), ..u }
}

/// The team list after the user pass: "Unknown" is appended exactly when
/// some user needs it and it is not already a known team.
pub open spec fn repaired_teams(teams: Seq<Seq<char>>, users: Seq<UserView>) -> Seq<Seq<char>> {
    if (exists|k: int| 0 <= k < users.len() && !team_known(teams, (#[trigger] users[k]).team))
        && !team_known(teams, "Unknown"@) {
        teams.push("Unknown"@)
    } else {
        teams
    }
}

/// The users that survive the pass, in order: each user, with its team
/// repaired, is kept when neither its id nor its (name, team) pair is
/// already taken by an earlier kept user.
pub open spec fn kept_users(teams: Seq<Seq<char>>, users: Seq<UserView>) -> Seq<UserView>
    decreases users.len(),
{
    if users.len() == 0 {
        Seq::empty()
    } else {
        let prefix = kept_users(teams, users.drop_last());
        let u = repaired_user(teams, users.last());
        if id_present(prefix, u.id) || user_present(prefix, u.name, u.team) {
            prefix
        } else {
            prefix.push(u)
        }
    }
}

/// The sign-ups that survive: known users only, first occurrences only,
/// and none of the excluded ids.
pub open spec fn repaired_members(
    users: Seq<UserView>,
    members: Seq<u64>,
    exclude: Seq<u64>,
) -> Seq<u64>
    decreases members.len(),
{
    if members.len() == 0 {
        Seq::empty()
    } else {
        let prefix = repaired_members(users, members.drop_last(), exclude);
        let m = members.last();
        if id_present(users, m) && !prefix.contains(m) && !exclude.contains(m) {
            prefix.push(m)
        } else {
            prefix
        }
    }
}

/// A loaded talk with its sign-up sets repaired: the "nerd" set first, the
/// "noob" set kept disjoint from it.
pub open spec fn repaired_talk(users: Seq<UserView>, t: TalkView) -> TalkView {
    let nerds = repaired_members(users, t.nerds, Seq::empty());
    TalkView { nerds, noobs: repaired_members(users, t.noobs, nerds), ..t }
}

/// The talks that survive, in order: first occurrence of each id, creator a
/// known user, sign-ups repaired.
pub open spec fn kept_talks(users: Seq<UserView>, talks: Seq<TalkView>) -> Seq<TalkView>
    decreases talks.len(),
{
    if talks.len() == 0 {
        Seq::empty()
    } else {
        let prefix = kept_talks(users, talks.drop_last());
        let t = talks.last();
        if crate::storage::talk_present(prefix, t.id) || !id_present(users, t.creator) {
            prefix
        } else {
            prefix.push(repaired_talk(users, t))
        }
    }
}

/// The token entries that survive: the first occurrence of each token
/// string, in order.
pub open spec fn deduped_tokens(tokens: Seq<crate::storage::TokenView>) -> Seq<
    crate::storage::TokenView,
>
    decreases tokens.len(),
{
    if tokens.len() == 0 {
        Seq::empty()
    } else {
        let prefix = deduped_tokens(tokens.drop_last());
        if crate::storage::has_token(prefix, tokens.last().token) {
            prefix
        } else {
            prefix.push(tokens.last())
        }
    }
}

/// Whether a team name occurs in a team list.
fn team_name_known(teams: &Vec<Team>, name: &String) -> (r: bool)
    ensures
        r == team_known(teams@.map_values(|t: Team| t@), name@),
{
    let n = teams.len();
    let mut i: usize = 0;
    while i < n
        invariant
            n == teams.len(),
            0 <= i <= n,
            forall|j: int| 0 <= j < i ==> (#[trigger] teams@[j])@ != name@,
        decreases n - i,
    {
        if teams[i].name == *name {
            assert(teams@.map_values(|t: Team| t@)[i as int] == name@);
            return true;
        }
        i += 1;
    }
    assert(!team_known(teams@.map_values(|t: Team| t@), name@));
    false
}

/// Whether a user id occurs in a user list.
fn user_id_known(users: &Vec<User>, id: u64) -> (r: bool)
    ensures
        r == id_present(users@.map_values(|u: User| u@), id),
{
    let n = users.len();
    let mut i: usize = 0;
    while i < n
        invariant
            n == users.len(),
            0 <= i <= n,
            forall|j: int| 0 <= j < i ==> (#[trigger] users@[j])@.id != id,
        decreases n - i,
    {
        if users[i].id == id {
            assert(users@.map_values(|u: User| u@)[i as int].id == id);
            return true;
        }
        i += 1;
    }
    assert(!id_present(users@.map_values(|u: User| u@), id));
    false
}

/// Whether a (name, team) pair occurs in a user list.
fn user_pair_known(users: &Vec<User>, name: &String, team: &String) -> (r: bool)
    ensures
        r == user_present(users@.map_values(|u: User| u@), name@, team@),
{
    let n = users.len();
    let mut i: usize = 0;
    while i < n
        invariant
            n == users.len(),
            0 <= i <= n,
            forall|j: int|
                0 <= j < i ==> !((#[trigger] users@[j])@.name == name@ && users@[j]@.team
                    == team@),
        decreases n - i,
    {
        if users[i].name == *name && users[i].team == *team {
            assert(users@.map_values(|u: User| u@)[i as int].name == name@);
            return true;
        }
        i += 1;
    }
    assert(!user_present(users@.map_values(|u: User| u@), name@, team@));
    false
}

/// Whether a talk id occurs in a talk list.
fn talk_id_in(talks: &Vec<Talk>, id: u64) -> (r: bool)
    ensures
        r == crate::storage::talk_present(talks@.map_values(|t: Talk| t@), id),
{
    let n = talks.len();
    let mut i: usize = 0;
    while i < n
        invariant
            n == talks.len(),
            0 <= i <= n,
            forall|j: int| 0 <= j < i ==> (#[trigger] talks@[j])@.id != id,
        decreases n - i,
    {
        if talks[i].id == id {
            assert(talks@.map_values(|t: Talk| t@)[i as int].id == id);
            return true;
        }
        i += 1;
    }
    assert(!crate::storage::talk_present(talks@.map_values(|t: Talk| t@), id));
    false
}

/// Drop duplicate team names, keeping the first occurrence of each.
fn dedup_teams(teams: Vec<Team>) -> (r: Vec<Team>)
    ensures
        team_names(r@) == deduped_teams(team_names(teams@)),
        teams_wf(team_names(r@)),
        forall|x: Seq<char>|
            (#[trigger] team_known(team_names(r@), x)) == team_known(team_names(teams@), x),
        teams_wf(team_names(teams@)) ==> team_names(r@) == team_names(teams@),
{
    let ghost tv = team_names(teams@);
    let n = teams.len();
    let mut r: Vec<Team> = Vec::new();
    let mut i: usize = 0;
    while i < n
        invariant
            n == teams.len(),
            tv == team_names(teams@),
            0 <= i <= n,
            team_names(r@) == deduped_teams(tv.take(i as int)),
            teams_wf(team_names(r@)),
            forall|x: Seq<char>|
                (#[trigger] team_known(team_names(r@), x)) == team_known(tv.take(i as int), x),
            teams_wf(tv.take(i as int)) ==> team_names(r@) == tv.take(i as int),
        decreases n - i,
    {
        let ghost rv0 = team_names(r@);
        proof {
            assert(tv.take(i + 1).drop_last() =~= tv.take(i as int));
            assert(tv.take(i + 1).last() == tv[i as int]);
        }
        if !team_name_known(&r, &teams[i].name) {
            proof {
                assert(!team_known(rv0, tv[i as int]));
                assert(!team_known(tv.take(i as int), tv[i as int]));
            }
            r.push(Team { name: teams[i].name.clone() });
            proof {
                assert(team_names(r@) =~= rv0.push(tv[i as int]));
                let rv = team_names(r@);
                assert forall|a: int, b: int| 0 <= a < b < rv.len() implies rv[a] != rv[b] by {
                    if b == rv.len() - 1 {
                        assert(rv[a] == rv0[a]);
                        if rv0[a] == tv[i as int] {
                            assert(team_known(rv0, tv[i as int]));
                        }
                    } else {
                        assert(rv[a] == rv0[a] && rv[b] == rv0[b]);
                    }
                }
                assert forall|x: Seq<char>|
                    team_known(rv, x) == team_known(tv.take(i + 1), x) by {
                    if team_known(rv, x) {
                        let k = choose|k: int| 0 <= k < rv.len() && rv[k] == x;
                        if k < rv.len() - 1 {
                            assert(rv0[k] == x);
                            assert(team_known(rv0, x));
                            assert(team_known(tv.take(i as int), x));
                            let s0 = tv.take(i as int);
                            let k0 = choose|k0: int| 0 <= k0 < s0.len() && s0[k0] == x;
                            assert(tv.take(i + 1)[k0] == x);
                        } else {
                            assert(tv.take(i + 1)[i as int] == x);
                        }
                    }
                    if team_known(tv.take(i + 1), x) {
                        let s1 = tv.take(i + 1);
                        let k = choose|k: int| 0 <= k < s1.len() && s1[k] == x;
                        if k < i {
                            assert(tv.take(i as int)[k] == x);
                            assert(team_known(tv.take(i as int), x));
                            assert(team_known(rv0, x));
                            let k0 = choose|k0: int| 0 <= k0 < rv0.len() && rv0[k0] == x;
                            assert(rv[k0] == x);
                        } else {
                            assert(x == tv[i as int]);
                            assert(rv[rv.len() - 1] == x);
                        }
                    }
                }
                assert(!team_known(deduped_teams(tv.take(i as int)), tv[i as int]));
                assert(team_names(r@) == deduped_teams(tv.take(i + 1)));
                if teams_wf(tv.take(i + 1)) {
                    assert(teams_wf(tv.take(i as int))) by {
                        assert(forall|a: int|
                            0 <= a < i ==> tv.take(i as int)[a] == #[trigger] tv.take(i + 1)[a]);
                    }
                    assert(team_names(r@) =~= tv.take(i + 1));
                }
            }
        } else {
            proof {
                let rv = team_names(r@);
                assert(team_known(rv, tv[i as int]));
                assert(team_known(tv.take(i as int), tv[i as int]));
                assert forall|x: Seq<char>|
                    team_known(rv, x) == team_known(tv.take(i + 1), x) by {
                    if team_known(tv.take(i + 1), x) {
                        let s1 = tv.take(i + 1);
                        let k = choose|k: int| 0 <= k < s1.len() && s1[k] == x;
                        if k < i {
                            assert(tv.take(i as int)[k] == x);
                            assert(team_known(tv.take(i as int), x));
                        } else {
                            assert(x == tv[i as int]);
                        }
                    }
                    if team_known(rv, x) {
                        assert(team_known(tv.take(i as int), x));
                        let s0 = tv.take(i as int);
                        let k = choose|k: int| 0 <= k < s0.len() && s0[k] == x;
                        assert(tv.take(i + 1)[k] == x);
                    }
                }
                assert(team_known(deduped_teams(tv.take(i as int)), tv[i as int]));
                assert(team_names(r@) == deduped_teams(tv.take(i + 1)));
                if teams_wf(tv.take(i + 1)) {
                    // a duplicate cannot arise from a well-formed prefix
                    let s0 = tv.take(i as int);
                    let k = choose|k: int| 0 <= k < s0.len() && s0[k] == tv[i as int];
                    assert(tv.take(i + 1)[k] == tv.take(i + 1)[i as int]);
                    assert(false);
                }
            }
        }
        i += 1;
    }
    proof {
        assert(tv.take(n as int) =~= tv);
    }
    r
}

/// The views of a user list.
pub open spec fn users_view(users: Seq<User>) -> Seq<UserView> {
    users.map_values(|u: User| u@)
}

/// The views of a talk list.
pub open spec fn talks_view(talks: Seq<Talk>) -> Seq<TalkView> {
    talks.map_values(|t: Talk| t@)
}

/// The first `n` users are consistent with the team list: no duplicate id
/// or (name, team) pair, and every team known.
pub open spec fn users_sane(teams: Seq<Seq<char>>, users: Seq<UserView>, n: int) -> bool {
    &&& users_wf(users.take(n))
    &&& forall|k: int| 0 <= k < n ==> team_known(teams, (#[trigger] users[k]).team)
}

/// The first `n` talks are consistent with the user list: no duplicate id,
/// known creator, known sign-ups.
pub open spec fn talks_sane(users: Seq<UserView>, talks: Seq<TalkView>, n: int) -> bool {
    &&& talks_wf(talks.take(n))
    &&& forall|k: int| 0 <= k < n ==> id_present(users, (#[trigger] talks[k]).creator)
    &&& forall|k: int, m: int|
        0 <= k < n && 0 <= m < talks[k].nerds.len() ==> id_present(
            users,
            #[trigger] talks[k].nerds[m],
        )
    &&& forall|k: int, m: int|
        0 <= k < n && 0 <= m < talks[k].noobs.len() ==> id_present(
            users,
            #[trigger] talks[k].noobs[m],
        )
}

/// How one more user changes the repaired team list.
proof fn lemma_repaired_teams_step(tv: Seq<Seq<char>>, uv: Seq<UserView>, i: int)
    requires
        0 <= i < uv.len(),
    ensures
        repaired_teams(tv, uv.take(i + 1)) == (if !team_known(tv, uv[i].team) && !team_known(
            tv,
            "Unknown"@,
        ) {
            tv.push("Unknown"@)
        } else {
            repaired_teams(tv, uv.take(i))
        }),
{
    let needs1 = exists|k: int|
        0 <= k < uv.take(i + 1).len() && !team_known(tv, (#[trigger] uv.take(i + 1)[k]).team);
    let needs0 = exists|k: int|
        0 <= k < uv.take(i).len() && !team_known(tv, (#[trigger] uv.take(i)[k]).team);
    assert(needs1 == (needs0 || !team_known(tv, uv[i].team))) by {
        if needs1 {
            let k = choose|k: int|
                0 <= k < uv.take(i + 1).len() && !team_known(tv, (#[trigger] uv.take(i + 1)[k]).team);
            if k < i {
                assert(uv.take(i)[k] == uv.take(i + 1)[k]);
            } else {
                assert(uv.take(i + 1)[k] == uv[i]);
            }
        }
        if needs0 {
            let k = choose|k: int|
                0 <= k < uv.take(i).len() && !team_known(tv, (#[trigger] uv.take(i)[k]).team);
            assert(uv.take(i + 1)[k] == uv.take(i)[k]);
        }
        if !team_known(tv, uv[i].team) {
            assert(uv.take(i + 1)[i] == uv[i]);
        }
    }
}

/// Keep each user whose id and (name, team) pair are still free, assigning
/// users of an unknown team to the "Unknown" team, which is added to the
/// team list when first needed.
fn sanitize_users(users: Vec<User>, teams: Vec<Team>) -> (r: (Vec<User>, Vec<Team>))
    requires
        teams_wf(team_names(teams@)),
    ensures
        users_view(r.0@) == kept_users(team_names(teams@), users_view(users@)),
        team_names(r.1@) == repaired_teams(team_names(teams@), users_view(users@)),
        users_wf(users_view(r.0@)),
        teams_wf(team_names(r.1@)),
        forall|x: Seq<char>|
            #[trigger] team_known(team_names(teams@), x) ==> team_known(team_names(r.1@), x),
        forall|x: Seq<char>|
            #[trigger] team_known(team_names(r.1@), x) ==> team_known(team_names(teams@), x) || x
                == "Unknown"@,
        forall|j: int|
            0 <= j < r.0@.len() ==> team_known(team_names(r.1@), (#[trigger] r.0@[j])@.team),
        users_sane(team_names(teams@), users_view(users@), users@.len() as int) ==> (users_view(
            r.0@,
        ) == users_view(users@) && team_names(r.1@) == team_names(teams@)),
{
    let ghost tv = team_names(teams@);
    let ghost uv = users_view(users@);
    let n = users.len();
    let mut out_users: Vec<User> = Vec::new();
    let mut out_teams = teams;
    let mut i: usize = 0;
    proof {
        assert(uv.take(0) =~= Seq::<UserView>::empty());
        assert(users_view(out_users@) =~= Seq::<UserView>::empty());
        assert(users_view(out_users@) == kept_users(tv, uv.take(0)));
        assert(team_names(out_teams@) == repaired_teams(tv, uv.take(0)));
    }
    while i < n
        invariant
            n == users.len(),
            tv == team_names(teams@),
            uv == users_view(users@),
            0 <= i <= n,
            users_view(out_users@) == kept_users(tv, uv.take(i as int)),
            team_names(out_teams@) == repaired_teams(tv, uv.take(i as int)),
            users_wf(users_view(out_users@)),
            teams_wf(team_names(out_teams@)),
            forall|x: Seq<char>|
                #[trigger] team_known(tv, x) ==> team_known(team_names(out_teams@), x),
            forall|x: Seq<char>|
                #[trigger] team_known(team_names(out_teams@), x) ==> team_known(tv, x) || x
                    == "Unknown"@,
            forall|j: int|
                0 <= j < out_users@.len() ==> team_known(
                    team_names(out_teams@),
                    (#[trigger] out_users@[j])@.team,
                ),
            users_sane(tv, uv, i as int) ==> (users_view(out_users@) == uv.take(i as int)
                && team_names(out_teams@) == tv),
        decreases n - i,
    {
        let ghost out_u0 = users_view(out_users@);
        let ghost out_t0 = team_names(out_teams@);
        let mut user = users[i].clone_user();
        let ghost fixed_known = team_known(team_names(out_teams@), user@.team);
        if !team_name_known(&out_teams, &user.team) {
            user.team = String::from_str("Unknown");
            if !team_name_known(&out_teams, &user.team) {
                out_teams.push(Team { name: String::from_str("Unknown") });
                proof {
                    assert(team_names(out_teams@) =~= out_t0.push("Unknown"@));
                    let nt = team_names(out_teams@);
                    assert forall|a: int, b: int| 0 <= a < b < nt.len() implies nt[a] != nt[b] by {
                        if b == nt.len() - 1 {
                            assert(nt[a] == out_t0[a]);
                            if out_t0[a] == "Unknown"@ {
                                assert(team_known(out_t0, "Unknown"@));
                            }
                        } else {
                            assert(nt[a] == out_t0[a] && nt[b] == out_t0[b]);
                        }
                    }
                    assert forall|x: Seq<char>| #[trigger]
                        team_known(nt, x) implies team_known(tv, x) || x == "Unknown"@ by {
                        let k = choose|k: int| 0 <= k < nt.len() && nt[k] == x;
                        if k < nt.len() - 1 {
                            assert(out_t0[k] == x);
                            assert(team_known(out_t0, x));
                        }
                    }
                    assert forall|x: Seq<char>| #[trigger]
                        team_known(tv, x) implies team_known(nt, x) by {
                        assert(team_known(out_t0, x));
                        let k = choose|k: int| 0 <= k < out_t0.len() && out_t0[k] == x;
                        assert(nt[k] == x);
                    }
                    assert forall|j: int|
                        0 <= j < out_users@.len() implies team_known(
                            nt,
                            (#[trigger] out_users@[j])@.team,
                        ) by {
                        assert(team_known(out_t0, out_users@[j]@.team));
                        let k = choose|k: int| 0 <= k < out_t0.len() && out_t0[k]
                            == out_users@[j]@.team;
                        assert(nt[k] == out_users@[j]@.team);
                    }
                }
            }
            proof {
                assert(team_known(team_names(out_teams@), user@.team)) by {
                    let nt = team_names(out_teams@);
                    if out_t0.len() < nt.len() {
                        assert(nt[nt.len() - 1] == "Unknown"@);
                    }
                }
            }
        }
        let ghost fixed_view = user@;
        proof {
            lemma_repaired_teams_step(tv, uv, i as int);
            assert(users@[i as int]@ == uv[i as int]);
            // the exec team fix agrees with `repaired_user`
            assert(fixed_view == repaired_user(tv, uv[i as int])) by {
                if fixed_known {
                    if !team_known(tv, uv[i as int].team) {
                        assert(uv[i as int].team == "Unknown"@);
                    }
                } else {
                    assert(!team_known(tv, uv[i as int].team));
                }
                assert(fixed_view =~= repaired_user(tv, uv[i as int]));
            }
            // the exec team growth agrees with `repaired_teams`
            assert(team_names(out_teams@) == repaired_teams(tv, uv.take(i + 1))) by {
                if !team_known(tv, uv[i as int].team) && !team_known(tv, "Unknown"@) {
                    // the user needs the "Unknown" team, which the input
                    // list does not hold
                    if out_t0 == tv {
                        // this user made the pass add it
                        assert(!fixed_known);
                        assert(!team_known(out_t0, "Unknown"@));
                        assert(team_names(out_teams@) =~= tv.push("Unknown"@));
                    } else {
                        // an earlier user already made the pass add it
                        assert(out_t0 == tv.push("Unknown"@));
                        assert(team_known(out_t0, "Unknown"@)) by {
                            assert(out_t0[out_t0.len() - 1] == "Unknown"@);
                        }
                        assert(team_names(out_teams@) == out_t0);
                    }
                } else {
                    // nothing to add: either the team is known in the input
                    // list, or "Unknown" already is
                    if !fixed_known {
                        assert(!team_known(tv, uv[i as int].team));
                        assert(team_known(tv, "Unknown"@));
                        assert(team_known(out_t0, "Unknown"@));
                    }
                    assert(team_names(out_teams@) == out_t0);
                }
            }
        }
        let id_taken = user_id_known(&out_users, user.id);
        let pair_taken = user_pair_known(&out_users, &user.name, &user.team);
        proof {
            assert(uv.take(i + 1).drop_last() =~= uv.take(i as int));
            assert(uv.take(i + 1).last() == uv[i as int]);
        }
        if !id_taken && !pair_taken {
            let ghost nu = user@;
            out_users.push(user);
            proof {
                assert(users_view(out_users@) =~= out_u0.push(nu));
                let ou = users_view(out_users@);
                assert forall|a: int, b: int|
                    0 <= a < b < ou.len() implies ou[a].id != ou[b].id && !(ou[a].name
                        == ou[b].name && ou[a].team == ou[b].team) by {
                    if b == ou.len() - 1 {
                        assert(ou[a] == out_u0[a]);
                        if out_u0[a].id == nu.id {
                            assert(id_present(out_u0, nu.id));
                        }
                        if out_u0[a].name == nu.name && out_u0[a].team == nu.team {
                            assert(user_present(out_u0, nu.name, nu.team));
                        }
                    } else {
                        assert(ou[a] == out_u0[a] && ou[b] == out_u0[b]);
                    }
                }
                assert(users_view(out_users@) == kept_users(tv, uv.take(i + 1)));
            }
        } else {
            proof {
                assert(users_view(out_users@) == kept_users(tv, uv.take(i + 1)));
            }
        }
        proof {
            // the identity case: a sane prefix passes through untouched
            if users_sane(tv, uv, i + 1) {
                assert(users_wf(uv.take(i as int))) by {
                    assert(forall|a: int|
                        0 <= a < i ==> uv.take(i as int)[a] == #[trigger] uv.take(i + 1)[a]);
                }
                assert(users_sane(tv, uv, i as int));
                assert(out_u0 == uv.take(i as int) && out_t0 == tv);
                assert(team_known(tv, uv[i as int].team));
                assert(fixed_known);
                assert(user@ == uv[i as int]) by {
                    assert(users@[i as int]@ == uv[i as int]);
                }
                if id_present(out_u0, uv[i as int].id) {
                    let k = choose|k: int| 0 <= k < out_u0.len() && out_u0[k].id == uv[
                        i as int].id;
                    assert(uv.take(i + 1)[k] == uv.take(i as int)[k]);
                    assert(uv.take(i + 1)[k].id == uv.take(i + 1)[i as int].id);
                    assert(false);
                }
                if user_present(out_u0, uv[i as int].name, uv[i as int].team) {
                    let k = choose|k: int|
                        0 <= k < out_u0.len() && out_u0[k].name == uv[i as int].name
                            && out_u0[k].team == uv[i as int].team;
                    assert(uv.take(i + 1)[k] == uv.take(i as int)[k]);
                    assert(false);
                }
                assert(users_view(out_users@) =~= uv.take(i + 1));
            }
        }
        i += 1;
    }
    proof {
        assert(uv.take(n as int) =~= uv);
    }
    (out_users, out_teams)
}

/// Keep the sign-ups that name a known user, at most once each, and not
/// already claimed by the excluded set.
fn sanitize_members(members: &Vec<u64>, users: &Vec<User>, exclude: &Vec<u64>) -> (r: Vec<u64>)
    ensures
        r@ == repaired_members(users_view(users@), members@, exclude@),
        forall|a: int, b: int| 0 <= a < b < r@.len() ==> r@[a] != r@[b],
        forall|j: int| 0 <= j < r@.len() ==> id_present(users_view(users@), #[trigger] r@[j]),
        forall|j: int| 0 <= j < r@.len() ==> !exclude@.contains(#[trigger] r@[j]),
        forall|j: int| 0 <= j < r@.len() ==> members@.contains(#[trigger] r@[j]),
        ((forall|a: int, b: int| 0 <= a < b < members@.len() ==> members@[a] != members@[b])
            && (forall|k: int|
            0 <= k < members@.len() ==> id_present(users_view(users@), #[trigger] members@[k]))
            && (forall|k: int|
            0 <= k < members@.len() ==> !exclude@.contains(#[trigger] members@[k]))) ==> r@
            == members@,
{
    let ghost mv = members@;
    let ghost sane = (forall|a: int, b: int| 0 <= a < b < mv.len() ==> mv[a] != mv[b]) && (
    forall|k: int| 0 <= k < mv.len() ==> id_present(users_view(users@), #[trigger] mv[k])) && (
    forall|k: int| 0 <= k < mv.len() ==> !exclude@.contains(#[trigger] mv[k]));
    let n = members.len();
    let mut r: Vec<u64> = Vec::new();
    let mut i: usize = 0;
    proof {
        assert(mv.take(0) =~= Seq::<u64>::empty());
        assert(r@ == repaired_members(users_view(users@), mv.take(0), exclude@));
    }
    while i < n
        invariant
            n == members.len(),
            mv == members@,
            sane == ((forall|a: int, b: int| 0 <= a < b < mv.len() ==> mv[a] != mv[b]) && (
            forall|k: int| 0 <= k < mv.len() ==> id_present(users_view(users@), #[trigger] mv[k]))
                && (forall|k: int| 0 <= k < mv.len() ==> !exclude@.contains(#[trigger] mv[k]))),
            0 <= i <= n,
            r@ == repaired_members(users_view(users@), mv.take(i as int), exclude@),
            forall|a: int, b: int| 0 <= a < b < r@.len() ==> r@[a] != r@[b],
            forall|j: int| 0 <= j < r@.len() ==> id_present(users_view(users@), #[trigger] r@[j]),
            forall|j: int| 0 <= j < r@.len() ==> !exclude@.contains(#[trigger] r@[j]),
            forall|j: int| 0 <= j < r@.len() ==> mv.contains(#[trigger] r@[j]),
            sane ==> r@ == mv.take(i as int),
        decreases n - i,
    {
        let ghost r0 = r@;
        proof {
            assert(mv.take(i + 1).drop_last() =~= mv.take(i as int));
            assert(mv.take(i + 1).last() == mv[i as int]);
        }
        let id = members[i];
        if user_id_known(users, id) && !contains_id(&r, id) && !contains_id(exclude, id) {
            r.push(id);
            proof {
                assert(r@ == repaired_members(users_view(users@), mv.take(i + 1), exclude@));
                assert(mv.contains(mv[i as int]));
                assert forall|a: int, b: int| 0 <= a < b < r@.len() implies r@[a] != r@[b] by {
                    if b == r@.len() - 1 {
                        assert(r@[a] == r0[a]);
                        if r0[a] == id {
                            assert(r0.contains(id));
                        }
                    } else {
                        assert(r@[a] == r0[a] && r@[b] == r0[b]);
                    }
                }
                if sane {
                    assert(r@ =~= mv.take(i + 1));
                }
            }
        } else {
            proof {
                assert(r@ == repaired_members(users_view(users@), mv.take(i + 1), exclude@));
                if sane {
                    assert(id_present(users_view(users@), mv[i as int]));
                    assert(!exclude@.contains(mv[i as int]));
                    if r0.contains(id) {
                        let k = choose|k: int| 0 <= k < r0.len() && r0[k] == id;
                        assert(mv.take(i as int)[k] == id);
                        assert(mv[k] == mv[i as int]);
                        assert(false);
                    }
                    assert(false);
                }
            }
        }
        i += 1;
    }
    proof {
        assert(mv.take(n as int) =~= mv);
    }
    r
}

/// Keep each talk whose id is still free and whose creator is a known
/// user, with its sign-up sets repaired: unknown users dropped, duplicates
/// dropped, and the "noob" set kept disjoint from the "nerd" set.
fn sanitize_talks(talks: Vec<Talk>, users: &Vec<User>) -> (r: Vec<Talk>)
    ensures
        talks_view(r@) == kept_talks(users_view(users@), talks_view(talks@)),
        talks_wf(talks_view(r@)),
        forall|j: int|
            0 <= j < r@.len() ==> id_present(users_view(users@), (#[trigger] r@[j])@.creator),
        forall|j: int, m: int|
            0 <= j < r@.len() && 0 <= m < r@[j]@.nerds.len() ==> id_present(
                users_view(users@),
                #[trigger] r@[j]@.nerds[m],
            ),
        forall|j: int, m: int|
            0 <= j < r@.len() && 0 <= m < r@[j]@.noobs.len() ==> id_present(
                users_view(users@),
                #[trigger] r@[j]@.noobs[m],
            ),
        talks_sane(users_view(users@), talks_view(talks@), talks@.len() as int) ==> talks_view(r@)
            == talks_view(talks@),
{
    let ghost kv = talks_view(talks@);
    let ghost pv = users_view(users@);
    let n = talks.len();
    let mut r: Vec<Talk> = Vec::new();
    let mut i: usize = 0;
    proof {
        assert(kv.take(0) =~= Seq::<TalkView>::empty());
        assert(talks_view(r@) =~= Seq::<TalkView>::empty());
        assert(talks_view(r@) == kept_talks(pv, kv.take(0)));
    }
    while i < n
        invariant
            n == talks.len(),
            kv == talks_view(talks@),
            pv == users_view(users@),
            0 <= i <= n,
            talks_view(r@) == kept_talks(pv, kv.take(i as int)),
            talks_wf(talks_view(r@)),
            forall|j: int|
                0 <= j < r@.len() ==> id_present(pv, (#[trigger] r@[j])@.creator),
            forall|j: int, m: int|
                0 <= j < r@.len() && 0 <= m < r@[j]@.nerds.len() ==> id_present(
                    pv,
                    #[trigger] r@[j]@.nerds[m],
                ),
            forall|j: int, m: int|
                0 <= j < r@.len() && 0 <= m < r@[j]@.noobs.len() ==> id_present(
                    pv,
                    #[trigger] r@[j]@.noobs[m],
                ),
            talks_sane(pv, kv, i as int) ==> talks_view(r@) == kv.take(i as int),
        decreases n - i,
    {
        let ghost r0 = talks_view(r@);
        proof {
            assert(kv.take(i + 1).drop_last() =~= kv.take(i as int));
            assert(kv.take(i + 1).last() == kv[i as int]);
            assert(talks@[i as int]@ == kv[i as int]);
        }
        let id_taken = talk_id_in(&r, talks[i].id);
        let creator_known = user_id_known(users, talks[i].creator);
        if !id_taken && creator_known {
            let empty_exclude: Vec<u64> = Vec::new();
            let nerds = sanitize_members(&talks[i].nerds, users, &empty_exclude);
            proof {
                assert(empty_exclude@ =~= Seq::<u64>::empty());
                assert(nerds@ == repaired_members(pv, kv[i as int].nerds, Seq::empty()));
            }
            let noobs = sanitize_members(&talks[i].noobs, users, &nerds);
            let talk = Talk {
                id: talks[i].id,
                creator: talks[i].creator,
                title: talks[i].title.clone(),
                description: talks[i].description.clone(),
                scheduled_at: talks[i].scheduled_at,
                duration: talks[i].duration,
                location: crate::storage::clone_opt_string(&talks[i].location),
                nerds,
                noobs,
            };
            let ghost ntv = talk@;
            r.push(talk);
            proof {
                assert(ntv =~= repaired_talk(pv, kv[i as int]));
                assert(talks_view(r@) =~= r0.push(ntv));
                assert(talks_view(r@) == kept_talks(pv, kv.take(i + 1)));
                assert(ntv.id == kv[i as int].id && ntv.creator == kv[i as int].creator);
                let ov = talks_view(r@);
                assert forall|a: int, b: int|
                    0 <= a < b < ov.len() implies ov[a].id != ov[b].id by {
                    if b == ov.len() - 1 {
                        assert(ov[a] == r0[a]);
                        if r0[a].id == ntv.id {
                            assert(crate::storage::talk_present(r0, ntv.id));
                        }
                    } else {
                        assert(ov[a] == r0[a] && ov[b] == r0[b]);
                    }
                }
                assert(crate::storage::talk_wf(ntv));
                assert forall|j: int| 0 <= j < ov.len() implies crate::storage::talk_wf(
                    #[trigger] ov[j],
                ) by {
                    if j < ov.len() - 1 {
                        assert(ov[j] == r0[j]);
                        assert(crate::storage::talk_wf(r0[j]));
                    }
                }
                if talks_sane(pv, kv, i + 1) {
                    assert(talks_wf(kv.take(i as int))) by {
                        assert(forall|a: int|
                            0 <= a < i ==> kv.take(i as int)[a] == #[trigger] kv.take(i + 1)[a]);
                    }
                    assert(talks_sane(pv, kv, i as int));
                    assert(r0 == kv.take(i as int));
                    let src = kv[i as int];
                    assert(crate::storage::talk_wf(src)) by {
                        assert(kv.take(i + 1)[i as int] == src);
                    }
                    assert(forall|m: int|
                        0 <= m < src.nerds.len() ==> id_present(pv, #[trigger] src.nerds[m]));
                    assert(forall|m: int|
                        0 <= m < src.noobs.len() ==> id_present(pv, #[trigger] src.noobs[m]));
                    assert(ntv.nerds == src.nerds);
                    assert(forall|m: int|
                        0 <= m < src.noobs.len() ==> !src.nerds.contains(
                            #[trigger] src.noobs[m],
                        )) by {
                        assert forall|m: int|
                            0 <= m < src.noobs.len() implies !src.nerds.contains(
                                #[trigger] src.noobs[m],
                            ) by {
                            if src.nerds.contains(src.noobs[m]) {
                                let w = choose|w: int| 0 <= w < src.nerds.len() && src.nerds[w]
                                    == src.noobs[m];
                                assert(!src.noobs.contains(src.nerds[w]));
                                assert(src.noobs.contains(src.noobs[m]));
                            }
                        }
                    }
                    assert(ntv.noobs == src.noobs);
                    assert(ntv =~= src);
                    assert(talks_view(r@) =~= kv.take(i + 1));
                }
            }
        } else {
            proof {
                assert(talks_view(r@) == kept_talks(pv, kv.take(i + 1)));
                if talks_sane(pv, kv, i + 1) {
                    assert(id_present(pv, kv[i as int].creator));
                    assert(creator_known);
                    assert(talks_wf(kv.take(i as int))) by {
                        assert(forall|a: int|
                            0 <= a < i ==> kv.take(i as int)[a] == #[trigger] kv.take(i + 1)[a]);
                    }
                    assert(talks_sane(pv, kv, i as int));
                    assert(r0 == kv.take(i as int));
                    assert(crate::storage::talk_present(r0, kv[i as int].id));
                    let k = choose|k: int| 0 <= k < r0.len() && r0[k].id == kv[i as int].id;
                    assert(kv.take(i + 1)[k].id == kv.take(i + 1)[i as int].id);
                    assert(false);
                }
            }
        }
        i += 1;
    }
    proof {
        assert(kv.take(n as int) =~= kv);
    }
    r
}

/// The views of a token entry list.
pub open spec fn tokens_view(store: Seq<Token>) -> Seq<crate::storage::TokenView> {
    store.map_values(|t: Token| t@)
}

/// Drop duplicate token strings, keeping the first occurrence of each.
fn dedup_tokens(tokens: TokenStore) -> (r: TokenStore)
    ensures
        r@ == deduped_tokens(tokens@),
        tokens_wf(r@),
        forall|x: Seq<char>|
            (#[trigger] crate::storage::has_token(r@, x)) == crate::storage::has_token(
                tokens@,
                x,
            ),
        tokens_wf(tokens@) ==> r@ == tokens@,
{
    let ghost sv = tokens@;
    let n = tokens.store.len();
    let mut out: Vec<Token> = Vec::new();
    let mut i: usize = 0;
    proof {
        assert(sv.take(0) =~= Seq::<crate::storage::TokenView>::empty());
        assert(tokens_view(out@) =~= Seq::<crate::storage::TokenView>::empty());
        assert(tokens_view(out@) == deduped_tokens(sv.take(0)));
    }
    while i < n
        invariant
            n == tokens.store.len(),
            sv == tokens@,
            0 <= i <= n,
            tokens_view(out@) == deduped_tokens(sv.take(i as int)),
            tokens_wf(tokens_view(out@)),
            forall|x: Seq<char>|
                (#[trigger] crate::storage::has_token(tokens_view(out@), x))
                    == crate::storage::has_token(sv.take(i as int), x),
            tokens_wf(sv.take(i as int)) ==> tokens_view(out@) == sv.take(i as int),
        decreases n - i,
    {
        let ghost ov0 = tokens_view(out@);
        proof {
            assert(sv.take(i + 1).drop_last() =~= sv.take(i as int));
            assert(sv.take(i + 1).last() == sv[i as int]);
        }
        let mut found = false;
        let m = out.len();
        let mut j: usize = 0;
        while j < m
            invariant
                m == out.len(),
                0 <= j <= m,
                i < n == tokens.store.len(),
                sv == tokens@,
                ov0 == tokens_view(out@),
                found == exists|k: int| 0 <= k < j && (#[trigger] ov0[k]).token == sv[
                    i as int].token,
            decreases m - j,
        {
            if out[j].token == tokens.store[i].token {
                assert(ov0[j as int].token == sv[i as int].token);
                found = true;
            }
            j += 1;
        }
        proof {
            assert(found == crate::storage::has_token(ov0, sv[i as int].token));
        }
        if !found {
            out.push(tokens.store[i].clone_entry());
            proof {
                assert(!crate::storage::has_token(ov0, sv[i as int].token));
                assert(tokens_view(out@) =~= ov0.push(sv[i as int]));
                assert(tokens_view(out@) == deduped_tokens(sv.take(i + 1)));
                assert(tokens_view(out@) =~= ov0.push(sv[i as int]));
                let ov = tokens_view(out@);
                assert forall|a: int, b: int|
                    0 <= a < b < ov.len() implies ov[a].token != ov[b].token by {
                    if b == ov.len() - 1 {
                        assert(ov[a] == ov0[a]);
                        if ov0[a].token == sv[i as int].token {
                            assert(crate::storage::has_token(ov0, sv[i as int].token));
                        }
                    } else {
                        assert(ov[a] == ov0[a] && ov[b] == ov0[b]);
                    }
                }
                assert forall|x: Seq<char>|
                    crate::storage::has_token(ov, x) == crate::storage::has_token(
                        sv.take(i + 1),
                        x,
                    ) by {
                    if crate::storage::has_token(ov, x) {
                        let k = choose|k: int| 0 <= k < ov.len() && ov[k].token == x;
                        if k < ov.len() - 1 {
                            assert(ov0[k].token == x);
                            assert(crate::storage::has_token(ov0, x));
                            assert(crate::storage::has_token(sv.take(i as int), x));
                            let s0 = sv.take(i as int);
                            let k0 = choose|k0: int| 0 <= k0 < s0.len() && s0[k0].token == x;
                            assert(sv.take(i + 1)[k0].token == x);
                        } else {
                            assert(sv.take(i + 1)[i as int].token == x);
                        }
                    }
                    if crate::storage::has_token(sv.take(i + 1), x) {
                        let s1 = sv.take(i + 1);
                        let k = choose|k: int| 0 <= k < s1.len() && s1[k].token == x;
                        if k < i {
                            assert(sv.take(i as int)[k].token == x);
                            assert(crate::storage::has_token(sv.take(i as int), x));
                            assert(crate::storage::has_token(ov0, x));
                            let k0 = choose|k0: int| 0 <= k0 < ov0.len() && ov0[k0].token == x;
                            assert(ov[k0].token == x);
                        } else {
                            assert(ov[ov.len() - 1].token == x);
                        }
                    }
                }
                if tokens_wf(sv.take(i + 1)) {
                    assert(tokens_wf(sv.take(i as int))) by {
                        assert(forall|a: int|
                            0 <= a < i ==> sv.take(i as int)[a] == #[trigger] sv.take(i + 1)[a]);
                    }
                    assert(tokens_view(out@) =~= sv.take(i + 1));
                }
            }
        } else {
            proof {
                assert(tokens_view(out@) == deduped_tokens(sv.take(i + 1)));
                let ov = tokens_view(out@);
                assert(crate::storage::has_token(ov0, sv[i as int].token));
                assert forall|x: Seq<char>|
                    crate::storage::has_token(ov, x) == crate::storage::has_token(
                        sv.take(i + 1),
                        x,
                    ) by {
                    if crate::storage::has_token(sv.take(i + 1), x) {
                        let s1 = sv.take(i + 1);
                        let k = choose|k: int| 0 <= k < s1.len() && s1[k].token == x;
                        if k < i {
                            assert(sv.take(i as int)[k].token == x);
                            assert(crate::storage::has_token(sv.take(i as int), x));
                        } else {
                            assert(x == sv[i as int].token);
                        }
                    }
                    if crate::storage::has_token(ov, x) {
                        assert(crate::storage::has_token(sv.take(i as int), x));
                        let s0 = sv.take(i as int);
                        let k = choose|k: int| 0 <= k < s0.len() && s0[k].token == x;
                        assert(sv.take(i + 1)[k].token == x);
                    }
                }
                if tokens_wf(sv.take(i + 1)) {
                    assert(crate::storage::has_token(sv.take(i as int), sv[i as int].token));
                    let s0 = sv.take(i as int);
                    let k = choose|k: int| 0 <= k < s0.len() && s0[k].token == sv[i as int].token;
                    assert(sv.take(i + 1)[k].token == sv.take(i + 1)[i as int].token);
                    assert(false);
                }
            }
        }
        i += 1;
    }
    proof {
        assert(sv.take(n as int) =~= sv);
    }
    let r = TokenStore { store: out };
    r
}

impl Storage {
    /// Assemble a store from freshly parsed collections, repairing whatever
    /// a hand-edited file may have broken.  Consistent input passes through
    /// unchanged.
    pub fn from_loaded(teams: Vec<Team>, users: Vec<User>, talks: Vec<Talk>, tokens: TokenStore)
        -> (r: Storage)
        ensures
            storage_wf(r@),
            loaded_sane(r@),
            r@.teams == repaired_teams(
                deduped_teams(team_names(teams@)),
                users_view(users@),
            ),
            r@.users == kept_users(deduped_teams(team_names(teams@)), users_view(users@)),
            r@.talks == kept_talks(r@.users, talks_view(talks@)),
            r@.tokens == deduped_tokens(tokens@),
            loaded_sane(
                assembled(team_names(teams@), users_view(users@), talks_view(talks@), tokens@),
            ) ==> r@ == assembled(
                team_names(teams@),
                users_view(users@),
                talks_view(talks@),
                tokens@,
            ),
    {
        let ghost input = assembled(
            team_names(teams@),
            users_view(users@),
            talks_view(talks@),
            tokens@,
        );
        let clean_teams = dedup_teams(teams);
        let pair = sanitize_users(users, clean_teams);
        let clean_users = pair.0;
        let final_teams = pair.1;
        let clean_talks = sanitize_talks(talks, &clean_users);
        let clean_tokens = dedup_tokens(tokens);
        let r = Storage {
            teams: final_teams,
            users: clean_users,
            talks: clean_talks,
            tokens: clean_tokens,
        };
        proof {
            assert(r@.teams == team_names(r.teams@));
            assert(r@.users == users_view(r.users@));
            assert(r@.talks == talks_view(r.talks@));
            if loaded_sane(input) {
                assert(r@ =~= input);
            }
        }
        r
    }
}

} // verus!
