//! The disk reconciler: merge a freshly loaded snapshot into live state and
//! compute the minimal set of events that brings every client up to date.
//!
//! The disk is the source of truth for this operation: teams are replaced
//! unconditionally, users wholesale with one directory update if anything
//! changed, and talks by a fine-grained diff — removal and creation events
//! per disappeared or new id, one field update per changed field, and one
//! membership event per sign-up difference.  Nothing is written back, and
//! tokens are left alone.

use vstd::prelude::*;

use crate::messages::{directory, directory_of, events_of, Update, UpdateView};
use crate::storage::{
    clone_opt_string, storage_wf, talk_by_id, talk_index_of, talk_present, AttendanceMode, Role,
    Storage, StorageView, Talk, TalkView, User, UserView,
};
use crate::talks::contains_id;

verus! {

/// The ids of `from` that do not occur in `other`, in their order in
/// `from`.
pub open spec fn ids_not_in(from: Seq<u64>, other: Seq<u64>) -> Seq<u64> {
    from.filter(|id: u64| !other.contains(id))
}

/// One event per user who left the "noob" set.
pub open spec fn noob_removed_events(talk_id: u64, old_m: Seq<u64>, new_m: Seq<u64>) -> Seq<
    UpdateView,
> {
    ids_not_in(old_m, new_m).map_values(
        |user_id: u64| UpdateView::RemoveNoob { talk_id, user_id },
    )
}

/// One event per user who joined the "noob" set.
pub open spec fn noob_added_events(talk_id: u64, old_m: Seq<u64>, new_m: Seq<u64>) -> Seq<
    UpdateView,
> {
    ids_not_in(new_m, old_m).map_values(|user_id: u64| UpdateView::AddNoob { talk_id, user_id })
}

/// One event per user who left the "nerd" set.
pub open spec fn nerd_removed_events(talk_id: u64, old_m: Seq<u64>, new_m: Seq<u64>) -> Seq<
    UpdateView,
> {
    ids_not_in(old_m, new_m).map_values(
        |user_id: u64| UpdateView::RemoveNerd { talk_id, user_id },
    )
}

/// One event per user who joined the "nerd" set.
pub open spec fn nerd_added_events(talk_id: u64, old_m: Seq<u64>, new_m: Seq<u64>) -> Seq<
    UpdateView,
> {
    ids_not_in(new_m, old_m).map_values(|user_id: u64| UpdateView::AddNerd { talk_id, user_id })
}

/// The events that turn one live talk into its refreshed counterpart: one
/// per changed field, then one per sign-up difference.
pub open spec fn talk_field_events(old_t: TalkView, new_t: TalkView) -> Seq<UpdateView> {
    let talk_id = new_t.id;
    (if new_t.title != old_t.title {
        seq![UpdateView::UpdateTitle { talk_id, title: new_t.title }]
    } else {
        Seq::empty()
    }) + (if new_t.description != old_t.description {
        seq![UpdateView::UpdateDescription { talk_id, description: new_t.description }]
    } else {
        Seq::empty()
    }) + (if new_t.scheduled_at != old_t.scheduled_at {
        seq![UpdateView::UpdateScheduledAt { talk_id, scheduled_at: new_t.scheduled_at }]
    } else {
        Seq::empty()
    }) + (if new_t.duration != old_t.duration {
        seq![UpdateView::UpdateDuration { talk_id, duration: new_t.duration }]
    } else {
        Seq::empty()
    }) + (if new_t.location != old_t.location {
        seq![UpdateView::UpdateLocation { talk_id, location: new_t.location }]
    } else {
        Seq::empty()
    }) + noob_removed_events(talk_id, old_t.noobs, new_t.noobs) + noob_added_events(
        talk_id,
        old_t.noobs,
        new_t.noobs,
    ) + nerd_removed_events(talk_id, old_t.nerds, new_t.nerds) + nerd_added_events(
        talk_id,
        old_t.nerds,
        new_t.nerds,
    )
}

// ------------------------------------------------------------------
// Exec diffing.
// ------------------------------------------------------------------

/// The ids of `from` that are missing from `other`.
fn ids_missing_from(from: &Vec<u64>, other: &Vec<u64>) -> (r: Vec<u64>)
    ensures
        r@ == ids_not_in(from@, other@),
{
    let ghost pred = |id: u64| !other@.contains(id);
    let n = from.len();
    let mut r: Vec<u64> = Vec::new();
    let mut i: usize = 0;
    proof {
        reveal(Seq::filter);
        assert(from@.take(0).len() == 0);
        assert(r@ =~= from@.take(0).filter(pred));
    }
    while i < n
        invariant
            n == from.len(),
            0 <= i <= n,
            r@ == from@.take(i as int).filter(|id: u64| !other@.contains(id)),
        decreases n - i,
    {
        let ghost pred = |id: u64| !other@.contains(id);
        proof {
            reveal(Seq::filter);
            assert(from@.take(i + 1).drop_last() =~= from@.take(i as int));
            assert(from@.take(i + 1).last() == from@[i as int]);
        }
        let ghost r0 = r@;
        if !contains_id(other, from[i]) {
            r.push(from[i]);
            proof {
                reveal(Seq::filter);
                assert(pred(from@.take(i + 1).last()));
                assert(from@.take(i + 1).filter(pred) == from@.take(i as int).filter(pred).push(
                    from@[i as int],
                ));
            }
        } else {
            proof {
                reveal(Seq::filter);
                assert(!pred(from@.take(i + 1).last()));
                assert(from@.take(i + 1).filter(pred) == from@.take(i as int).filter(pred));
            }
        }
        i += 1;
    }
    proof {
        assert(from@.take(n as int) =~= from@);
    }
    r
}

/// One `RemoveNoob` event per id.
fn noob_removed_updates(talk_id: u64, ids: &Vec<u64>) -> (r: Vec<Update>)
    ensures
        events_of(r@) == ids@.map_values(
            |user_id: u64| UpdateView::RemoveNoob { talk_id, user_id },
        ),
{
    let n = ids.len();
    let mut r: Vec<Update> = Vec::new();
    let mut i: usize = 0;
    while i < n
        invariant
            n == ids.len(),
            0 <= i <= n,
            r@.len() == i,
            forall|j: int|
                0 <= j < i ==> (#[trigger] r@[j])@ == (UpdateView::RemoveNoob {
                    talk_id,
                    user_id: ids@[j],
                }),
        decreases n - i,
    {
        r.push(Update::RemoveNoob { talk_id, user_id: ids[i] });
        i += 1;
    }
    proof {
        assert(events_of(r@) =~= ids@.map_values(
            |user_id: u64| UpdateView::RemoveNoob { talk_id, user_id },
        ));
    }
    r
}

/// One `AddNoob` event per id.
fn noob_added_updates(talk_id: u64, ids: &Vec<u64>) -> (r: Vec<Update>)
    ensures
        events_of(r@) == ids@.map_values(|user_id: u64| UpdateView::AddNoob { talk_id, user_id }),
{
    let n = ids.len();
    let mut r: Vec<Update> = Vec::new();
    let mut i: usize = 0;
    while i < n
        invariant
            n == ids.len(),
            0 <= i <= n,
            r@.len() == i,
            forall|j: int|
                0 <= j < i ==> (#[trigger] r@[j])@ == (UpdateView::AddNoob {
                    talk_id,
                    user_id: ids@[j],
                }),
        decreases n - i,
    {
        r.push(Update::AddNoob { talk_id, user_id: ids[i] });
        i += 1;
    }
    proof {
        assert(events_of(r@) =~= ids@.map_values(
            |user_id: u64| UpdateView::AddNoob { talk_id, user_id },
        ));
    }
    r
}

/// One `RemoveNerd` event per id.
fn nerd_removed_updates(talk_id: u64, ids: &Vec<u64>) -> (r: Vec<Update>)
    ensures
        events_of(r@) == ids@.map_values(
            |user_id: u64| UpdateView::RemoveNerd { talk_id, user_id },
        ),
{
    let n = ids.len();
    let mut r: Vec<Update> = Vec::new();
    let mut i: usize = 0;
    while i < n
        invariant
            n == ids.len(),
            0 <= i <= n,
            r@.len() == i,
            forall|j: int|
                0 <= j < i ==> (#[trigger] r@[j])@ == (UpdateView::RemoveNerd {
                    talk_id,
                    user_id: ids@[j],
                }),
        decreases n - i,
    {
        r.push(Update::RemoveNerd { talk_id, user_id: ids[i] });
        i += 1;
    }
    proof {
        assert(events_of(r@) =~= ids@.map_values(
            |user_id: u64| UpdateView::RemoveNerd { talk_id, user_id },
        ));
    }
    r
}

/// One `AddNerd` event per id.
fn nerd_added_updates(talk_id: u64, ids: &Vec<u64>) -> (r: Vec<Update>)
    ensures
        events_of(r@) == ids@.map_values(|user_id: u64| UpdateView::AddNerd { talk_id, user_id }),
{
    let n = ids.len();
    let mut r: Vec<Update> = Vec::new();
    let mut i: usize = 0;
    while i < n
        invariant
            n == ids.len(),
            0 <= i <= n,
            r@.len() == i,
            forall|j: int|
                0 <= j < i ==> (#[trigger] r@[j])@ == (UpdateView::AddNerd {
                    talk_id,
                    user_id: ids@[j],
                }),
        decreases n - i,
    {
        r.push(Update::AddNerd { talk_id, user_id: ids[i] });
        i += 1;
    }
    proof {
        assert(events_of(r@) =~= ids@.map_values(
            |user_id: u64| UpdateView::AddNerd { talk_id, user_id },
        ));
    }
    r
}

/// Compare two strings.
fn str_eq(a: &String, b: &String) -> (r: bool)
    ensures
        r == (a@ == b@),
{
    *a == *b
}

/// Compare two optional schedule times.
fn opt_u64_eq(a: &Option<u64>, b: &Option<u64>) -> (r: bool)
    ensures
        r == (a == b),
{
    match (a, b) {
        (Some(x), Some(y)) => *x == *y,
        (None, None) => true,
        _ => false,
    }
}

/// Compare two optional locations at the view level.
fn opt_string_eq(a: &Option<String>, b: &Option<String>) -> (r: bool)
    ensures
        r == ({
            let av = match a {
                Some(s) => Some(s@),
                None => None,
            };
            let bv = match b {
                Some(s) => Some(s@),
                None => None,
            };
            av == bv
        }),
{
    match (a, b) {
        (Some(x), Some(y)) => *x == *y,
        (None, None) => true,
        _ => false,
    }
}

/// The events that turn the live talk into the refreshed one.  Both talks
/// carry the same id: the reconciler only diffs matching ids.
#[verifier::rlimit(100)]
pub fn update_existing_talk(existing_talk: &Talk, refreshed_talk: &Talk) -> (events: Vec<Update>)
    requires
        existing_talk@.id == refreshed_talk@.id,
    ensures
        events_of(events@) == talk_field_events(existing_talk@, refreshed_talk@),
{
    let talk_id = refreshed_talk.id;
    let mut events: Vec<Update> = Vec::new();
    let ghost old_t = existing_talk@;
    let ghost new_t = refreshed_talk@;
    if !str_eq(&refreshed_talk.title, &existing_talk.title) {
        events.push(Update::UpdateTitle { talk_id, title: refreshed_talk.title.clone() });
    }
    let ghost seg1 = events_of(events@);
    proof {
        assert(seg1 =~= (if new_t.title != old_t.title {
            seq![UpdateView::UpdateTitle { talk_id, title: new_t.title }]
        } else {
            Seq::<UpdateView>::empty()
        }));
    }
    if !str_eq(&refreshed_talk.description, &existing_talk.description) {
        events.push(
            Update::UpdateDescription {
                talk_id,
                description: refreshed_talk.description.clone(),
            },
        );
    }
    let ghost seg2 = events_of(events@);
    proof {
        assert(seg2 =~= seg1 + (if new_t.description != old_t.description {
            seq![UpdateView::UpdateDescription { talk_id, description: new_t.description }]
        } else {
            Seq::<UpdateView>::empty()
        }));
    }
    if !opt_u64_eq(&refreshed_talk.scheduled_at, &existing_talk.scheduled_at) {
        events.push(
            Update::UpdateScheduledAt { talk_id, scheduled_at: refreshed_talk.scheduled_at },
        );
    }
    let ghost seg3 = events_of(events@);
    proof {
        assert(seg3 =~= seg2 + (if new_t.scheduled_at != old_t.scheduled_at {
            seq![UpdateView::UpdateScheduledAt { talk_id, scheduled_at: new_t.scheduled_at }]
        } else {
            Seq::<UpdateView>::empty()
        }));
    }
    if refreshed_talk.duration != existing_talk.duration {
        events.push(Update::UpdateDuration { talk_id, duration: refreshed_talk.duration });
    }
    let ghost seg4 = events_of(events@);
    proof {
        assert(seg4 =~= seg3 + (if new_t.duration != old_t.duration {
            seq![UpdateView::UpdateDuration { talk_id, duration: new_t.duration }]
        } else {
            Seq::<UpdateView>::empty()
        }));
    }
    if !opt_string_eq(&refreshed_talk.location, &existing_talk.location) {
        events.push(
            Update::UpdateLocation {
                talk_id,
                location: clone_opt_string(&refreshed_talk.location),
            },
        );
    }
    let ghost seg5 = events_of(events@);
    proof {
        assert(seg5 =~= seg4 + (if new_t.location != old_t.location {
            seq![UpdateView::UpdateLocation { talk_id, location: new_t.location }]
        } else {
            Seq::<UpdateView>::empty()
        }));
    }
    let removed_noobs = ids_missing_from(&existing_talk.noobs, &refreshed_talk.noobs);
    let mut removed_noob_events = noob_removed_updates(talk_id, &removed_noobs);
    events.append(&mut removed_noob_events);
    let added_noobs = ids_missing_from(&refreshed_talk.noobs, &existing_talk.noobs);
    let mut added_noob_events = noob_added_updates(talk_id, &added_noobs);
    events.append(&mut added_noob_events);
    let removed_nerds = ids_missing_from(&existing_talk.nerds, &refreshed_talk.nerds);
    let mut removed_nerd_events = nerd_removed_updates(talk_id, &removed_nerds);
    events.append(&mut removed_nerd_events);
    let added_nerds = ids_missing_from(&refreshed_talk.nerds, &existing_talk.nerds);
    let mut added_nerd_events = nerd_added_updates(talk_id, &added_nerds);
    events.append(&mut added_nerd_events);
    proof {
        assert(events_of(events@) =~= seg5 + noob_removed_events(talk_id, old_t.noobs, new_t.noobs)
            + noob_added_events(talk_id, old_t.noobs, new_t.noobs) + nerd_removed_events(
            talk_id,
            old_t.nerds,
            new_t.nerds,
        ) + nerd_added_events(talk_id, old_t.nerds, new_t.nerds));
        assert(events_of(events@) =~= talk_field_events(old_t, new_t));
    }
    events
}

// ------------------------------------------------------------------
// The whole reconciliation pass.
// ------------------------------------------------------------------

/// The one users event of a pass: nothing when the user list is unchanged,
/// else a single full directory update.
pub open spec fn users_events(old_users: Seq<UserView>, new_users: Seq<UserView>) -> Seq<
    UpdateView,
> {
    if new_users == old_users {
        Seq::empty()
    } else {
        seq![UpdateView::Users { users: directory_of(new_users) }]
    }
}

/// One removal event per talk id that disappeared, in live-store order.
pub open spec fn removed_talk_events(old_talks: Seq<TalkView>, new_talks: Seq<TalkView>) -> Seq<
    UpdateView,
> {
    old_talks.filter(|t: TalkView| !talk_present(new_talks, t.id)).map_values(
        |t: TalkView| UpdateView::RemoveTalk { talk_id: t.id },
    )
}

/// The events one refreshed talk contributes: a full creation event for a
/// new id, a field-by-field diff for a known one.
pub open spec fn per_refreshed_talk(old_talks: Seq<TalkView>, new_talk: TalkView) -> Seq<
    UpdateView,
> {
    if talk_present(old_talks, new_talk.id) {
        talk_field_events(talk_by_id(old_talks, new_talk.id), new_talk)
    } else {
        seq![UpdateView::AddTalk { talk: new_talk }]
    }
}

/// The events of the first `n` refreshed talks, in snapshot order.
pub open spec fn talk_events_upto(
    old_talks: Seq<TalkView>,
    new_talks: Seq<TalkView>,
    n: int,
) -> Seq<UpdateView>
    decreases n,
{
    if n <= 0 {
        Seq::empty()
    } else {
        talk_events_upto(old_talks, new_talks, n - 1) + per_refreshed_talk(
            old_talks,
            new_talks[n - 1],
        )
    }
}

/// Everything a reconciliation pass promises: the snapshot replaces teams,
/// users and talks, tokens stay, and the events are exactly the users
/// update, then the removals, then the per-talk additions and diffs.
pub open spec fn refresh_outcome(
    pre: StorageView,
    fresh: StorageView,
    post: StorageView,
    events: Seq<UpdateView>,
) -> bool {
    &&& post.teams == fresh.teams
    &&& post.users == fresh.users
    &&& post.talks == fresh.talks
    &&& post.tokens == pre.tokens
    &&& events == users_events(pre.users, fresh.users) + removed_talk_events(
        pre.talks,
        fresh.talks,
    ) + talk_events_upto(pre.talks, fresh.talks, fresh.talks.len() as int)
}

/// Whether a talk with this id occurs in the list.
fn talk_id_known(talks: &Vec<Talk>, id: u64) -> (r: bool)
    ensures
        r == talk_present(talks@.map_values(|t: Talk| t@), id),
{
    let n = talks.len();
    let mut i: usize = 0;
    while i < n
        invariant
            n == talks.len(),
            0 <= i <= n,
            forall|j: int| 0 <= j < i ==> (#[trigger] talks@[j])@.id != id,
        decreases n - i,
    {
        if talks[i].id == id {
            assert(talks@.map_values(|t: Talk| t@)[i as int].id == id);
            return true;
        }
        i += 1;
    }
    assert(!talk_present(talks@.map_values(|t: Talk| t@), id));
    false
}

/// Compare two role lists.
fn roles_equal(a: &Vec<Role>, b: &Vec<Role>) -> (r: bool)
    ensures
        r == (a@ == b@),
{
    if a.len() != b.len() {
        return false;
    }
    let n = a.len();
    let mut i: usize = 0;
    while i < n
        invariant
            n == a.len() == b.len(),
            0 <= i <= n,
            forall|j: int| 0 <= j < i ==> a@[j] == b@[j],
        decreases n - i,
    {
        if a[i] != b[i] {
            return false;
        }
        i += 1;
    }
    proof {
        assert(a@ =~= b@);
    }
    true
}

/// Compare two users at the view level.
fn user_eq(a: &User, b: &User) -> (r: bool)
    ensures
        r == (a@ == b@),
{
    let r = a.id == b.id && str_eq(&a.name, &b.name) && str_eq(&a.team, &b.team)
        && a.attendance_mode == b.attendance_mode && str_eq(&a.hash, &b.hash) && roles_equal(
        &a.roles,
        &b.roles,
    );
    proof {
        if r {
            assert(a@ =~= b@);
        }
    }
    r
}

/// Compare two user lists at the view level.
fn users_equal(a: &Vec<User>, b: &Vec<User>) -> (r: bool)
    ensures
        r == (a@.map_values(|u: User| u@) == b@.map_values(|u: User| u@)),
{
    let ghost av = a@.map_values(|u: User| u@);
    let ghost bv = b@.map_values(|u: User| u@);
    if a.len() != b.len() {
        assert(av.len() != bv.len());
        return false;
    }
    let n = a.len();
    let mut i: usize = 0;
    while i < n
        invariant
            n == a.len() == b.len(),
            0 <= i <= n,
            forall|j: int| 0 <= j < i ==> (#[trigger] a@[j])@ == b@[j]@,
        decreases n - i,
    {
        if !user_eq(&a[i], &b[i]) {
            assert(a@.map_values(|u: User| u@)[i as int] != b@.map_values(|u: User| u@)[i as int]);
            return false;
        }
        i += 1;
    }
    proof {
        assert(av =~= bv);
    }
    true
}

impl Storage {
    /// Merge a freshly loaded snapshot into the live store and return the
    /// events that bring every client up to date.  The snapshot wins;
    /// nothing is written back, and tokens are untouched.
    pub fn refresh(&mut self, fresh: Storage) -> (events: Vec<Update>)
        requires
            storage_wf(old(self)@),
            storage_wf(fresh@),
        ensures
            storage_wf(final(self)@),
            refresh_outcome(old(self)@, fresh@, final(self)@, events_of(events@)),
    {
        let ghost pre = self@;
        let ghost fv = fresh@;
        let mut events: Vec<Update> = Vec::new();
        if !users_equal(&self.users, &fresh.users) {
            events.push(Update::Users { users: directory(&fresh.users) });
        }
        proof {
            assert(events_of(events@) =~= users_events(pre.users, fv.users));
        }
        let ghost seg_users = events_of(events@);
        let ghost pred = |t: TalkView| !talk_present(fv.talks, t.id);
        let n_old = self.talks.len();
        let mut i: usize = 0;
        proof {
            reveal(Seq::filter);
            assert(pre.talks.take(0).len() == 0);
            assert(events_of(events@) =~= seg_users + pre.talks.take(0).filter(pred).map_values(
                |t: TalkView| UpdateView::RemoveTalk { talk_id: t.id },
            ));
        }
        while i < n_old
            invariant
                n_old == self.talks.len(),
                old(self)@ == self@,
                pre == self@,
                fv == fresh@,
                seg_users == users_events(pre.users, fv.users),
                0 <= i <= n_old,
                events_of(events@) == seg_users + pre.talks.take(i as int).filter(
                    |t: TalkView| !talk_present(fv.talks, t.id),
                ).map_values(|t: TalkView| UpdateView::RemoveTalk { talk_id: t.id }),
            decreases n_old - i,
        {
            let ghost pred = |t: TalkView| !talk_present(fv.talks, t.id);
            let ghost mk = |t: TalkView| UpdateView::RemoveTalk { talk_id: t.id };
            proof {
                reveal(Seq::filter);
                assert(pre.talks.take(i + 1).drop_last() =~= pre.talks.take(i as int));
                assert(pre.talks.take(i + 1).last() == pre.talks[i as int]);
            }
            let ghost ev0 = events_of(events@);
            if !talk_id_known(&fresh.talks, self.talks[i].id) {
                events.push(Update::RemoveTalk { talk_id: self.talks[i].id });
                proof {
                    reveal(Seq::filter);
                    assert(pred(pre.talks.take(i + 1).last()));
                    assert(pre.talks.take(i + 1).filter(pred) == pre.talks.take(i as int).filter(
                        pred,
                    ).push(pre.talks[i as int]));
                    assert(pre.talks.take(i + 1).filter(pred).map_values(mk) =~= pre.talks.take(
                        i as int,
                    ).filter(pred).map_values(mk).push(mk(pre.talks[i as int])));
                    assert(events_of(events@) =~= ev0.push(mk(pre.talks[i as int])));
                }
            } else {
                proof {
                    reveal(Seq::filter);
                    assert(!pred(pre.talks.take(i + 1).last()));
                    assert(pre.talks.take(i + 1).filter(pred) == pre.talks.take(i as int).filter(
                        pred,
                    ));
                }
            }
            i += 1;
        }
        proof {
            assert(pre.talks.take(n_old as int) =~= pre.talks);
            assert(events_of(events@) == seg_users + removed_talk_events(pre.talks, fv.talks));
        }
        let ghost seg_removed = removed_talk_events(pre.talks, fv.talks);
        let n_new = fresh.talks.len();
        let mut j: usize = 0;
        while j < n_new
            invariant
                n_new == fresh.talks.len(),
                old(self)@ == self@,
                pre == self@,
                fv == fresh@,
                storage_wf(pre),
                seg_users == users_events(pre.users, fv.users),
                seg_removed == removed_talk_events(pre.talks, fv.talks),
                0 <= j <= n_new,
                events_of(events@) == seg_users + seg_removed + talk_events_upto(
                    pre.talks,
                    fv.talks,
                    j as int,
                ),
            decreases n_new - j,
        {
            let ghost ev0 = events_of(events@);
            let talk_id = fresh.talks[j].id;
            proof {
                assert(fv.talks[j as int].id == talk_id);
            }
            match self.talk_position(talk_id) {
                Some(k) => {
                    proof {
                        assert(pre.talks[k as int] == talk_by_id(pre.talks, talk_id));
                        assert(pre.talks[k as int].id == talk_id);
                    }
                    let mut diff = update_existing_talk(&self.talks[k], &fresh.talks[j]);
                    events.append(&mut diff);
                    proof {
                        assert(per_refreshed_talk(pre.talks, fv.talks[j as int])
                            == talk_field_events(
                            talk_by_id(pre.talks, talk_id),
                            fv.talks[j as int],
                        ));
                    }
                },
                None => {
                    events.push(Update::AddTalk { talk: fresh.talks[j].clone_talk() });
                    proof {
                        assert(per_refreshed_talk(pre.talks, fv.talks[j as int]) == seq![
                            UpdateView::AddTalk { talk: fv.talks[j as int] },
                        ]);
                    }
                },
            }
            proof {
                assert(talk_events_upto(pre.talks, fv.talks, j + 1) == talk_events_upto(
                    pre.talks,
                    fv.talks,
                    j as int,
                ) + per_refreshed_talk(pre.talks, fv.talks[j as int]));
                assert(events_of(events@) =~= ev0 + per_refreshed_talk(
                    pre.talks,
                    fv.talks[j as int],
                ));
                assert(events_of(events@) =~= seg_users + seg_removed + talk_events_upto(
                    pre.talks,
                    fv.talks,
                    j + 1,
                ));
            }
            j += 1;
        }
        let Storage { teams, users, talks, tokens: _ } = fresh;
        self.teams = teams;
        self.users = users;
        self.talks = talks;
        proof {
            assert(self@.teams == fv.teams);
            assert(self@.users == fv.users);
            assert(self@.talks == fv.talks);
            assert(self@.tokens == pre.tokens);
        }
        events
    }
}

// ------------------------------------------------------------------
// Idempotence.
// ------------------------------------------------------------------

/// A set diffed against itself yields nothing.
proof fn lemma_ids_not_in_self(m: Seq<u64>)
    ensures
        ids_not_in(m, m).len() == 0,
{
    broadcast use vstd::seq_lib::group_filter_ensures;

    let pred = |id: u64| !m.contains(id);
    let f = m.filter(pred);
    if f.len() > 0 {
        assert(pred(f[0]));
        assert(f.contains(f[0]));
        m.lemma_filter_contains_rev(pred, f[0]);
    }
}

/// A talk diffed against itself yields no events.
proof fn lemma_talk_field_events_self(t: TalkView)
    ensures
        talk_field_events(t, t).len() == 0,
{
    lemma_ids_not_in_self(t.noobs);
    lemma_ids_not_in_self(t.nerds);
}

/// A talk list diffed against itself yields no removal events.
proof fn lemma_removed_talk_events_self(talks: Seq<TalkView>)
    ensures
        removed_talk_events(talks, talks).len() == 0,
{
    broadcast use vstd::seq_lib::group_filter_ensures;

    let pred = |t: TalkView| !talk_present(talks, t.id);
    let f = talks.filter(pred);
    if f.len() > 0 {
        assert(pred(f[0]));
        assert(f.contains(f[0]));
        talks.lemma_filter_contains_rev(pred, f[0]);
        let k = choose|k: int| 0 <= k < talks.len() && talks[k] == f[0];
        assert(talks[k].id == f[0].id);
        assert(talk_present(talks, f[0].id));
    }
}

/// A talk list refreshed from itself yields no per-talk events, as long as
/// ids are unique.
proof fn lemma_talk_events_upto_self(talks: Seq<TalkView>, n: int)
    requires
        forall|a: int, b: int| 0 <= a < b < talks.len() ==> talks[a].id != talks[b].id,
        0 <= n <= talks.len(),
    ensures
        talk_events_upto(talks, talks, n).len() == 0,
    decreases n,
{
    if n > 0 {
        lemma_talk_events_upto_self(talks, n - 1);
        let t = talks[n - 1];
        assert(talk_present(talks, t.id));
        let k = talk_index_of(talks, t.id);
        assert(0 <= k < talks.len() && talks[k].id == t.id);
        if k != n - 1 {
            assert(false);
        }
        assert(talk_by_id(talks, t.id) == t);
        lemma_talk_field_events_self(t);
    }
}

/// Law: reconciliation is idempotent.  A second pass against the same
/// snapshot, with no external change in between, produces zero events and
/// leaves the store as it was.
pub proof fn lemma_refresh_idempotent(
    pre: StorageView,
    fresh: StorageView,
    mid: StorageView,
    e1: Seq<UpdateView>,
    post: StorageView,
    e2: Seq<UpdateView>,
)
    requires
        storage_wf(fresh),
        refresh_outcome(pre, fresh, mid, e1),
        refresh_outcome(mid, fresh, post, e2),
    ensures
        e2.len() == 0,
        post == mid,
{
    assert(users_events(mid.users, fresh.users).len() == 0);
    lemma_removed_talk_events_self(fresh.talks);
    lemma_talk_events_upto_self(fresh.talks, fresh.talks.len() as int);
    assert(e2 =~= Seq::<UpdateView>::empty());
    assert(post =~= mid);
}

} // verus!
