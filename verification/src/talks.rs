//! The command engine: one authorized command in, a store change and its
//! broadcast events out.
//!
//! `trigger` is the single entry point of a connection's active phase: it
//! gates the command through the authorization model, applies the matching
//! mutation, and returns the events to publish — a denied command is a
//! silent no-op.  Each mutation has an exact `..._post` predicate; the
//! `trigger_outcome` predicate combines them with the authorization
//! decision.

use vstd::prelude::*;

use crate::authorization::{authorized, Capability};
use crate::messages::{directory, directory_of, events_of, Command, Update, UpdateView};
use crate::storage::{
    clone_opt_string, copy_ids, max_talk_id, storage_wf, talk_by_id, talk_index_of, talk_present,
    talk_wf, talks_wf, AttendanceMode, Storage, StorageView, Talk, TalkView, UserView, user_by_id,
    id_present, user_index_by_id, users_wf,
};

verus! {

/// The store with only its talks replaced.
pub open spec fn talks_replaced(pre: StorageView, talks: Seq<TalkView>) -> StorageView {
    StorageView { teams: pre.teams, users: pre.users, talks, tokens: pre.tokens }
}

/// The store with the talk of this id replaced.
pub open spec fn talk_updated(pre: StorageView, talk_id: u64, new_talk: TalkView) -> StorageView {
    talks_replaced(pre, pre.talks.update(talk_index_of(pre.talks, talk_id), new_talk))
}

/// The talk a creation command produces: next free id, creator set to the
/// session user, no schedule, no location, empty sign-up sets.
pub open spec fn created_talk(
    pre: StorageView,
    user_id: u64,
    title: Seq<char>,
    description: Seq<char>,
    duration: u64,
) -> TalkView {
    TalkView {
        id: (max_talk_id(pre.talks) + 1) as u64,
        creator: user_id,
        title,
        description,
        scheduled_at: None,
        duration,
        location: None,
        nerds: Seq::empty(),
        noobs: Seq::empty(),
    }
}

/// What creating a talk does.
pub open spec fn add_talk_post(
    pre: StorageView,
    user_id: u64,
    title: Seq<char>,
    description: Seq<char>,
    duration: u64,
    post: StorageView,
    events: Seq<UpdateView>,
) -> bool {
    let talk = created_talk(pre, user_id, title, description, duration);
    &&& post == talks_replaced(pre, pre.talks.push(talk))
    &&& events == seq![UpdateView::AddTalk { talk }]
}

/// What removing a talk does: nothing when the id is unknown.
pub open spec fn remove_talk_post(
    pre: StorageView,
    talk_id: u64,
    post: StorageView,
    events: Seq<UpdateView>,
) -> bool {
    if talk_present(pre.talks, talk_id) {
        &&& post == talks_replaced(pre, pre.talks.remove(talk_index_of(pre.talks, talk_id)))
        &&& events == seq![UpdateView::RemoveTalk { talk_id }]
    } else {
        &&& post == pre
        &&& events.len() == 0
    }
}

/// What retitling a talk does.
pub open spec fn update_title_post(
    pre: StorageView,
    talk_id: u64,
    title: Seq<char>,
    post: StorageView,
    events: Seq<UpdateView>,
) -> bool {
    if talk_present(pre.talks, talk_id) {
        let t = talk_by_id(pre.talks, talk_id);
        let nt = TalkView { title, ..t };
        &&& post == talk_updated(pre, talk_id, nt)
        &&& events == seq![UpdateView::UpdateTitle { talk_id, title }]
    } else {
        &&& post == pre
        &&& events.len() == 0
    }
}

/// What changing a talk's description does.
pub open spec fn update_description_post(
    pre: StorageView,
    talk_id: u64,
    description: Seq<char>,
    post: StorageView,
    events: Seq<UpdateView>,
) -> bool {
    if talk_present(pre.talks, talk_id) {
        let t = talk_by_id(pre.talks, talk_id);
        let nt = TalkView { description, ..t };
        &&& post == talk_updated(pre, talk_id, nt)
        &&& events == seq![UpdateView::UpdateDescription { talk_id, description }]
    } else {
        &&& post == pre
        &&& events.len() == 0
    }
}

/// What scheduling or unscheduling a talk does.
pub open spec fn update_scheduled_at_post(
    pre: StorageView,
    talk_id: u64,
    scheduled_at: Option<u64>,
    post: StorageView,
    events: Seq<UpdateView>,
) -> bool {
    if talk_present(pre.talks, talk_id) {
        let t = talk_by_id(pre.talks, talk_id);
        let nt = TalkView { scheduled_at, ..t };
        &&& post == talk_updated(pre, talk_id, nt)
        &&& events == seq![UpdateView::UpdateScheduledAt { talk_id, scheduled_at }]
    } else {
        &&& post == pre
        &&& events.len() == 0
    }
}

/// What changing a talk's duration does.
pub open spec fn update_duration_post(
    pre: StorageView,
    talk_id: u64,
    duration: u64,
    post: StorageView,
    events: Seq<UpdateView>,
) -> bool {
    if talk_present(pre.talks, talk_id) {
        let t = talk_by_id(pre.talks, talk_id);
        let nt = TalkView { duration, ..t };
        &&& post == talk_updated(pre, talk_id, nt)
        &&& events == seq![UpdateView::UpdateDuration { talk_id, duration }]
    } else {
        &&& post == pre
        &&& events.len() == 0
    }
}

/// What moving a talk to another location does.
pub open spec fn update_location_post(
    pre: StorageView,
    talk_id: u64,
    location: Option<Seq<char>>,
    post: StorageView,
    events: Seq<UpdateView>,
) -> bool {
    if talk_present(pre.talks, talk_id) {
        let t = talk_by_id(pre.talks, talk_id);
        let nt = TalkView { location, ..t };
        &&& post == talk_updated(pre, talk_id, nt)
        &&& events == seq![UpdateView::UpdateLocation { talk_id, location }]
    } else {
        &&& post == pre
        &&& events.len() == 0
    }
}

/// What toggling the session user's "nerd" sign-up does.  A user moving in
/// from the "noob" set leaves it in the same step, and exactly one
/// `UpdateNerds` and one `UpdateNoobs` event are emitted for that move.
pub open spec fn toggle_nerd_post(
    pre: StorageView,
    user_id: u64,
    talk_id: u64,
    post: StorageView,
    events: Seq<UpdateView>,
) -> bool {
    if talk_present(pre.talks, talk_id) {
        let t = talk_by_id(pre.talks, talk_id);
        if t.nerds.contains(user_id) {
            let nt = TalkView { nerds: t.nerds.remove_value(user_id), ..t };
            &&& post == talk_updated(pre, talk_id, nt)
            &&& events == seq![UpdateView::UpdateNerds { talk_id, members: nt.nerds }]
        } else if t.noobs.contains(user_id) {
            let nt = TalkView {
                nerds: t.nerds.push(user_id),
                noobs: t.noobs.remove_value(user_id),
                ..t
            };
            &&& post == talk_updated(pre, talk_id, nt)
            &&& events == seq![
                UpdateView::UpdateNerds { talk_id, members: nt.nerds },
                UpdateView::UpdateNoobs { talk_id, members: nt.noobs },
            ]
        } else {
            let nt = TalkView { nerds: t.nerds.push(user_id), ..t };
            &&& post == talk_updated(pre, talk_id, nt)
            &&& events == seq![UpdateView::UpdateNerds { talk_id, members: nt.nerds }]
        }
    } else {
        &&& post == pre
        &&& events.len() == 0
    }
}

/// What toggling the session user's "noob" sign-up does; the mirror image
/// of `toggle_nerd_post`.
pub open spec fn toggle_noob_post(
    pre: StorageView,
    user_id: u64,
    talk_id: u64,
    post: StorageView,
    events: Seq<UpdateView>,
) -> bool {
    if talk_present(pre.talks, talk_id) {
        let t = talk_by_id(pre.talks, talk_id);
        if t.noobs.contains(user_id) {
            let nt = TalkView { noobs: t.noobs.remove_value(user_id), ..t };
            &&& post == talk_updated(pre, talk_id, nt)
            &&& events == seq![UpdateView::UpdateNoobs { talk_id, members: nt.noobs }]
        } else if t.nerds.contains(user_id) {
            let nt = TalkView {
                nerds: t.nerds.remove_value(user_id),
                noobs: t.noobs.push(user_id),
                ..t
            };
            &&& post == talk_updated(pre, talk_id, nt)
            &&& events == seq![
                UpdateView::UpdateNerds { talk_id, members: nt.nerds },
                UpdateView::UpdateNoobs { talk_id, members: nt.noobs },
            ]
        } else {
            let nt = TalkView { noobs: t.noobs.push(user_id), ..t };
            &&& post == talk_updated(pre, talk_id, nt)
            &&& events == seq![UpdateView::UpdateNoobs { talk_id, members: nt.noobs }]
        }
    } else {
        &&& post == pre
        &&& events.len() == 0
    }
}

/// What changing a user's attendance mode does.
pub open spec fn set_attendance_mode_post(
    pre: StorageView,
    user_id: u64,
    attendance_mode: AttendanceMode,
    post: StorageView,
    events: Seq<UpdateView>,
) -> bool {
    if id_present(pre.users, user_id) {
        let u = user_by_id(pre.users, user_id);
        let nu = UserView { attendance_mode, ..u };
        &&& post == (StorageView {
            users: pre.users.update(user_index_by_id(pre.users, user_id), nu),
            ..pre
        })
        &&& events == seq![UpdateView::UpdateAttendanceMode { user_id, attendance_mode }]
    } else {
        &&& post == pre
        &&& events.len() == 0
    }
}

/// Everything `trigger` promises: a denied command changes nothing and
/// emits nothing; an allowed one behaves as its `..._post` predicate says.
pub open spec fn trigger_outcome(
    pre: StorageView,
    user_id: u64,
    capabilities: Seq<Capability>,
    command: Command,
    post: StorageView,
    events: Seq<UpdateView>,
) -> bool {
    if !authorized(user_id, capabilities, pre.talks, command) {
        &&& post == pre
        &&& events.len() == 0
    } else {
        match command {
            Command::AddTalk { title, description, duration } => add_talk_post(
                pre,
                user_id,
                title@,
                description@,
                duration,
                post,
                events,
            ),
            Command::RemoveTalk { talk_id } => remove_talk_post(pre, talk_id, post, events),
            Command::UpdateTitle { talk_id, title } => update_title_post(
                pre,
                talk_id,
                title@,
                post,
                events,
            ),
            Command::UpdateDescription { talk_id, description } => update_description_post(
                pre,
                talk_id,
                description@,
                post,
                events,
            ),
            Command::UpdateScheduledAt { talk_id, scheduled_at } => update_scheduled_at_post(
                pre,
                talk_id,
                scheduled_at,
                post,
                events,
            ),
            Command::UpdateDuration { talk_id, duration } => update_duration_post(
                pre,
                talk_id,
                duration,
                post,
                events,
            ),
            Command::UpdateLocation { talk_id, location } => update_location_post(
                pre,
                talk_id,
                match location {
                    Some(l) => Some(l@),
                    None => None,
                },
                post,
                events,
            ),
            Command::ToggleNerd { talk_id } => toggle_nerd_post(
                pre,
                user_id,
                talk_id,
                post,
                events,
            ),
            Command::ToggleNoob { talk_id } => toggle_noob_post(
                pre,
                user_id,
                talk_id,
                post,
                events,
            ),
        }
    }
}

// ------------------------------------------------------------------
// Sign-up list helpers.
// ------------------------------------------------------------------

/// Membership test on an id list.
pub fn contains_id(v: &Vec<u64>, id: u64) -> (r: bool)
    ensures
        r == v@.contains(id),
{
    let n = v.len();
    let mut i: usize = 0;
    while i < n
        invariant
            n == v.len(),
            0 <= i <= n,
            forall|j: int| 0 <= j < i ==> v@[j] != id,
        decreases n - i,
    {
        if v[i] == id {
            return true;
        }
        i += 1;
    }
    false
}

/// Remove the first occurrence of an id.
pub(crate) fn remove_id(v: &mut Vec<u64>, id: u64)
    requires
        old(v)@.contains(id),
    ensures
        final(v)@ == old(v)@.remove_value(id),
{
    let n = v.len();
    let mut i: usize = 0;
    while i < n
        invariant
            n == v.len(),
            v@ == old(v)@,
            v@.contains(id),
            0 <= i <= n,
            forall|j: int| 0 <= j < i ==> v@[j] != id,
        decreases n - i,
    {
        if v[i] == id {
            proof {
                lemma_first_occurrence(v@, id, i as int);
            }
            v.remove(i);
            return ;
        }
        i += 1;
    }
    proof {
        assert(!v@.contains(id));
    }
}

/// A position before which the value does not occur is its first
/// occurrence.
proof fn lemma_first_occurrence(s: Seq<u64>, id: u64, i: int)
    requires
        0 <= i < s.len(),
        s[i] == id,
        forall|j: int| 0 <= j < i ==> s[j] != id,
    ensures
        s.remove_value(id) == s.remove(i),
{
    assert(s.contains(id));
    s.index_of_first_ensures(id);
    let k = s.index_of_first(id)->0;
    if k < i {
        assert(s[k] != id);
    }
    if k > i {
        assert(s[i] != id);
    }
}

/// Removing one position of a duplicate-free id list keeps it
/// duplicate-free, drops that id, and keeps every other id.
proof fn lemma_remove_at(s: Seq<u64>, i: int)
    requires
        0 <= i < s.len(),
        forall|a: int, b: int| 0 <= a < b < s.len() ==> s[a] != s[b],
    ensures
        forall|a: int, b: int|
            0 <= a < b < s.remove(i).len() ==> s.remove(i)[a] != s.remove(i)[b],
        !s.remove(i).contains(s[i]),
        forall|x: u64| x != s[i] ==> s.remove(i).contains(x) == s.contains(x),
{
    s.remove_ensures(i);
    let r = s.remove(i);
    assert forall|a: int, b: int| 0 <= a < b < r.len() implies r[a] != r[b] by {
        let sa: int = if a < i {
            a
        } else {
            a + 1
        };
        let sb: int = if b < i {
            b
        } else {
            b + 1
        };
        assert(r[a] == s[sa] && r[b] == s[sb]);
    }
    if r.contains(s[i]) {
        let a = choose|a: int| 0 <= a < r.len() && r[a] == s[i];
        let sa: int = if a < i {
            a
        } else {
            a + 1
        };
        assert(r[a] == s[sa]);
    }
    assert forall|x: u64| x != s[i] implies r.contains(x) == s.contains(x) by {
        if r.contains(x) {
            let a = choose|a: int| 0 <= a < r.len() && r[a] == x;
            let sa: int = if a < i {
                a
            } else {
                a + 1
            };
            assert(s[sa] == x);
        }
        if s.contains(x) {
            let a = choose|a: int| 0 <= a < s.len() && s[a] == x;
            if a < i {
                assert(r[a] == x);
            } else {
                assert(a > i);
                assert(r[a - 1] == x);
            }
        }
    }
}

impl Storage {
    /// Create a talk owned by the session user, with empty sign-up sets,
    /// and return the creation event.
    pub fn add_talk(
        &mut self,
        user_id: u64,
        title: String,
        description: String,
        duration: u64,
    ) -> (events: Vec<Update>)
        requires
            storage_wf(old(self)@),
            max_talk_id(old(self)@.talks) < u64::MAX,
        ensures
            storage_wf(final(self)@),
            add_talk_post(
                old(self)@,
                user_id,
                title@,
                description@,
                duration,
                final(self)@,
                events_of(events@),
            ),
    {
        proof {
            crate::storage::lemma_max_talk_id_bound(old(self)@.talks);
        }
        let n = self.talks.len();
        let mut next: u64 = 1;
        let mut i: usize = 0;
        proof {
            assert(self@.talks.take(0).len() == 0);
        }
        while i < n
            invariant
                n == self.talks.len(),
                old(self)@ == self@,
                0 <= i <= n,
                max_talk_id(self@.talks) < u64::MAX,
                forall|j: int| 0 <= j < n ==> self@.talks[j].id as int <= max_talk_id(self@.talks),
                next as int == max_talk_id(self@.talks.take(i as int)) + 1,
            decreases n - i,
        {
            proof {
                assert(self@.talks.take(i + 1).drop_last() =~= self@.talks.take(i as int));
                assert(self@.talks.take(i + 1).last() == self@.talks[i as int]);
            }
            if self.talks[i].id >= next {
                next = self.talks[i].id + 1;
            }
            i += 1;
        }
        proof {
            assert(self@.talks.take(n as int) =~= self@.talks);
        }
        let ghost pre = self@;
        let talk = Talk {
            id: next,
            creator: user_id,
            title,
            description,
            scheduled_at: None,
            duration,
            location: None,
            nerds: Vec::new(),
            noobs: Vec::new(),
        };
        let event_talk = talk.clone_talk();
        self.talks.push(talk);
        let mut events: Vec<Update> = Vec::new();
        events.push(Update::AddTalk { talk: event_talk });
        proof {
            let ct = created_talk(pre, user_id, title@, description@, duration);
            assert(event_talk@ =~= ct);
            assert(self@.talks =~= pre.talks.push(ct));
            assert(self@ =~= talks_replaced(pre, pre.talks.push(ct)));
            assert(events_of(events@) =~= seq![UpdateView::AddTalk { talk: ct }]);
            assert forall|a: int, b: int| 0 <= a < b < self@.talks.len() implies self@.talks[a].id
                != self@.talks[b].id by {
                if b < self@.talks.len() - 1 {
                    assert(pre.talks[a].id != pre.talks[b].id);
                } else {
                    assert(self@.talks[a] == pre.talks[a]);
                    assert(pre.talks[a].id as int <= max_talk_id(pre.talks));
                }
            }
            assert forall|j: int| 0 <= j < self@.talks.len() implies talk_wf(
                #[trigger] self@.talks[j],
            ) by {
                if j < self@.talks.len() - 1 {
                    assert(talk_wf(pre.talks[j]));
                } else {
                    assert(self@.talks[j] == ct);
                }
            }
        }
        events
    }

    /// Remove the talk with this id, if it exists, and return the removal
    /// event.
    pub fn remove_talk(&mut self, talk_id: u64) -> (events: Vec<Update>)
        requires
            storage_wf(old(self)@),
        ensures
            storage_wf(final(self)@),
            remove_talk_post(old(self)@, talk_id, final(self)@, events_of(events@)),
    {
        let index = match self.talk_position(talk_id) {
            Some(i) => i,
            None => {
                return Vec::new();
            },
        };
        let ghost pre = self@;
        self.talks.remove(index);
        let mut events: Vec<Update> = Vec::new();
        events.push(Update::RemoveTalk { talk_id });
        proof {
            assert(self@.talks =~= pre.talks.remove(index as int));
            assert(self@ =~= talks_replaced(pre, pre.talks.remove(index as int)));
            assert(events_of(events@) =~= seq![UpdateView::RemoveTalk { talk_id }]);
            pre.talks.remove_ensures(index as int);
            let r = self@.talks;
            assert forall|a: int, b: int| 0 <= a < b < r.len() implies r[a].id != r[b].id by {
                let sa: int = if a < index {
                    a
                } else {
                    a + 1
                };
                let sb: int = if b < index {
                    b
                } else {
                    b + 1
                };
                assert(r[a] == pre.talks[sa] && r[b] == pre.talks[sb]);
            }
            assert forall|j: int| 0 <= j < r.len() implies talk_wf(#[trigger] r[j]) by {
                let sj: int = if j < index {
                    j
                } else {
                    j + 1
                };
                assert(r[j] == pre.talks[sj]);
                assert(talk_wf(pre.talks[sj]));
            }
        }
        events
    }
}

/// A one-field update of the talk at one index keeps the talk list
/// well-formed, provided the new talk is and the id is unchanged.
proof fn lemma_talk_update_wf(pre: Seq<TalkView>, index: int, nt: TalkView)
    requires
        talks_wf(pre),
        0 <= index < pre.len(),
        nt.id == pre[index].id,
        talk_wf(nt),
    ensures
        talks_wf(pre.update(index, nt)),
{
    let r = pre.update(index, nt);
    assert(forall|x: int| 0 <= x < r.len() ==> r[x].id == pre[x].id);
    assert forall|a: int, b: int| 0 <= a < b < r.len() implies r[a].id != r[b].id by {
        assert(pre[a].id != pre[b].id);
    }
    assert forall|j: int| 0 <= j < r.len() implies talk_wf(#[trigger] r[j]) by {
        if j != index {
            assert(r[j] == pre[j]);
            assert(talk_wf(pre[j]));
        }
    }
}

impl Storage {
    /// Retitle the talk with this id, if it exists.
    pub fn update_title(&mut self, talk_id: u64, title: String) -> (events: Vec<Update>)
        requires
            storage_wf(old(self)@),
        ensures
            storage_wf(final(self)@),
            update_title_post(old(self)@, talk_id, title@, final(self)@, events_of(events@)),
    {
        let index = match self.talk_position(talk_id) {
            Some(i) => i,
            None => {
                return Vec::new();
            },
        };
        let ghost pre = self@;
        let mut new_talk = self.talks[index].clone_talk();
        new_talk.title = title.clone();
        let ghost nt = new_talk@;
        self.talks[index] = new_talk;
        let mut events: Vec<Update> = Vec::new();
        events.push(Update::UpdateTitle { talk_id, title });
        proof {
            let t = talk_by_id(pre.talks, talk_id);
            assert(nt =~= (TalkView { title: title@, ..t }));
            assert(self@.talks =~= pre.talks.update(index as int, nt));
            assert(self@ =~= talk_updated(pre, talk_id, nt));
            assert(events_of(events@) =~= seq![
                UpdateView::UpdateTitle { talk_id, title: title@ },
            ]);
            lemma_talk_update_wf(pre.talks, index as int, nt);
        }
        events
    }

    /// Change the description of the talk with this id, if it exists.
    pub fn update_description(&mut self, talk_id: u64, description: String) -> (events: Vec<
        Update,
    >)
        requires
            storage_wf(old(self)@),
        ensures
            storage_wf(final(self)@),
            update_description_post(
                old(self)@,
                talk_id,
                description@,
                final(self)@,
                events_of(events@),
            ),
    {
        let index = match self.talk_position(talk_id) {
            Some(i) => i,
            None => {
                return Vec::new();
            },
        };
        let ghost pre = self@;
        let mut new_talk = self.talks[index].clone_talk();
        new_talk.description = description.clone();
        let ghost nt = new_talk@;
        self.talks[index] = new_talk;
        let mut events: Vec<Update> = Vec::new();
        events.push(Update::UpdateDescription { talk_id, description });
        proof {
            let t = talk_by_id(pre.talks, talk_id);
            assert(nt =~= (TalkView { description: description@, ..t }));
            assert(self@.talks =~= pre.talks.update(index as int, nt));
            assert(self@ =~= talk_updated(pre, talk_id, nt));
            assert(events_of(events@) =~= seq![
                UpdateView::UpdateDescription { talk_id, description: description@ },
            ]);
            lemma_talk_update_wf(pre.talks, index as int, nt);
        }
        events
    }

    /// Schedule or unschedule the talk with this id, if it exists.
    pub fn update_scheduled_at(&mut self, talk_id: u64, scheduled_at: Option<u64>) -> (events: Vec<
        Update,
    >)
        requires
            storage_wf(old(self)@),
        ensures
            storage_wf(final(self)@),
            update_scheduled_at_post(
                old(self)@,
                talk_id,
                scheduled_at,
                final(self)@,
                events_of(events@),
            ),
    {
        let index = match self.talk_position(talk_id) {
            Some(i) => i,
            None => {
                return Vec::new();
            },
        };
        let ghost pre = self@;
        let mut new_talk = self.talks[index].clone_talk();
        new_talk.scheduled_at = scheduled_at;
        let ghost nt = new_talk@;
        self.talks[index] = new_talk;
        let mut events: Vec<Update> = Vec::new();
        events.push(Update::UpdateScheduledAt { talk_id, scheduled_at });
        proof {
            let t = talk_by_id(pre.talks, talk_id);
            assert(nt =~= (TalkView { scheduled_at, ..t }));
            assert(self@.talks =~= pre.talks.update(index as int, nt));
            assert(self@ =~= talk_updated(pre, talk_id, nt));
            assert(events_of(events@) =~= seq![
                UpdateView::UpdateScheduledAt { talk_id, scheduled_at },
            ]);
            lemma_talk_update_wf(pre.talks, index as int, nt);
        }
        events
    }

    /// Change the duration of the talk with this id, if it exists.
    pub fn update_duration(&mut self, talk_id: u64, duration: u64) -> (events: Vec<Update>)
        requires
            storage_wf(old(self)@),
        ensures
            storage_wf(final(self)@),
            update_duration_post(old(self)@, talk_id, duration, final(self)@, events_of(events@)),
    {
        let index = match self.talk_position(talk_id) {
            Some(i) => i,
            None => {
                return Vec::new();
            },
        };
        let ghost pre = self@;
        let mut new_talk = self.talks[index].clone_talk();
        new_talk.duration = duration;
        let ghost nt = new_talk@;
        self.talks[index] = new_talk;
        let mut events: Vec<Update> = Vec::new();
        events.push(Update::UpdateDuration { talk_id, duration });
        proof {
            let t = talk_by_id(pre.talks, talk_id);
            assert(nt =~= (TalkView { duration, ..t }));
            assert(self@.talks =~= pre.talks.update(index as int, nt));
            assert(self@ =~= talk_updated(pre, talk_id, nt));
            assert(events_of(events@) =~= seq![UpdateView::UpdateDuration { talk_id, duration }]);
            lemma_talk_update_wf(pre.talks, index as int, nt);
        }
        events
    }

    /// Move the talk with this id to another location, if it exists.
    pub fn update_location(&mut self, talk_id: u64, location: Option<String>) -> (events: Vec<
        Update,
    >)
        requires
            storage_wf(old(self)@),
        ensures
            storage_wf(final(self)@),
            update_location_post(
                old(self)@,
                talk_id,
                match location {
                    Some(l) => Some(l@),
                    None => None,
                },
                final(self)@,
                events_of(events@),
            ),
    {
        let index = match self.talk_position(talk_id) {
            Some(i) => i,
            None => {
                return Vec::new();
            },
        };
        let ghost pre = self@;
        let event_location = clone_opt_string(&location);
        let mut new_talk = self.talks[index].clone_talk();
        new_talk.location = location;
        let ghost nt = new_talk@;
        self.talks[index] = new_talk;
        let mut events: Vec<Update> = Vec::new();
        events.push(Update::UpdateLocation { talk_id, location: event_location });
        proof {
            let t = talk_by_id(pre.talks, talk_id);
            let lv = nt.location;
            assert(nt =~= (TalkView { location: lv, ..t }));
            assert(self@.talks =~= pre.talks.update(index as int, nt));
            assert(self@ =~= talk_updated(pre, talk_id, nt));
            assert(events_of(events@) =~= seq![
                UpdateView::UpdateLocation { talk_id, location: lv },
            ]);
            lemma_talk_update_wf(pre.talks, index as int, nt);
        }
        events
    }
}

/// After removing one occurrence from a duplicate-free list, the removed
/// id is gone and every other id keeps its membership.
proof fn lemma_remove_value_sets(s: Seq<u64>, id: u64)
    requires
        s.contains(id),
        forall|a: int, b: int| 0 <= a < b < s.len() ==> s[a] != s[b],
    ensures
        forall|a: int, b: int|
            0 <= a < b < s.remove_value(id).len() ==> s.remove_value(id)[a] != s.remove_value(
                id,
            )[b],
        !s.remove_value(id).contains(id),
        forall|x: u64| x != id ==> s.remove_value(id).contains(x) == s.contains(x),
{
    s.index_of_first_ensures(id);
    let k = s.index_of_first(id)->0;
    assert(s.remove_value(id) == s.remove(k));
    lemma_remove_at(s, k);
}

impl Storage {
    /// Toggle the user's "nerd" sign-up on the talk with this id: leave the
    /// set when already in it, otherwise join it, leaving the "noob" set in
    /// the same step if the user was there.
    pub fn toggle_nerd(&mut self, talk_id: u64, user_id: u64) -> (events: Vec<Update>)
        requires
            storage_wf(old(self)@),
        ensures
            storage_wf(final(self)@),
            toggle_nerd_post(old(self)@, user_id, talk_id, final(self)@, events_of(events@)),
    {
        let index = match self.talk_position(talk_id) {
            Some(i) => i,
            None => {
                return Vec::new();
            },
        };
        let ghost pre = self@;
        let ghost t = talk_by_id(pre.talks, talk_id);
        let mut new_talk = self.talks[index].clone_talk();
        let mut events: Vec<Update> = Vec::new();
        if contains_id(&new_talk.nerds, user_id) {
            remove_id(&mut new_talk.nerds, user_id);
            events.push(Update::UpdateNerds { talk_id, members: copy_ids(&new_talk.nerds) });
            proof {
                lemma_remove_value_sets(t.nerds, user_id);
            }
        } else if contains_id(&new_talk.noobs, user_id) {
            new_talk.nerds.push(user_id);
            remove_id(&mut new_talk.noobs, user_id);
            events.push(Update::UpdateNerds { talk_id, members: copy_ids(&new_talk.nerds) });
            events.push(Update::UpdateNoobs { talk_id, members: copy_ids(&new_talk.noobs) });
            proof {
                lemma_remove_value_sets(t.noobs, user_id);
            }
        } else {
            new_talk.nerds.push(user_id);
            events.push(Update::UpdateNerds { talk_id, members: copy_ids(&new_talk.nerds) });
        }
        let ghost nt = new_talk@;
        self.talks[index] = new_talk;
        proof {
            assert(self@.talks =~= pre.talks.update(index as int, nt));
            assert(self@ =~= talk_updated(pre, talk_id, nt));
            lemma_toggle_wf(pre, talk_id, index as int, t, nt, user_id);
            if t.nerds.contains(user_id) {
                assert(nt =~= (TalkView { nerds: t.nerds.remove_value(user_id), ..t }));
                assert(events_of(events@) =~= seq![
                    UpdateView::UpdateNerds { talk_id, members: nt.nerds },
                ]);
            } else if t.noobs.contains(user_id) {
                assert(nt =~= (TalkView {
                    nerds: t.nerds.push(user_id),
                    noobs: t.noobs.remove_value(user_id),
                    ..t
                }));
                assert(events_of(events@) =~= seq![
                    UpdateView::UpdateNerds { talk_id, members: nt.nerds },
                    UpdateView::UpdateNoobs { talk_id, members: nt.noobs },
                ]);
            } else {
                assert(nt =~= (TalkView { nerds: t.nerds.push(user_id), ..t }));
                assert(events_of(events@) =~= seq![
                    UpdateView::UpdateNerds { talk_id, members: nt.nerds },
                ]);
            }
        }
        events
    }

    /// Toggle the user's "noob" sign-up; the mirror image of `toggle_nerd`.
    pub fn toggle_noob(&mut self, talk_id: u64, user_id: u64) -> (events: Vec<Update>)
        requires
            storage_wf(old(self)@),
        ensures
            storage_wf(final(self)@),
            toggle_noob_post(old(self)@, user_id, talk_id, final(self)@, events_of(events@)),
    {
        let index = match self.talk_position(talk_id) {
            Some(i) => i,
            None => {
                return Vec::new();
            },
        };
        let ghost pre = self@;
        let ghost t = talk_by_id(pre.talks, talk_id);
        let mut new_talk = self.talks[index].clone_talk();
        let mut events: Vec<Update> = Vec::new();
        if contains_id(&new_talk.noobs, user_id) {
            remove_id(&mut new_talk.noobs, user_id);
            events.push(Update::UpdateNoobs { talk_id, members: copy_ids(&new_talk.noobs) });
            proof {
                lemma_remove_value_sets(t.noobs, user_id);
            }
        } else if contains_id(&new_talk.nerds, user_id) {
            remove_id(&mut new_talk.nerds, user_id);
            new_talk.noobs.push(user_id);
            events.push(Update::UpdateNerds { talk_id, members: copy_ids(&new_talk.nerds) });
            events.push(Update::UpdateNoobs { talk_id, members: copy_ids(&new_talk.noobs) });
            proof {
                lemma_remove_value_sets(t.nerds, user_id);
            }
        } else {
            new_talk.noobs.push(user_id);
            events.push(Update::UpdateNoobs { talk_id, members: copy_ids(&new_talk.noobs) });
        }
        let ghost nt = new_talk@;
        self.talks[index] = new_talk;
        proof {
            assert(self@.talks =~= pre.talks.update(index as int, nt));
            assert(self@ =~= talk_updated(pre, talk_id, nt));
            lemma_toggle_wf(pre, talk_id, index as int, t, nt, user_id);
            if t.noobs.contains(user_id) {
                assert(nt =~= (TalkView { noobs: t.noobs.remove_value(user_id), ..t }));
                assert(events_of(events@) =~= seq![
                    UpdateView::UpdateNoobs { talk_id, members: nt.noobs },
                ]);
            } else if t.nerds.contains(user_id) {
                assert(nt =~= (TalkView {
                    nerds: t.nerds.remove_value(user_id),
                    noobs: t.noobs.push(user_id),
                    ..t
                }));
                assert(events_of(events@) =~= seq![
                    UpdateView::UpdateNerds { talk_id, members: nt.nerds },
                    UpdateView::UpdateNoobs { talk_id, members: nt.noobs },
                ]);
            } else {
                assert(nt =~= (TalkView { noobs: t.noobs.push(user_id), ..t }));
                assert(events_of(events@) =~= seq![
                    UpdateView::UpdateNoobs { talk_id, members: nt.noobs },
                ]);
            }
        }
        events
    }
}

/// Any single toggle step keeps the talk's sign-up sets duplicate-free and
/// disjoint, and the whole talk list well-formed.
proof fn lemma_toggle_wf(
    pre: StorageView,
    talk_id: u64,
    index: int,
    t: TalkView,
    nt: TalkView,
    user_id: u64,
)
    requires
        talks_wf(pre.talks),
        talk_present(pre.talks, talk_id),
        index == talk_index_of(pre.talks, talk_id),
        t == talk_by_id(pre.talks, talk_id),
        nt.id == t.id,
        ({
            ||| (nt.nerds == t.nerds.remove_value(user_id) && nt.noobs == t.noobs
                && t.nerds.contains(user_id))
            ||| (nt.nerds == t.nerds.push(user_id) && nt.noobs == t.noobs.remove_value(user_id)
                && !t.nerds.contains(user_id) && t.noobs.contains(user_id))
            ||| (nt.nerds == t.nerds.push(user_id) && nt.noobs == t.noobs && !t.nerds.contains(
                user_id,
            ) && !t.noobs.contains(user_id))
            ||| (nt.noobs == t.noobs.remove_value(user_id) && nt.nerds == t.nerds
                && t.noobs.contains(user_id))
            ||| (nt.noobs == t.noobs.push(user_id) && nt.nerds == t.nerds.remove_value(user_id)
                && !t.noobs.contains(user_id) && t.nerds.contains(user_id))
            ||| (nt.noobs == t.noobs.push(user_id) && nt.nerds == t.nerds && !t.noobs.contains(
                user_id,
            ) && !t.nerds.contains(user_id))
        }),
    ensures
        talk_wf(nt),
        talks_wf(pre.talks.update(index, nt)),
{
    assert(talk_wf(t));
    if t.nerds.contains(user_id) && nt.nerds == t.nerds.remove_value(user_id) {
        lemma_remove_value_sets(t.nerds, user_id);
    }
    if t.noobs.contains(user_id) && nt.noobs == t.noobs.remove_value(user_id) {
        lemma_remove_value_sets(t.noobs, user_id);
    }
    assert forall|a: int, b: int| 0 <= a < b < nt.nerds.len() implies nt.nerds[a] != nt.nerds[b] by {
        if nt.nerds == t.nerds.push(user_id) && b == nt.nerds.len() - 1 {
            assert(nt.nerds[a] == t.nerds[a]);
            if nt.nerds[a] == user_id {
                assert(t.nerds.contains(user_id));
            }
        }
    }
    assert forall|a: int, b: int| 0 <= a < b < nt.noobs.len() implies nt.noobs[a] != nt.noobs[b] by {
        if nt.noobs == t.noobs.push(user_id) && b == nt.noobs.len() - 1 {
            assert(nt.noobs[a] == t.noobs[a]);
            if nt.noobs[a] == user_id {
                assert(t.noobs.contains(user_id));
            }
        }
    }
    if nt.nerds == t.nerds.remove_value(user_id) && nt.noobs == t.noobs && t.nerds.contains(
        user_id,
    ) {
        // The user left the nerds.
        lemma_remove_value_sets(t.nerds, user_id);
        assert forall|i: int| 0 <= i < nt.nerds.len() implies !nt.noobs.contains(
            #[trigger] nt.nerds[i],
        ) by {
            let x = nt.nerds[i];
            assert(nt.nerds.contains(x));
            if x == user_id {
                assert(false);
            }
            assert(t.nerds.contains(x));
            let k = choose|k: int| 0 <= k < t.nerds.len() && t.nerds[k] == x;
            assert(!t.noobs.contains(t.nerds[k]));
        }
    } else if nt.nerds == t.nerds.push(user_id) && nt.noobs == t.noobs.remove_value(user_id)
        && !t.nerds.contains(user_id) && t.noobs.contains(user_id) {
        // The user moved from the noobs to the nerds.
        lemma_remove_value_sets(t.noobs, user_id);
        assert forall|i: int| 0 <= i < nt.nerds.len() implies !nt.noobs.contains(
            #[trigger] nt.nerds[i],
        ) by {
            let x = nt.nerds[i];
            if i == nt.nerds.len() - 1 {
                assert(x == user_id);
                assert(!nt.noobs.contains(user_id));
            } else {
                assert(x == t.nerds[i]);
                assert(!t.noobs.contains(t.nerds[i]));
                if x == user_id {
                    assert(t.nerds.contains(x));
                }
                if nt.noobs.contains(x) {
                    assert(t.noobs.contains(x));
                }
            }
        }
    } else if nt.nerds == t.nerds.push(user_id) && nt.noobs == t.noobs && !t.nerds.contains(
        user_id,
    ) && !t.noobs.contains(user_id) {
        // The user joined the nerds from outside.
        assert forall|i: int| 0 <= i < nt.nerds.len() implies !nt.noobs.contains(
            #[trigger] nt.nerds[i],
        ) by {
            let x = nt.nerds[i];
            if i == nt.nerds.len() - 1 {
                assert(x == user_id);
            } else {
                assert(x == t.nerds[i]);
                assert(!t.noobs.contains(t.nerds[i]));
            }
        }
    } else if nt.noobs == t.noobs.remove_value(user_id) && nt.nerds == t.nerds && t.noobs.contains(
        user_id,
    ) {
        // The user left the noobs.
        lemma_remove_value_sets(t.noobs, user_id);
        assert forall|i: int| 0 <= i < nt.nerds.len() implies !nt.noobs.contains(
            #[trigger] nt.nerds[i],
        ) by {
            let x = nt.nerds[i];
            assert(x == t.nerds[i]);
            assert(!t.noobs.contains(t.nerds[i]));
            if nt.noobs.contains(x) {
                if x == user_id {
                    assert(!nt.noobs.contains(user_id));
                } else {
                    assert(t.noobs.contains(x));
                }
            }
        }
    } else if nt.noobs == t.noobs.push(user_id) && nt.nerds == t.nerds.remove_value(user_id)
        && !t.noobs.contains(user_id) && t.nerds.contains(user_id) {
        // The user moved from the nerds to the noobs.
        lemma_remove_value_sets(t.nerds, user_id);
        assert forall|i: int| 0 <= i < nt.nerds.len() implies !nt.noobs.contains(
            #[trigger] nt.nerds[i],
        ) by {
            let x = nt.nerds[i];
            assert(nt.nerds.contains(x));
            if x == user_id {
                assert(false);
            }
            assert(t.nerds.contains(x));
            let k = choose|k: int| 0 <= k < t.nerds.len() && t.nerds[k] == x;
            assert(!t.noobs.contains(t.nerds[k]));
            if nt.noobs.contains(x) {
                let j = choose|j: int| 0 <= j < nt.noobs.len() && nt.noobs[j] == x;
                if j < nt.noobs.len() - 1 {
                    assert(t.noobs[j] == x);
                }
            }
        }
    } else {
        // The user joined the noobs from outside.
        assert(nt.noobs == t.noobs.push(user_id) && nt.nerds == t.nerds && !t.noobs.contains(
            user_id,
        ) && !t.nerds.contains(user_id));
        assert forall|i: int| 0 <= i < nt.nerds.len() implies !nt.noobs.contains(
            #[trigger] nt.nerds[i],
        ) by {
            let x = nt.nerds[i];
            assert(x == t.nerds[i]);
            assert(!t.noobs.contains(t.nerds[i]));
            if x == user_id {
                assert(t.nerds.contains(x));
            }
            if nt.noobs.contains(x) {
                let j = choose|j: int| 0 <= j < nt.noobs.len() && nt.noobs[j] == x;
                if j < nt.noobs.len() - 1 {
                    assert(t.noobs[j] == x);
                } else {
                    assert(x == user_id);
                }
            }
        }
    }
    lemma_talk_update_wf(pre.talks, index, nt);
}

impl Storage {
    /// Change the attendance mode of a user, if the id is known.
    pub fn set_attendance_mode(&mut self, user_id: u64, attendance_mode: AttendanceMode) -> (events:
        Vec<Update>)
        requires
            storage_wf(old(self)@),
        ensures
            storage_wf(final(self)@),
            set_attendance_mode_post(
                old(self)@,
                user_id,
                attendance_mode,
                final(self)@,
                events_of(events@),
            ),
    {
        let index = match self.user_position(user_id) {
            Some(i) => i,
            None => {
                return Vec::new();
            },
        };
        let ghost pre = self@;
        let mut new_user = self.users[index].clone_user();
        new_user.attendance_mode = attendance_mode;
        let ghost nu = new_user@;
        self.users[index] = new_user;
        let mut events: Vec<Update> = Vec::new();
        events.push(Update::UpdateAttendanceMode { user_id, attendance_mode });
        proof {
            let u = user_by_id(pre.users, user_id);
            assert(nu =~= (UserView { attendance_mode, ..u }));
            assert(self@.users =~= pre.users.update(user_index_by_id(pre.users, user_id), nu));
            assert(self@ =~= (StorageView {
                users: pre.users.update(user_index_by_id(pre.users, user_id), nu),
                ..pre
            }));
            assert(events_of(events@) =~= seq![
                UpdateView::UpdateAttendanceMode { user_id, attendance_mode },
            ]);
            let r = self@.users;
            assert(forall|x: int|
                0 <= x < r.len() ==> r[x].id == pre.users[x].id && r[x].name == pre.users[x].name
                    && r[x].team == pre.users[x].team);
            assert forall|a: int, b: int| 0 <= a < b < r.len() implies r[a].id != r[b].id && !(
            r[a].name == r[b].name && r[a].team == r[b].team) by {
                assert(pre.users[a].id != pre.users[b].id);
                assert(!(pre.users[a].name == pre.users[b].name && pre.users[a].team
                    == pre.users[b].team));
            }
        }
        events
    }

    /// Run one command from an authenticated session: authorize it, apply
    /// the matching mutation, and return the events to broadcast.  A denied
    /// command changes nothing and reports nothing.
    pub fn trigger(&mut self, user_id: u64, capabilities: &Vec<Capability>, command: Command)
        -> (events: Vec<Update>)
        requires
            storage_wf(old(self)@),
            command matches Command::AddTalk { .. } ==> max_talk_id(old(self)@.talks) < u64::MAX,
        ensures
            storage_wf(final(self)@),
            trigger_outcome(
                old(self)@,
                user_id,
                capabilities@,
                command,
                final(self)@,
                events_of(events@),
            ),
    {
        if !self.is_authorized(user_id, capabilities, &command) {
            return Vec::new();
        }
        match command {
            Command::AddTalk { title, description, duration } => self.add_talk(
                user_id,
                title,
                description,
                duration,
            ),
            Command::RemoveTalk { talk_id } => self.remove_talk(talk_id),
            Command::UpdateTitle { talk_id, title } => self.update_title(talk_id, title),
            Command::UpdateDescription { talk_id, description } => self.update_description(
                talk_id,
                description,
            ),
            Command::UpdateScheduledAt { talk_id, scheduled_at } => self.update_scheduled_at(
                talk_id,
                scheduled_at,
            ),
            Command::UpdateDuration { talk_id, duration } => self.update_duration(
                talk_id,
                duration,
            ),
            Command::UpdateLocation { talk_id, location } => self.update_location(
                talk_id,
                location,
            ),
            Command::ToggleNerd { talk_id } => self.toggle_nerd(talk_id, user_id),
            Command::ToggleNoob { talk_id } => self.toggle_noob(talk_id, user_id),
        }
    }

    /// The messages a connection sends right after a successful
    /// authentication: the user directory, then one creation event per
    /// currently known talk, so that a late-joining client starts from a
    /// complete snapshot before it sees any delta.
    pub fn snapshot_updates(&self) -> (events: Vec<Update>)
        ensures
            snapshot_shape(self@, events_of(events@)),
    {
        let mut events: Vec<Update> = Vec::new();
        events.push(Update::Users { users: directory(&self.users) });
        let n = self.talks.len();
        let mut i: usize = 0;
        while i < n
            invariant
                n == self.talks.len(),
                0 <= i <= n,
                events@.len() == 1 + i,
                events@[0]@ == (UpdateView::Users { users: directory_of(self@.users) }),
                forall|j: int|
                    0 <= j < i ==> (#[trigger] events@[j + 1])@ == (UpdateView::AddTalk {
                        talk: self@.talks[j],
                    }),
            decreases n - i,
        {
            events.push(Update::AddTalk { talk: self.talks[i].clone_talk() });
            i += 1;
        }
        proof {
            assert forall|j: int| 0 <= j < self@.talks.len() implies #[trigger] events_of(
                events@,
            )[j + 1] == (UpdateView::AddTalk { talk: self@.talks[j] }) by {
                assert(events@[j + 1]@ == (UpdateView::AddTalk { talk: self@.talks[j] }));
            }
        }
        events
    }
}

/// The shape of a full snapshot of a store: the user directory first, then
/// every talk, in store order.
pub open spec fn snapshot_shape(s: StorageView, events: Seq<UpdateView>) -> bool {
    &&& events.len() == 1 + s.talks.len()
    &&& events[0] == (UpdateView::Users { users: directory_of(s.users) })
    &&& forall|j: int|
        0 <= j < s.talks.len() ==> #[trigger] events[j + 1] == (UpdateView::AddTalk {
            talk: s.talks[j],
        })
}

/// Law: a snapshot taken after a mutation has been applied reflects it.
/// Every talk of the store — in particular one just changed by a command
/// whose reply the client has seen — appears in full in the snapshot, so a
/// client that resynchronizes after its own mutating command never sees a
/// stale value.
pub proof fn lemma_snapshot_reflects_store(
    s: StorageView,
    events: Seq<UpdateView>,
    talk_id: u64,
)
    requires
        snapshot_shape(s, events),
        talk_present(s.talks, talk_id),
    ensures
        exists|i: int|
            0 <= i < events.len() && #[trigger] events[i] == (UpdateView::AddTalk {
                talk: talk_by_id(s.talks, talk_id),
            }),
{
    let k = talk_index_of(s.talks, talk_id);
    assert(0 <= k < s.talks.len() && s.talks[k].id == talk_id);
    assert(events[k + 1] == (UpdateView::AddTalk { talk: talk_by_id(s.talks, talk_id) }));
}

/// Law: commit-then-broadcast ordering, seen from a client.  When a
/// retitling command was allowed and applied, any snapshot computed from
/// the resulting store — what a client resynchronizing after its own
/// command's reply receives — carries the new title, never a stale one.
pub proof fn lemma_retitle_visible_in_snapshot(
    pre: StorageView,
    user_id: u64,
    capabilities: Seq<Capability>,
    talk_id: u64,
    title: String,
    post: StorageView,
    events: Seq<UpdateView>,
    snapshot: Seq<UpdateView>,
)
    requires
        storage_wf(pre),
        storage_wf(post),
        talk_present(pre.talks, talk_id),
        authorized(user_id, capabilities, pre.talks, Command::UpdateTitle { talk_id, title }),
        trigger_outcome(
            pre,
            user_id,
            capabilities,
            Command::UpdateTitle { talk_id, title },
            post,
            events,
        ),
        snapshot_shape(post, snapshot),
    ensures
        exists|i: int|
            0 <= i < snapshot.len() && ((#[trigger] snapshot[i]) matches UpdateView::AddTalk {
                talk,
            } && talk.id == talk_id && talk.title == title@),
{
    let k = talk_index_of(pre.talks, talk_id);
    assert(0 <= k < pre.talks.len() && pre.talks[k].id == talk_id);
    assert(post.talks[k].id == talk_id && post.talks[k].title == title@);
    assert(talk_present(post.talks, talk_id));
    let k2 = talk_index_of(post.talks, talk_id);
    assert(0 <= k2 < post.talks.len() && post.talks[k2].id == talk_id);
    if k2 != k {
        assert(false);
    }
    assert(snapshot[k + 1] == (UpdateView::AddTalk { talk: post.talks[k] }));
}

} // verus!
