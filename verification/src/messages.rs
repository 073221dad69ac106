//! Commands received from clients, replies, and the update events broadcast
//! to every connection.
//!
//! Update events carry exec data (strings, talks, member lists); their
//! mathematical value is an `UpdateView`, and contracts are stated over
//! sequences of those.

use vstd::prelude::*;

use crate::storage::{AttendanceMode, Role, Talk, TalkView, User, UserView};

verus! {

/// Credential command: the single message a client must send first.
#[derive(Clone, Debug)]
pub enum AuthenticationCommand {
    Register {
        name: String,
        team: String,
        attendance_mode: Option<AttendanceMode>,
        password: String,
    },
    Login { name: String, team: String, password: String },
    Relogin { token: String },
}

/// The authenticated, connection-scoped session: identity, live roles and
/// the bearer token.
#[derive(Clone, Debug)]
pub struct Authentication {
    pub user_id: u64,
    pub roles: Vec<Role>,
    pub token: String,
}

/// Domain-level outcome of an authentication command.  Every rejection is
/// reported to the originating client only.
#[derive(Clone, Debug)]
pub enum Response {
    Success { session: Authentication },
    UnknownTeam,
    AlreadyRegistered,
    WrongPassword,
    UnknownUser,
    UnknownToken,
    UnknownUserFromToken,
}

/// Wire-level reply to an authentication command.
#[derive(Clone, Debug)]
pub enum AuthenticationResponse {
    AuthenticationSuccess { user_id: u64, roles: Vec<Role>, token: String },
    AuthenticationError { reason: String },
}

/// One entry of the user directory broadcast to all clients.  Carries no
/// password digest and no roles.
#[derive(Clone, Debug)]
pub struct UserReference {
    pub id: u64,
    pub name: String,
    pub team: String,
    pub attendance_mode: AttendanceMode,
}

/// Mathematical value of a `UserReference`.
#[verifier::ext_equal]
pub struct UserReferenceView {
    pub id: u64,
    pub name: Seq<char>,
    pub team: Seq<char>,
    pub attendance_mode: AttendanceMode,
}

impl View for UserReference {
    type V = UserReferenceView;

    open spec fn view(&self) -> UserReferenceView {
        UserReferenceView {
            id: self.id,
            name: self.name@,
            team: self.team@,
            attendance_mode: self.attendance_mode,
        }
    }
}

/// The directory entry that stands for a user.
pub open spec fn user_ref_of(u: UserView) -> UserReferenceView {
    UserReferenceView { id: u.id, name: u.name, team: u.team, attendance_mode: u.attendance_mode }
}

/// The full user directory of a user list.
pub open spec fn directory_of(users: Seq<UserView>) -> Seq<UserReferenceView> {
    users.map_values(|u: UserView| user_ref_of(u))
}

impl UserReference {
    /// Project a user onto its directory entry.
    pub fn from_user(user: &User) -> (r: UserReference)
        ensures
            r@ == user_ref_of(user@),
    {
        UserReference {
            id: user.id,
            name: user.name.clone(),
            team: user.team.clone(),
            attendance_mode: user.attendance_mode,
        }
    }
}

/// Build the directory of a user list.
pub fn directory(users: &Vec<User>) -> (r: Vec<UserReference>)
    ensures
        r@.map_values(|x: UserReference| x@) == directory_of(
            users@.map_values(|u: User| u@),
        ),
{
    let n = users.len();
    let mut r: Vec<UserReference> = Vec::new();
    let mut i: usize = 0;
    while i < n
        invariant
            n == users.len(),
            0 <= i <= n,
            r@.len() == i,
            forall|j: int| 0 <= j < i ==> (#[trigger] r@[j])@ == user_ref_of(users@[j]@),
        decreases n - i,
    {
        r.push(UserReference::from_user(&users[i]));
        i += 1;
    }
    proof {
        assert(r@.map_values(|x: UserReference| x@) =~= directory_of(
            users@.map_values(|u: User| u@),
        ));
    }
    r
}

/// Command sent from an authenticated client to request a change.
#[derive(Clone, Debug)]
pub enum Command {
    AddTalk { title: String, description: String, duration: u64 },
    RemoveTalk { talk_id: u64 },
    UpdateTitle { talk_id: u64, title: String },
    UpdateDescription { talk_id: u64, description: String },
    UpdateScheduledAt { talk_id: u64, scheduled_at: Option<u64> },
    UpdateDuration { talk_id: u64, duration: u64 },
    UpdateLocation { talk_id: u64, location: Option<String> },
    ToggleNerd { talk_id: u64 },
    ToggleNoob { talk_id: u64 },
}

/// Update events: one minimal description per committed state change, sent
/// to every subscriber.
#[derive(Clone, Debug)]
pub enum Update {
    Users { users: Vec<UserReference> },
    AddTalk { talk: Talk },
    RemoveTalk { talk_id: u64 },
    UpdateTitle { talk_id: u64, title: String },
    UpdateDescription { talk_id: u64, description: String },
    UpdateScheduledAt { talk_id: u64, scheduled_at: Option<u64> },
    UpdateDuration { talk_id: u64, duration: u64 },
    UpdateLocation { talk_id: u64, location: Option<String> },
    UpdateNerds { talk_id: u64, members: Vec<u64> },
    UpdateNoobs { talk_id: u64, members: Vec<u64> },
    AddNerd { talk_id: u64, user_id: u64 },
    RemoveNerd { talk_id: u64, user_id: u64 },
    AddNoob { talk_id: u64, user_id: u64 },
    RemoveNoob { talk_id: u64, user_id: u64 },
    UpdateAttendanceMode { user_id: u64, attendance_mode: AttendanceMode },
}

/// Mathematical value of an `Update`.
#[verifier::ext_equal]
pub enum UpdateView {
    Users { users: Seq<UserReferenceView> },
    AddTalk { talk: TalkView },
    RemoveTalk { talk_id: u64 },
    UpdateTitle { talk_id: u64, title: Seq<char> },
    UpdateDescription { talk_id: u64, description: Seq<char> },
    UpdateScheduledAt { talk_id: u64, scheduled_at: Option<u64> },
    UpdateDuration { talk_id: u64, duration: u64 },
    UpdateLocation { talk_id: u64, location: Option<Seq<char>> },
    UpdateNerds { talk_id: u64, members: Seq<u64> },
    UpdateNoobs { talk_id: u64, members: Seq<u64> },
    AddNerd { talk_id: u64, user_id: u64 },
    RemoveNerd { talk_id: u64, user_id: u64 },
    AddNoob { talk_id: u64, user_id: u64 },
    RemoveNoob { talk_id: u64, user_id: u64 },
    UpdateAttendanceMode { user_id: u64, attendance_mode: AttendanceMode },
}

impl View for Update {
    type V = UpdateView;

    open spec fn view(&self) -> UpdateView {
        match self {
            Update::Users { users } => UpdateView::Users {
                users: users@.map_values(|x: UserReference| x@),
            },
            Update::AddTalk { talk } => UpdateView::AddTalk { talk: talk@ },
            Update::RemoveTalk { talk_id } => UpdateView::RemoveTalk { talk_id: *talk_id },
            Update::UpdateTitle { talk_id, title } => UpdateView::UpdateTitle {
                talk_id: *talk_id,
                title: title@,
            },
            Update::UpdateDescription { talk_id, description } => UpdateView::UpdateDescription {
                talk_id: *talk_id,
                description: description@,
            },
            Update::UpdateScheduledAt { talk_id, scheduled_at } => UpdateView::UpdateScheduledAt {
                talk_id: *talk_id,
                scheduled_at: *scheduled_at,
            },
            Update::UpdateDuration { talk_id, duration } => UpdateView::UpdateDuration {
                talk_id: *talk_id,
                duration: *duration,
            },
            Update::UpdateLocation { talk_id, location } => UpdateView::UpdateLocation {
                talk_id: *talk_id,
                location: match location {
                    Some(l) => Some(l@),
                    None => None,
                },
            },
            Update::UpdateNerds { talk_id, members } => UpdateView::UpdateNerds {
                talk_id: *talk_id,
                members: members@,
            },
            Update::UpdateNoobs { talk_id, members } => UpdateView::UpdateNoobs {
                talk_id: *talk_id,
                members: members@,
            },
            Update::AddNerd { talk_id, user_id } => UpdateView::AddNerd {
                talk_id: *talk_id,
                user_id: *user_id,
            },
            Update::RemoveNerd { talk_id, user_id } => UpdateView::RemoveNerd {
                talk_id: *talk_id,
                user_id: *user_id,
            },
            Update::AddNoob { talk_id, user_id } => UpdateView::AddNoob {
                talk_id: *talk_id,
                user_id: *user_id,
            },
            Update::RemoveNoob { talk_id, user_id } => UpdateView::RemoveNoob {
                talk_id: *talk_id,
                user_id: *user_id,
            },
            Update::UpdateAttendanceMode { user_id, attendance_mode } =>
                UpdateView::UpdateAttendanceMode {
                    user_id: *user_id,
                    attendance_mode: *attendance_mode,
                },
        }
    }
}

/// Mathematical value of an event list.
pub open spec fn events_of(events: Seq<Update>) -> Seq<UpdateView> {
    events.map_values(|u: Update| u@)
}

} // verus!
