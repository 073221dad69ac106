//! The role → capability model and the pure authorization decision.
//!
//! A command is allowed when it is universally allowed (creating a talk,
//! toggling one's own sign-up), when the session's capability set contains
//! the capability the command kind requires, or when the session user
//! created the target talk.  Ownership and capability are each sufficient
//! on their own.  A denied command is a silent no-op, never an error.

use vstd::prelude::*;

use crate::messages::Command;
use crate::storage::{Role, Storage, TalkView, talk_by_id, talk_present, talks_wf};

verus! {

/// An atomic permission, derived from roles by a fixed table.
#[derive(Clone, Copy, Debug, PartialEq, Eq, Structural)]
pub enum Capability {
    DeleteOtherTalks,
    ChangeOtherTitles,
    ChangeOtherDescriptions,
    ChangeOtherDurations,
    ChangeOtherScheduledAts,
    ChangeOtherLocations,
}

/// The static role → capability table.
pub open spec fn role_grants(role: Role, capability: Capability) -> bool {
    match role {
        Role::Editor => capability == Capability::DeleteOtherTalks || capability
            == Capability::ChangeOtherTitles || capability == Capability::ChangeOtherDescriptions
            || capability == Capability::ChangeOtherDurations,
        Role::Scheduler => capability == Capability::ChangeOtherScheduledAts || capability
            == Capability::ChangeOtherDurations || capability == Capability::ChangeOtherLocations,
    }
}

/// The capabilities a single role grants, in the table's order.
pub fn into_capabilities(role: Role) -> (r: Vec<Capability>)
    ensures
        r@ == match role {
            Role::Editor => seq![
                Capability::DeleteOtherTalks,
                Capability::ChangeOtherTitles,
                Capability::ChangeOtherDescriptions,
                Capability::ChangeOtherDurations,
            ],
            Role::Scheduler => seq![
                Capability::ChangeOtherScheduledAts,
                Capability::ChangeOtherDurations,
                Capability::ChangeOtherLocations,
            ],
        },
        forall|c: Capability| r@.contains(c) <==> role_grants(role, c),
{
    let mut r: Vec<Capability> = Vec::new();
    match role {
        Role::Editor => {
            r.push(Capability::DeleteOtherTalks);
            r.push(Capability::ChangeOtherTitles);
            r.push(Capability::ChangeOtherDescriptions);
            r.push(Capability::ChangeOtherDurations);
        },
        Role::Scheduler => {
            r.push(Capability::ChangeOtherScheduledAts);
            r.push(Capability::ChangeOtherDurations);
            r.push(Capability::ChangeOtherLocations);
        },
    }
    proof {
        assert forall|c: Capability| r@.contains(c) <==> role_grants(role, c) by {
            if role_grants(role, c) {
                match role {
                    Role::Editor => {
                        if c == Capability::DeleteOtherTalks {
                            assert(r@[0] == c);
                        } else if c == Capability::ChangeOtherTitles {
                            assert(r@[1] == c);
                        } else if c == Capability::ChangeOtherDescriptions {
                            assert(r@[2] == c);
                        } else {
                            assert(r@[3] == c);
                        }
                    },
                    Role::Scheduler => {
                        if c == Capability::ChangeOtherScheduledAts {
                            assert(r@[0] == c);
                        } else if c == Capability::ChangeOtherDurations {
                            assert(r@[1] == c);
                        } else {
                            assert(r@[2] == c);
                        }
                    },
                }
            }
        }
    }
    r
}

/// The capability set of a whole role set: the union of the table's rows.
pub fn capabilities_of_roles(roles: &Vec<Role>) -> (r: Vec<Capability>)
    ensures
        forall|c: Capability|
            r@.contains(c) <==> exists|i: int|
                0 <= i < roles@.len() && role_grants(#[trigger] roles@[i], c),
{
    let n = roles.len();
    let mut r: Vec<Capability> = Vec::new();
    let mut i: usize = 0;
    while i < n
        invariant
            n == roles.len(),
            0 <= i <= n,
            forall|c: Capability|
                r@.contains(c) <==> exists|j: int|
                    0 <= j < i && role_grants(#[trigger] roles@[j], c),
        decreases n - i,
    {
        let ghost r_old = r@;
        let mut granted = into_capabilities(roles[i]);
        let ghost granted_view = granted@;
        r.append(&mut granted);
        proof {
            assert(r@ == r_old + granted_view);
            assert forall|c: Capability|
                r@.contains(c) <==> exists|j: int|
                    0 <= j < i + 1 && role_grants(#[trigger] roles@[j], c) by {
                if r@.contains(c) {
                    let k = choose|k: int| 0 <= k < r@.len() && r@[k] == c;
                    if k < r_old.len() {
                        assert(r_old[k] == c);
                        assert(r_old.contains(c));
                    } else {
                        assert(granted_view[k - r_old.len()] == c);
                        assert(granted_view.contains(c));
                        assert(role_grants(roles@[i as int], c));
                    }
                }
                if exists|j: int| 0 <= j < i + 1 && role_grants(#[trigger] roles@[j], c) {
                    let j = choose|j: int| 0 <= j < i + 1 && role_grants(#[trigger] roles@[j], c);
                    if j < i {
                        assert(r_old.contains(c));
                        let k = choose|k: int| 0 <= k < r_old.len() && r_old[k] == c;
                        assert(r@[k] == c);
                    } else {
                        assert(granted_view.contains(c));
                        let k = choose|k: int| 0 <= k < granted_view.len() && granted_view[k] == c;
                        assert(r@[r_old.len() + k] == c);
                    }
                }
            }
        }
        i += 1;
    }
    r
}

/// Membership test on a capability list.
pub(crate) fn capabilities_contain(capabilities: &Vec<Capability>, capability: Capability) -> (r:
    bool)
    ensures
        r == capabilities@.contains(capability),
{
    let n = capabilities.len();
    let mut i: usize = 0;
    while i < n
        invariant
            n == capabilities.len(),
            0 <= i <= n,
            forall|j: int| 0 <= j < i ==> capabilities@[j] != capability,
        decreases n - i,
    {
        if capabilities[i] == capability {
            return true;
        }
        i += 1;
    }
    false
}

/// Commands that are allowed for every authenticated user: creating a talk
/// and toggling one's own sign-up.
pub open spec fn universally_allowed(command: Command) -> bool {
    match command {
        Command::AddTalk { .. } => true,
        Command::ToggleNerd { .. } => true,
        Command::ToggleNoob { .. } => true,
        _ => false,
    }
}

/// The target talk id of a command; meaningless for `AddTalk`, which has
/// no target.
pub open spec fn command_talk_id(command: Command) -> u64 {
    match command {
        Command::AddTalk { .. } => arbitrary(),
        Command::RemoveTalk { talk_id } => talk_id,
        Command::UpdateTitle { talk_id, .. } => talk_id,
        Command::UpdateDescription { talk_id, .. } => talk_id,
        Command::UpdateScheduledAt { talk_id, .. } => talk_id,
        Command::UpdateDuration { talk_id, .. } => talk_id,
        Command::UpdateLocation { talk_id, .. } => talk_id,
        Command::ToggleNerd { talk_id } => talk_id,
        Command::ToggleNoob { talk_id } => talk_id,
    }
}

/// The target talk id of a command other than `AddTalk`.
pub fn get_talk_id_by_command(command: &Command) -> (r: u64)
    requires
        !(command matches Command::AddTalk { .. }),
    ensures
        r == command_talk_id(*command),
{
    match command {
        Command::AddTalk { .. } => 0,
        Command::RemoveTalk { talk_id } => *talk_id,
        Command::UpdateTitle { talk_id, .. } => *talk_id,
        Command::UpdateDescription { talk_id, .. } => *talk_id,
        Command::UpdateScheduledAt { talk_id, .. } => *talk_id,
        Command::UpdateDuration { talk_id, .. } => *talk_id,
        Command::UpdateLocation { talk_id, .. } => *talk_id,
        Command::ToggleNerd { talk_id } => *talk_id,
        Command::ToggleNoob { talk_id } => *talk_id,
    }
}

/// Whether a capability set alone allows a command kind.
pub open spec fn capability_allows(capabilities: Seq<Capability>, command: Command) -> bool {
    match command {
        Command::AddTalk { .. } => true,
        Command::RemoveTalk { .. } => capabilities.contains(Capability::DeleteOtherTalks),
        Command::UpdateTitle { .. } => capabilities.contains(Capability::ChangeOtherTitles),
        Command::UpdateDescription { .. } => capabilities.contains(
            Capability::ChangeOtherDescriptions,
        ),
        Command::UpdateScheduledAt { .. } => capabilities.contains(
            Capability::ChangeOtherScheduledAts,
        ),
        Command::UpdateDuration { .. } => capabilities.contains(Capability::ChangeOtherDurations),
        Command::UpdateLocation { .. } => capabilities.contains(Capability::ChangeOtherLocations),
        Command::ToggleNerd { .. } => true,
        Command::ToggleNoob { .. } => true,
    }
}

/// Whether the capability set alone allows the command.
pub fn is_authorized_by_capabilities(capabilities: &Vec<Capability>, command: &Command) -> (r:
    bool)
    ensures
        r == capability_allows(capabilities@, *command),
{
    match command {
        Command::AddTalk { .. } => true,
        Command::RemoveTalk { .. } => capabilities_contain(
            capabilities,
            Capability::DeleteOtherTalks,
        ),
        Command::UpdateTitle { .. } => capabilities_contain(
            capabilities,
            Capability::ChangeOtherTitles,
        ),
        Command::UpdateDescription { .. } => capabilities_contain(
            capabilities,
            Capability::ChangeOtherDescriptions,
        ),
        Command::UpdateScheduledAt { .. } => capabilities_contain(
            capabilities,
            Capability::ChangeOtherScheduledAts,
        ),
        Command::UpdateDuration { .. } => capabilities_contain(
            capabilities,
            Capability::ChangeOtherDurations,
        ),
        Command::UpdateLocation { .. } => capabilities_contain(
            capabilities,
            Capability::ChangeOtherLocations,
        ),
        Command::ToggleNerd { .. } => true,
        Command::ToggleNoob { .. } => true,
    }
}

/// The full authorization decision: universally allowed, allowed by
/// capability, or allowed by ownership of the target talk.
pub open spec fn authorized(
    user_id: u64,
    capabilities: Seq<Capability>,
    talks: Seq<TalkView>,
    command: Command,
) -> bool {
    ||| capability_allows(capabilities, command)
    ||| {
        &&& !(command matches Command::AddTalk { .. })
        &&& talk_present(talks, command_talk_id(command))
        &&& talk_by_id(talks, command_talk_id(command)).creator == user_id
    }
}

impl Storage {
    /// Decide whether the session may run the command against the current
    /// talks.
    pub fn is_authorized(&self, user_id: u64, capabilities: &Vec<Capability>, command: &Command)
        -> (r: bool)
        requires
            talks_wf(self@.talks),
        ensures
            r == authorized(user_id, capabilities@, self@.talks, *command),
    {
        if is_authorized_by_capabilities(capabilities, command) {
            return true;
        }
        let talk_id = get_talk_id_by_command(command);
        match self.talk_position(talk_id) {
            Some(i) => self.talks[i].creator == user_id,
            None => false,
        }
    }
}

} // verus!
