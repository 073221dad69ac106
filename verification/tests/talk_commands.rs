//! The command engine: authorization, mutations and broadcast events.

use mopad::authorization::{
    capabilities_of_roles, get_talk_id_by_command, into_capabilities, is_authorized_by_capabilities,
    Capability,
};
use mopad::calendar::ICalendarParameters;
use mopad::messages::{Command, Response, Update};
use mopad::storage::{AttendanceMode, Role, Storage, Talk, Team, TokenStore};

const NOW: u64 = 1_700_000_000;

fn store_with_teams(names: &[&str]) -> Storage {
    Storage {
        teams: names.iter().map(|n| Team { name: n.to_string() }).collect(),
        users: Vec::new(),
        talks: Vec::new(),
        tokens: TokenStore { store: Vec::new() },
    }
}

fn register(storage: &mut Storage, name: &str) -> u64 {
    let (response, _) = storage.register(
        name.to_string(),
        "Engineering".to_string(),
        AttendanceMode::OnSite,
        "pw".to_string(),
        NOW,
    );
    match response {
        Response::Success { session } => session.user_id,
        _ => panic!("registration should succeed"),
    }
}

fn no_capabilities() -> Vec<Capability> {
    Vec::new()
}

#[test]
fn scenario_create_talk_and_denied_retitle() {
    let mut storage = store_with_teams(&["Engineering"]);
    let alice = register(&mut storage, "Alice");
    let bob = register(&mut storage, "Bob");

    let events = storage.trigger(
        alice,
        &no_capabilities(),
        Command::AddTalk {
            title: "Vision".to_string(),
            description: "What next".to_string(),
            duration: 1800,
        },
    );
    assert_eq!(events.len(), 1);
    let talk_id = match &events[0] {
        Update::AddTalk { talk } => {
            assert_eq!(talk.creator, alice);
            assert!(talk.nerds.is_empty());
            assert!(talk.noobs.is_empty());
            talk.id
        }
        _ => panic!("an AddTalk event was expected"),
    };
    assert_eq!(talk_id, 1);

    let events = storage.trigger(
        bob,
        &no_capabilities(),
        Command::UpdateTitle { talk_id, title: "x".to_string() },
    );
    assert!(events.is_empty());
    assert_eq!(storage.talks[0].title, "Vision");
}

#[test]
fn toggle_nerd_moves_user_out_of_noobs() {
    let mut storage = store_with_teams(&["Engineering"]);
    let alice = register(&mut storage, "Alice");
    storage.trigger(
        alice,
        &no_capabilities(),
        Command::AddTalk {
            title: "t".to_string(),
            description: "d".to_string(),
            duration: 600,
        },
    );
    let events = storage.trigger(alice, &no_capabilities(), Command::ToggleNoob { talk_id: 1 });
    assert_eq!(events.len(), 1);
    assert_eq!(storage.talks[0].noobs, vec![alice]);

    let events = storage.trigger(alice, &no_capabilities(), Command::ToggleNerd { talk_id: 1 });
    assert_eq!(events.len(), 2);
    match &events[0] {
        Update::UpdateNerds { talk_id, members } => {
            assert_eq!(*talk_id, 1);
            assert_eq!(members, &vec![alice]);
        }
        _ => panic!("an UpdateNerds event was expected first"),
    }
    match &events[1] {
        Update::UpdateNoobs { talk_id, members } => {
            assert_eq!(*talk_id, 1);
            assert!(members.is_empty());
        }
        _ => panic!("an UpdateNoobs event was expected second"),
    }
    assert_eq!(storage.talks[0].nerds, vec![alice]);
    assert!(storage.talks[0].noobs.is_empty());
}

#[test]
fn toggle_nerd_twice_leaves_the_set() {
    let mut storage = store_with_teams(&["Engineering"]);
    let alice = register(&mut storage, "Alice");
    storage.trigger(
        alice,
        &no_capabilities(),
        Command::AddTalk {
            title: "t".to_string(),
            description: "d".to_string(),
            duration: 600,
        },
    );
    storage.trigger(alice, &no_capabilities(), Command::ToggleNerd { talk_id: 1 });
    assert_eq!(storage.talks[0].nerds, vec![alice]);
    let events = storage.trigger(alice, &no_capabilities(), Command::ToggleNerd { talk_id: 1 });
    assert_eq!(events.len(), 1);
    assert!(storage.talks[0].nerds.is_empty());
}

#[test]
fn creator_may_edit_own_talk() {
    let mut storage = store_with_teams(&["Engineering"]);
    let alice = register(&mut storage, "Alice");
    storage.trigger(
        alice,
        &no_capabilities(),
        Command::AddTalk {
            title: "t".to_string(),
            description: "d".to_string(),
            duration: 600,
        },
    );
    let events = storage.trigger(
        alice,
        &no_capabilities(),
        Command::UpdateTitle { talk_id: 1, title: "better".to_string() },
    );
    assert_eq!(events.len(), 1);
    assert_eq!(storage.talks[0].title, "better");

    let events = storage.trigger(
        alice,
        &no_capabilities(),
        Command::UpdateDescription { talk_id: 1, description: "richer".to_string() },
    );
    assert_eq!(events.len(), 1);
    assert_eq!(storage.talks[0].description, "richer");

    let events = storage.trigger(
        alice,
        &no_capabilities(),
        Command::UpdateDuration { talk_id: 1, duration: 900 },
    );
    assert_eq!(events.len(), 1);
    assert_eq!(storage.talks[0].duration, 900);

    let events = storage.trigger(
        alice,
        &no_capabilities(),
        Command::UpdateLocation { talk_id: 1, location: Some("Aula".to_string()) },
    );
    assert_eq!(events.len(), 1);
    assert_eq!(storage.talks[0].location, Some("Aula".to_string()));
}

#[test]
fn scheduling_needs_the_scheduler_capability() {
    let mut storage = store_with_teams(&["Engineering"]);
    let alice = register(&mut storage, "Alice");
    storage.trigger(
        alice,
        &no_capabilities(),
        Command::AddTalk {
            title: "t".to_string(),
            description: "d".to_string(),
            duration: 600,
        },
    );
    // The creator may schedule their own talk: ownership is sufficient.
    let events = storage.trigger(
        alice,
        &no_capabilities(),
        Command::UpdateScheduledAt { talk_id: 1, scheduled_at: Some(NOW + 3600) },
    );
    assert_eq!(events.len(), 1);
    assert_eq!(storage.talks[0].scheduled_at, Some(NOW + 3600));

    let bob = register(&mut storage, "Bob");
    let denied = storage.trigger(
        bob,
        &no_capabilities(),
        Command::UpdateScheduledAt { talk_id: 1, scheduled_at: None },
    );
    assert!(denied.is_empty());
    assert_eq!(storage.talks[0].scheduled_at, Some(NOW + 3600));

    let scheduler = capabilities_of_roles(&vec![Role::Scheduler]);
    let allowed = storage.trigger(
        bob,
        &scheduler,
        Command::UpdateScheduledAt { talk_id: 1, scheduled_at: None },
    );
    assert_eq!(allowed.len(), 1);
    assert_eq!(storage.talks[0].scheduled_at, None);
}

#[test]
fn editor_may_remove_another_users_talk() {
    let mut storage = store_with_teams(&["Engineering"]);
    let alice = register(&mut storage, "Alice");
    let bob = register(&mut storage, "Bob");
    storage.trigger(
        alice,
        &no_capabilities(),
        Command::AddTalk {
            title: "t".to_string(),
            description: "d".to_string(),
            duration: 600,
        },
    );

    let denied = storage.trigger(bob, &no_capabilities(), Command::RemoveTalk { talk_id: 1 });
    assert!(denied.is_empty());
    assert_eq!(storage.talks.len(), 1);

    let editor = capabilities_of_roles(&vec![Role::Editor]);
    let events = storage.trigger(bob, &editor, Command::RemoveTalk { talk_id: 1 });
    assert_eq!(events.len(), 1);
    assert!(matches!(events[0], Update::RemoveTalk { talk_id: 1 }));
    assert!(storage.talks.is_empty());
}

#[test]
fn command_on_missing_talk_is_a_no_op() {
    let mut storage = store_with_teams(&["Engineering"]);
    let alice = register(&mut storage, "Alice");
    let editor = capabilities_of_roles(&vec![Role::Editor]);
    let events = storage.trigger(
        alice,
        &editor,
        Command::UpdateTitle { talk_id: 42, title: "x".to_string() },
    );
    assert!(events.is_empty());
    let events = storage.trigger(alice, &editor, Command::RemoveTalk { talk_id: 42 });
    assert!(events.is_empty());
}

#[test]
fn talk_ids_count_up_from_one_and_are_not_reused() {
    let mut storage = store_with_teams(&["Engineering"]);
    let alice = register(&mut storage, "Alice");
    for expected in 1..=3u64 {
        let events = storage.trigger(
            alice,
            &no_capabilities(),
            Command::AddTalk {
                title: "t".to_string(),
                description: "d".to_string(),
                duration: 60,
            },
        );
        match &events[0] {
            Update::AddTalk { talk } => assert_eq!(talk.id, expected),
            _ => panic!("an AddTalk event was expected"),
        }
    }
    let editor = capabilities_of_roles(&vec![Role::Editor]);
    storage.trigger(alice, &editor, Command::RemoveTalk { talk_id: 3 });
    let events = storage.trigger(
        alice,
        &no_capabilities(),
        Command::AddTalk {
            title: "t".to_string(),
            description: "d".to_string(),
            duration: 60,
        },
    );
    match &events[0] {
        Update::AddTalk { talk } => assert_eq!(talk.id, 3),
        _ => panic!("an AddTalk event was expected"),
    }
}

#[test]
fn set_attendance_mode_updates_the_user() {
    let mut storage = store_with_teams(&["Engineering"]);
    let alice = register(&mut storage, "Alice");
    let events = storage.set_attendance_mode(alice, AttendanceMode::Remote);
    assert_eq!(events.len(), 1);
    assert!(matches!(
        events[0],
        Update::UpdateAttendanceMode { user_id: 0, attendance_mode: AttendanceMode::Remote }
    ));
    assert_eq!(storage.users[0].attendance_mode, AttendanceMode::Remote);

    let events = storage.set_attendance_mode(999, AttendanceMode::OnSite);
    assert!(events.is_empty());
}

#[test]
fn editor_capabilities_follow_the_table() {
    let caps = into_capabilities(Role::Editor);
    assert_eq!(
        caps,
        vec![
            Capability::DeleteOtherTalks,
            Capability::ChangeOtherTitles,
            Capability::ChangeOtherDescriptions,
            Capability::ChangeOtherDurations,
        ]
    );
    let caps = into_capabilities(Role::Scheduler);
    assert_eq!(
        caps,
        vec![
            Capability::ChangeOtherScheduledAts,
            Capability::ChangeOtherDurations,
            Capability::ChangeOtherLocations,
        ]
    );
}

#[test]
fn capability_checks_follow_the_command_kind() {
    let editor = capabilities_of_roles(&vec![Role::Editor]);
    let scheduler = capabilities_of_roles(&vec![Role::Scheduler]);
    let nobody = no_capabilities();

    let remove = Command::RemoveTalk { talk_id: 7 };
    assert!(is_authorized_by_capabilities(&editor, &remove));
    assert!(!is_authorized_by_capabilities(&scheduler, &remove));
    assert!(!is_authorized_by_capabilities(&nobody, &remove));

    let schedule = Command::UpdateScheduledAt { talk_id: 7, scheduled_at: None };
    assert!(!is_authorized_by_capabilities(&editor, &schedule));
    assert!(is_authorized_by_capabilities(&scheduler, &schedule));

    let duration = Command::UpdateDuration { talk_id: 7, duration: 60 };
    assert!(is_authorized_by_capabilities(&editor, &duration));
    assert!(is_authorized_by_capabilities(&scheduler, &duration));

    let toggle = Command::ToggleNerd { talk_id: 7 };
    assert!(is_authorized_by_capabilities(&nobody, &toggle));

    assert_eq!(get_talk_id_by_command(&remove), 7);
    assert_eq!(get_talk_id_by_command(&toggle), 7);
}

#[test]
fn snapshot_lists_directory_then_every_talk() {
    let mut storage = store_with_teams(&["Engineering"]);
    let alice = register(&mut storage, "Alice");
    storage.trigger(
        alice,
        &no_capabilities(),
        Command::AddTalk {
            title: "first".to_string(),
            description: "d".to_string(),
            duration: 60,
        },
    );
    storage.trigger(
        alice,
        &no_capabilities(),
        Command::AddTalk {
            title: "second".to_string(),
            description: "d".to_string(),
            duration: 60,
        },
    );
    let snapshot = storage.snapshot_updates();
    assert_eq!(snapshot.len(), 3);
    match &snapshot[0] {
        Update::Users { users } => {
            assert_eq!(users.len(), 1);
            assert_eq!(users[0].name, "Alice");
        }
        _ => panic!("the directory should come first"),
    }
    match &snapshot[1] {
        Update::AddTalk { talk } => assert_eq!(talk.title, "first"),
        _ => panic!("the first talk should follow"),
    }
    match &snapshot[2] {
        Update::AddTalk { talk } => assert_eq!(talk.title, "second"),
        _ => panic!("the second talk should follow"),
    }
}

#[test]
fn snapshot_reflects_a_committed_update() {
    let mut storage = store_with_teams(&["Engineering"]);
    let alice = register(&mut storage, "Alice");
    storage.trigger(
        alice,
        &no_capabilities(),
        Command::AddTalk {
            title: "draft".to_string(),
            description: "d".to_string(),
            duration: 60,
        },
    );
    storage.trigger(
        alice,
        &no_capabilities(),
        Command::UpdateTitle { talk_id: 1, title: "final title".to_string() },
    );
    let snapshot = storage.snapshot_updates();
    let found = snapshot.iter().any(|u| match u {
        Update::AddTalk { talk } => talk.id == 1 && talk.title == "final title",
        _ => false,
    });
    assert!(found, "the snapshot must show the committed title");
}

#[test]
fn calendar_filters_by_membership() {
    let mut storage = store_with_teams(&["Engineering"]);
    let alice = register(&mut storage, "Alice");
    let bob = register(&mut storage, "Bob");
    storage.trigger(
        alice,
        &no_capabilities(),
        Command::AddTalk {
            title: "a".to_string(),
            description: "d".to_string(),
            duration: 60,
        },
    );
    storage.trigger(
        bob,
        &no_capabilities(),
        Command::AddTalk {
            title: "b".to_string(),
            description: "d".to_string(),
            duration: 60,
        },
    );
    storage.trigger(alice, &no_capabilities(), Command::ToggleNerd { talk_id: 1 });
    storage.trigger(bob, &no_capabilities(), Command::ToggleNoob { talk_id: 2 });

    let all = storage.get_talks(&ICalendarParameters { user_id: None });
    assert_eq!(all.len(), 2);

    let alices = storage.get_talks(&ICalendarParameters { user_id: Some(alice) });
    assert_eq!(alices.len(), 1);
    assert_eq!(alices[0].id, 1);

    let bobs = storage.get_talks(&ICalendarParameters { user_id: Some(bob) });
    assert_eq!(bobs.len(), 1);
    assert_eq!(bobs[0].id, 2);
}

#[test]
fn is_editor_and_is_creator_read_the_user() {
    let user = mopad::storage::User::new(
        5,
        "Alice".to_string(),
        "Engineering".to_string(),
        AttendanceMode::OnSite,
        "pw".to_string(),
    );
    assert!(!user.is_editor());
    assert!(!user.is_scheduler());
    assert!(user.verify("pw".to_string()));
    assert!(!user.verify("other".to_string()));
    let talk = Talk {
        id: 1,
        creator: 5,
        title: "t".to_string(),
        description: "d".to_string(),
        scheduled_at: None,
        duration: 60,
        location: None,
        nerds: Vec::new(),
        noobs: Vec::new(),
    };
    assert!(user.is_creator(&talk));
    let mut editor = user.clone();
    editor.roles.push(Role::Editor);
    assert!(editor.is_editor());
    assert!(!editor.is_scheduler());
}

#[test]
fn toggle_noob_moves_user_out_of_nerds() {
    let mut storage = store_with_teams(&["Engineering"]);
    let alice = register(&mut storage, "Alice");
    storage.trigger(
        alice,
        &no_capabilities(),
        Command::AddTalk {
            title: "t".to_string(),
            description: "d".to_string(),
            duration: 600,
        },
    );
    storage.trigger(alice, &no_capabilities(), Command::ToggleNerd { talk_id: 1 });
    let events = storage.trigger(alice, &no_capabilities(), Command::ToggleNoob { talk_id: 1 });
    assert_eq!(events.len(), 2);
    match &events[0] {
        Update::UpdateNerds { talk_id: 1, members } => assert!(members.is_empty()),
        _ => panic!("an UpdateNerds event was expected first"),
    }
    match &events[1] {
        Update::UpdateNoobs { talk_id: 1, members } => assert_eq!(members, &vec![alice]),
        _ => panic!("an UpdateNoobs event was expected second"),
    }
    assert!(storage.talks[0].nerds.is_empty());
    assert_eq!(storage.talks[0].noobs, vec![alice]);
}

#[test]
fn toggle_on_missing_talk_is_a_no_op() {
    let mut storage = store_with_teams(&["Engineering"]);
    let alice = register(&mut storage, "Alice");
    let events = storage.trigger(alice, &no_capabilities(), Command::ToggleNerd { talk_id: 9 });
    assert!(events.is_empty());
}
