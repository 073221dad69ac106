//! The disk reconciler: diffing a freshly loaded snapshot against live
//! state.

use mopad::messages::Update;
use mopad::reconcile::update_existing_talk;
use mopad::storage::{AttendanceMode, Storage, Talk, Team, TokenStore, User};

fn talk(id: u64, creator: u64, title: &str, duration: u64) -> Talk {
    Talk {
        id,
        creator,
        title: title.to_string(),
        description: "d".to_string(),
        scheduled_at: None,
        duration,
        location: None,
        nerds: Vec::new(),
        noobs: Vec::new(),
    }
}

fn user(id: u64, name: &str) -> User {
    User {
        id,
        name: name.to_string(),
        team: "Engineering".to_string(),
        attendance_mode: AttendanceMode::OnSite,
        hash: "h".to_string(),
        roles: Vec::new(),
    }
}

fn store(users: Vec<User>, talks: Vec<Talk>) -> Storage {
    Storage {
        teams: vec![Team { name: "Engineering".to_string() }],
        users,
        talks,
        tokens: TokenStore { store: Vec::new() },
    }
}

#[test]
fn scenario_removed_talk_and_changed_duration() {
    let users = vec![user(0, "Alice")];
    let mut live = store(
        users.clone(),
        vec![talk(1, 0, "kept", 600), talk(2, 0, "removed", 600), talk(3, 0, "changed", 600)],
    );
    let fresh = store(
        users,
        vec![talk(1, 0, "kept", 600), talk(3, 0, "changed", 1200)],
    );
    let events = live.refresh(fresh);
    assert_eq!(events.len(), 2);
    assert!(matches!(events[0], Update::RemoveTalk { talk_id: 2 }));
    assert!(matches!(events[1], Update::UpdateDuration { talk_id: 3, duration: 1200 }));
    assert_eq!(live.talks.len(), 2);
    assert_eq!(live.talks[1].duration, 1200);
}

#[test]
fn reconciling_twice_produces_no_second_events() {
    let users = vec![user(0, "Alice")];
    let mut live = store(users.clone(), vec![talk(1, 0, "a", 600)]);
    let fresh_talks = vec![talk(1, 0, "renamed", 900), talk(2, 0, "new", 300)];
    let fresh_users = vec![user(0, "Alice"), user(1, "Bob")];

    let first = live.refresh(store(fresh_users.clone(), fresh_talks.clone()));
    assert!(!first.is_empty());

    let second = live.refresh(store(fresh_users, fresh_talks));
    assert!(second.is_empty(), "a second pass over the same snapshot must be silent");
}

#[test]
fn changed_users_broadcast_one_directory_update() {
    let mut live = store(vec![user(0, "Alice")], Vec::new());
    let fresh = store(vec![user(0, "Alice"), user(1, "Bob")], Vec::new());
    let events = live.refresh(fresh);
    assert_eq!(events.len(), 1);
    match &events[0] {
        Update::Users { users } => {
            assert_eq!(users.len(), 2);
            assert_eq!(users[1].name, "Bob");
        }
        _ => panic!("a Users event was expected"),
    }
    assert_eq!(live.users.len(), 2);
}

#[test]
fn unchanged_users_broadcast_nothing() {
    let mut live = store(vec![user(0, "Alice")], Vec::new());
    let fresh = store(vec![user(0, "Alice")], Vec::new());
    let events = live.refresh(fresh);
    assert!(events.is_empty());
}

#[test]
fn new_talk_on_disk_is_broadcast_in_full() {
    let users = vec![user(0, "Alice")];
    let mut live = store(users.clone(), Vec::new());
    let fresh = store(users, vec![talk(4, 0, "fresh", 600)]);
    let events = live.refresh(fresh);
    assert_eq!(events.len(), 1);
    match &events[0] {
        Update::AddTalk { talk } => {
            assert_eq!(talk.id, 4);
            assert_eq!(talk.title, "fresh");
        }
        _ => panic!("an AddTalk event was expected"),
    }
}

#[test]
fn talk_diff_emits_one_event_per_changed_field() {
    let old_talk = talk(1, 0, "old title", 600);
    let mut new_talk = talk(1, 0, "new title", 600);
    new_talk.description = "new description".to_string();
    new_talk.scheduled_at = Some(100);
    new_talk.location = Some("Aula".to_string());
    let events = update_existing_talk(&old_talk, &new_talk);
    assert_eq!(events.len(), 4);
    assert!(matches!(&events[0], Update::UpdateTitle { talk_id: 1, title } if title == "new title"));
    assert!(matches!(
        &events[1],
        Update::UpdateDescription { talk_id: 1, description } if description == "new description"
    ));
    assert!(matches!(events[2], Update::UpdateScheduledAt { talk_id: 1, scheduled_at: Some(100) }));
    assert!(matches!(
        &events[3],
        Update::UpdateLocation { talk_id: 1, location: Some(l) } if l == "Aula"
    ));
}

#[test]
fn talk_diff_emits_membership_deltas_in_both_directions() {
    let mut old_talk = talk(1, 0, "t", 600);
    old_talk.nerds = vec![10, 11];
    old_talk.noobs = vec![20];
    let mut new_talk = talk(1, 0, "t", 600);
    new_talk.nerds = vec![11, 12];
    new_talk.noobs = vec![21];
    let events = update_existing_talk(&old_talk, &new_talk);
    assert_eq!(events.len(), 4);
    assert!(matches!(events[0], Update::RemoveNoob { talk_id: 1, user_id: 20 }));
    assert!(matches!(events[1], Update::AddNoob { talk_id: 1, user_id: 21 }));
    assert!(matches!(events[2], Update::RemoveNerd { talk_id: 1, user_id: 10 }));
    assert!(matches!(events[3], Update::AddNerd { talk_id: 1, user_id: 12 }));
}

#[test]
fn identical_talks_diff_to_nothing() {
    let mut a = talk(1, 0, "t", 600);
    a.nerds = vec![1, 2];
    a.noobs = vec![3];
    let mut b = talk(1, 0, "t", 600);
    b.nerds = vec![1, 2];
    b.noobs = vec![3];
    let events = update_existing_talk(&a, &b);
    assert!(events.is_empty());
}

#[test]
fn refresh_replaces_teams_and_keeps_tokens() {
    let mut live = store(Vec::new(), Vec::new());
    live.tokens.insert("tok".to_string(), 1, 10);
    let fresh = Storage {
        teams: vec![
            Team { name: "Engineering".to_string() },
            Team { name: "Marketing".to_string() },
        ],
        users: Vec::new(),
        talks: Vec::new(),
        tokens: TokenStore { store: Vec::new() },
    };
    let events = live.refresh(fresh);
    assert!(events.is_empty());
    assert_eq!(live.teams.len(), 2);
    assert!(live.tokens.get(&"tok".to_string()).is_some());
}
