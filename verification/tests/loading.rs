//! Assembling a store from parsed, possibly hand-edited collections.

use mopad::storage::{AttendanceMode, Storage, Talk, Team, Token, TokenStore, User};

fn user(id: u64, name: &str, team: &str) -> User {
    User {
        id,
        name: name.to_string(),
        team: team.to_string(),
        attendance_mode: AttendanceMode::OnSite,
        hash: "h".to_string(),
        roles: Vec::new(),
    }
}

fn talk(id: u64, creator: u64) -> Talk {
    Talk {
        id,
        creator,
        title: "t".to_string(),
        description: "d".to_string(),
        scheduled_at: None,
        duration: 600,
        location: None,
        nerds: Vec::new(),
        noobs: Vec::new(),
    }
}

fn teams(names: &[&str]) -> Vec<Team> {
    names.iter().map(|n| Team { name: n.to_string() }).collect()
}

#[test]
fn consistent_input_passes_through_unchanged() {
    let mut t = talk(1, 0);
    t.nerds = vec![0];
    t.noobs = vec![1];
    let storage = Storage::from_loaded(
        teams(&["Engineering"]),
        vec![user(0, "Alice", "Engineering"), user(1, "Bob", "Engineering")],
        vec![t],
        TokenStore {
            store: vec![Token { token: "tok".to_string(), user_id: 0, expires_at: 10 }],
        },
    );
    assert_eq!(storage.teams.len(), 1);
    assert_eq!(storage.users.len(), 2);
    assert_eq!(storage.talks.len(), 1);
    assert_eq!(storage.talks[0].nerds, vec![0]);
    assert_eq!(storage.talks[0].noobs, vec![1]);
    assert_eq!(storage.tokens.store.len(), 1);
}

#[test]
fn duplicate_teams_and_users_are_dropped() {
    let storage = Storage::from_loaded(
        teams(&["Engineering", "Engineering"]),
        vec![
            user(0, "Alice", "Engineering"),
            user(0, "Imposter", "Engineering"),
            user(1, "Alice", "Engineering"),
        ],
        Vec::new(),
        TokenStore { store: Vec::new() },
    );
    assert_eq!(storage.teams.len(), 1);
    assert_eq!(storage.users.len(), 1);
    assert_eq!(storage.users[0].name, "Alice");
    assert_eq!(storage.users[0].id, 0);
}

#[test]
fn unknown_team_is_replaced_by_the_unknown_team() {
    let storage = Storage::from_loaded(
        teams(&["Engineering"]),
        vec![user(0, "Eve", "Ghosts")],
        Vec::new(),
        TokenStore { store: Vec::new() },
    );
    assert_eq!(storage.users[0].team, "Unknown");
    assert!(storage.teams.iter().any(|t| t.name == "Unknown"));
    assert!(storage.teams.iter().any(|t| t.name == "Engineering"));
}

#[test]
fn orphan_talks_are_dropped() {
    let storage = Storage::from_loaded(
        teams(&["Engineering"]),
        vec![user(0, "Alice", "Engineering")],
        vec![talk(1, 0), talk(2, 99)],
        TokenStore { store: Vec::new() },
    );
    assert_eq!(storage.talks.len(), 1);
    assert_eq!(storage.talks[0].id, 1);
}

#[test]
fn sign_ups_are_repaired() {
    let mut t = talk(1, 0);
    t.nerds = vec![0, 0, 99];
    t.noobs = vec![0, 1];
    let storage = Storage::from_loaded(
        teams(&["Engineering"]),
        vec![user(0, "Alice", "Engineering"), user(1, "Bob", "Engineering")],
        vec![t],
        TokenStore { store: Vec::new() },
    );
    // duplicates and unknown users gone, and the overlap with the nerd set
    // resolved in the nerds' favour
    assert_eq!(storage.talks[0].nerds, vec![0]);
    assert_eq!(storage.talks[0].noobs, vec![1]);
}

#[test]
fn duplicate_talk_ids_keep_the_first() {
    let mut second = talk(1, 0);
    second.title = "second".to_string();
    let storage = Storage::from_loaded(
        teams(&["Engineering"]),
        vec![user(0, "Alice", "Engineering")],
        vec![talk(1, 0), second],
        TokenStore { store: Vec::new() },
    );
    assert_eq!(storage.talks.len(), 1);
    assert_eq!(storage.talks[0].title, "t");
}

#[test]
fn duplicate_tokens_keep_the_first() {
    let storage = Storage::from_loaded(
        teams(&["Engineering"]),
        Vec::new(),
        Vec::new(),
        TokenStore {
            store: vec![
                Token { token: "tok".to_string(), user_id: 1, expires_at: 10 },
                Token { token: "tok".to_string(), user_id: 2, expires_at: 20 },
            ],
        },
    );
    assert_eq!(storage.tokens.store.len(), 1);
    let data = storage.tokens.get(&"tok".to_string()).expect("token should be kept");
    assert_eq!(data.user_id, 1);
    assert_eq!(data.expires_at, 10);
}
