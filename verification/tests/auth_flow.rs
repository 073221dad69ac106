//! Registration, login and relogin against a live store.

use mopad::auth::TOKEN_LIFETIME_SECONDS;
use mopad::messages::{AuthenticationCommand, AuthenticationResponse, Response};
use mopad::storage::{AttendanceMode, Storage, Team, TokenStore};

const NOW: u64 = 1_700_000_000;

fn store_with_teams(names: &[&str]) -> Storage {
    Storage {
        teams: names.iter().map(|n| Team { name: n.to_string() }).collect(),
        users: Vec::new(),
        talks: Vec::new(),
        tokens: TokenStore { store: Vec::new() },
    }
}

#[test]
fn register_then_login_succeeds() {
    let mut storage = store_with_teams(&["Engineering"]);
    let (response, events) = storage.register(
        "Alice".to_string(),
        "Engineering".to_string(),
        AttendanceMode::OnSite,
        "pw".to_string(),
        NOW,
    );
    let registration_token = match response {
        Response::Success { session } => {
            assert_eq!(session.user_id, 0);
            assert!(session.roles.is_empty());
            session.token
        }
        _ => panic!("registration should succeed"),
    };
    assert_eq!(events.len(), 1);

    let (response, events) = storage.login(
        "Alice".to_string(),
        "Engineering".to_string(),
        "pw".to_string(),
        NOW + 10,
    );
    match response {
        Response::Success { session } => {
            assert_eq!(session.user_id, 0);
            assert!(session.roles.is_empty());
            assert_ne!(session.token, registration_token);
        }
        _ => panic!("login should succeed"),
    }
    assert!(events.is_empty());
}

#[test]
fn scenario_register_twice_and_login() {
    let mut storage = store_with_teams(&["Engineering"]);
    let (first, _) = storage.register(
        "Alice".to_string(),
        "Engineering".to_string(),
        AttendanceMode::OnSite,
        "pw".to_string(),
        NOW,
    );
    let first_token = match first {
        Response::Success { session } => {
            assert!(session.roles.is_empty());
            session.token
        }
        _ => panic!("first registration should succeed"),
    };

    let (second, events) = storage.register(
        "Alice".to_string(),
        "Engineering".to_string(),
        AttendanceMode::OnSite,
        "pw".to_string(),
        NOW + 1,
    );
    assert!(matches!(second, Response::AlreadyRegistered));
    assert!(events.is_empty());

    let (wrong, _) = storage.login(
        "Alice".to_string(),
        "Engineering".to_string(),
        "wrong".to_string(),
        NOW + 2,
    );
    assert!(matches!(wrong, Response::WrongPassword));

    let (right, _) = storage.login(
        "Alice".to_string(),
        "Engineering".to_string(),
        "pw".to_string(),
        NOW + 3,
    );
    match right {
        Response::Success { session } => assert_ne!(session.token, first_token),
        _ => panic!("login with the right password should succeed"),
    }
}

#[test]
fn register_with_unknown_team_changes_nothing() {
    let mut storage = store_with_teams(&["Engineering"]);
    let (response, events) = storage.register(
        "Alice".to_string(),
        "Marketing".to_string(),
        AttendanceMode::Remote,
        "pw".to_string(),
        NOW,
    );
    assert!(matches!(response, Response::UnknownTeam));
    assert!(events.is_empty());
    assert!(storage.users.is_empty());
    assert!(storage.tokens.store.is_empty());
    assert_eq!(storage.teams.len(), 1);
}

#[test]
fn login_with_unknown_team_changes_nothing() {
    let mut storage = store_with_teams(&["Engineering"]);
    storage.register(
        "Alice".to_string(),
        "Engineering".to_string(),
        AttendanceMode::OnSite,
        "pw".to_string(),
        NOW,
    );
    let tokens_before = storage.tokens.store.len();
    let (response, events) = storage.login(
        "Alice".to_string(),
        "Marketing".to_string(),
        "pw".to_string(),
        NOW,
    );
    assert!(matches!(response, Response::UnknownTeam));
    assert!(events.is_empty());
    assert_eq!(storage.tokens.store.len(), tokens_before);
}

#[test]
fn login_with_unknown_user_fails() {
    let mut storage = store_with_teams(&["Engineering"]);
    let (response, _) = storage.login(
        "Bob".to_string(),
        "Engineering".to_string(),
        "pw".to_string(),
        NOW,
    );
    assert!(matches!(response, Response::UnknownUser));
}

#[test]
fn relogin_resumes_a_session() {
    let mut storage = store_with_teams(&["Engineering"]);
    let (response, _) = storage.register(
        "Alice".to_string(),
        "Engineering".to_string(),
        AttendanceMode::OnSite,
        "pw".to_string(),
        NOW,
    );
    let token = match response {
        Response::Success { session } => session.token,
        _ => panic!("registration should succeed"),
    };
    let (resumed, events) = storage.relogin(token.clone(), NOW + 60);
    match resumed {
        Response::Success { session } => {
            assert_eq!(session.user_id, 0);
            assert_eq!(session.token, token);
        }
        _ => panic!("relogin with a live token should succeed"),
    }
    assert!(events.is_empty());
}

#[test]
fn relogin_with_unknown_token_fails() {
    let mut storage = store_with_teams(&["Engineering"]);
    let (response, _) = storage.relogin("no-such-token".to_string(), NOW);
    assert!(matches!(response, Response::UnknownToken));
}

#[test]
fn relogin_after_expiry_fails() {
    let mut storage = store_with_teams(&["Engineering"]);
    let (response, _) = storage.register(
        "Alice".to_string(),
        "Engineering".to_string(),
        AttendanceMode::OnSite,
        "pw".to_string(),
        NOW,
    );
    let token = match response {
        Response::Success { session } => session.token,
        _ => panic!("registration should succeed"),
    };
    let after_expiry = NOW + TOKEN_LIFETIME_SECONDS + 1;
    let (resumed, _) = storage.relogin(token, after_expiry);
    assert!(matches!(resumed, Response::UnknownToken));
}

#[test]
fn relogin_for_vanished_user_fails() {
    let mut storage = store_with_teams(&["Engineering"]);
    let (response, _) = storage.register(
        "Alice".to_string(),
        "Engineering".to_string(),
        AttendanceMode::OnSite,
        "pw".to_string(),
        NOW,
    );
    let token = match response {
        Response::Success { session } => session.token,
        _ => panic!("registration should succeed"),
    };
    storage.users.clear();
    let (resumed, _) = storage.relogin(token, NOW + 1);
    assert!(matches!(resumed, Response::UnknownUserFromToken));
}

#[test]
fn minted_token_expires_a_lifetime_after_now() {
    let mut storage = store_with_teams(&["Engineering"]);
    let (response, _) = storage.register(
        "Alice".to_string(),
        "Engineering".to_string(),
        AttendanceMode::OnSite,
        "pw".to_string(),
        NOW,
    );
    let token = match response {
        Response::Success { session } => session.token,
        _ => panic!("registration should succeed"),
    };
    let data = storage.tokens.get(&token).expect("token should be stored");
    assert_eq!(data.user_id, 0);
    assert_eq!(data.expires_at, NOW + TOKEN_LIFETIME_SECONDS);
}

#[test]
fn token_purge_keeps_only_live_tokens() {
    let mut tokens = TokenStore::new();
    tokens.insert("stale".to_string(), 1, NOW - 1);
    tokens.insert("live".to_string(), 2, NOW + 1);
    tokens.remove_expired(NOW);
    assert!(tokens.get(&"stale".to_string()).is_none());
    let live = tokens.get(&"live".to_string()).expect("live token should stay");
    assert_eq!(live.user_id, 2);
    assert_eq!(live.expires_at, NOW + 1);
}

#[test]
fn token_insert_replaces_same_token() {
    let mut tokens = TokenStore::new();
    tokens.insert("t".to_string(), 1, NOW);
    tokens.insert("t".to_string(), 2, NOW + 5);
    assert_eq!(tokens.store.len(), 1);
    let data = tokens.get(&"t".to_string()).expect("token should be stored");
    assert_eq!(data.user_id, 2);
    assert_eq!(data.expires_at, NOW + 5);
}

#[test]
fn authenticate_dispatches_register_with_default_mode() {
    let mut storage = store_with_teams(&["Engineering"]);
    let (response, events) = storage.authenticate(
        AuthenticationCommand::Register {
            name: "Alice".to_string(),
            team: "Engineering".to_string(),
            attendance_mode: None,
            password: "pw".to_string(),
        },
        NOW,
    );
    assert!(matches!(response, Response::Success { .. }));
    assert_eq!(events.len(), 1);
    assert_eq!(storage.users[0].attendance_mode, AttendanceMode::OnSite);
}

#[test]
fn replies_carry_canonical_reasons() {
    let reply = Response::UnknownTeam.to_reply();
    match reply {
        AuthenticationResponse::AuthenticationError { reason } => {
            assert_eq!(reason, "unknown team")
        }
        _ => panic!("an error reply was expected"),
    }
    let reply = Response::AlreadyRegistered.to_reply();
    match reply {
        AuthenticationResponse::AuthenticationError { reason } => {
            assert_eq!(reason, "already registered")
        }
        _ => panic!("an error reply was expected"),
    }
    let reply = Response::WrongPassword.to_reply();
    match reply {
        AuthenticationResponse::AuthenticationError { reason } => {
            assert_eq!(reason, "wrong password")
        }
        _ => panic!("an error reply was expected"),
    }
    let reply = Response::UnknownUser.to_reply();
    match reply {
        AuthenticationResponse::AuthenticationError { reason } => {
            assert_eq!(reason, "unknown user")
        }
        _ => panic!("an error reply was expected"),
    }
    let reply = Response::UnknownToken.to_reply();
    match reply {
        AuthenticationResponse::AuthenticationError { reason } => {
            assert_eq!(reason, "unknown token")
        }
        _ => panic!("an error reply was expected"),
    }
    let reply = Response::UnknownUserFromToken.to_reply();
    match reply {
        AuthenticationResponse::AuthenticationError { reason } => {
            assert_eq!(reason, "unknown user from token")
        }
        _ => panic!("an error reply was expected"),
    }
}

#[test]
fn authenticate_dispatches_login_and_relogin() {
    let mut storage = store_with_teams(&["Engineering"]);
    storage.register(
        "Alice".to_string(),
        "Engineering".to_string(),
        AttendanceMode::OnSite,
        "pw".to_string(),
        NOW,
    );
    let (response, events) = storage.authenticate(
        AuthenticationCommand::Login {
            name: "Alice".to_string(),
            team: "Engineering".to_string(),
            password: "pw".to_string(),
        },
        NOW + 1,
    );
    let token = match response {
        Response::Success { session } => session.token,
        _ => panic!("login should succeed"),
    };
    assert!(events.is_empty());

    let (response, events) = storage.authenticate(
        AuthenticationCommand::Relogin { token: token.clone() },
        NOW + 2,
    );
    match response {
        Response::Success { session } => assert_eq!(session.token, token),
        _ => panic!("relogin should succeed"),
    }
    assert!(events.is_empty());
}

#[test]
fn registration_broadcasts_the_whole_directory() {
    let mut storage = store_with_teams(&["Engineering"]);
    storage.register(
        "Alice".to_string(),
        "Engineering".to_string(),
        AttendanceMode::OnSite,
        "pw".to_string(),
        NOW,
    );
    let (_, events) = storage.register(
        "Bob".to_string(),
        "Engineering".to_string(),
        AttendanceMode::Remote,
        "pw".to_string(),
        NOW,
    );
    assert_eq!(events.len(), 1);
    match &events[0] {
        mopad::messages::Update::Users { users } => {
            assert_eq!(users.len(), 2);
            assert_eq!(users[0].name, "Alice");
            assert_eq!(users[1].name, "Bob");
        }
        _ => panic!("a Users event was expected"),
    }
}

#[test]
fn login_roles_are_read_live() {
    let mut storage = store_with_teams(&["Engineering"]);
    storage.register(
        "Alice".to_string(),
        "Engineering".to_string(),
        AttendanceMode::OnSite,
        "pw".to_string(),
        NOW,
    );
    storage.users[0].roles.push(mopad::storage::Role::Editor);
    let (response, _) = storage.login(
        "Alice".to_string(),
        "Engineering".to_string(),
        "pw".to_string(),
        NOW + 1,
    );
    match response {
        Response::Success { session } => {
            assert_eq!(session.roles, vec![mopad::storage::Role::Editor])
        }
        _ => panic!("login should succeed"),
    }
}
