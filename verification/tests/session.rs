use actix_login::session::{AuthData, AuthState};

#[derive(Debug, Clone, PartialEq)]
struct User {
    id: i64,
    hash: Vec<u8>,
}

fn empty_state() -> AuthState<User, i64> {
    AuthState {
        user: None,
        data: AuthData::empty(),
    }
}

#[test]
fn test_login() {
    let mut state = empty_state();
    let user = User { id: 42, hash: vec![] };
    let renew = state.login(user.clone(), user.id, &user.hash);
    assert!(renew, "a first login renews the session id");
    assert_eq!(state.user.as_ref().map(|u| u.id), Some(42));
    assert_eq!(state.data.user_id, Some(42));
    assert_eq!(state.data.auth_hash, Some(vec![]));

    let renew = state.login(user.clone(), user.id, &user.hash);
    assert!(!renew, "logging in again keeps the session id");
}

#[test]
fn test_logout() {
    let user = User { id: 42, hash: vec![] };
    let mut state = AuthState {
        user: Some(user),
        data: AuthData::<i64>::default(),
    };
    let out = state.logout();
    assert_eq!(out.map(|u| u.id), Some(42));
    assert!(state.user.is_none());
    assert!(state.logout().is_none());
}

#[test]
fn test_from_session() {
    let user = User { id: 42, hash: vec![1, 2, 3, 4] };
    let data = AuthData {
        user_id: Some(42i64),
        auth_hash: Some(vec![1, 2, 3, 4]),
    };
    assert_eq!(data.user_to_load(), Some(&42));
    let (state, purge) = AuthState::resume(data, Some(user.clone()), &user.hash);
    assert!(!purge);
    assert_eq!(state.user.map(|u| u.id), Some(42));
    assert_eq!(state.data.user_id, Some(42));
}

#[test]
fn test_from_session_bad_auth_hash() {
    let user = User { id: 42, hash: vec![1, 2, 3, 4] };
    let data = AuthData {
        user_id: Some(42i64),
        auth_hash: Some(vec![4, 3, 2, 1]),
    };
    let (state, purge) = AuthState::resume(data, Some(user.clone()), &user.hash);
    assert!(purge);
    assert!(state.user.is_none());
    assert_eq!(state.data.user_id, None);
    assert_eq!(state.data.auth_hash, None);
}

#[test]
fn shorter_stored_hash_is_rejected() {
    let user = User { id: 7, hash: vec![1, 2, 3] };
    let data = AuthData {
        user_id: Some(7i64),
        auth_hash: Some(vec![1, 2]),
    };
    let (state, purge) = AuthState::resume(data, Some(user.clone()), &user.hash);
    assert!(purge && state.user.is_none());
}

#[test]
fn unknown_user_keeps_data() {
    let data = AuthData {
        user_id: Some(9i64),
        auth_hash: Some(vec![5]),
    };
    let (state, purge) = AuthState::<User, i64>::resume(data, None, &[]);
    assert!(!purge);
    assert!(state.user.is_none());
    assert_eq!(state.data.user_id, Some(9));
}

#[test]
fn login_then_resume_with_same_hash() {
    let mut state = empty_state();
    let user = User { id: 3, hash: vec![9, 9] };
    state.login(user.clone(), user.id, &user.hash);
    let (resumed, purge) = AuthState::resume(state.data, Some(user.clone()), &user.hash);
    assert!(!purge);
    assert_eq!(resumed.user, Some(user.clone()));

    let mut state = empty_state();
    state.login(user.clone(), user.id, &user.hash);
    let changed = User { id: 3, hash: vec![1] };
    let (resumed, purge) = AuthState::resume(state.data, Some(changed.clone()), &changed.hash);
    assert!(purge && resumed.user.is_none());
}

#[test]
fn empty_data_names_no_user() {
    let data = AuthData::<i64>::empty();
    assert_eq!(data.user_to_load(), None);
    let (state, purge) = AuthState::<User, i64>::resume(data, Some(User { id: 1, hash: vec![] }), &[]);
    assert!(purge);
    assert!(state.user.is_none());
}
