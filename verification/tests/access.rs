use actix_login::access::{
    default_access, number_permissions, permission_decision, route_request, Decision, PermissionMatch,
    PermissionRule, Route,
};
use actix_login::service::{
    data_key_or_default, manager_step, AuthManager, ManagerStep, DEFAULT_DATA_KEY,
};

#[test]
fn routes_follow_decision() {
    assert_eq!(route_request(Some(Decision::Allow)), Route::CallInner);
    assert_eq!(route_request(Some(Decision::Unauthorized)), Route::Unauthorized);
    assert_eq!(route_request(Some(Decision::Unauthenticated)), Route::Unauthenticated);
    assert_eq!(route_request(None), Route::InternalError);
}

#[test]
fn default_access_requires_login() {
    assert_eq!(default_access(true), Decision::Allow);
    assert_eq!(default_access(false), Decision::Unauthenticated);
}

// Permission ids: 0 = test.read, 1 = test.write, 2 = admin.read, 3 = missing.read
fn user_perms() -> Vec<u64> {
    vec![0, 1]
}

#[test]
fn permission_required_all() {
    let rule = PermissionRule::new().with_permissions(vec![0]);
    assert_eq!(rule.decide(false, None), Decision::Unauthenticated);
    assert_eq!(rule.decide(true, Some(&user_perms())), Decision::Allow);
    let rule = PermissionRule::new().with_permissions(vec![0, 1]);
    assert_eq!(rule.decide(true, Some(&user_perms())), Decision::Allow);
}

#[test]
fn permission_required_missing_permissions() {
    let rule = PermissionRule::new().with_permissions(vec![0, 1, 2]);
    assert_eq!(rule.decide(true, Some(&user_perms())), Decision::Unauthorized);
}

#[test]
fn permission_required_any_mode() {
    let rule = PermissionRule::new()
        .with_permissions(vec![3, 0])
        .with_mode(PermissionMatch::Any);
    assert_eq!(rule.decide(true, Some(&user_perms())), Decision::Allow);
    let rule = PermissionRule::new()
        .with_permissions(vec![3])
        .with_mode(PermissionMatch::Any);
    assert_eq!(rule.decide(true, Some(&user_perms())), Decision::Unauthorized);
}

#[test]
fn permission_required_exact_mode_denies_extra_permissions() {
    let rule = PermissionRule::new()
        .with_permissions(vec![0])
        .with_mode(PermissionMatch::Exact);
    assert_eq!(rule.decide(true, Some(&user_perms())), Decision::Unauthorized);
    let rule = PermissionRule::new()
        .with_permissions(vec![1, 0, 1])
        .with_mode(PermissionMatch::Exact);
    assert_eq!(rule.decide(true, Some(&user_perms())), Decision::Allow);
}

#[test]
fn unreadable_permissions_are_unauthorized() {
    assert_eq!(
        permission_decision(true, None, &vec![], PermissionMatch::All),
        Decision::Unauthorized
    );
    assert_eq!(
        permission_decision(true, Some(&vec![]), &vec![], PermissionMatch::All),
        Decision::Allow
    );
}

#[test]
fn data_key_defaults() {
    assert_eq!(data_key_or_default(None), "actix-login.data");
    assert_eq!(DEFAULT_DATA_KEY, "actix-login.data");
    assert_eq!(data_key_or_default(Some("custom")), "custom");
}

#[test]
fn auth_manager_holds_its_parts() {
    let m = AuthManager::new(5u8, "backend", "key");
    assert_eq!(**m.inner(), 5);
    assert_eq!(*m.backend(), "backend");
    assert_eq!(m.data_key(), "key");
}

#[test]
fn equal_permissions_share_a_number() {
    let required = vec!["test.read", "admin.read", "test.read"];
    let granted = vec!["test.write", "test.read"];
    let (r, g) = number_permissions(&required, &granted);
    assert_eq!(r, vec![0, 1, 0]);
    assert_eq!(g, vec![3, 0]);
}

#[test]
fn numbered_permissions_decide_like_names() {
    let required = vec!["test.read".to_string()];
    let granted = vec!["test.write".to_string(), "test.read".to_string()];
    let (r, g) = number_permissions(&required, &granted);
    let rule = PermissionRule::new().with_permissions(r);
    assert_eq!(rule.decide(true, Some(&g)), Decision::Allow);
    let exact = PermissionRule::new()
        .with_permissions(number_permissions(&required, &granted).0)
        .with_mode(PermissionMatch::Exact);
    assert_eq!(exact.decide(true, Some(&g)), Decision::Unauthorized);
    let missing = vec!["admin.read".to_string()];
    let (r, g) = number_permissions(&missing, &granted);
    let any = PermissionRule::new().with_permissions(r).with_mode(PermissionMatch::Any);
    assert_eq!(any.decide(true, Some(&g)), Decision::Unauthorized);
}

#[test]
fn a_session_that_cannot_be_derived_fails_the_request() {
    assert_eq!(manager_step(true), ManagerStep::Forward);
    assert_eq!(manager_step(false), ManagerStep::InternalError);
}
