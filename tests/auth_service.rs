use hub_auth::{AuthError, AuthService, TOKEN_LEN};

fn service_with_alice() -> (AuthService, u64) {
    let mut service = AuthService::new();
    let alice = service
        .register("alice@example.com".to_string(), "Alice".to_string(), "pw123")
        .expect("registration succeeds");
    (service, alice.id)
}

#[test]
fn alice_scenario() {
    let mut service = AuthService::new();
    let alice = service
        .register("alice@example.com".to_string(), "Alice".to_string(), "pw123")
        .unwrap();
    assert_eq!(alice.name, "Alice");
    assert_eq!(alice.email, "alice@example.com");
    let token = service.login("alice@example.com", "pw123").unwrap();
    let who = service.authenticate(&token).unwrap();
    assert_eq!(who.id, alice.id);
    service.delete_account(alice.id);
    assert_eq!(service.authenticate(&token).unwrap_err(), AuthError::InvalidSession);
}

#[test]
fn register_then_login_authenticates_same_user() {
    let mut service = AuthService::new();
    let bob = service
        .register("bob@example.com".to_string(), "Bob".to_string(), "correct horse")
        .unwrap();
    let token = service.login("bob@example.com", "correct horse").unwrap();
    let who = service.authenticate(&token).unwrap();
    assert_eq!(who.id, bob.id);
    assert_eq!(who.name, "Bob");
    assert_eq!(who.email, "bob@example.com");
}

#[test]
fn tokens_are_random_alphanumeric() {
    let (mut service, _) = service_with_alice();
    let t1 = service.login("alice@example.com", "pw123").unwrap();
    let t2 = service.login("alice@example.com", "pw123").unwrap();
    assert_eq!(t1.len(), TOKEN_LEN);
    assert!(t1.chars().all(|c| c.is_ascii_alphanumeric()));
    assert_ne!(t1, t2);
    assert_ne!(t1, "pw123");
    assert_eq!(service.store().session_count(), 2);
}

#[test]
fn duplicate_email_is_refused() {
    let (mut service, alice_id) = service_with_alice();
    let second = service.register("alice@example.com".to_string(), "Other".to_string(), "x");
    assert_eq!(second.unwrap_err(), AuthError::DuplicateEmail);
    let found = service.store().find_user_by_email("alice@example.com").unwrap();
    assert_eq!(found.id, alice_id);
    assert_eq!(found.name, "Alice");
    assert_eq!(service.store().user_count(), 1);
}

#[test]
fn email_match_is_exact() {
    let (mut service, alice_id) = service_with_alice();
    let upper = service
        .register("Alice@example.com".to_string(), "Upper".to_string(), "pw123")
        .unwrap();
    assert_ne!(upper.id, alice_id);
    assert_eq!(service.login("ALICE@example.com", "pw123").unwrap_err(), AuthError::InvalidCredentials);
}

#[test]
fn hundred_registrations_one_success() {
    let mut service = AuthService::new();
    let mut ok = 0;
    let mut dup = 0;
    for k in 0..100 {
        match service.register("same@example.com".to_string(), format!("user{}", k), "pw") {
            Ok(_) => ok += 1,
            Err(AuthError::DuplicateEmail) => dup += 1,
            Err(e) => panic!("unexpected {:?}", e),
        }
    }
    assert_eq!(ok, 1);
    assert_eq!(dup, 99);
}

#[test]
fn wrong_password_and_unknown_email_look_alike() {
    let (mut service, _) = service_with_alice();
    let wrong = service.login("alice@example.com", "nope");
    let unknown = service.login("nobody@example.com", "pw123");
    assert_eq!(wrong.clone().unwrap_err(), AuthError::InvalidCredentials);
    assert_eq!(wrong, unknown);
    assert_eq!(service.store().session_count(), 0);
}

#[test]
fn delete_account_revokes_every_session() {
    let (mut service, alice_id) = service_with_alice();
    let bob = service.register("bob@example.com".to_string(), "Bob".to_string(), "b").unwrap();
    let t1 = service.login("alice@example.com", "pw123").unwrap();
    let t2 = service.login("alice@example.com", "pw123").unwrap();
    let tb = service.login("bob@example.com", "b").unwrap();
    service.delete_account(alice_id);
    assert_eq!(service.authenticate(&t1).unwrap_err(), AuthError::InvalidSession);
    assert_eq!(service.authenticate(&t2).unwrap_err(), AuthError::InvalidSession);
    assert!(service.store().find_session_by_token(&t1).is_none());
    assert!(service.store().find_user_by_id(alice_id).is_none());
    assert_eq!(service.authenticate(&tb).unwrap().id, bob.id);
    assert_eq!(service.store().session_count(), 1);
    assert_eq!(
        service.login("alice@example.com", "pw123").unwrap_err(),
        AuthError::InvalidCredentials
    );
}

#[test]
fn delete_unknown_account_changes_nothing() {
    let (mut service, alice_id) = service_with_alice();
    let token = service.login("alice@example.com", "pw123").unwrap();
    service.delete_account(alice_id + 1000);
    assert_eq!(service.authenticate(&token).unwrap().id, alice_id);
}

#[test]
fn logout_revokes_and_is_idempotent() {
    let (mut service, alice_id) = service_with_alice();
    let t1 = service.login("alice@example.com", "pw123").unwrap();
    let t2 = service.login("alice@example.com", "pw123").unwrap();
    service.logout(&t1);
    assert_eq!(service.authenticate(&t1).unwrap_err(), AuthError::InvalidSession);
    service.logout(&t1);
    service.logout("never-issued");
    assert_eq!(service.authenticate(&t2).unwrap().id, alice_id);
}

#[test]
fn unknown_token_is_invalid_session() {
    let (service, _) = service_with_alice();
    assert_eq!(service.authenticate("").unwrap_err(), AuthError::InvalidSession);
    assert_eq!(service.authenticate("abc").unwrap_err(), AuthError::InvalidSession);
}

#[test]
fn new_login_mints_new_session() {
    let (mut service, _) = service_with_alice();
    let t1 = service.login("alice@example.com", "pw123").unwrap();
    service.logout(&t1);
    let t2 = service.login("alice@example.com", "pw123").unwrap();
    assert_ne!(t1, t2);
    assert_eq!(service.authenticate(&t1).unwrap_err(), AuthError::InvalidSession);
    assert!(service.authenticate(&t2).is_ok());
}

#[test]
fn revoked_token_stays_revoked_after_reregistration() {
    let (mut service, alice_id) = service_with_alice();
    let token = service.login("alice@example.com", "pw123").unwrap();
    service.delete_account(alice_id);
    let again = service
        .register("alice@example.com".to_string(), "Alice".to_string(), "pw123")
        .unwrap();
    assert_ne!(again.id, alice_id);
    let fresh = service.login("alice@example.com", "pw123").unwrap();
    assert_ne!(fresh, token);
    assert_eq!(service.authenticate(&token).unwrap_err(), AuthError::InvalidSession);
    assert_eq!(service.authenticate(&fresh).unwrap().id, again.id);
}
