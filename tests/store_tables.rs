use hub_auth::{AuthError, GreetingResponse, Store};

fn s(x: &str) -> String {
    x.to_string()
}

#[test]
fn create_and_find_users() {
    let mut store = Store::new();
    let a = store.create_user(s("a@x.org"), s("A"), s("hash-a")).unwrap();
    let b = store.create_user(s("b@x.org"), s("B"), s("hash-b")).unwrap();
    assert_ne!(a.id, b.id);
    assert_eq!(b.id, a.id + 1);
    let found = store.find_user_by_email("b@x.org").unwrap();
    assert_eq!((found.id, found.name.as_str(), found.email.as_str()), (b.id, "B", "b@x.org"));
    let by_id = store.find_user_by_id(a.id).unwrap();
    assert_eq!(by_id.email, "a@x.org");
    assert!(store.find_user_by_email("c@x.org").is_none());
    assert!(store.find_user_by_id(b.id + 1).is_none());
    assert_eq!(store.user_count(), 2);
}

#[test]
fn store_refuses_duplicate_email() {
    let mut store = Store::new();
    store.create_user(s("a@x.org"), s("A"), s("h")).unwrap();
    let again = store.create_user(s("a@x.org"), s("A2"), s("h2"));
    assert_eq!(again.unwrap_err(), AuthError::DuplicateEmail);
    assert_eq!(store.user_count(), 1);
    assert_eq!(store.find_user_by_email("a@x.org").unwrap().name, "A");
}

#[test]
fn session_needs_existing_user() {
    let mut store = Store::new();
    let r = store.create_session(7, s("tok"));
    assert_eq!(r.unwrap_err(), AuthError::UnknownUser);
    assert_eq!(store.session_count(), 0);
}

#[test]
fn session_token_collision() {
    let mut store = Store::new();
    let a = store.create_user(s("a@x.org"), s("A"), s("h")).unwrap();
    let b = store.create_user(s("b@x.org"), s("B"), s("h")).unwrap();
    let first = store.create_session(a.id, s("tok")).unwrap();
    assert_eq!(first.token, "tok");
    assert_eq!(first.user_id, a.id);
    let clash = store.create_session(b.id, s("tok"));
    assert_eq!(clash.unwrap_err(), AuthError::TokenCollision);
    assert_eq!(store.session_count(), 1);
    let found = store.find_session_by_token("tok").unwrap();
    assert_eq!((found.id, found.user_id), (first.id, a.id));
}

#[test]
fn delete_session_is_idempotent() {
    let mut store = Store::new();
    let a = store.create_user(s("a@x.org"), s("A"), s("h")).unwrap();
    let s1 = store.create_session(a.id, s("t1")).unwrap();
    let s2 = store.create_session(a.id, s("t2")).unwrap();
    assert_ne!(s1.id, s2.id);
    store.delete_session(s1.id);
    assert!(store.find_session_by_token("t1").is_none());
    store.delete_session(s1.id);
    store.delete_session(9999);
    assert_eq!(store.find_session_by_token("t2").unwrap().id, s2.id);
    assert_eq!(store.session_count(), 1);
}

#[test]
fn delete_sessions_for_user_keeps_others() {
    let mut store = Store::new();
    let a = store.create_user(s("a@x.org"), s("A"), s("h")).unwrap();
    let b = store.create_user(s("b@x.org"), s("B"), s("h")).unwrap();
    store.create_session(a.id, s("a1")).unwrap();
    store.create_session(b.id, s("b1")).unwrap();
    store.create_session(a.id, s("a2")).unwrap();
    store.delete_sessions_for_user(a.id);
    assert_eq!(store.session_count(), 1);
    assert!(store.find_session_by_token("a1").is_none());
    assert!(store.find_session_by_token("a2").is_none());
    assert_eq!(store.find_session_by_token("b1").unwrap().user_id, b.id);
    store.delete_sessions_for_user(a.id);
    assert_eq!(store.session_count(), 1);
    assert!(store.find_user_by_id(a.id).is_some());
}

#[test]
fn delete_user_cascades() {
    let mut store = Store::new();
    let a = store.create_user(s("a@x.org"), s("A"), s("h")).unwrap();
    let b = store.create_user(s("b@x.org"), s("B"), s("h")).unwrap();
    store.create_session(a.id, s("a1")).unwrap();
    store.create_session(b.id, s("b1")).unwrap();
    store.delete_user(a.id);
    assert!(store.find_user_by_id(a.id).is_none());
    assert!(store.find_user_by_email("a@x.org").is_none());
    assert!(store.find_session_by_token("a1").is_none());
    assert_eq!(store.user_count(), 1);
    assert_eq!(store.session_count(), 1);
    let again = store.create_user(s("a@x.org"), s("A again"), s("h")).unwrap();
    assert_ne!(again.id, a.id);
    assert_eq!(store.create_session(a.id, s("a2")).unwrap_err(), AuthError::UnknownUser);
}

#[test]
fn greeting_message() {
    assert_eq!(GreetingResponse::hello().message, "Hello world!");
}

#[test]
fn revoked_token_cannot_be_reissued() {
    let mut store = Store::new();
    let a = store.create_user(s("a@x.org"), s("A"), s("h")).unwrap();
    let first = store.create_session(a.id, s("tok")).unwrap();
    assert!(store.was_issued("tok"));
    store.delete_session(first.id);
    assert!(store.find_session_by_token("tok").is_none());
    assert!(store.was_issued("tok"));
    assert_eq!(store.create_session(a.id, s("tok")).unwrap_err(), AuthError::TokenCollision);
    store.delete_user(a.id);
    let b = store.create_user(s("a@x.org"), s("A again"), s("h")).unwrap();
    assert_eq!(store.create_session(b.id, s("tok")).unwrap_err(), AuthError::TokenCollision);
    assert!(store.find_session_by_token("tok").is_none());
    assert!(!store.was_issued("other"));
}
