use pastepoint::{
    ResolveError, ServerError, SessionManager, SessionStore, SAFE_CHARSET, SESSION_CODE_LENGTH,
};

#[test]
fn test_session_manager() {
    let mut manager = SessionStore::new();
    let uuid1 = manager.get_or_create_session_uuid("127.0.0.1", false, false).unwrap();
    let uuid2 = manager.get_or_create_session_uuid("127.0.0.1", true, false).unwrap();
    assert_eq!(uuid1, uuid2);
    let uuid3 = manager.get_or_create_session_uuid("127.0.0.2", false, false).unwrap();
    assert_ne!(uuid1, uuid3);
}

#[test]
fn strict_lookup_of_unknown_key_is_not_found() {
    let mut store = SessionStore::new();
    assert_eq!(store.resolve("nobody", true, false, 1), Err(ResolveError::NotFound));
    assert_eq!(store.open_private_session("unknown_code"), Err(ServerError::NotFound));
    assert_eq!(
        store.open_private_session("   "),
        Err(ServerError::BadRequest("Session code cannot be empty".to_string()))
    );
}

#[test]
fn private_session_expiration() {
    let mut store = SessionStore::new();
    assert!(store.register_private_code("ABCDEFGHJK", 77));
    assert_eq!(store.open_private_session("ABCDEFGHJK"), Ok(77));
    let out = store.remove_client(77);
    assert!(out.session_emptied);
    assert_eq!(out.expirations.len(), 1);
    let (code, ticket) = out.expirations[0].clone();
    assert_eq!(code, "ABCDEFGHJK");
    assert!(store.expire(&code, ticket));
    assert!(store.is_code_expired("ABCDEFGHJK"));
    assert_eq!(store.resolve("ABCDEFGHJK", true, true, 5), Err(ResolveError::Expired));
    assert_eq!(store.open_private_session("ABCDEFGHJK"), Err(ServerError::NotFound));
    assert!(!store.register_private_code("ABCDEFGHJK", 78));
}

#[test]
fn private_session_reconnect_before_expiry() {
    let mut store = SessionStore::new();
    assert!(store.register_private_code("ABCDEFGHJK", 77));
    assert_eq!(store.open_private_session("ABCDEFGHJK"), Ok(77));
    let out = store.remove_client(77);
    let (code, ticket) = out.expirations[0].clone();
    assert_eq!(store.open_private_session("ABCDEFGHJK"), Ok(77));
    assert!(!store.expire(&code, ticket));
    assert!(!store.is_code_expired("ABCDEFGHJK"));
    assert_eq!(store.resolve("ABCDEFGHJK", true, true, 5), Ok(77));
}

#[test]
fn release_every_connection_drops_public_key() {
    let mut store = SessionStore::new();
    let u = store.resolve("host:10.0.0.1", false, false, 500).unwrap();
    assert_eq!(u, 500);
    assert_eq!(store.resolve("host:10.0.0.1", false, false, 501), Ok(500));
    assert_eq!(store.resolve("host:10.0.0.1", false, false, 502), Ok(500));
    assert!(!store.remove_client(500).session_emptied);
    assert!(!store.remove_client(500).session_emptied);
    let last = store.remove_client(500);
    assert!(last.session_emptied);
    assert!(last.expirations.is_empty());
    assert_eq!(store.resolve("host:10.0.0.1", true, false, 9), Err(ResolveError::NotFound));
}

#[test]
fn public_lookup_then_release_restores_store() {
    let mut store = SessionStore::new();
    assert_eq!(store.resolve("k", false, false, 1), Ok(1));
    assert!(store.remove_client(1).session_emptied);
    assert_eq!(store.resolve("k", true, false, 2), Err(ResolveError::NotFound));
    assert!(!store.remove_client(1).session_emptied);
}

#[test]
fn expired_code_is_never_resolved() {
    let mut store = SessionStore::new();
    store.register_private_code("CODE", 3);
    store.resolve("CODE", true, true, 0).unwrap();
    let out = store.remove_client(3);
    store.expire("CODE", out.expirations[0].1);
    for strict in [true, false] {
        assert_eq!(store.resolve("CODE", strict, true, 4), Err(ResolveError::Expired));
    }
}

#[test]
fn stale_ticket_does_not_expire() {
    let mut store = SessionStore::new();
    store.register_private_code("C", 3);
    store.resolve("C", true, true, 0).unwrap();
    let first = store.remove_client(3).expirations[0].1;
    store.resolve("C", true, true, 0).unwrap();
    let second = store.remove_client(3).expirations[0].1;
    assert_ne!(first, second);
    assert!(!store.expire("C", first));
    assert!(store.expire("C", second));
}

#[test]
fn random_codes_use_the_safe_alphabet() {
    let code = SessionStore::generate_random_code(SESSION_CODE_LENGTH);
    assert_eq!(code.chars().count(), 10);
    assert!(code.chars().all(|c| SAFE_CHARSET.contains(c)));
    assert_eq!(SAFE_CHARSET.chars().count(), 57);
    assert!(SessionStore::generate_random_code(0).is_empty());
}

#[test]
fn created_private_code_can_be_opened() {
    let mut store = SessionStore::new();
    let code = store.create_private_code(SESSION_CODE_LENGTH).unwrap();
    assert_eq!(code.len(), 10);
    let u = store.open_private_session(&code).unwrap();
    assert_eq!(store.open_private_session(&code), Ok(u));
}

#[test]
fn public_sessions_get_distinct_ids() {
    let mut store = SessionStore::new();
    let a = store.open_public_session("h:1");
    let b = store.open_public_session("h:2");
    assert_ne!(a, b);
    assert_eq!(store.open_public_session("h:1"), a);
}

#[test]
fn session_manager_counts_clients_per_address() {
    let mut m = SessionManager::new();
    let a = m.get_or_create_uuid_with("10.0.0.1", 1);
    assert_eq!(a, 1);
    assert_eq!(m.get_or_create_uuid_with("10.0.0.1", 2), 1);
    assert_eq!(m.get_or_create_uuid_with("10.0.0.3", 1), 1);
    m.remove_client(1);
    m.remove_client(1);
    assert_eq!(m.get_or_create_uuid_with("10.0.0.1", 5), 1);
    m.remove_client(1);
    m.remove_client(1);
    assert_eq!(m.get_or_create_uuid_with("10.0.0.1", 6), 6);
    assert_eq!(m.get_or_create_uuid_with("10.0.0.3", 7), 7);
    m.force_remove_uuid(6);
    assert_eq!(m.get_or_create_uuid_with("10.0.0.1", 8), 8);
    assert_eq!(m.get_or_create_uuid_with("10.0.0.3", 9), 7);
}

#[test]
fn session_manager_random_ids_differ_per_address() {
    let mut m = SessionManager::new();
    let a = m.get_or_create_uuid("127.0.0.1");
    assert_eq!(m.get_or_create_uuid("127.0.0.1"), a);
    assert_ne!(m.get_or_create_uuid("127.0.0.2"), a);
}

#[test]
fn several_public_lookups_then_as_many_releases() {
    let mut store = SessionStore::new();
    for _ in 0..3 {
        assert_eq!(store.resolve("h:1", false, false, 40), Ok(40));
    }
    assert!(!store.remove_client(40).session_emptied);
    assert!(!store.remove_client(40).session_emptied);
    let last = store.remove_client(40);
    assert!(last.session_emptied);
    assert!(last.expirations.is_empty());
    assert_eq!(store.resolve("h:1", true, false, 41), Err(ResolveError::NotFound));
}

#[test]
fn several_private_lookups_then_expiry() {
    let mut store = SessionStore::new();
    assert!(store.register_private_code("PRIV", 50));
    assert_eq!(store.open_private_session("PRIV"), Ok(50));
    assert_eq!(store.open_private_session("PRIV"), Ok(50));
    let first = store.remove_client(50);
    assert!(!first.session_emptied);
    assert!(first.expirations.is_empty());
    let last = store.remove_client(50);
    assert!(last.session_emptied);
    let (code, ticket) = last.expirations[0].clone();
    assert_eq!(store.resolve("PRIV", true, true, 0).is_ok(), true);
    assert!(!store.expire(&code, ticket));
    let again = store.remove_client(50);
    assert!(store.expire(&code, again.expirations[0].1));
    assert!(store.is_code_expired("PRIV"));
    assert_eq!(store.open_private_session("PRIV"), Err(ServerError::NotFound));
}

#[test]
fn session_ids_carry_version_four_bits() {
    let mut store = SessionStore::new();
    for k in ["a", "b", "c"] {
        let u = store.open_public_session(k);
        assert_eq!((u >> 76) & 0xf, 4);
        assert_eq!((u >> 62) & 0x3, 2);
    }
}

#[test]
fn fresh_registry_always_gets_a_code() {
    for _ in 0..20 {
        let mut store = SessionStore::new();
        let code = store.create_private_code(SESSION_CODE_LENGTH).unwrap();
        assert_eq!(code.chars().count(), SESSION_CODE_LENGTH);
    }
}
