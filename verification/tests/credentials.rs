use social_network::StoreError;
use social_network::user_db::CredentialStore;

#[test]
fn register_then_login_scenario() {
    let mut store = CredentialStore::new();
    assert_eq!(store.register_user("alice", "pw1"), Ok(()));
    assert_eq!(
        store.register_user("alice", "pw2"),
        Err(StoreError::AlreadyExists)
    );
    assert_eq!(store.check_credentials("alice", "pw1"), Ok(true));
    assert_eq!(store.check_credentials("alice", "pw2"), Ok(false));
}

#[test]
fn lookup_finds_registered_username() {
    let mut store = CredentialStore::new();
    assert_eq!(store.find_user_by_username("alice"), Ok(None));
    assert_eq!(store.register_user("alice", "pw1"), Ok(()));
    assert_eq!(
        store.find_user_by_username("alice"),
        Ok(Some(String::from("alice")))
    );
    assert_eq!(store.find_user_by_username("bob"), Ok(None));
}

#[test]
fn unknown_user_is_false_not_an_error() {
    let store = CredentialStore::new();
    assert_eq!(store.check_credentials("missing", "anything"), Ok(false));
}

#[test]
fn second_account_is_independent() {
    let mut store = CredentialStore::new();
    assert_eq!(store.register_user("alice", "pw1"), Ok(()));
    assert_eq!(store.register_user("bob", "pw2"), Ok(()));
    assert_eq!(store.check_credentials("alice", "pw1"), Ok(true));
    assert_eq!(store.check_credentials("bob", "pw2"), Ok(true));
    assert_eq!(store.check_credentials("alice", "pw2"), Ok(false));
    assert_eq!(store.check_credentials("bob", "pw1"), Ok(false));
}

#[test]
fn stored_hash_is_not_the_password() {
    let mut store = CredentialStore::new();
    assert_eq!(store.register_user("alice", "pw1"), Ok(()));
    let hash = store.password_hash_of("alice").unwrap();
    assert_ne!(hash, "pw1");
    assert!(hash.starts_with("$2"));
    assert_eq!(store.password_hash_of("bob"), None);
}

#[test]
fn replayed_hash_still_verifies() {
    let mut store = CredentialStore::new();
    assert_eq!(store.register_user("alice", "pw1"), Ok(()));
    let hash = store.password_hash_of("alice").unwrap();

    let mut replayed = CredentialStore::new();
    assert_eq!(replayed.register_hashed("alice", hash), Ok(()));
    assert_eq!(replayed.check_credentials("alice", "pw1"), Ok(true));
    assert_eq!(replayed.check_credentials("alice", "pw2"), Ok(false));
}

#[test]
fn register_hashed_rejects_taken_username() {
    let mut store = CredentialStore::new();
    assert_eq!(store.register_hashed("alice", String::from("$2b$...")), Ok(()));
    assert_eq!(
        store.register_hashed("alice", String::from("other")),
        Err(StoreError::AlreadyExists)
    );
}

#[test]
fn malformed_stored_hash_is_a_distinct_error() {
    let mut store = CredentialStore::new();
    assert_eq!(
        store.register_hashed("alice", String::from("not a bcrypt hash")),
        Ok(())
    );
    assert_eq!(
        store.check_credentials("alice", "pw1"),
        Err(StoreError::HashComputation)
    );
}

#[test]
fn usernames_are_case_sensitive() {
    let mut store = CredentialStore::new();
    assert_eq!(store.register_user("Alice", "pw1"), Ok(()));
    assert_eq!(store.find_user_by_username("alice"), Ok(None));
    assert_eq!(store.check_credentials("alice", "pw1"), Ok(false));
    assert_eq!(store.register_user("alice", "pw1"), Ok(()));
}
