use rift_bus::keyring::{
    delete_outcome, failure_message, read_outcome, resolve_api_key, resolve_from_lookup, store_outcome,
    KeyringFailure,
};

#[test]
fn resolve_falls_back_to_raw_value() {
    let key = resolve_api_key("nonexistent-test-model", Some("raw-key-123")).0;
    assert_eq!(key, "raw-key-123");
}

#[test]
fn resolve_returns_empty_when_no_key() {
    let key = resolve_api_key("nonexistent-test-model", None).0;
    assert_eq!(key, "");
}

#[test]
fn stored_key_wins_over_raw_value() {
    let key = resolve_from_lookup(Ok(Some("from-store".to_string())), Some("raw"));
    assert_eq!(key, "from-store");
    let key = resolve_from_lookup(Ok(None), Some("raw"));
    assert_eq!(key, "raw");
    let key = resolve_from_lookup(Err("locked".to_string()), None);
    assert_eq!(key, "");
}

#[test]
fn read_outcome_maps_each_answer() {
    assert_eq!(read_outcome(Ok("sk-1".to_string())), Ok(Some("sk-1".to_string())));
    assert_eq!(read_outcome(Err(KeyringFailure { no_entry: true, text: "none".to_string() })), Ok(None));
    assert_eq!(
        read_outcome(Err(KeyringFailure { no_entry: false, text: "locked".to_string() })),
        Err("keyring read error: locked".to_string())
    );
}

#[test]
fn delete_and_store_outcomes() {
    assert_eq!(delete_outcome(Ok(())), Ok(()));
    assert_eq!(delete_outcome(Err(KeyringFailure { no_entry: true, text: "x".to_string() })), Ok(()));
    assert_eq!(
        delete_outcome(Err(KeyringFailure { no_entry: false, text: "denied".to_string() })),
        Err("keyring delete error: denied".to_string())
    );
    assert_eq!(store_outcome(Ok(())), Ok(()));
    assert_eq!(
        store_outcome(Err(KeyringFailure { no_entry: false, text: "full".to_string() })),
        Err("keyring store error: full".to_string())
    );
    let f = KeyringFailure { no_entry: false, text: "t".to_string() };
    assert_eq!(failure_message("p: ", &f), "p: t");
}

#[test]
fn keyring_entry_failure_is_reported_with_prefix() {
    match rift_bus::keyring::keyring_entry("rift-test-model").0 {
        Ok(_) => {}
        Err(m) => assert!(m.starts_with("keyring entry error: ")),
    }
}
