use echo_note::keychain::{
    delete_reply, is_secret_setting, read_reply, write_reply, InMemorySecretStore, SecretStore, StoreReply,
};

#[test]
fn in_memory_store_round_trips_secrets() {
    let mut store = InMemorySecretStore::new();

    assert!(store.get("api_key").unwrap().is_none());

    store.set("api_key", "sk-test-123").unwrap();
    assert_eq!(store.get("api_key").unwrap().as_deref(), Some("sk-test-123"));

    assert!(store.delete("api_key").unwrap());
    assert!(store.get("api_key").unwrap().is_none());
    assert!(!store.delete("api_key").unwrap());
}

#[test]
fn in_memory_store_keeps_accounts_independent() {
    let mut store = InMemorySecretStore::new();
    store.set("api_key", "one").unwrap();
    store.set("other", "two").unwrap();

    assert_eq!(store.get("api_key").unwrap().as_deref(), Some("one"));
    assert_eq!(store.get("other").unwrap().as_deref(), Some("two"));
    assert!(store.get("missing").unwrap().is_none());
}

#[test]
fn in_memory_store_overwrites_and_deletes_one_account() {
    let mut store = InMemorySecretStore::new();
    store.set("a", "1").unwrap();
    store.set("b", "2").unwrap();
    store.set("a", "3").unwrap();
    assert_eq!(store.get("a").unwrap().as_deref(), Some("3"));
    assert!(store.delete("a").unwrap());
    assert_eq!(store.get("b").unwrap().as_deref(), Some("2"));
}

#[test]
fn api_key_is_recognised_as_secret_setting() {
    assert!(is_secret_setting("api_key"));
    assert!(!is_secret_setting("whisper_model_size"));
    assert!(!is_secret_setting("audio_device"));
}

#[test]
fn store_replies_map_to_read_results() {
    assert_eq!(read_reply(StoreReply::Done("sk-1".to_string())), Ok(Some("sk-1".to_string())));
    assert_eq!(read_reply(StoreReply::Missing), Ok(None));
    assert_eq!(
        read_reply(StoreReply::Failed("locked".to_string())),
        Err("Failed to read Keychain entry: locked".to_string())
    );
}

#[test]
fn store_replies_map_to_write_results() {
    assert_eq!(write_reply(Ok(())), Ok(()));
    assert_eq!(write_reply(Err("denied".to_string())), Err("Failed to write Keychain entry".to_string()));
}

#[test]
fn store_replies_map_to_delete_results() {
    assert_eq!(delete_reply(StoreReply::Done(())), Ok(true));
    assert_eq!(delete_reply(StoreReply::Missing), Ok(false));
    assert_eq!(
        delete_reply(StoreReply::Failed("locked".to_string())),
        Err("Failed to delete Keychain entry: locked".to_string())
    );
}
