use xiaozhi_core::db::db_execute;
use xiaozhi_core::secure_store::{secure_store_get, secure_store_set, SecureStoreState};

#[test]
fn scenario_token_round_trip() {
    let mut store = SecureStoreState::new();
    store.set("token".to_owned(), "abc123".to_owned());
    assert_eq!(store.get(&"token".to_owned()), Some("abc123".to_owned()));
    assert_eq!(store.get(&"missing".to_owned()), None);
    store.set("token".to_owned(), "xyz789".to_owned());
    assert_eq!(store.get(&"token".to_owned()), Some("xyz789".to_owned()));
}

#[test]
fn get_unwritten_key_is_absent_not_an_error() {
    let store = SecureStoreState::new();
    let read = secure_store_get(&store, "never_written".to_owned());
    assert_eq!(read, Ok(None));
}

#[test]
fn overwrite_is_last_write_wins() {
    let mut store = SecureStoreState::new();
    store.set("k".to_owned(), "first".to_owned());
    store.set("k".to_owned(), "second".to_owned());
    store.set("k".to_owned(), "third".to_owned());
    assert_eq!(store.get(&"k".to_owned()), Some("third".to_owned()));
}

#[test]
fn distinct_keys_all_retained() {
    let mut store = SecureStoreState::new();
    store.set("alpha".to_owned(), "1".to_owned());
    store.set("beta".to_owned(), "2".to_owned());
    store.set("gamma".to_owned(), "3".to_owned());
    store.set("beta".to_owned(), "2b".to_owned());
    assert_eq!(store.get(&"alpha".to_owned()), Some("1".to_owned()));
    assert_eq!(store.get(&"beta".to_owned()), Some("2b".to_owned()));
    assert_eq!(store.get(&"gamma".to_owned()), Some("3".to_owned()));
}

#[test]
fn default_store_is_empty() {
    let store = SecureStoreState::default();
    assert_eq!(store.get(&"anything".to_owned()), None);
}

#[test]
fn command_handlers_return_ok() {
    let mut store = SecureStoreState::new();
    let wrote = secure_store_set(&mut store, "token".to_owned(), "abc123".to_owned());
    assert_eq!(wrote, Ok(()));
    let read = secure_store_get(&store, "token".to_owned());
    assert_eq!(read, Ok(Some("abc123".to_owned())));
}

#[test]
fn empty_key_and_empty_value_are_ordinary_entries() {
    let mut store = SecureStoreState::new();
    store.set(String::new(), "value_of_empty_key".to_owned());
    store.set("empty_value".to_owned(), String::new());
    assert_eq!(
        store.get(&String::new()),
        Some("value_of_empty_key".to_owned())
    );
    assert_eq!(store.get(&"empty_value".to_owned()), Some(String::new()));
}

#[test]
fn db_execute_returns_fixed_success_payload() {
    let result = db_execute("SELECT 1".to_owned(), None);
    let payload = result.expect("the database stub never fails");
    assert!(payload.is_object());
    assert_eq!(
        payload.get("status").and_then(|v| v.as_str()),
        Some("ok")
    );
    assert_eq!(
        payload.get("message").and_then(|v| v.as_str()),
        Some("TODO: implement db_execute")
    );
}

#[test]
fn db_execute_ignores_statement_and_parameters() {
    let with_nothing = db_execute(String::new(), None).unwrap();
    let params = vec![
        serde_json::Value::String("bound".to_owned()),
        serde_json::Value::Null,
    ];
    let with_params = db_execute("UPDATE t SET c = ?".to_owned(), Some(params)).unwrap();
    assert_eq!(with_nothing, with_params);
}
