use remotestorage_client::cookies::{cookie_get, cookie_set, store_key, StoreError};

#[test]
fn reads_the_value_under_a_name() {
    assert_eq!(
        cookie_get("a=1; key=value; b=2", "key"),
        Ok(Some("value".to_string()))
    );
}

#[test]
fn names_and_values_are_trimmed() {
    assert_eq!(
        cookie_get("  key  =  spaced%20value  ", "key"),
        Ok(Some("spaced value".to_string()))
    );
}

#[test]
fn the_last_entry_wins() {
    assert_eq!(
        cookie_get("key=first; key=second", "key"),
        Ok(Some("second".to_string()))
    );
}

#[test]
fn a_later_bare_entry_resets_the_value() {
    assert_eq!(cookie_get("key=first; key", "key"), Ok(None));
}

#[test]
fn values_stop_at_a_second_assignment() {
    assert_eq!(cookie_get("key=a=b", "key"), Ok(Some("a".to_string())));
}

#[test]
fn missing_name_reads_nothing() {
    assert_eq!(cookie_get("a=1; b=2", "key"), Ok(None));
}

#[test]
fn an_undecodable_value_fails_the_read() {
    assert_eq!(
        cookie_get("other=%zz; key=fine", "key"),
        Err(StoreError::NotDecodable)
    );
}

#[test]
fn assignment_encodes_the_value() {
    assert_eq!(cookie_set("key", "a b/c"), "key=a%20b%2Fc");
}

#[test]
fn values_beyond_ascii_encode_and_decode() {
    assert_eq!(cookie_set("k", "\u{03B2}"), "k=%CE%B2");
    assert_eq!(cookie_get("k=%CE%B2", "k"), Ok(Some("\u{03B2}".to_string())));
}

#[test]
fn scoped_key_shape() {
    assert_eq!(
        store_key("localhost:8000", "alice", "example.com:8443", "counter"),
        "localhost%3A8000|alice|example.com%3A8443|counter|access_token"
    );
}

#[test]
fn scoped_keys_for_different_accounts_differ() {
    let a = store_key("app.example", "alice", "example.com", "counter");
    let b = store_key("app.example", "bob", "example.com", "counter");
    assert_ne!(a, b);
}

#[test]
fn persisted_token_reads_back() {
    let key = store_key("app.example", "alice", "example.com", "counter");
    let assignment = cookie_set(&key, "t0k|en =; %value");
    let cookies = format!("other=1; {assignment}; last=2");
    assert_eq!(
        cookie_get(&cookies, &key),
        Ok(Some("t0k|en =; %value".to_string()))
    );
}
