use remotestorage_client::cookies::cookie_set;
use remotestorage_client::discovery::parse_discovery;
use remotestorage_client::session::{authorization_url, resolve_token_source, AuthError,
    AuthSession, SessionOutcome, TokenSourceOutcome};

fn session() -> AuthSession {
    AuthSession::new(
        "https://example.com".to_string(),
        "alice".to_string(),
        "counter".to_string(),
        "http://localhost:8000".to_string(),
    )
}

const LINKS_WITH_OAUTH: &str = r#"{"links":[{"href":"https://storage.example/alice",
    "properties":{"http://tools.ietf.org/html/rfc6749#section-4.2":"https://auth.example/oauth"}}]}"#;

const LINKS_WITHOUT_OAUTH: &str = r#"{"links":[{"href":"https://storage.example/alice"}]}"#;

const KEY: &str = "localhost%3A8000|alice|example.com|counter|access_token";

#[test]
fn session_discovery_url() {
    assert_eq!(
        session().discovery_url(),
        Ok("https://example.com/.well-known/webfinger?resource=acct:alice@example.com".to_string())
    );
}

#[test]
fn discovery_url_fails_without_a_host() {
    let s = AuthSession::new(
        "/no/host".to_string(),
        "alice".to_string(),
        "counter".to_string(),
        "http://localhost:8000".to_string(),
    );
    assert_eq!(s.discovery_url(), Err(AuthError::DiscoveryFailed));
}

#[test]
fn session_store_key_is_scoped() {
    assert_eq!(session().store_key(), Ok(KEY.to_string()));
}

#[test]
fn store_key_fails_without_a_client_host() {
    let s = AuthSession::new(
        "https://example.com".to_string(),
        "alice".to_string(),
        "counter".to_string(),
        "/no/host".to_string(),
    );
    assert_eq!(s.store_key(), Err(AuthError::StoreFailure));
}

#[test]
fn fresh_visit_needs_authorization() {
    // discovery names an authorization endpoint; no cached token, no
    // fragment token
    let links = parse_discovery(LINKS_WITH_OAUTH).unwrap();
    let outcome = session()
        .resolve(&links, "", "", "https://app.example/page")
        .unwrap();
    match outcome {
        SessionOutcome::NeedsAuthorization { request, url } => {
            assert_eq!(request.endpoint, "https://auth.example/oauth");
            assert_eq!(request.redirect_uri, "https://app.example/page");
            assert_eq!(request.scope, "counter");
            assert_eq!(request.client_id, "http://localhost:8000");
            assert_eq!(request.response_type, "token");
            assert_eq!(
                url,
                "https://auth.example/oauth?redirect_uri=https%3A%2F%2Fapp.example%2Fpage\
                 &scope=counter&client_id=http%3A%2F%2Flocalhost%3A8000&response_type=token"
            );
        }
        SessionOutcome::Ready { .. } => panic!("expected a pending authorization"),
    }
}

#[test]
fn authorization_url_is_rebuildable_from_the_request() {
    let links = parse_discovery(LINKS_WITH_OAUTH).unwrap();
    match session()
        .resolve(&links, "", "", "https://app.example/page")
        .unwrap()
    {
        SessionOutcome::NeedsAuthorization { request, url } => {
            assert_eq!(authorization_url(&request), url);
        }
        SessionOutcome::Ready { .. } => panic!("expected a pending authorization"),
    }
}

#[test]
fn return_from_authorization_reaches_ready() {
    // the redirect brought a fragment token; no cached token
    let links = parse_discovery(LINKS_WITH_OAUTH).unwrap();
    let fragment = "#state=x&token_type=bearer&access_token=abc123&expires_in=3600";
    let outcome = session()
        .resolve(&links, "", fragment, "https://app.example/page")
        .unwrap();
    match outcome {
        SessionOutcome::Ready { storage_path, access_token, consume } => {
            assert_eq!(storage_path, "https://storage.example/alice");
            assert_eq!(access_token, "abc123");
            let actions = consume.expect("a fragment token must be consumed");
            assert_eq!(actions.replace_url_with, "/");
            assert_eq!(actions.persist_cookie, format!("{KEY}=abc123"));
        }
        SessionOutcome::NeedsAuthorization { .. } => panic!("expected a ready session"),
    }
}

#[test]
fn cached_token_wins_over_any_fragment() {
    // every combination of cache and fragment: the cache decides whenever
    // it is present
    let links = parse_discovery(LINKS_WITH_OAUTH).unwrap();
    let cookies = format!("{KEY}=cached%20token");
    let fragments = [
        "",
        "#state=x&token_type=bearer&access_token=other&expires_in=3600",
    ];
    for fragment in fragments {
        let outcome = session()
            .resolve(&links, &cookies, fragment, "https://app.example/page")
            .unwrap();
        match outcome {
            SessionOutcome::Ready { access_token, consume, .. } => {
                assert_eq!(access_token, "cached token");
                assert!(consume.is_none(), "a cached token consumes nothing");
            }
            SessionOutcome::NeedsAuthorization { .. } => panic!("expected a ready session"),
        }
    }
}

#[test]
fn token_source_precedence() {
    let fragment = "#token_type=bearer&access_token=fromfrag&x";
    match resolve_token_source(Some("cached".to_string()), fragment) {
        TokenSourceOutcome::Cached(t) => assert_eq!(t, "cached"),
        _ => panic!("cache first"),
    }
    match resolve_token_source(None, fragment) {
        TokenSourceOutcome::FromRedirect(t) => assert_eq!(t, "fromfrag"),
        _ => panic!("fragment second"),
    }
    match resolve_token_source(None, "") {
        TokenSourceOutcome::Absent => {}
        _ => panic!("nothing third"),
    }
}

#[test]
fn consumed_token_is_not_consumed_again() {
    // first run: token from the fragment, with its consume actions
    let links = parse_discovery(LINKS_WITH_OAUTH).unwrap();
    let fragment = "#state=x&token_type=bearer&access_token=once%2Fonly&e=1";
    let first = session()
        .resolve(&links, "", fragment, "https://app.example/page")
        .unwrap();
    let persisted = match first {
        SessionOutcome::Ready { access_token, consume, .. } => {
            assert_eq!(access_token, "once/only");
            consume.expect("first run consumes").persist_cookie
        }
        SessionOutcome::NeedsAuthorization { .. } => panic!("expected a ready session"),
    };
    // second run: the fragment is cleared, the persisted entry is there
    let second = session()
        .resolve(&links, &persisted, "", "https://app.example/page")
        .unwrap();
    match second {
        SessionOutcome::Ready { access_token, consume, .. } => {
            assert_eq!(access_token, "once/only");
            assert!(consume.is_none(), "a cached token consumes nothing");
        }
        SessionOutcome::NeedsAuthorization { .. } => panic!("expected a ready session"),
    }
    // even a stale, uncleared fragment does not win over the cache
    let third = session()
        .resolve(&links, &persisted, fragment, "https://app.example/page")
        .unwrap();
    match third {
        SessionOutcome::Ready { access_token, consume, .. } => {
            assert_eq!(access_token, "once/only");
            assert!(consume.is_none());
        }
        SessionOutcome::NeedsAuthorization { .. } => panic!("expected a ready session"),
    }
}

#[test]
fn no_endpoint_and_no_token_fails() {
    let links = parse_discovery(LINKS_WITHOUT_OAUTH).unwrap();
    assert_eq!(
        session()
            .resolve(&links, "", "", "https://app.example/page")
            .err(),
        Some(AuthError::NoAuthorizationEndpoint)
    );
}

#[test]
fn null_endpoint_property_counts_as_absent() {
    let body = r#"{"links":[{"href":"/x",
        "properties":{"http://tools.ietf.org/html/rfc6749#section-4.2":null}}]}"#;
    let links = parse_discovery(body).unwrap();
    assert_eq!(
        session().resolve(&links, "", "", "https://a/p").err(),
        Some(AuthError::NoAuthorizationEndpoint)
    );
}

#[test]
fn broken_store_fails_the_session() {
    let links = parse_discovery(LINKS_WITH_OAUTH).unwrap();
    assert_eq!(
        session()
            .resolve(&links, "other=%zz", "", "https://a/p")
            .err(),
        Some(AuthError::StoreFailure)
    );
}

#[test]
fn cached_token_is_read_from_a_shared_store() {
    let links = parse_discovery(LINKS_WITH_OAUTH).unwrap();
    let mine = cookie_set(KEY, "mine");
    let other_key = "app.other|bob|example.com|counter|access_token";
    let cookies = format!("{}=theirs; {}", other_key, mine);
    match session().resolve(&links, &cookies, "", "https://a/p").unwrap() {
        SessionOutcome::Ready { access_token, .. } => assert_eq!(access_token, "mine"),
        SessionOutcome::NeedsAuthorization { .. } => panic!("expected a ready session"),
    }
}
