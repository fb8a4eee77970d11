use remotestorage_client::discovery::{discover_outcome, discovery_url, link_property,
    parse_discovery, DiscoveryError};

#[test]
fn parses_single_link_with_properties() {
    let body = r#"{"links":[{"href":"https://storage.example/alice",
        "properties":{"http://tools.ietf.org/html/rfc6749#section-4.2":"https://auth.example/oauth"}}]}"#;
    let result = parse_discovery(body).unwrap();
    assert_eq!(result.links.len(), 1);
    assert_eq!(result.links[0].href, "https://storage.example/alice");
    let prop = link_property(
        &result.links[0],
        "http://tools.ietf.org/html/rfc6749#section-4.2",
    );
    assert_eq!(prop, Some(Some("https://auth.example/oauth".to_string())));
}

#[test]
fn discovery_idempotent_on_fixture() {
    let body = r#"{"links":[{"href":"/storage/alice","properties":{"a":null,"b":"x"}},
        {"href":"/storage/backup"}]}"#;
    let first = parse_discovery(body).unwrap();
    let second = parse_discovery(body).unwrap();
    assert_eq!(first.links.len(), second.links.len());
    for (l, r) in first.links.iter().zip(second.links.iter()) {
        assert_eq!(l.href, r.href);
        assert_eq!(l.properties, r.properties);
    }
}

#[test]
fn empty_links_is_no_links() {
    assert_eq!(
        parse_discovery(r#"{"links":[]}"#).err(),
        Some(DiscoveryError::NoLinks)
    );
}

#[test]
fn transport_failure_is_network() {
    assert_eq!(discover_outcome(None).err(), Some(DiscoveryError::Network));
}

#[test]
fn malformed_bodies_are_rejected() {
    for body in [
        "",
        "not json",
        "42",
        r#""a string""#,
        r#"[{"href":"/x"}]"#,
        r#"{"other":[]}"#,
        r#"{"links":[{"properties":{}}]}"#,
        r#"{"links":[{"href":17}]}"#,
        r#"{"links":[{"href":"/x","href":"/y"}]}"#,
        r#"{"links":[{"href":"/x","properties":{"k":5}}]}"#,
        r#"{"links":[{"href":"/x","properties":[]}]}"#,
        r#"{"links":[{"href":"/x"}],"links":[]}"#,
        r#"{"links":[{"href":"/x"}] trailing"#,
        r#"{"links":[{"href":"/x"},]}"#,
    ] {
        assert_eq!(
            parse_discovery(body).err(),
            Some(DiscoveryError::Malformed),
            "body: {body}"
        );
    }
}

#[test]
fn missing_properties_default_to_empty() {
    let result = parse_discovery(r#"{"links":[{"href":"/only"}]}"#).unwrap();
    assert_eq!(result.links[0].properties.len(), 0);
}

#[test]
fn unknown_members_are_ignored() {
    let body = r#" { "version" : 3.5e2 , "links" : [ { "rel" : ["x", true, null],
        "href" : "/x" , "extra" : { "deep" : [ { } ] } } ] } "#;
    let result = parse_discovery(body).unwrap();
    assert_eq!(result.links[0].href, "/x");
}

#[test]
fn string_escapes_are_decoded() {
    let body = "{\"links\":[{\"href\":\"\\u0061\\n\\\"\\\\\\/\\uD83D\\uDE00end\"}]}";
    let result = parse_discovery(body).unwrap();
    assert_eq!(result.links[0].href, "a\n\"\\/\u{1F600}end");
}

#[test]
fn lone_surrogate_is_malformed() {
    let body = "{\"links\":[{\"href\":\"\\uD83D\"}]}";
    assert_eq!(parse_discovery(body).err(), Some(DiscoveryError::Malformed));
}

#[test]
fn duplicate_property_keys_keep_the_last() {
    let body = r#"{"links":[{"href":"/x","properties":{"k":"first","k":"second"}}]}"#;
    let result = parse_discovery(body).unwrap();
    assert_eq!(
        link_property(&result.links[0], "k"),
        Some(Some("second".to_string()))
    );
}

#[test]
fn null_property_is_kept_as_null() {
    let body = r#"{"links":[{"href":"/x","properties":{"k":null}}]}"#;
    let result = parse_discovery(body).unwrap();
    assert_eq!(link_property(&result.links[0], "k"), Some(None));
    assert_eq!(link_property(&result.links[0], "absent"), None);
}

#[test]
fn number_forms_follow_the_grammar() {
    for ok in [
        r#"{"links":[],"n":0}"#,
        r#"{"links":[],"n":-0}"#,
        r#"{"links":[],"n":12.75}"#,
        r#"{"links":[],"n":1e5}"#,
        r#"{"links":[],"n":-3.5E+2}"#,
        r#"{"links":[],"n":9e-2}"#,
    ] {
        assert_eq!(
            parse_discovery(ok).err(),
            Some(DiscoveryError::NoLinks),
            "body: {ok}"
        );
    }
    for bad in [
        r#"{"links":[],"n":01}"#,
        r#"{"links":[],"n":+1}"#,
        r#"{"links":[],"n":1.}"#,
        r#"{"links":[],"n":.5}"#,
        r#"{"links":[],"n":1e}"#,
        r#"{"links":[],"n":-}"#,
    ] {
        assert_eq!(
            parse_discovery(bad).err(),
            Some(DiscoveryError::Malformed),
            "body: {bad}"
        );
    }
}

#[test]
fn unescaped_control_characters_are_malformed() {
    let body = "{\"links\":[{\"href\":\"a\tb\"}]}";
    assert_eq!(parse_discovery(body).err(), Some(DiscoveryError::Malformed));
}

#[test]
fn discovery_url_appends_well_known_path() {
    assert_eq!(
        discovery_url("https://example.com", "alice").unwrap(),
        "https://example.com/.well-known/webfinger?resource=acct:alice@example.com"
    );
}

#[test]
fn discovery_url_strips_one_trailing_slash() {
    assert_eq!(
        discovery_url("https://example.com/", "bob").unwrap(),
        "https://example.com/.well-known/webfinger?resource=acct:bob@example.com"
    );
}

#[test]
fn discovery_url_needs_a_host() {
    assert_eq!(discovery_url("/relative/only", "alice"), None);
}
