use remotestorage_client::fragment::extract;

#[test]
fn callback_fragment_yields_token() {
    let fragment = "#state=x&token_type=bearer&access_token=abc123&expires_in=3600";
    assert_eq!(extract(fragment), Some("abc123".to_string()));
}

#[test]
fn fragment_without_marker_yields_nothing() {
    assert_eq!(extract("#access_token=abc123&x"), None);
}

#[test]
fn fragment_without_leading_hash_yields_nothing() {
    assert_eq!(extract("token_type=bearer&access_token=abc123&x"), None);
}

#[test]
fn token_at_the_very_end_is_cut_by_one() {
    // the pattern demands a character after the captured run, so a token
    // that ends the fragment gives its last character up
    assert_eq!(
        extract("#token_type=bearer&access_token=abc123"),
        Some("abc12".to_string())
    );
}

#[test]
fn single_character_token_at_the_end_yields_nothing() {
    assert_eq!(extract("#token_type=bearer&access_token=a"), None);
}

#[test]
fn empty_token_yields_nothing() {
    assert_eq!(extract("#token_type=bearer&access_token=&x=1"), None);
}

#[test]
fn the_last_occurrence_wins() {
    assert_eq!(
        extract("#token_type=b&access_token=first&access_token=second&tail"),
        Some("second".to_string())
    );
}

#[test]
fn token_value_is_percent_decoded() {
    assert_eq!(
        extract("#token_type=bearer&access_token=a%20b%2Fc&x"),
        Some("a b/c".to_string())
    );
}

#[test]
fn undecodable_token_yields_nothing() {
    assert_eq!(extract("#token_type=bearer&access_token=a%zz&x"), None);
}

#[test]
fn extraction_matches_the_token_pattern() {
    // the extractor against the pattern the fragment contract is stated
    // from, on the raw captured value
    let re = regex::Regex::new("^#.*access_token=([^&]+).+$").unwrap();
    let cases = [
        "#state=x&token_type=bearer&access_token=abc123&expires_in=3600",
        "#token_type=bearer&access_token=abc123",
        "#token_type=bearer&access_token=a",
        "#token_type=bearer&access_token=&x",
        "#token_type=b&access_token=first&access_token=second&tail",
        "#access_token=no_marker&x",
        "no_hash_token_type&access_token=x&y",
        "#token_type&access_token=ab",
        "#token_typeaccess_token=xy&z",
        "#a=b&token_type=bearer",
        "#token_type=bearer&access_token=%41%42&x",
        "#token_type&access_token=ab&access_token=c",
        "#token_type&access_token=ab&access_token=cd",
        "#token_type&access_token=access_token=x&y",
        "#token_type&access_token=a\u{03B2}\u{03B3}",
        "#token_type&access_token=a\u{03B2}&x",
        "",
        "#",
    ];
    for hash in cases {
        let expected = if hash.contains("token_type") && re.is_match(hash) {
            re.captures_iter(hash)
                .next()
                .and_then(|c| c.get(1))
                .map(|m| {
                    pct_str::PctStr::new(m.as_str())
                        .expect("raw capture decodes in these cases")
                        .decode()
                })
        } else {
            None
        };
        assert_eq!(extract(hash), expected, "fragment: {hash:?}");
    }
}
