use fly_common::auth::UserToken;

#[test]
fn test_user_token_sanitization() {
    let token = UserToken::new("abc-123_XYZ!@#$");
    assert_eq!(token.as_str(), "abc-123_XYZ");
    assert!(token.is_present());

    let empty = UserToken::new("!@#$");
    assert_eq!(empty.as_str(), "");
    assert!(!empty.is_present());
}

#[test]
fn test_user_token_auth_extractor() {
    // 1. With X-User-Token header
    let from_header = UserToken::from_request_sources(Some("usr_alpha_123-456"), None);
    assert_eq!(format!("token:{}", from_header.as_str()), "token:usr_alpha_123-456");

    // 2. With query string token
    let from_query = UserToken::from_request_sources(None, Some("user_token=query_token_789"));
    assert_eq!(format!("token:{}", from_query.as_str()), "token:query_token_789");

    // 3. Sanitization of invalid characters
    let dirty_token = UserToken::new("valid-token_123!@#$%^&*()");
    assert_eq!(dirty_token.as_str(), "valid-token_123");
    assert!(dirty_token.is_present());

    let empty_token = UserToken::new("");
    assert_eq!(empty_token.as_str(), "");
    assert!(!empty_token.is_present());
}

#[test]
fn user_token_keeps_at_most_128_characters() {
    let long = "a".repeat(200);
    let token = UserToken::new(&long);
    assert_eq!(token.as_str().len(), 128);
    let mixed = format!("{}{}", "!".repeat(50), "b".repeat(130));
    assert_eq!(UserToken::new(&mixed).as_str(), "b".repeat(128));
}

#[test]
fn user_token_keeps_unicode_alphanumerics() {
    assert_eq!(UserToken::new("héllo wörld 42").as_str(), "héllowörld42");
}

#[test]
fn blank_header_falls_back_to_query() {
    let t = UserToken::from_request_sources(Some("   "), Some("token=abc"));
    assert_eq!(t.as_str(), "abc");
}

#[test]
fn header_wins_over_query() {
    let t = UserToken::from_request_sources(Some(" hdr-1 "), Some("token=abc"));
    assert_eq!(t.as_str(), "hdr-1");
}

#[test]
fn query_takes_first_pair_with_a_known_key_and_a_value() {
    let t = UserToken::from_request_sources(None, Some("page=2&token=&user_token=%20&x-user-token=xyz&token=late"));
    assert_eq!(t.as_str(), "20");
    let t2 = UserToken::from_request_sources(None, Some("a=1&token=  &x-user-token=xyz"));
    assert_eq!(t2.as_str(), "xyz");
}

#[test]
fn query_value_stops_at_second_equals() {
    let t = UserToken::from_request_sources(None, Some("token=ab=cd"));
    assert_eq!(t.as_str(), "ab");
}

#[test]
fn missing_sources_give_empty_token() {
    assert!(!UserToken::from_request_sources(None, None).is_present());
    assert!(!UserToken::from_request_sources(None, Some("token")).is_present());
    assert!(!UserToken::from_request_sources(None, Some("other=1&tok=2")).is_present());
}
