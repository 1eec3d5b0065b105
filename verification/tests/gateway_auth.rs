use conga_core::auth::{
    admits, token_from_parts, presented_token, query_token, requires_token, token_from_text,
    token_matches, token_plan, urldecode, urldecode_ok, TokenPlan,
};

#[test]
fn token_matches_equality_and_rejection() {
    assert!(token_matches("abc123", "abc123"));
    assert!(!token_matches("abc123", "abc124"));
    assert!(!token_matches("abc123", "abc1234"));
    assert!(!token_matches("abc123", ""));
    assert!(!token_matches("", "x"));
    assert!(token_matches("", ""));
}

#[test]
fn generated_tokens_are_long_and_unique() {
    let generate_token = || {
        token_from_parts(
            &uuid::Uuid::new_v4().simple().to_string(),
            &uuid::Uuid::new_v4().simple().to_string(),
        )
    };
    let a = generate_token();
    let b = generate_token();
    assert_eq!(token_from_parts("ab", "cd"), "abcd");
    assert_eq!(a.len(), 64);
    assert_ne!(a, b);
    assert!(a.chars().all(|c| c.is_ascii_hexdigit()));
}

#[test]
fn urldecode_handles_percent_and_plus() {
    assert_eq!(urldecode("abc%20def"), "abc def");
    assert_eq!(urldecode("a+b"), "a b");
    assert_eq!(urldecode("plain"), "plain");
    assert_eq!(urldecode("%zz"), "%zz");
}

#[test]
fn urldecode_decodes_utf8_escapes() {
    assert!(urldecode_ok("%E4%B8%AD"));
    assert_eq!(urldecode("%E4%B8%AD"), "中");
    assert_eq!(urldecode("%2B"), "+");
    // An escape cut short stays as it is.
    assert_eq!(urldecode("a%2"), "a%2");
}

#[test]
fn urldecode_ok_refuses_escapes_that_split_a_character() {
    // `s[i + 1..i + 3]` would cut the character after `%`.
    assert!(!urldecode_ok("%中"));
    assert!(!urldecode_ok("x%a中"));
    assert!(urldecode_ok("%zz中"));
    assert!(urldecode_ok("%zz"));
    assert_eq!(urldecode("%zz中"), "%zz中");
}

#[test]
fn query_token_finds_the_token_parameter() {
    assert_eq!(query_token("a=1&token=abc%20d"), Some("abc%20d".to_string()));
    assert_eq!(query_token("tokens=1"), None);
    assert_eq!(query_token(""), None);
}

#[test]
fn presented_token_prefers_the_bearer_header() {
    assert_eq!(presented_token(Some("Bearer hdr"), Some("token=q")), Some("hdr".to_string()));
    assert_eq!(presented_token(None, Some("token=q")), Some("q".to_string()));
    assert_eq!(presented_token(None, Some("x=1&token=a%20b")), Some("a b".to_string()));
    assert_eq!(presented_token(None, Some("token=")), None);
    assert_eq!(presented_token(Some("Basic x"), None), None);
}

#[test]
fn protected_paths_need_the_token() {
    assert!(requires_token("/ws"));
    assert!(requires_token("/api/sessions"));
    assert!(!requires_token("/"));
    assert!(!requires_token("/apix"));
    assert!(admits("/", None, "secret"));
    assert!(!admits("/api/x", None, "secret"));
    assert!(!admits("/api/x", Some("wrong"), "secret"));
    assert!(admits("/api/x", Some("secret"), "secret"));
}

#[test]
fn token_text_is_trimmed_and_blank_is_refused() {
    assert_eq!(token_from_text("  t0k \n"), Some("t0k".to_string()));
    assert_eq!(token_from_text("   \n"), None);
}

#[test]
fn env_override_wins_and_is_trimmed() {
    match token_plan(Some("  env-token  \n"), Some("file-token")) {
        TokenPlan::Env(t) => assert_eq!(t, "env-token"),
        other => panic!("{other:?}"),
    }
    match token_plan(Some("   "), Some(" file-token\n")) {
        TokenPlan::File(t) => assert_eq!(t, "file-token"),
        other => panic!("{other:?}"),
    }
}

#[test]
fn empty_file_is_rejected_then_regenerated() {
    assert!(matches!(token_plan(None, Some("   \n")), TokenPlan::Generate));
    assert!(matches!(token_plan(None, None), TokenPlan::Generate));
}

#[test]
fn tokens_of_different_length_never_match() {
    let long = "a".repeat(256);
    assert!(!token_matches("", &long));
    assert!(!token_matches(&long, ""));
    assert!(!token_matches("ab", &"ab".repeat(129)));
}
