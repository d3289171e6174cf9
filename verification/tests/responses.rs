use hatena_oauth::oauth::error::OauthError;
use hatena_oauth::oauth::response::AccessTokenResponse;
use hatena_oauth::oauth::response::OauthTokenResponse;

#[test]
fn test_token_response_parses() {
    let t = OauthTokenResponse::from("oauth_token=T1&oauth_token_secret=S1").unwrap();
    assert_eq!(t.oauth_token, "T1");
    assert_eq!(t.oauth_token_secret, "S1");
}

#[test]
fn test_token_response_values_are_percent_decoded() {
    let t = OauthTokenResponse::from("oauth_token=a%2Bb&oauth_token_secret=s%20t").unwrap();
    assert_eq!(t.oauth_token, "a+b");
    assert_eq!(t.oauth_token_secret, "s t");
}

#[test]
fn test_token_response_missing_secret() {
    let e = OauthTokenResponse::from("oauth_token=T1").unwrap_err();
    match e {
        OauthError::InvalidResponse { response } => assert_eq!(response, "oauth_token=T1"),
        other => panic!("unexpected error {other:?}"),
    }
}

#[test]
fn test_token_response_malformed_pair() {
    let e = OauthTokenResponse::from("oauth_token=T1&junk").unwrap_err();
    assert!(matches!(e, OauthError::InvalidResponse { .. }));
}

#[test]
fn test_token_response_empty_body() {
    assert!(OauthTokenResponse::from("").is_err());
}

#[test]
fn test_token_response_last_duplicate_wins() {
    let t =
        OauthTokenResponse::from("oauth_token=a&oauth_token=b&oauth_token_secret=s").unwrap();
    assert_eq!(t.oauth_token, "b");
}

#[test]
fn test_token_response_value_may_be_empty() {
    let t = OauthTokenResponse::from("oauth_token=&oauth_token_secret=s").unwrap();
    assert_eq!(t.oauth_token, "");
}

#[test]
fn test_access_token_response_fields_match_exactly() {
    let t = AccessTokenResponse::from(
        "oauth_token=T2&oauth_token_secret=S2&url_name=alice&display_name=Alice",
    )
    .unwrap();
    assert_eq!(t.oauth_token, "T2");
    assert_eq!(t.oauth_token_secret, "S2");
    assert_eq!(t.url_name, "alice");
    assert_eq!(t.display_name, "Alice");
}

#[test]
fn test_access_token_response_missing_url_name() {
    let body = "oauth_token=T2&oauth_token_secret=S2&display_name=Alice";
    let e = AccessTokenResponse::from(body).unwrap_err();
    match e {
        OauthError::InvalidResponse { response } => assert_eq!(response, body),
        other => panic!("unexpected error {other:?}"),
    }
}

#[test]
fn test_access_token_response_missing_display_name() {
    let e =
        AccessTokenResponse::from("oauth_token=T2&oauth_token_secret=S2&url_name=alice")
            .unwrap_err();
    assert!(matches!(e, OauthError::InvalidResponse { .. }));
}
