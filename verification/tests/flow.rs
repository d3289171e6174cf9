use hatena_oauth::oauth::HatenaConsumerInfo;
use hatena_oauth::oauth::oauth::RequestToken;
use hatena_oauth::oauth::consts::OauthScope;
use hatena_oauth::oauth::error::OauthError;
use hatena_oauth::oauth::flow::AuthorizationFlow;
use hatena_oauth::oauth::flow::BeginOutcome;
use hatena_oauth::oauth::flow::FlowState;
use hatena_oauth::oauth::response::AccessTokenResponse;

fn consumer() -> HatenaConsumerInfo {
    HatenaConsumerInfo::new("ckey", "csecret").unwrap()
}

fn cached_token() -> AccessTokenResponse {
    AccessTokenResponse::from(
        "oauth_token=AT&oauth_token_secret=AS&url_name=alice&display_name=Alice",
    )
    .unwrap()
}

#[test]
fn test_obtain_cached_issues_no_request() {
    let mut flow = AuthorizationFlow::new(
        consumer(),
        vec![OauthScope::ReadPublic],
        Some(cached_token()),
    );
    // Two unforced calls in a row: both answer from the cache, neither
    // hands back a request to send.
    for _ in 0..2 {
        match flow.begin(false) {
            BeginOutcome::Cached(t) => assert_eq!(t.oauth_token, "AT"),
            BeginOutcome::Leg1(_) => panic!("a cached token must not start leg 1"),
        }
        assert_eq!(flow.state(), FlowState::Authorized);
    }
}

#[test]
fn test_obtain_force_restarts_from_leg_1_despite_cache() {
    let mut flow = AuthorizationFlow::new(
        consumer(),
        vec![OauthScope::ReadPublic],
        Some(cached_token()),
    );
    match flow.begin(true) {
        BeginOutcome::Cached(_) => panic!("force must rerun the exchange"),
        BeginOutcome::Leg1(req) => {
            assert_eq!(req.url, "https://www.hatena.com/oauth/initiate");
        },
    }
    assert_eq!(flow.state(), FlowState::RequestTokenPending);
}

#[test]
fn test_forced_obtain_performs_all_three_legs() {
    let mut flow = AuthorizationFlow::new(
        consumer(),
        vec![OauthScope::ReadPublic, OauthScope::WritePublic],
        Some(cached_token()),
    );
    // Leg 1.
    let req1 = match flow.begin(true) {
        BeginOutcome::Leg1(req) => req,
        BeginOutcome::Cached(_) => panic!("force must rerun the exchange"),
    };
    assert_eq!(req1.method, "POST");
    assert_eq!(req1.url, "https://www.hatena.com/oauth/initiate");
    assert_eq!(req1.body.as_deref(), Some("scope=read_public%2Cwrite_public"));
    assert!(req1.authorization.contains("oauth_callback=\"oob\""));
    flow.on_request_token_response(200, "oauth_token=T1&oauth_token_secret=S1").unwrap();
    assert_eq!(flow.state(), FlowState::RequestTokenObtained);
    let rt = flow.store().request_token.as_ref().unwrap();
    assert_eq!(rt.oauth_token, "T1");
    assert_eq!(rt.oauth_token_secret, "S1");
    // Leg 2.
    let url = flow.request_consent();
    assert_eq!(url, "https://www.hatena.com/oauth/authorize?oauth_token=T1");
    flow.on_verifier("V1");
    assert_eq!(flow.state(), FlowState::ConsentObtained);
    // Leg 3.
    let req3 = flow.request_access_token();
    assert_eq!(req3.method, "POST");
    assert_eq!(req3.url, "https://www.hatena.com/oauth/token");
    assert!(req3.body.is_none());
    assert!(req3.authorization.contains("oauth_token=\"T1\""));
    assert!(req3.authorization.contains("oauth_verifier=\"V1\""));
    let t = flow
        .on_access_token_response(
            200,
            "oauth_token=T2&oauth_token_secret=S2&url_name=alice&display_name=Alice",
        )
        .unwrap();
    assert_eq!(flow.state(), FlowState::Authorized);
    assert_eq!(t.oauth_token, "T2");
    assert_eq!(t.oauth_token_secret, "S2");
    assert_eq!(t.url_name, "alice");
    assert_eq!(t.display_name, "Alice");
    let stored = flow.store().access_token.as_ref().unwrap();
    assert_eq!(stored.oauth_token, "T2");
}

#[test]
fn test_leg3_base_string_includes_verifier_and_token() {
    let tok = RequestToken::new("ckey", "csecret", Some("T1"), Some("S1"));
    let params = vec![("oauth_verifier".to_string(), "V1".to_string())];
    let base = tok.signature_base_string(
        "https://www.hatena.com/oauth/token",
        "POST",
        Some(&params),
        None,
        "fixednonce",
        1318622958,
    );
    assert!(base.contains("oauth_verifier%3DV1"));
    assert!(base.contains("oauth_token%3DT1"));
}

#[test]
fn test_access_token_missing_url_name_leaves_store_unset() {
    let mut flow = AuthorizationFlow::new(consumer(), vec![OauthScope::ReadPublic], None);
    match flow.begin(false) {
        BeginOutcome::Leg1(_) => {},
        BeginOutcome::Cached(_) => panic!("nothing is cached"),
    }
    flow.on_request_token_response(200, "oauth_token=T1&oauth_token_secret=S1").unwrap();
    flow.request_consent();
    flow.on_verifier("V1");
    flow.request_access_token();
    let e = flow
        .on_access_token_response(200, "oauth_token=T2&oauth_token_secret=S2&display_name=A")
        .unwrap_err();
    assert!(matches!(e, OauthError::InvalidResponse { .. }));
    assert_eq!(flow.state(), FlowState::Failed);
    assert!(flow.store().access_token.is_none());
}

#[test]
fn test_request_token_reaches_state_with_parsed_token() {
    let mut flow = AuthorizationFlow::new(
        consumer(),
        vec![OauthScope::ReadPublic, OauthScope::WritePublic],
        None,
    );
    match flow.begin(false) {
        BeginOutcome::Leg1(req) => {
            assert_eq!(req.body.as_deref(), Some("scope=read_public%2Cwrite_public"));
        },
        BeginOutcome::Cached(_) => panic!("nothing is cached"),
    }
    flow.on_request_token_response(200, "oauth_token=T1&oauth_token_secret=S1").unwrap();
    assert_eq!(flow.state(), FlowState::RequestTokenObtained);
    let rt = flow.store().request_token.as_ref().unwrap();
    assert_eq!(rt.oauth_token, "T1");
    assert_eq!(rt.oauth_token_secret, "S1");
}

#[test]
fn test_non_2xx_surfaces_body_as_invalid_request() {
    let mut flow = AuthorizationFlow::new(consumer(), vec![OauthScope::ReadPublic], None);
    flow.begin(false);
    let e = flow.on_request_token_response(503, "server on fire").unwrap_err();
    match e {
        OauthError::InvalidRequest { problem } => assert_eq!(problem, "server on fire"),
        other => panic!("unexpected error {other:?}"),
    }
    assert_eq!(flow.state(), FlowState::Failed);
}

#[test]
fn test_invalid_leg1_response_fails_flow() {
    let mut flow = AuthorizationFlow::new(consumer(), vec![OauthScope::ReadPublic], None);
    flow.begin(false);
    let e = flow.on_request_token_response(200, "oauth_token=T1").unwrap_err();
    assert!(matches!(e, OauthError::InvalidResponse { .. }));
    assert_eq!(flow.state(), FlowState::Failed);
    assert!(flow.store().request_token.is_none());
}

#[test]
fn test_consent_denied_fails_with_permission_denied() {
    let mut flow = AuthorizationFlow::new(consumer(), vec![OauthScope::ReadPublic], None);
    flow.begin(false);
    flow.on_request_token_response(200, "oauth_token=T1&oauth_token_secret=S1").unwrap();
    flow.request_consent();
    let e = flow.on_consent_denied();
    assert!(matches!(e, OauthError::PermissionDeniedUser));
    assert_eq!(flow.state(), FlowState::Failed);
}

#[test]
fn test_transport_failure_carries_message() {
    let mut flow = AuthorizationFlow::new(consumer(), vec![OauthScope::ReadPublic], None);
    flow.begin(false);
    let e = flow.fail_transport("connection reset");
    match e {
        OauthError::RequestFailure(m) => assert_eq!(m, "connection reset"),
        other => panic!("unexpected error {other:?}"),
    }
    assert_eq!(flow.state(), FlowState::Failed);
}
