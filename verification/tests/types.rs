use hatena_oauth::fotolife::fotolife::FotolifePostResponse;
use hatena_oauth::oauth::HatenaConsumerInfo;
use hatena_oauth::oauth::consts::OAUTH_URL_ACCESS_TOKEN;
use hatena_oauth::oauth::consts::OAUTH_URL_GRANT_PERMISSION;
use hatena_oauth::oauth::consts::OAUTH_URL_REQUEST_TOKEN;
use hatena_oauth::oauth::consts::OauthScope;
use hatena_oauth::oauth::flow::TokenStore;
use hatena_oauth::oauth::response::AccessTokenResponse;
use hatena_oauth::oauth::response::OauthTokenResponse;
use hatena_oauth::oauth::sign_resource_request;

#[test]
fn test_scope_names() {
    assert_eq!(OauthScope::ReadPublic.name(), "read_public");
    assert_eq!(OauthScope::ReadPrivate.name(), "read_private");
    assert_eq!(OauthScope::WritePublic.name(), "write_public");
    assert_eq!(OauthScope::WritePrivate.name(), "write_private");
}

#[test]
fn test_endpoints() {
    assert_eq!(OAUTH_URL_REQUEST_TOKEN, "https://www.hatena.com/oauth/initiate");
    assert_eq!(OAUTH_URL_GRANT_PERMISSION, "https://www.hatena.com/oauth/authorize");
    assert_eq!(OAUTH_URL_ACCESS_TOKEN, "https://www.hatena.com/oauth/token");
}

#[test]
fn test_consumer_info_holds_credentials() {
    let c = HatenaConsumerInfo::new("key", "secret").unwrap();
    assert_eq!(c.consumer_key(), "key");
    assert_eq!(c.consumer_secret(), "secret");
}

#[test]
fn test_token_store_get_set_invalidate() {
    let mut store = TokenStore::new(None);
    assert!(store.request_token().is_none());
    assert!(store.current_verifier().is_none());
    assert!(store.access_token().is_none());
    store.set_request_token(
        OauthTokenResponse::from("oauth_token=T&oauth_token_secret=S").unwrap(),
    );
    store.set_verifier("V".to_string());
    store.set_access_token(
        AccessTokenResponse::from(
            "oauth_token=A&oauth_token_secret=B&url_name=u&display_name=d",
        )
        .unwrap(),
    );
    assert_eq!(store.request_token().as_ref().unwrap().oauth_token, "T");
    assert_eq!(store.current_verifier().as_ref().unwrap(), "V");
    assert_eq!(store.access_token().as_ref().unwrap().oauth_token, "A");
    store.invalidate_request_token();
    store.invalidate_verifier();
    store.invalidate_access_token();
    assert!(store.request_token().is_none());
    assert!(store.current_verifier().is_none());
    assert!(store.access_token().is_none());
}

#[test]
fn test_sign_resource_request_uses_access_token() {
    let c = HatenaConsumerInfo::new("ckey", "csecret").unwrap();
    let t = AccessTokenResponse::from(
        "oauth_token=AT&oauth_token_secret=AS&url_name=u&display_name=d",
    )
    .unwrap();
    let h = sign_resource_request(&c, &t, "https://f.hatena.ne.jp/atom/post", "POST", Some(""));
    assert!(h.starts_with("OAuth "));
    assert!(h.contains("oauth_token=\"AT\""));
    assert!(h.contains("oauth_consumer_key=\"ckey\""));
    assert!(h.contains("oauth_signature=\""));
}

#[test]
fn test_fotolife_post_response() {
    let r = FotolifePostResponse::new("20251008123456".to_string());
    assert_eq!(r.image_id, "20251008123456");
}
