use hatena_oauth::oauth::oauth::RequestToken;

fn pair(k: &str, v: &str) -> (String, String) {
    (k.to_string(), v.to_string())
}

#[test]
fn test_signing_deterministic_for_fixed_nonce_and_timestamp() {
    let tok = RequestToken::new("ckey", "csecret", Some("tkn"), Some("tsec"));
    let params = vec![pair("oauth_callback", "oob")];
    let h1 = tok.to_header_string_with(
        "https://example.com/r",
        "POST",
        Some(&params),
        Some("a=1&b=2"),
        "fixednonce",
        1318622958,
    );
    let h2 = tok.to_header_string_with(
        "https://example.com/r",
        "POST",
        Some(&params),
        Some("a=1&b=2"),
        "fixednonce",
        1318622958,
    );
    assert_eq!(h1, h2);
}

#[test]
fn test_different_nonce_changes_header() {
    let tok = RequestToken::new("ckey", "csecret", None, None);
    let h1 = tok.to_header_string_with("https://example.com", "GET", None, None, "nonce1", 1);
    let h2 = tok.to_header_string_with("https://example.com", "GET", None, None, "nonce2", 1);
    assert_ne!(h1, h2);
}

#[test]
fn test_header_shape() {
    let tok = RequestToken::new("ckey", "csecret", Some("tkn"), Some("tsec"));
    let h = tok.to_header_string_with("https://example.com", "GET", None, None, "n0", 1600000000);
    assert!(h.starts_with("OAuth "));
    assert!(h.contains("oauth_consumer_key=\"ckey\""));
    assert!(h.contains("oauth_nonce=\"n0\""));
    assert!(h.contains("oauth_signature_method=\"HMAC-SHA1\""));
    assert!(h.contains("oauth_timestamp=\"1600000000\""));
    assert!(h.contains("oauth_token=\"tkn\""));
    assert!(h.contains("oauth_version=\"1.0\""));
    assert!(h.contains("oauth_signature=\""));
    // The terms come sorted by name.
    let key_pos = h.find("oauth_consumer_key").unwrap();
    let nonce_pos = h.find("oauth_nonce").unwrap();
    let sig_pos = h.find("oauth_signature=").unwrap();
    let version_pos = h.find("oauth_version").unwrap();
    assert!(key_pos < nonce_pos && nonce_pos < sig_pos && sig_pos < version_pos);
}

#[test]
fn test_signature_is_encoded_base64_of_twenty_bytes() {
    let tok = RequestToken::new("ckey", "csecret", None, None);
    let h = tok.to_header_string_with("https://example.com", "GET", None, None, "n0", 1);
    let start = h.find("oauth_signature=\"").unwrap() + "oauth_signature=\"".len();
    let rest = &h[start..];
    let end = rest.find('"').unwrap();
    let sig = &rest[..end];
    // 20 HMAC-SHA1 bytes encode to 28 base64 characters ending in `=`,
    // which the header carries percent-encoded as %3D.
    assert!(sig.ends_with("%3D"), "signature {sig} should end percent-encoded padding");
    assert!(!sig.is_empty());
    // A signature is never the base string handed back unchanged.
    assert!(!sig.contains("https"));
}

#[test]
fn test_negative_timestamp_renders_with_sign() {
    let tok = RequestToken::new("ckey", "csecret", None, None);
    let h = tok.to_header_string_with("https://example.com", "GET", None, None, "n0", -5);
    assert!(h.contains("oauth_timestamp=\"-5\""));
}

#[test]
fn test_fresh_nonce_and_timestamp() {
    let tok = RequestToken::new("ckey", "csecret", None, None);
    let h1 = tok.to_header_string("https://example.com", "GET", None, None);
    let h2 = tok.to_header_string("https://example.com", "GET", None, None);
    // A nonce is never reused, so two headers differ.
    assert_ne!(h1, h2);
    // The timestamp is the current Unix time, well after 2020 and well
    // before 2100.
    let start = h1.find("oauth_timestamp=\"").unwrap() + "oauth_timestamp=\"".len();
    let rest = &h1[start..];
    let end = rest.find('"').unwrap();
    let ts: i64 = rest[..end].parse().unwrap();
    assert!(ts > 1577836800 && ts < 4102444800);
    // The nonce is 32 alphanumeric characters.
    let nstart = h1.find("oauth_nonce=\"").unwrap() + "oauth_nonce=\"".len();
    let nrest = &h1[nstart..];
    let nend = nrest.find('"').unwrap();
    let nonce = &nrest[..nend];
    assert_eq!(nonce.len(), 32);
    assert!(nonce.chars().all(|c| c.is_ascii_alphanumeric()));
}

#[test]
fn test_canonical_order_in_base_string() {
    // {oauth_nonce: "x", oauth_consumer_key: "y"} serializes with the keys
    // in sorted order: oauth_consumer_key=y&oauth_nonce=x.
    let tok = RequestToken::new("y", "csecret", None, None);
    let base = tok.signature_base_string("https://example.com", "POST", None, None, "x", 1);
    assert!(base.contains("oauth_consumer_key%3Dy%26oauth_nonce%3Dx"));
}

#[test]
fn test_base_string_order_independent_of_insertion_order() {
    let tok = RequestToken::new("ckey", "csecret", None, None);
    let p1 = vec![pair("zz", "1"), pair("aa", "2")];
    let p2 = vec![pair("aa", "2"), pair("zz", "1")];
    let b1 = tok.signature_base_string("https://example.com", "POST", Some(&p1), None, "n0", 1);
    let b2 = tok.signature_base_string("https://example.com", "POST", Some(&p2), None, "n0", 1);
    assert_eq!(b1, b2);
    assert!(b1.contains("aa%3D2%26"));
}

#[test]
fn test_body_parameters_absorbed_into_base_string() {
    let tok = RequestToken::new("ckey", "csecret", None, None);
    let base = tok.signature_base_string(
        "https://example.com",
        "POST",
        None,
        Some("scope=read_public&junk&k=v=w"),
        "n0",
        1,
    );
    // `scope=read_public` and `k=v` are signed; the piece without `=` is
    // dropped, and only what stands between the first and second `=` of a
    // piece counts as the value.
    assert!(base.contains("scope%3Dread_public"));
    assert!(base.contains("k%3Dv"));
    assert!(!base.contains("junk"));
    assert!(!base.contains("v%3Dw"));
}

#[test]
fn test_base_string_shape() {
    let tok = RequestToken::new("ckey", "csecret", None, None);
    let base = tok.signature_base_string("https://example.com/a b", "POST", None, None, "n0", 1);
    assert!(base.starts_with("POST&https%3A%2F%2Fexample.com%2Fa%20b&"));
    // The query is encoded once more inside the base string.
    assert!(base.contains("%253D") || base.contains("%3D"));
}
