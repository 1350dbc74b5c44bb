use cordy::engine::auth::{
    challenge_of, code_from_request, code_of, loopback_addr, random_b64url, success_response,
    ApiKeyStore, AuthConfig, AuthTokens, FileTokenStore, Pkce, TokenResponse,
};
use cordy::json;
use cordy::urls::MAX_URL_BYTES;

#[test]
fn pkce_challenge_matches_rfc7636_vector() {
    // RFC 7636 Appendix B.
    let verifier = "dBjftJeZ4CVP-mB92K27uhbUJU1p1r_wW1gFWFOEjXk";
    assert_eq!(
        challenge_of(verifier),
        "E9Melhoa2OwvFrEMTJguCHaoeK1t8URWbuGJSstw-cM"
    );
}

fn config() -> AuthConfig {
    AuthConfig {
        client_id: "cid".into(),
        auth_url: "https://auth.example/authorize".into(),
        token_url: "https://auth.example/token".into(),
        redirect_uri: "http://127.0.0.1:8788/callback".into(),
        scopes: vec!["a".into(), "b".into()],
    }
}

#[test]
fn authorize_url_has_pkce_params() {
    let pkce = Pkce {
        verifier: "v".into(),
        challenge: "chal".into(),
    };
    let url = config().authorize_url(&pkce, "xyz").unwrap();
    assert!(url.contains("code_challenge=chal"));
    assert!(url.contains("code_challenge_method=S256"));
    assert!(url.contains("client_id=cid"));
    assert!(url.contains("scope=a+b"));
    assert!(url.contains("state=xyz"));
}

#[test]
fn a_broken_authorize_address_gives_no_url() {
    let mut cfg = config();
    cfg.auth_url = "not a url".into();
    assert_eq!(cfg.authorize_url(&Pkce::of("v".into()), "s"), None);
}

#[test]
fn an_authorize_address_that_is_too_long_gives_no_url() {
    let mut cfg = config();
    let path = "p".repeat(MAX_URL_BYTES);
    cfg.auth_url = format!("https://auth.example/{path}");
    assert_eq!(cfg.authorize_url(&Pkce::of("v".into()), "s"), None);
    // The longest address still does.
    cfg.auth_url.truncate(MAX_URL_BYTES);
    cfg.auth_url.replace_range(MAX_URL_BYTES - 5.., "#here");
    let url = cfg.authorize_url(&Pkce::of("v".into()), "s").unwrap();
    assert!(url.ends_with("&code_challenge_method=S256#here"));
}

#[test]
fn token_requests_are_forms() {
    let pkce = Pkce::of("the verifier".into());
    assert_eq!(
        config().exchange_body(&pkce, "c/1"),
        "grant_type=authorization_code&code=c%2F1&redirect_uri=http%3A%2F%2F127.0.0.1%3A8788%2Fcallback&client_id=cid&code_verifier=the+verifier"
    );
    assert_eq!(
        config().refresh_body("r&t"),
        "grant_type=refresh_token&refresh_token=r%26t&client_id=cid"
    );
}

#[test]
fn file_store_round_trips() {
    assert!(FileTokenStore::decode("nonsense").is_none());
    let tokens = AuthTokens {
        access_token: "at".into(),
        refresh_token: Some("rt".into()),
        expires_at: Some(123),
    };
    let file = FileTokenStore::encode(&tokens);
    assert_eq!(FileTokenStore::decode(&file), Some(tokens));
    assert_eq!(FileTokenStore::new("/keys").path("openai"), "/keys/openai.json");
}

#[test]
fn expiry_check() {
    let t = AuthTokens {
        access_token: "x".into(),
        refresh_token: None,
        expires_at: Some(100),
    };
    assert!(!t.is_expired(99));
    assert!(t.is_expired(100));
}

#[test]
fn tokens_without_an_expiry_never_expire() {
    let t = AuthTokens {
        access_token: "x".into(),
        refresh_token: None,
        expires_at: None,
    };
    assert!(!t.is_expired(u64::MAX));
}

#[test]
fn api_key_store_round_trips() {
    assert!(ApiKeyStore::get(None, "nvidia").is_none());
    let file = ApiKeyStore::set(None, "nvidia", "nvapi-xxx");
    let file = ApiKeyStore::set(Some(&file), "openai", "sk-yyy");
    assert_eq!(
        ApiKeyStore::get(Some(&file), "nvidia").as_deref(),
        Some("nvapi-xxx")
    );
    // Second write preserves the first entry.
    assert_eq!(
        ApiKeyStore::get(Some(&file), "openai").as_deref(),
        Some("sk-yyy")
    );
}

#[test]
fn loopback_addr_from_redirect() {
    assert_eq!(
        loopback_addr("http://127.0.0.1:8788/callback").unwrap(),
        "127.0.0.1:8788"
    );
    assert!(loopback_addr("nonsense").is_err());
}

#[test]
fn random_texts_have_the_length_of_their_bytes() {
    let a = random_b64url(32).unwrap();
    let b = random_b64url(32).unwrap();
    assert_eq!(a.len(), 43);
    assert_ne!(a, b);
    let pkce = Pkce::generate().unwrap();
    assert_eq!(pkce.challenge, challenge_of(&pkce.verifier));
}

#[test]
fn the_redirect_gives_its_code_to_the_right_state_only() {
    let request = "GET /callback?code=abc%20d&state=xyz HTTP/1.1\r\nHost: x\r\n\r\n";
    assert_eq!(code_from_request(request, "xyz").unwrap(), "abc d");
    assert_eq!(
        code_from_request(request, "other").unwrap_err(),
        "OAuth state mismatch"
    );
    assert_eq!(
        code_from_request("GET /callback?state=xyz HTTP/1.1\r\n\r\n", "xyz").unwrap_err(),
        "no authorization code in redirect"
    );
    assert_eq!(
        code_of(&vec![("state".into(), "s".into()), ("code".into(), "c".into())], "s").unwrap(),
        "c"
    );
    assert!(success_response().starts_with("HTTP/1.1 200 OK\r\n"));
}

#[test]
fn token_responses_become_tokens() {
    let mut m = json::members();
    json::put(&mut m, "access_token", json::string("at"));
    json::put(&mut m, "expires_in", json::uint(3600));
    let t = TokenResponse::from_json(&json::object(m)).unwrap().into_tokens(1000);
    assert_eq!(t.access_token, "at");
    assert_eq!(t.refresh_token, None);
    assert_eq!(t.expires_at, Some(4600));
    assert!(TokenResponse::from_json(&json::object(json::members())).is_none());
}
