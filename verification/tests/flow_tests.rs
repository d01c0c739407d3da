use tesla_auth::client::{Client, Phase};
use tesla_auth::config::ClientConfig;
use tesla_auth::csrf;
use tesla_auth::errors::AuthError;
use tesla_auth::authz::build_authorization_url;
use tesla_auth::tokens::{
    make_token_request, tokens_from_response, TokenRequest, TokenResponse, Tokens, Transport,
};
use tesla_auth::urls::RedirectUrl;

fn config() -> ClientConfig {
    ClientConfig {
        client_id: "ownerapi".to_string(),
        client_secret: "secret123".to_string(),
        auth_url: "https://auth.tesla.com/oauth2/v3/authorize".to_string(),
        token_url: "https://auth.tesla.com/oauth2/v3/token".to_string(),
        redirect_uri: "https://auth.tesla.com/void/callback".to_string(),
        scope: "openid email offline_access".to_string(),
    }
}

fn awaiting_client(state: &[u8]) -> Client {
    Client {
        config: config(),
        phase: Phase::Awaiting,
        pending: Some(state.to_vec()),
    }
}

/// Echoes a fixed successful token response and counts calls.
struct EchoTransport {
    calls: usize,
}

impl Transport for EchoTransport {
    fn exchange(&mut self, _req: &TokenRequest) -> Result<TokenResponse, String> {
        self.calls += 1;
        Ok(TokenResponse {
            access_token: Some("A".to_string()),
            refresh_token: Some("R".to_string()),
            expires_in: Some(300),
            token_type: Some("Bearer".to_string()),
        })
    }
}

/// A transport that must never be reached.
struct PanicTransport;

impl Transport for PanicTransport {
    fn exchange(&mut self, _req: &TokenRequest) -> Result<TokenResponse, String> {
        panic!("the transport must not be invoked");
    }
}

/// A transport whose exchange always fails.
struct FailTransport;

impl Transport for FailTransport {
    fn exchange(&mut self, _req: &TokenRequest) -> Result<TokenResponse, String> {
        Err("connection refused".to_string())
    }
}

/// A transport answering without the required fields.
struct EmptyTransport;

impl Transport for EmptyTransport {
    fn exchange(&mut self, _req: &TokenRequest) -> Result<TokenResponse, String> {
        Ok(TokenResponse {
            access_token: None,
            refresh_token: None,
            expires_in: None,
            token_type: None,
        })
    }
}

fn parse(url: &str) -> RedirectUrl {
    RedirectUrl::parse(url.as_bytes()).unwrap()
}

#[test]
fn generated_states_differ_and_are_long_enough() {
    let s1 = csrf::generate();
    let s2 = csrf::generate();
    assert_ne!(s1, s2);
    assert_eq!(s1.len(), 22);
    assert_eq!(s2.len(), 22);
    assert!(s1.is_ascii());
}

#[test]
fn build_url_exact_value() {
    let url = build_authorization_url(&config(), b"abc123").unwrap();
    assert_eq!(
        url,
        "https://auth.tesla.com/oauth2/v3/authorize?client_id=ownerapi\
         &redirect_uri=https%3A%2F%2Fauth.tesla.com%2Fvoid%2Fcallback\
         &response_type=code&scope=openid%20email%20offline_access&state=abc123"
    );
}

#[test]
fn build_url_round_trip() {
    let url = build_authorization_url(&config(), b"abc123").unwrap();
    let parsed = RedirectUrl::parse(url.as_bytes()).unwrap();
    assert_eq!(parsed.host, b"auth.tesla.com".to_vec());
    assert_eq!(parsed.path, b"/oauth2/v3/authorize".to_vec());
    assert_eq!(parsed.query_value(b"client_id"), Some(b"ownerapi".to_vec()));
    assert_eq!(
        parsed.query_value(b"redirect_uri"),
        Some(b"https://auth.tesla.com/void/callback".to_vec())
    );
    assert_eq!(parsed.query_value(b"response_type"), Some(b"code".to_vec()));
    assert_eq!(
        parsed.query_value(b"scope"),
        Some(b"openid email offline_access".to_vec())
    );
    assert_eq!(parsed.query_value(b"state"), Some(b"abc123".to_vec()));
    assert_eq!(parsed.query.len(), 5);
}

#[test]
fn build_url_rejects_malformed_config() {
    let mut cfg = config();
    cfg.auth_url = "not a url".to_string();
    assert!(matches!(
        build_authorization_url(&cfg, b"s"),
        Err(AuthError::ConfigError)
    ));
}

#[test]
fn authorization_url_carries_fresh_state() {
    let mut client = Client::new(config());
    assert_eq!(client.phase, Phase::Idle);
    let url = client.authorization_url().unwrap();
    assert_eq!(client.phase, Phase::Awaiting);
    let pending = client.pending.clone().unwrap();
    let parsed = RedirectUrl::parse(url.as_bytes()).unwrap();
    assert_eq!(parsed.query_value(b"state"), Some(pending));
}

#[test]
fn matching_redirect_yields_tokens_and_completes() {
    let mut client = awaiting_client(b"S");
    let mut transport = EchoTransport { calls: 0 };
    let url = parse("https://auth.tesla.com/void/callback?state=S&code=C");
    let tokens = client.handle_url(&url, &mut transport).unwrap().unwrap();
    assert_eq!(tokens.access, "A");
    assert_eq!(tokens.refresh, "R");
    assert_eq!(tokens.expires_in, Some(300));
    assert_eq!(tokens.token_type, Some("Bearer".to_string()));
    assert_eq!(client.phase, Phase::Completed);
    assert!(client.pending.is_none());
    assert_eq!(transport.calls, 1);
}

#[test]
fn state_mismatch_fails_without_exchange() {
    let mut client = awaiting_client(b"S");
    let mut transport = PanicTransport;
    let url = parse("https://auth.tesla.com/void/callback?state=S2&code=C");
    let r = client.handle_url(&url, &mut transport);
    assert!(matches!(r, Err(AuthError::CsrfMismatchError)));
    assert_eq!(client.phase, Phase::Failed);
    assert!(client.pending.is_none());
}

#[test]
fn missing_code_is_reported() {
    let mut client = awaiting_client(b"S");
    let mut transport = PanicTransport;
    let url = parse("https://auth.tesla.com/void/callback?state=S");
    let r = client.handle_url(&url, &mut transport);
    assert!(matches!(r, Err(AuthError::MissingParameterError(p)) if p == "code"));
    assert_eq!(client.phase, Phase::Failed);
}

#[test]
fn missing_state_is_reported() {
    let mut client = awaiting_client(b"S");
    let mut transport = PanicTransport;
    let url = parse("https://auth.tesla.com/void/callback?code=C");
    let r = client.handle_url(&url, &mut transport);
    assert!(matches!(r, Err(AuthError::MissingParameterError(p)) if p == "state"));
    assert_eq!(client.phase, Phase::Failed);
}

#[test]
fn unrelated_url_is_ignored() {
    let mut client = awaiting_client(b"S");
    let mut transport = PanicTransport;
    let url = parse("https://example.com/");
    let r = client.handle_url(&url, &mut transport);
    assert!(matches!(r, Ok(None)));
    assert_eq!(client.phase, Phase::Awaiting);
    assert_eq!(client.pending, Some(b"S".to_vec()));
}

#[test]
fn completed_client_ignores_further_redirects() {
    let mut client = awaiting_client(b"S");
    let url = parse("https://auth.tesla.com/void/callback?state=S&code=C");
    client
        .handle_url(&url, &mut EchoTransport { calls: 0 })
        .unwrap();
    assert_eq!(client.phase, Phase::Completed);
    let r = client.handle_url(&url, &mut PanicTransport);
    assert!(matches!(r, Ok(None)));
    assert_eq!(client.phase, Phase::Completed);
}

#[test]
fn superseded_state_is_rejected() {
    let mut client = Client::new(config());
    let url1 = client.authorization_url().unwrap();
    let first_state = RedirectUrl::parse(url1.as_bytes())
        .unwrap()
        .query_value(b"state")
        .unwrap();
    let url2 = client.authorization_url().unwrap();
    let second_state = RedirectUrl::parse(url2.as_bytes())
        .unwrap()
        .query_value(b"state")
        .unwrap();
    assert_ne!(first_state, second_state);
    assert_eq!(client.pending, Some(second_state));
    let stale = format!(
        "https://auth.tesla.com/void/callback?state={}&code=C",
        String::from_utf8(first_state).unwrap()
    );
    let r = client.handle_url(&parse(&stale), &mut PanicTransport);
    assert!(matches!(r, Err(AuthError::CsrfMismatchError)));
    assert_eq!(client.phase, Phase::Failed);
}

#[test]
fn transport_failure_is_terminal() {
    let mut client = awaiting_client(b"S");
    let url = parse("https://auth.tesla.com/void/callback?state=S&code=C");
    let r = client.handle_url(&url, &mut FailTransport);
    assert!(matches!(r, Err(AuthError::TokenExchangeError(m)) if m == "connection refused"));
    assert_eq!(client.phase, Phase::Failed);
    assert!(client.pending.is_none());
}

#[test]
fn empty_response_is_malformed() {
    let mut client = awaiting_client(b"S");
    let url = parse("https://auth.tesla.com/void/callback?state=S&code=C");
    let r = client.handle_url(&url, &mut EmptyTransport);
    assert!(matches!(r, Err(AuthError::MalformedResponseError(f)) if f == "access_token"));
    assert_eq!(client.phase, Phase::Failed);
}

#[test]
fn missing_refresh_token_is_malformed() {
    let resp = TokenResponse {
        access_token: Some("A".to_string()),
        refresh_token: None,
        expires_in: None,
        token_type: None,
    };
    let r = tokens_from_response(&resp);
    assert!(matches!(r, Err(AuthError::MalformedResponseError(f)) if f == "refresh_token"));
}

#[test]
fn complete_response_yields_tokens() {
    let resp = TokenResponse {
        access_token: Some("A".to_string()),
        refresh_token: Some("R".to_string()),
        expires_in: None,
        token_type: None,
    };
    let t: Tokens = tokens_from_response(&resp).unwrap();
    assert_eq!(t.access, "A");
    assert_eq!(t.refresh, "R");
}

#[test]
fn token_request_body_exact_value() {
    let req = make_token_request(&config(), b"C/1");
    assert_eq!(req.token_url, "https://auth.tesla.com/oauth2/v3/token");
    assert_eq!(
        req.body,
        "grant_type=authorization_code&code=C%2F1\
         &redirect_uri=https%3A%2F%2Fauth.tesla.com%2Fvoid%2Fcallback\
         &client_id=ownerapi&client_secret=secret123"
    );
}

#[test]
fn is_redirect_url_matches_host_and_path() {
    let client = Client::new(config());
    assert!(client.is_redirect_url(&parse(
        "https://auth.tesla.com/void/callback?state=s&code=c"
    )));
    assert!(client.is_redirect_url(&parse("https://auth.tesla.com/void/callback")));
    assert!(!client.is_redirect_url(&parse("https://auth.tesla.com/other")));
    assert!(!client.is_redirect_url(&parse("https://example.com/void/callback")));
}

#[test]
fn verify_csrf_state_compares_pending() {
    let client = awaiting_client(b"S");
    assert!(client.verify_csrf_state(b"S"));
    assert!(!client.verify_csrf_state(b"S2"));
    let idle = Client::new(config());
    assert!(!idle.verify_csrf_state(b"S"));
}
