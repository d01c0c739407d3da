//! The code-for-token exchange: the request the client builds, the
//! transport boundary it hands the request to, and the reading of
//! the transport's answer.

use vstd::prelude::*;
use crate::config::{ClientConfig, config_wf};
use crate::errors::AuthError;
use crate::params::{
    k_grant_type, k_code, k_redirect_uri, k_client_id, k_client_secret, k_authorization_code,
    grant_type_bytes, code_bytes, redirect_uri_bytes, client_id_bytes, client_secret_bytes,
    authorization_code_bytes,
};
use crate::query::{
    query_of_pairs, build_query, pairs_view, subrange_vec, lemma_query_of_pairs_delims,
};
use crate::text::{ascii_bytes_of, ascii_chars_of, all_ascii, string_bytes, ascii_to_string};

verus! {

/// What a completed flow yields.
#[derive(Debug, Clone)]
pub struct Tokens {
    pub access: String,
    pub refresh: String,
    pub expires_in: Option<u64>,
    pub token_type: Option<String>,
}

/// A token-endpoint request: the endpoint and the form-encoded body.
#[derive(Debug, Clone)]
pub struct TokenRequest {
    pub token_url: String,
    pub body: String,
}

/// The fields of the endpoint's JSON answer, each as the transport
/// found it (or did not).
#[derive(Debug, Clone)]
pub struct TokenResponse {
    pub access_token: Option<String>,
    pub refresh_token: Option<String>,
    pub expires_in: Option<u64>,
    pub token_type: Option<String>,
}

/// The boundary to the outside world: something able to POST a
/// token request and report the fields of the answer, or why there
/// is none. Implementations live outside the verified core; the
/// client states what it does for every possible answer.
pub trait Transport {
    fn exchange(&mut self, req: &TokenRequest) -> Result<TokenResponse, String>;
}

/// The form-encoded pairs of a token request for `code`.
pub open spec fn token_pairs(cfg: ClientConfig, code: Seq<u8>) -> Seq<(Seq<u8>, Seq<u8>)> {
    seq![
        (k_grant_type(), k_authorization_code()),
        (k_code(), code),
        (k_redirect_uri(), ascii_bytes_of(cfg.redirect_uri@)),
        (k_client_id(), ascii_bytes_of(cfg.client_id@)),
        (k_client_secret(), ascii_bytes_of(cfg.client_secret@)),
    ]
}

/// The body of a token request, as bytes.
pub open spec fn token_body(cfg: ClientConfig, code: Seq<u8>) -> Seq<u8> {
    query_of_pairs(token_pairs(cfg, code))
}

/// Build the token-endpoint request for an authorization code.
pub fn make_token_request(cfg: &ClientConfig, code: &[u8]) -> (r: TokenRequest)
    requires
        config_wf(*cfg),
    ensures
        r.token_url@ == cfg.token_url@,
        r.body@ == ascii_chars_of(token_body(*cfg, code@)),
{
    let mut pairs: Vec<(Vec<u8>, Vec<u8>)> = Vec::new();
    pairs.push((grant_type_bytes(), authorization_code_bytes()));
    pairs.push((code_bytes(), subrange_vec(code, 0, code.len())));
    pairs.push((redirect_uri_bytes(), string_bytes(cfg.redirect_uri.as_str())));
    pairs.push((client_id_bytes(), string_bytes(cfg.client_id.as_str())));
    pairs.push((client_secret_bytes(), string_bytes(cfg.client_secret.as_str())));
    proof {
        assert(code@.subrange(0, code@.len() as int) =~= code@);
        assert(pairs_view(pairs@) =~= token_pairs(*cfg, code@));
    }
    let body_bytes = build_query(&pairs);
    proof {
        lemma_query_of_pairs_delims(token_pairs(*cfg, code@));
        assert(all_ascii(body_bytes@));
    }
    let body = ascii_to_string(body_bytes);
    TokenRequest { token_url: cfg.token_url.clone(), body }
}

/// `t` is exactly what a successful reading of `resp` yields.
pub open spec fn tokens_match_response(resp: TokenResponse, t: Tokens) -> bool {
    &&& resp.access_token matches Some(a) && a@ == t.access@
    &&& resp.refresh_token matches Some(rf) && rf@ == t.refresh@
    &&& t.expires_in == resp.expires_in
    &&& t.token_type == resp.token_type
}

/// Read a transport answer into `Tokens`: both token fields are
/// required, the rest is carried along.
pub fn tokens_from_response(resp: &TokenResponse) -> (r: Result<Tokens, AuthError>)
    ensures
        resp.access_token is None ==> (r matches Err(AuthError::MalformedResponseError(f)) && f@
            == ("access_token")@),
        resp.access_token is Some && resp.refresh_token is None ==> (r matches Err(
            AuthError::MalformedResponseError(f),
        ) && f@ == ("refresh_token")@),
        resp.access_token is Some && resp.refresh_token is Some ==> (r matches Ok(t) && t.access@
            == resp.access_token->0@ && t.refresh@ == resp.refresh_token->0@ && t.expires_in
            == resp.expires_in && t.token_type == resp.token_type),
{
    let access = match &resp.access_token {
        Some(a) => a.clone(),
        None => {
            return Err(AuthError::MalformedResponseError("access_token".to_owned()));
        },
    };
    let refresh = match &resp.refresh_token {
        Some(rf) => rf.clone(),
        None => {
            return Err(AuthError::MalformedResponseError("refresh_token".to_owned()));
        },
    };
    let token_type = match &resp.token_type {
        Some(t) => Some(t.clone()),
        None => None,
    };
    Ok(Tokens { access, refresh, expires_in: resp.expires_in, token_type })
}

} // verus!
