//! The OAuth client state machine: one pending CSRF state per
//! attempt, validation of observed redirect URLs, and the
//! code-for-token exchange through a transport.

use vstd::prelude::*;
use crate::authz::{build_spec, build_authorization_url};
use crate::config::{ClientConfig, config_wf};
use crate::csrf;
use crate::csrf::STATE_LENGTH;
use crate::errors::AuthError;
use crate::params::{k_state, k_code, state_bytes, code_bytes};
use crate::query::{q_get, bytes_eq};
use crate::text::{ascii_bytes_of, ascii_chars_of, string_bytes};
use crate::tokens::{
    Tokens, TokenResponse, Transport, make_token_request, tokens_from_response,
    tokens_match_response,
};
use crate::urls::{parse_url, UrlView, RedirectUrl};

verus! {

/// Where one client stands in its flow.
#[derive(Clone, Copy, Debug, PartialEq, Eq, Structural)]
pub enum Phase {
    /// Constructed, no attempt begun.
    Idle,
    /// An authorization URL was issued; its CSRF state is pending.
    Awaiting,
    /// Tokens were retrieved; all further redirects are ignored.
    Completed,
    /// The attempt ended in an error; all further redirects are
    /// ignored until a new attempt begins.
    Failed,
}

/// Does an observed URL land on the configured redirect endpoint?
/// True exactly when host and path equal those of the configured
/// redirect URI.
pub open spec fn is_redirect_target(cfg: ClientConfig, u: UrlView) -> bool {
    &&& vstd::utf8::is_ascii_chars(cfg.redirect_uri@)
    &&& parse_url(ascii_bytes_of(cfg.redirect_uri@)) matches Some(cb) && cb.host == u.host
        && cb.path == u.path
}

/// The attempt failed: terminal phase, no pending state.
pub open spec fn attempt_failed(c: Client) -> bool {
    c.phase is Failed && c.pending is None
}

/// The OAuth client. It owns at most one pending CSRF state; a
/// redirect is exchanged only if its state equals the pending one,
/// and a completed or failed client ignores all further redirects.
pub struct Client {
    pub config: ClientConfig,
    pub phase: Phase,
    pub pending: Option<Vec<u8>>,
}

impl Client {
    /// A pending state exists exactly while awaiting, and awaiting
    /// implies the configuration was accepted.
    pub open spec fn wf(&self) -> bool {
        &&& self.phase is Awaiting <==> self.pending is Some
        &&& self.phase is Awaiting ==> config_wf(self.config)
    }

    pub fn new(config: ClientConfig) -> (c: Client)
        ensures
            c.wf(),
            c.phase is Idle,
            c.pending is None,
            c.config == config,
    {
        Client { config, phase: Phase::Idle, pending: None }
    }

    /// Begin a fresh attempt: generate a new CSRF state, supersede
    /// any prior pending one, and return the authorization URL
    /// built around the new state.
    pub fn authorization_url(&mut self) -> (r: Result<String, AuthError>)
        requires
            old(self).wf(),
        ensures
            final(self).wf(),
            final(self).config == old(self).config,
            !config_wf(old(self).config) ==> (r matches Err(AuthError::ConfigError) && *final(self)
                == *old(self)),
            config_wf(old(self).config) ==> (r matches Ok(u) && (final(self).phase is Awaiting && (
            final(self).pending matches Some(st) && (st@.len() == STATE_LENGTH && u@
                == ascii_chars_of(build_spec(old(self).config, st@)))))),
    {
        if !self.config.is_wf() {
            return Err(AuthError::ConfigError);
        }
        let st = csrf::generate();
        let st_bytes = string_bytes(st.as_str());
        match build_authorization_url(&self.config, st_bytes.as_slice()) {
            Ok(u) => {
                self.pending = Some(st_bytes);
                self.phase = Phase::Awaiting;
                Ok(u)
            },
            Err(_) => {
                proof {
                    assert(false);
                }
                Err(AuthError::ConfigError)
            },
        }
    }

    /// Pure classification of an observed URL, as the configuration
    /// defines it. Consumes nothing.
    pub fn is_redirect_url(&self, url: &RedirectUrl) -> (r: bool)
        ensures
            r == is_redirect_target(self.config, url@),
    {
        if !self.config.redirect_uri.is_ascii() {
            return false;
        }
        let rb = string_bytes(self.config.redirect_uri.as_str());
        match RedirectUrl::parse(rb.as_slice()) {
            Some(cb) => bytes_eq(cb.host.as_slice(), url.host.as_slice()) && bytes_eq(
                cb.path.as_slice(),
                url.path.as_slice(),
            ),
            None => false,
        }
    }

    /// Does `state` equal the pending CSRF state? Pure; consumes
    /// nothing.
    pub fn verify_csrf_state(&self, state: &[u8]) -> (r: bool)
        ensures
            r == (self.pending matches Some(p) && p@ == state@),
    {
        match &self.pending {
            Some(p) => bytes_eq(p.as_slice(), state),
            None => false,
        }
    }

    /// Exchange an authorization code for tokens through the
    /// transport. The pending state is consumed either way; the
    /// phase records the outcome.
    pub fn retrieve_tokens<T: Transport>(&mut self, code: &[u8], transport: &mut T) -> (r: Result<
        Tokens,
        AuthError,
    >)
        requires
            old(self).wf(),
            old(self).phase is Awaiting,
        ensures
            final(self).wf(),
            final(self).config == old(self).config,
            final(self).pending is None,
            r is Ok <==> final(self).phase is Completed,
            r is Err <==> final(self).phase is Failed,
            r matches Ok(t) ==> exists|resp: TokenResponse| tokens_match_response(resp, t),
            r matches Err(e) ==> (e matches AuthError::TokenExchangeError(_) || e matches
                AuthError::MalformedResponseError(_)),
    {
        let req = make_token_request(&self.config, code);
        self.pending = None;
        match transport.exchange(&req) {
            Err(m) => {
                self.phase = Phase::Failed;
                Err(AuthError::TokenExchangeError(m))
            },
            Ok(resp) => match tokens_from_response(&resp) {
                Ok(t) => {
                    self.phase = Phase::Completed;
                    proof {
                        assert(tokens_match_response(resp, t));
                    }
                    Ok(t)
                },
                Err(e) => {
                    self.phase = Phase::Failed;
                    Err(e)
                },
            },
        }
    }

    /// Feed one observed URL to the client. Anything not landing on
    /// the redirect endpoint, and anything arriving outside an
    /// attempt, is ignored without a state change. A matching
    /// redirect must carry `state` and `code`; its state must equal
    /// the pending one, which it consumes; then the code is
    /// exchanged through the transport.
    pub fn handle_url<T: Transport>(&mut self, url: &RedirectUrl, transport: &mut T) -> (r: Result<
        Option<Tokens>,
        AuthError,
    >)
        requires
            old(self).wf(),
        ensures
            final(self).wf(),
            final(self).config == old(self).config,
            !(old(self).phase is Awaiting && is_redirect_target(old(self).config, url@)) ==> (
            *final(self) == *old(self) && (r matches Ok(o) && o is None)),
            (old(self).phase is Awaiting && is_redirect_target(old(self).config, url@)) ==> {
                let st = q_get(url@.query, k_state());
                let cd = q_get(url@.query, k_code());
                &&& st is None ==> (r matches Err(AuthError::MissingParameterError(p)) && p@ == (
                "state")@ && attempt_failed(*final(self)))
                &&& st is Some && cd is None ==> (r matches Err(AuthError::MissingParameterError(p))
                    && p@ == ("code")@ && attempt_failed(*final(self)))
                &&& st is Some && cd is Some && st->0 != old(self).pending->0@ ==> (r matches Err(
                AuthError::CsrfMismatchError) && attempt_failed(*final(self)))
                &&& st is Some && cd is Some && st->0 == old(self).pending->0@ ==> {
                    &&& final(self).pending is None
                    &&& (r matches Ok(o) && o is Some) <==> final(self).phase is Completed
                    &&& r is Err <==> final(self).phase is Failed
                    &&& r matches Ok(o) ==> (o matches Some(t) ==> exists|resp: TokenResponse|
                        tokens_match_response(resp, t))
                    &&& r matches Err(e) ==> (e matches AuthError::TokenExchangeError(_)
                        || e matches AuthError::MalformedResponseError(_))
                    &&& !(r matches Ok(o) && o is None)
                }
            },
    {
        if !matches!(self.phase, Phase::Awaiting) {
            return Ok(None);
        }
        if !self.is_redirect_url(url) {
            return Ok(None);
        }
        let sk = state_bytes();
        let st = match url.query_value(sk.as_slice()) {
            None => {
                self.pending = None;
                self.phase = Phase::Failed;
                return Err(AuthError::MissingParameterError("state".to_owned()));
            },
            Some(s) => s,
        };
        let ck = code_bytes();
        let cd = match url.query_value(ck.as_slice()) {
            None => {
                self.pending = None;
                self.phase = Phase::Failed;
                return Err(AuthError::MissingParameterError("code".to_owned()));
            },
            Some(c) => c,
        };
        if !self.verify_csrf_state(st.as_slice()) {
            self.pending = None;
            self.phase = Phase::Failed;
            return Err(AuthError::CsrfMismatchError);
        }
        match self.retrieve_tokens(cd.as_slice(), transport) {
            Ok(t) => Ok(Some(t)),
            Err(e) => Err(e),
        }
    }
}

} // verus!
