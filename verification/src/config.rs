//! The immutable client configuration and its well-formedness.

use vstd::prelude::*;
use vstd::string::StringExecFnsIsAscii;
use vstd::utf8::is_ascii_chars;
use crate::encoding::{B_QMARK, B_HASH};
use crate::text::{ascii_bytes_of, string_bytes};
use crate::urls::{parse_url, RedirectUrl};

verus! {

/// Everything the client knows about its provider: credentials,
/// the two endpoints, the redirect target and the requested scopes
/// (already in the provider's delimited form).
#[derive(Debug, Clone)]
pub struct ClientConfig {
    pub client_id: String,
    pub client_secret: String,
    pub auth_url: String,
    pub token_url: String,
    pub redirect_uri: String,
    pub scope: String,
}

/// No `?` or `#` anywhere: required of the authorization endpoint
/// so that appending one query part yields a well-formed URL.
pub open spec fn no_query_or_fragment(s: Seq<u8>) -> bool {
    forall|i: int| 0 <= i < s.len() ==> (#[trigger] s[i]) != B_QMARK && s[i] != B_HASH
}

/// A well-formed configuration: ASCII fields, parsable endpoints,
/// and an authorization endpoint without query or fragment of its
/// own.
pub open spec fn config_wf(cfg: ClientConfig) -> bool {
    &&& is_ascii_chars(cfg.client_id@)
    &&& is_ascii_chars(cfg.client_secret@)
    &&& is_ascii_chars(cfg.auth_url@)
    &&& is_ascii_chars(cfg.token_url@)
    &&& is_ascii_chars(cfg.redirect_uri@)
    &&& is_ascii_chars(cfg.scope@)
    &&& parse_url(ascii_bytes_of(cfg.auth_url@)) is Some
    &&& no_query_or_fragment(ascii_bytes_of(cfg.auth_url@))
    &&& parse_url(ascii_bytes_of(cfg.token_url@)) is Some
    &&& parse_url(ascii_bytes_of(cfg.redirect_uri@)) is Some
}

fn no_delims(s: &[u8]) -> (b: bool)
    ensures
        b == no_query_or_fragment(s@),
{
    let mut i: usize = 0;
    while i < s.len()
        invariant
            i <= s@.len(),
            forall|t: int| 0 <= t < i ==> (#[trigger] s@[t]) != B_QMARK && s@[t] != B_HASH,
        decreases s.len() - i,
    {
        if s[i] == B_QMARK || s[i] == B_HASH {
            return false;
        }
        i = i + 1;
    }
    true
}

impl ClientConfig {
    /// Decide well-formedness at run time.
    pub fn is_wf(&self) -> (b: bool)
        ensures
            b == config_wf(*self),
    {
        if !self.client_id.is_ascii() || !self.client_secret.is_ascii() || !self.auth_url.is_ascii()
            || !self.token_url.is_ascii() || !self.redirect_uri.is_ascii()
            || !self.scope.is_ascii() {
            return false;
        }
        let ab = string_bytes(self.auth_url.as_str());
        if RedirectUrl::parse(ab.as_slice()).is_none() {
            return false;
        }
        if !no_delims(ab.as_slice()) {
            return false;
        }
        let tb = string_bytes(self.token_url.as_str());
        if RedirectUrl::parse(tb.as_slice()).is_none() {
            return false;
        }
        let rb = string_bytes(self.redirect_uri.as_str());
        if RedirectUrl::parse(rb.as_slice()).is_none() {
            return false;
        }
        true
    }
}

} // verus!
