//! The error taxonomy of the authorization flow. Every variant is
//! terminal for the attempt it belongs to.

use vstd::prelude::*;

verus! {

#[derive(Debug, Clone)]
pub enum AuthError {
    /// The client configuration is malformed (an endpoint does not
    /// parse as a URL, or a field is not ASCII).
    ConfigError,
    /// A matching redirect lacked the named query parameter.
    MissingParameterError(String),
    /// A matching redirect carried a state value other than the
    /// pending one; no exchange is attempted.
    CsrfMismatchError,
    /// The transport could not complete the exchange; the carried
    /// text describes the underlying cause.
    TokenExchangeError(String),
    /// The token endpoint answered, but the named required field
    /// was absent.
    MalformedResponseError(String),
}

} // verus!
