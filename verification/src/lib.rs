//! Verified core of an OAuth 2.0 Authorization Code flow client:
//! CSRF state handling, authorization-URL construction, redirect
//! classification and validation, and the code-for-token exchange
//! state machine.

pub mod authz;
pub mod client;
pub mod config;
pub mod csrf;
pub mod encoding;
pub mod errors;
pub mod params;
pub mod query;
pub mod text;
pub mod tokens;
pub mod urls;
