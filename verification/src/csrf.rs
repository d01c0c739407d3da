//! The per-attempt CSRF state token.

use vstd::prelude::*;

verus! {

/// Length of a generated state token: the URL-safe base64 form of
/// 128 random bits.
pub const STATE_LENGTH: usize = 22;

/// Characters a state token is made of: the URL-safe base64
/// alphabet, a subset of the RFC 3986 unreserved set.
pub open spec fn is_state_char(c: char) -> bool {
    (65 <= c as u32 && c as u32 <= 90) || (97 <= c as u32 && c as u32 <= 122) || (48 <= c as u32
        && c as u32 <= 57) || c as u32 == 45 || c as u32 == 95
}

/// Generate a fresh, unguessable CSRF state token.
///
/// Relies on oauth2::CsrfToken::new_random (read through
/// CsrfToken::secret): 16 bytes from a cryptographic generator,
/// base64-encoded with the URL-safe alphabet and no padding, hence
/// 22 characters over A-Z, a-z, 0-9, '-' and '_'. Nothing is
/// assumed about which token comes back, only its shape.
#[verifier::external_body]
pub fn generate() -> (s: String)
    ensures
        s@.len() == STATE_LENGTH,
        vstd::utf8::is_ascii_chars(s@),
        forall|i: int| 0 <= i < s@.len() ==> is_state_char(#[trigger] s@[i]),
{
    oauth2::CsrfToken::new_random().secret().clone()
}

} // verus!
