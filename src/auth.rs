//! The control service's credential check.
use vstd::prelude::*;

use crate::error::AuthError;
use crate::irc::command::same_text;

verus! {

/// The authorization header value privileged requests must carry.
pub const BEARER_TOKEN: &'static str = "Bearer some-secret-token";

/// Admits a request whose authorization header is exactly the bearer token.
pub fn check_auth(authorization: Option<&str>) -> (r: Result<(), AuthError>)
    ensures
        r is Ok <==> (authorization is Some && authorization->0@ == BEARER_TOKEN@),
        r is Err ==> r == Err::<(), AuthError>(AuthError::Unauthenticated),
{
    match authorization {
        Some(t) if same_text(t, BEARER_TOKEN) => Ok(()),
        _ => Err(AuthError::Unauthenticated),
    }
}

} // verus!
