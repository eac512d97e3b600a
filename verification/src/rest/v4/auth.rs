//! Signing out (`POST /v4/auth/signout`).

use vstd::prelude::*;
use crate::model::AccessToken;
use crate::rest::auth::Auth;
use crate::rest::error::{RestApiError, RestApiErrorCode};

verus! {

/// The revoked token.
#[derive(Debug)]
pub struct SignoutResponse {
    pub id: i64,
    pub label: Option<String>,
    /// Nanoseconds since the Unix epoch.
    pub revoked_at: Option<i128>,
}

/// The token that authenticates the request; without one it is
/// unauthorized, so signing out twice with one token fails the second time.
pub fn signout_token(auth: Auth) -> (r: Result<AccessToken, RestApiError>)
    ensures
        r is Ok <==> auth.token is Some,
        r matches Ok(t) ==> auth.token == Some(t),
        r matches Err(e) ==> e.code == RestApiErrorCode::Unauthorized,
{
    match auth.token {
        Some(t) => Ok(t),
        None => Err(RestApiError::unauthorized()),
    }
}

/// The answer, from the token as stored after revoking it.
pub fn signout_response(token: AccessToken) -> (r: SignoutResponse)
    ensures
        r.id == token.id,
        r.label == token.name,
        r.revoked_at == token.deleted_at,
{
    SignoutResponse { id: token.id, label: token.name, revoked_at: token.deleted_at }
}

} // verus!
