//! Bearer-token authentication of REST requests.

use vstd::prelude::*;
use crate::model::{AccessToken, User};
use crate::text::{has_prefix, starts_with};

verus! {

/// The caller of a request: the user and the token that the request's
/// Bearer credential resolved to, or neither.
#[derive(Debug)]
pub struct Auth {
    pub user: Option<User>,
    pub token: Option<AccessToken>,
}

/// The token that an `Authorization` header value carries after `Bearer `.
pub open spec fn bearer_of(header: Seq<char>) -> Option<Seq<char>> {
    if has_prefix(header, "Bearer "@) {
        Some(header.subrange("Bearer "@.len() as int, header.len() as int))
    } else {
        None
    }
}

/// The Bearer token of an `Authorization` header value, if it has one.
pub fn bearer_token(header: Option<&str>) -> (r: Option<String>)
    ensures
        r matches Some(t) ==> header matches Some(h) && bearer_of(h@) == Some(t@),
        r is None ==> header is None || bearer_of(header->0@) is None,
{
    match header {
        None => None,
        Some(h) => {
            if starts_with(h, "Bearer ") {
                proof {
                    reveal_strlit("Bearer ");
                }
                let n = h.unicode_len();
                Some(String::from_str(h.substring_char(7, n)))
            } else {
                None
            }
        },
    }
}

/// A header value built as `Bearer <t>` carries the token `t`.
pub proof fn law_bearer_roundtrip(t: Seq<char>)
    ensures
        bearer_of("Bearer "@ + t) == Some(t),
{
    let h = "Bearer "@ + t;
    assert(h.subrange(0, "Bearer "@.len() as int) =~= "Bearer "@);
    assert(h.subrange("Bearer "@.len() as int, h.len() as int) =~= t);
}

impl Auth {
    /// No caller: the request carries no usable credential.
    pub fn anonymous() -> (r: Self)
        ensures
            r.user is None,
            r.token is None,
    {
        Auth { user: None, token: None }
    }

    /// The caller once the token was looked up by its secret and its user by
    /// the token's `user_id`: known only when both lookups found a record.
    pub fn resolved(token: Option<AccessToken>, user: Option<User>) -> (r: Self)
        ensures
            (token is Some && user is Some) ==> r.user == user && r.token == token,
            !(token is Some && user is Some) ==> r.user is None && r.token is None,
    {
        match (token, user) {
            (Some(t), Some(u)) => Auth { user: Some(u), token: Some(t) },
            _ => Auth { user: None, token: None },
        }
    }

    pub fn user(&self) -> (r: Option<&User>)
        ensures
            r == match self.user {
                Some(u) => Some(&u),
                None => None,
            },
    {
        self.user.as_ref()
    }

    pub fn token(&self) -> (r: Option<&AccessToken>)
        ensures
            r == match self.token {
                Some(t) => Some(&t),
                None => None,
            },
    {
        self.token.as_ref()
    }

    /// The caller's user, as `Option<User>::from(auth)` gives it.
    pub fn into_user(self) -> (r: Option<User>)
        ensures
            r == self.user,
    {
        self.user
    }
}

} // verus!
