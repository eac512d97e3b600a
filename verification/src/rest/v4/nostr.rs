//! Sign-in with Nostr (`POST /v4/auth/nostr`): who a verified npub is, and
//! how an account is made for a new one when names or the npub collide.

use vstd::prelude::*;
use crate::model::User;
use crate::rest::error::{RestApiError, RestApiErrorCode};
use crate::text::{contains_str, contains_text};

verus! {

/// A token for the account of a verified npub.
#[derive(Debug)]
pub struct AuthNostrResponse {
    pub token: String,
    pub username: String,
    pub npub: String,
}

/// How many generated names are tried for a new account.
pub const NAME_RETRIES: u8 = 5;

/// A failed write to the store, as far as the handlers read it: whether it
/// is a constraint violation, and its message.
#[derive(Debug)]
pub struct DbFailure {
    pub constraint_violation: bool,
    pub message: Option<String>,
}

/// The failure is a uniqueness violation that names `target`, such as
/// `user.npub`: SQLite words it `UNIQUE constraint failed: <table>.<col>`.
pub open spec fn violates_on(err: DbFailure, target: Seq<char>) -> bool {
    err.constraint_violation && match err.message {
        Some(m) => contains_text(m@, target),
        None => false,
    }
}

/// Whether `err` is a constraint violation whose message names `target`.
pub fn is_unique_violation_on(err: &DbFailure, target: &str) -> (r: bool)
    ensures
        r == violates_on(*err, target@),
{
    if !err.constraint_violation {
        return false;
    }
    match &err.message {
        Some(m) => contains_str(m.as_str(), target),
        None => false,
    }
}

/// What came of inserting a new account for an npub.
#[derive(Debug, Clone, Copy, PartialEq, Eq, Structural)]
pub enum InsertOutcome {
    Inserted,
    /// Another sign-in linked the npub first.
    NpubTaken,
    /// The generated name is in use.
    NameTaken,
    /// Any other failure.
    Failed,
}

/// What to do after an insert.
#[derive(Debug, Clone, Copy, PartialEq, Eq, Structural)]
pub enum RecoverStep {
    /// Use the new account.
    Done,
    /// Select the account that won the race for the npub.
    Reselect,
    /// Try again with another name.
    Retry,
    /// Answer with a database error.
    GiveUp,
}

/// Reads a failed insert: a violation on `user.npub` is a lost race, one
/// on `user.name` a taken name, anything else a failure.
pub fn insert_outcome(err: &DbFailure) -> (r: InsertOutcome)
    ensures
        r == if violates_on(*err, "user.npub"@) {
            InsertOutcome::NpubTaken
        } else if violates_on(*err, "user.name"@) {
            InsertOutcome::NameTaken
        } else {
            InsertOutcome::Failed
        },
{
    if is_unique_violation_on(err, "user.npub") {
        InsertOutcome::NpubTaken
    } else if is_unique_violation_on(err, "user.name") {
        InsertOutcome::NameTaken
    } else {
        InsertOutcome::Failed
    }
}

/// The step after insert number `attempt` (from 0) gave `outcome`: a taken
/// name is retried until `NAME_RETRIES` names were tried.
pub fn recover_step(attempt: u8, outcome: InsertOutcome) -> (r: RecoverStep)
    requires
        attempt < NAME_RETRIES,
    ensures
        r == match outcome {
            InsertOutcome::Inserted => RecoverStep::Done,
            InsertOutcome::NpubTaken => RecoverStep::Reselect,
            InsertOutcome::NameTaken => if attempt + 1 < NAME_RETRIES {
                RecoverStep::Retry
            } else {
                RecoverStep::GiveUp
            },
            InsertOutcome::Failed => RecoverStep::GiveUp,
        },
{
    match outcome {
        InsertOutcome::Inserted => RecoverStep::Done,
        InsertOutcome::NpubTaken => RecoverStep::Reselect,
        InsertOutcome::NameTaken => if attempt + 1 < NAME_RETRIES {
            RecoverStep::Retry
        } else {
            RecoverStep::GiveUp
        },
        InsertOutcome::Failed => RecoverStep::GiveUp,
    }
}

/// The account that won the race for the npub; none found is a database
/// error.
pub fn reselected(found: Option<User>) -> (r: Result<User, RestApiError>)
    ensures
        r is Ok <==> found is Some,
        r matches Ok(u) ==> found == Some(u),
        r matches Err(e) ==> e.code == RestApiErrorCode::Database,
{
    match found {
        Some(u) => Ok(u),
        None => Err(RestApiError::database()),
    }
}

/// The answer to a Nostr sign-in: the new token, the account's name and
/// the npub.
pub fn auth_nostr_response(token: String, user: User, npub: String) -> (r: AuthNostrResponse)
    ensures
        r.token == token,
        r.username == user.name,
        r.npub == npub,
{
    AuthNostrResponse { token, username: user.name, npub }
}

} // verus!
