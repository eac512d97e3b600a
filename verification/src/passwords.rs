//! Checking a presented password against a stored Argon2 hash.

use argon2::password_hash::rand_core::OsRng;
use argon2::password_hash::SaltString;
use argon2::{PasswordHasher, PasswordVerifier};
use vstd::prelude::*;

verus! {

/// How a presented password compares with a stored PHC hash string.
#[derive(Debug, Clone, Copy, PartialEq, Eq, Structural)]
pub enum PasswordCheck {
    Matches,
    Mismatch,
    MalformedHash,
}

/// What checking `password` against the PHC string `phc` gives: Argon2
/// verification is a function of the two alone.
pub uninterp spec fn spec_password_check(password: Seq<char>, phc: Seq<char>) -> PasswordCheck;

/// Trusted: parses `phc` with `argon2::PasswordHash::new`; when that fails
/// the result is `MalformedHash`, otherwise it is `Matches` exactly when
/// `Argon2::default().verify_password` accepts the UTF-8 bytes of
/// `password`. The contract only names the result; it states nothing of
/// which pairs match.
#[verifier::external_body]
pub(crate) fn check_password(password: &str, phc: &str) -> (r: PasswordCheck)
    ensures
        r == spec_password_check(password@, phc@),
{
    match argon2::PasswordHash::new(phc) {
        Err(_) => PasswordCheck::MalformedHash,
        Ok(h) => match argon2::Argon2::default().verify_password(password.as_bytes(), &h) {
            Ok(()) => PasswordCheck::Matches,
            Err(_) => PasswordCheck::Mismatch,
        },
    }
}

/// A stored password hash accepts `password`: it is set, and checking the
/// password against it matches.
pub open spec fn accepts(phc: Seq<char>, password: Seq<char>) -> bool {
    phc.len() > 0 && spec_password_check(password, phc) == PasswordCheck::Matches
}

/// Trusted: hashes `password` with `Argon2::default().hash_password` under
/// a fresh salt from `SaltString::generate(&mut OsRng)` and returns the PHC
/// string, or the error's text. The salt is random, so the result is not
/// named; the contract claims what argon2's documentation shows of every
/// outcome: the PHC string is not empty and the same password verifies
/// against it.
#[verifier::external_body]
pub(crate) fn hash_password(password: &str) -> (r: Result<String, String>)
    ensures
        r matches Ok(h) ==> accepts(h@, password@),
{
    let salt = SaltString::generate(&mut OsRng);
    match argon2::Argon2::default().hash_password(password.as_bytes(), &salt) {
        Ok(h) => Ok(h.to_string()),
        Err(e) => Err(e.to_string()),
    }
}

} // verus!
