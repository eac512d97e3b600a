//! User accounts (`/v4/users`): the caller's profile, password sign-in for
//! tokens, password and name changes, and the linked Nostr identity.

use vstd::prelude::*;
use crate::model::{role_names, role_texts, Role, User};
use crate::passwords::{accepts, check_password, hash_password, spec_password_check, PasswordCheck};
use crate::rest::auth::{bearer_of, bearer_token, Auth};
use crate::rest::error::{RestApiError, RestApiErrorCode};
use crate::text::opt_view;
use crate::text::views;

verus! {

/// A saved place, by ID and name.
#[derive(Debug)]
pub struct SavedPlace {
    pub id: i64,
    pub name: String,
}

/// A saved area, by ID and name.
#[derive(Debug)]
pub struct SavedArea {
    pub id: i64,
    pub name: String,
}

/// The caller's profile.
#[derive(Debug)]
pub struct MeResponse {
    pub id: i64,
    pub name: String,
    pub roles: Vec<String>,
    pub saved_places: Vec<SavedPlace>,
    pub saved_areas: Vec<SavedArea>,
    /// The bech32 `npub1...` of the linked Nostr identity, if any.
    pub npub: Option<String>,
}

/// A new account.
#[derive(Debug)]
pub struct PostResponse {
    pub id: i64,
    pub name: String,
    pub roles: Vec<String>,
}

/// The label of a new token.
#[derive(Debug)]
pub struct CreateTokenArgs {
    pub label: Option<String>,
}

/// A new token and the profile of its user.
#[derive(Debug)]
pub struct CreateTokenResponse {
    pub token: String,
    pub user: MeResponse,
}

/// A password change.
#[derive(Debug)]
pub struct ChangePasswordArgs {
    pub old_password: String,
    pub new_password: String,
}

/// A name change.
#[derive(Debug)]
pub struct UpdateUsernameArgs {
    pub username: String,
}

/// The Nostr identity linked to an account.
#[derive(Debug)]
pub struct NostrIdentityResponse {
    pub npub: Option<String>,
}

/// The caller's account: requests without one are unauthorized.
pub fn require_user(auth: Auth) -> (r: Result<User, RestApiError>)
    ensures
        r is Ok <==> auth.user is Some,
        r matches Ok(u) ==> auth.user == Some(u),
        r matches Err(e) ==> e.code == RestApiErrorCode::Unauthorized,
{
    match auth.into_user() {
        Some(u) => Ok(u),
        None => Err(RestApiError::unauthorized()),
    }
}

fn clone_opt(o: &Option<String>) -> (r: Option<String>)
    ensures
        opt_view(r) == opt_view(*o),
{
    match o {
        Some(s) => Some(s.clone()),
        None => None,
    }
}

/// The profile of `user` with the given saved places and areas.
pub fn me_response(user: User, saved_places: Vec<SavedPlace>, saved_areas: Vec<SavedArea>) -> (r:
    MeResponse)
    ensures
        r.id == user.id,
        r.name == user.name,
        views(r.roles@) == role_texts(user.roles@),
        r.saved_places == saved_places,
        r.saved_areas == saved_areas,
        r.npub == user.npub,
{
    let roles = role_names(&user.roles);
    MeResponse {
        id: user.id,
        name: user.name,
        roles,
        saved_places,
        saved_areas,
        npub: user.npub,
    }
}

impl MeResponse {
    /// The profile of `user` without its saved places and areas, as the
    /// answer to a name change gives it.
    pub fn from_user(user: &User) -> (r: MeResponse)
        ensures
            r.id == user.id,
            r.name@ == user.name@,
            views(r.roles@) == role_texts(user.roles@),
            r.saved_places@.len() == 0,
            r.saved_areas@.len() == 0,
            opt_view(r.npub) == opt_view(user.npub),
    {
        MeResponse {
            id: user.id,
            name: user.name.clone(),
            roles: role_names(&user.roles),
            saved_places: Vec::new(),
            saved_areas: Vec::new(),
            npub: clone_opt(&user.npub),
        }
    }
}

/// The answer to the creation of `user`.
pub fn post_response(user: &User) -> (r: PostResponse)
    ensures
        r.id == user.id,
        r.name@ == user.name@,
        views(r.roles@) == role_texts(user.roles@),
{
    PostResponse { id: user.id, name: user.name.clone(), roles: role_names(&user.roles) }
}

/// A name as the `names` crate generates it with numbered naming: an
/// adjective and a noun from its word lists (lower-case words of at least
/// two letters, some with inner hyphens), then a hyphen and four digits.
pub open spec fn generated_name(s: Seq<char>) -> bool {
    &&& s.len() >= 10
    &&& 'a' <= s[0] <= 'z'
    &&& forall|i: int| 0 <= i < s.len() - 5 ==> ('a' <= #[trigger] s[i] <= 'z' || s[i] == '-')
    &&& s[s.len() - 5] == '-'
    &&& forall|i: int| s.len() - 4 <= i < s.len() ==> '0' <= #[trigger] s[i] <= '9'
}

/// Trusted: the next name of `names::Generator::with_naming(Name::Numbered)`.
/// The crate's iterator never ends, so a name is always returned; it is
/// written as `{adjective}-{noun}-{number:04}` with a number from 1 to 9999
/// and words from the crate's lists, which are lower-case words of two or
/// more letters (some with inner hyphens). Which words and which number are
/// drawn at random, and nothing is claimed of them.
#[verifier::external_body]
pub(crate) fn generate_name() -> (r: Option<String>)
    ensures
        r is Some,
        r matches Some(n) ==> generated_name(n@),
{
    names::Generator::with_naming(names::Name::Numbered).next()
}

/// The name of a new account: the one asked for, or else a generated one.
pub fn new_user_name(given: Option<String>) -> (r: String)
    ensures
        given matches Some(n) ==> r == n,
        given is None ==> generated_name(r@) && r@.len() > 0,
{
    match given {
        Some(n) => n,
        None => match generate_name() {
            Some(n) => n,
            None => String::new(),
        },
    }
}

/// The password of a token request: the Bearer credential of its
/// `Authorization` header; without one the request is unauthorized.
pub fn token_password(header: Option<&str>) -> (r: Result<String, RestApiError>)
    ensures
        r is Ok <==> (header matches Some(h) && bearer_of(h@) is Some),
        r matches Ok(p) ==> bearer_of(header->0@) == Some(p@),
        r matches Err(e) ==> e.code == RestApiErrorCode::Unauthorized,
{
    match bearer_token(header) {
        Some(p) => Ok(p),
        None => Err(RestApiError::unauthorized()),
    }
}

/// What a sign-in with a password gives, from whether the stored hash is
/// empty and how the password compares with it: accounts without a
/// password are unauthorized, an unreadable hash and a wrong password are
/// invalid input.
pub fn credential_outcome(stored_is_empty: bool, check: PasswordCheck) -> (r: Result<(), RestApiError>)
    ensures
        r is Ok <==> !stored_is_empty && check == PasswordCheck::Matches,
        r matches Err(e) ==> if stored_is_empty {
            e.code == RestApiErrorCode::Unauthorized
        } else {
            e.code == RestApiErrorCode::InvalidInput && e.message@ == (if check
                == PasswordCheck::MalformedHash {
                "Invalid password hash"@
            } else {
                "Invalid credentials"@
            })
        },
{
    if stored_is_empty {
        return Err(RestApiError::unauthorized());
    }
    match check {
        PasswordCheck::Matches => Ok(()),
        PasswordCheck::MalformedHash => Err(RestApiError::invalid_input("Invalid password hash")),
        PasswordCheck::Mismatch => Err(RestApiError::invalid_input("Invalid credentials")),
    }
}

/// Checks the password of a token request against the account's stored
/// hash `stored`.
pub fn check_credentials(stored: &str, password: &str) -> (r: Result<(), RestApiError>)
    ensures
        r is Ok <==> accepts(stored@, password@),
        r matches Err(e) ==> if stored@.len() == 0 {
            e.code == RestApiErrorCode::Unauthorized
        } else {
            e.code == RestApiErrorCode::InvalidInput && e.message@ == (if spec_password_check(
                password@,
                stored@,
            ) == PasswordCheck::MalformedHash {
                "Invalid password hash"@
            } else {
                "Invalid credentials"@
            })
        },
{
    if stored.unicode_len() == 0 {
        return credential_outcome(true, PasswordCheck::Mismatch);
    }
    let check = check_password(password, stored);
    credential_outcome(false, check)
}

/// What a password change gives, from how the old password compares with
/// the stored hash.
pub fn old_password_outcome(check: PasswordCheck) -> (r: Result<(), RestApiError>)
    ensures
        r is Ok <==> check == PasswordCheck::Matches,
        r matches Err(e) ==> e.code == RestApiErrorCode::InvalidInput && e.message@ == (if check
            == PasswordCheck::MalformedHash {
            "Invalid password hash"@
        } else {
            "Invalid old password"@
        }),
{
    match check {
        PasswordCheck::Matches => Ok(()),
        PasswordCheck::MalformedHash => Err(RestApiError::invalid_input("Invalid password hash")),
        PasswordCheck::Mismatch => Err(RestApiError::invalid_input("Invalid old password")),
    }
}

/// Checks the old password of a password change against the stored hash.
pub fn check_old_password(stored: &str, old_password: &str) -> (r: Result<(), RestApiError>)
    ensures
        r is Ok <==> spec_password_check(old_password@, stored@) == PasswordCheck::Matches,
        r matches Err(e) ==> e.code == RestApiErrorCode::InvalidInput && e.message@ == (if spec_password_check(
            old_password@,
            stored@,
        ) == PasswordCheck::MalformedHash {
            "Invalid password hash"@
        } else {
            "Invalid old password"@
        }),
{
    old_password_outcome(check_password(old_password, stored))
}

/// The hash to store for a new password. A failure of the hasher is
/// invalid input. Whatever is stored lets the same password sign in.
pub fn new_password_hash(password: &str) -> (r: Result<String, RestApiError>)
    ensures
        r matches Ok(h) ==> accepts(h@, password@),
        r matches Err(e) ==> e.code == RestApiErrorCode::InvalidInput,
{
    match hash_password(password) {
        Ok(h) => Ok(h),
        Err(m) => Err(RestApiError::invalid_input(m.as_str())),
    }
}

/// The label of a new token: the one given, or empty.
pub fn token_label(label: Option<String>) -> (r: String)
    ensures
        r@ == match label {
            Some(l) => l@,
            None => Seq::<char>::empty(),
        },
{
    match label {
        Some(l) => l,
        None => String::new(),
    }
}

/// Trusted: `uuid::Uuid::new_v4().to_string()`, a random version-4 UUID in
/// its hyphenated form, which is 36 characters long whatever the draw.
#[verifier::external_body]
fn new_token_secret() -> (r: String)
    ensures
        r@.len() == 36,
{
    uuid::Uuid::new_v4().to_string()
}

/// A token about to be stored for a user.
#[derive(Debug)]
pub struct NewAccessToken {
    pub user_id: i64,
    pub label: String,
    pub secret: String,
    /// The token's own roles: none, so that what it may do always follows
    /// the user's current roles.
    pub roles: Vec<Role>,
}

/// Mints a token for user `user_id`: a fresh random secret, the label given
/// (or an empty one) and no roles of its own.
pub fn new_access_token(user_id: i64, label: Option<String>) -> (r: NewAccessToken)
    ensures
        r.user_id == user_id,
        r.label@ == match label {
            Some(l) => l@,
            None => Seq::<char>::empty(),
        },
        r.secret@.len() == 36,
        r.roles@.len() == 0,
{
    NewAccessToken {
        user_id,
        label: token_label(label),
        secret: new_token_secret(),
        roles: Vec::new(),
    }
}

/// The answer to a token request: the new secret and the profile of its
/// user.
pub fn create_token_response(
    token: String,
    user: User,
    saved_places: Vec<SavedPlace>,
    saved_areas: Vec<SavedArea>,
) -> (r: CreateTokenResponse)
    ensures
        r.token == token,
        r.user.id == user.id,
        r.user.name == user.name,
        views(r.user.roles@) == role_texts(user.roles@),
        r.user.saved_places == saved_places,
        r.user.saved_areas == saved_areas,
        r.user.npub == user.npub,
{
    CreateTokenResponse { token, user: me_response(user, saved_places, saved_areas) }
}

/// The Nostr identity linked to `user`.
pub fn nostr_identity(user: &User) -> (r: NostrIdentityResponse)
    ensures
        opt_view(r.npub) == opt_view(user.npub),
{
    NostrIdentityResponse { npub: clone_opt(&user.npub) }
}

/// The answer when the proven npub is already linked to another account.
pub fn npub_conflict() -> (r: RestApiError)
    ensures
        r.code == RestApiErrorCode::InvalidInput,
        r.message@ == "npub already linked to another account"@,
{
    RestApiError::invalid_input("npub already linked to another account")
}

/// The npub proven by a NIP-98 proof; a request without one is
/// unauthorized.
pub fn proven_npub(npub: Option<String>) -> (r: Result<String, RestApiError>)
    ensures
        r is Ok <==> npub is Some,
        r matches Ok(n) ==> npub == Some(n),
        r matches Err(e) ==> e.code == RestApiErrorCode::Unauthorized,
{
    match npub {
        Some(n) => Ok(n),
        None => Err(RestApiError::unauthorized()),
    }
}

/// Whether account `user_id` may link an npub that is now linked to the
/// account `linked_to` (if any): only when it is unlinked or already its
/// own, so linking again is harmless.
pub fn check_npub_link(user_id: i64, linked_to: Option<i64>) -> (r: Result<(), RestApiError>)
    ensures
        r is Ok <==> match linked_to {
            Some(id) => id == user_id,
            None => true,
        },
        r matches Err(e) ==> e.code == RestApiErrorCode::InvalidInput && e.message@
            == "npub already linked to another account"@,
{
    match linked_to {
        Some(id) => if id != user_id {
            Err(npub_conflict())
        } else {
            Ok(())
        },
        None => Ok(()),
    }
}

/// The answer when storing the npub failed: a uniqueness violation on
/// `user.npub` means another account won the race for it.
pub fn npub_write_error(unique_violation_on_npub: bool) -> (r: RestApiError)
    ensures
        unique_violation_on_npub ==> r.code == RestApiErrorCode::InvalidInput && r.message@
            == "npub already linked to another account"@,
        !unique_violation_on_npub ==> r.code == RestApiErrorCode::Database,
{
    if unique_violation_on_npub {
        npub_conflict()
    } else {
        RestApiError::database()
    }
}

} // verus!
