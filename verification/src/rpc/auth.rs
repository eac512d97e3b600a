//! Accounts and API keys by RPC: sign-in, sign-up, password changes, the
//! roles a new key may carry, and revoking keys.

use vstd::prelude::*;
use crate::dates::{parse_rfc3339, spec_parse_rfc3339};
use crate::model::{role_named, role_names, role_texts, AccessToken, Role, User};
use crate::passwords::{check_password, spec_password_check, PasswordCheck};
use crate::text::opt_view;
use crate::text::{int_text, push_int, views};

verus! {

/// What every failed sign-in answers, whatever failed.
pub open spec fn invalid_credentials() -> Seq<char> {
    "Invalid credentials"@
}

/// What a sign-in gives, from whether the account exists and how the
/// password compares with its hash: every failure reads the same.
pub fn signin_outcome(user_found: bool, check: PasswordCheck) -> (r: Result<(), String>)
    ensures
        r is Ok <==> user_found && check == PasswordCheck::Matches,
        r matches Err(m) ==> m@ == invalid_credentials(),
{
    if user_found && check == PasswordCheck::Matches {
        Ok(())
    } else {
        Err(String::from_str("Invalid credentials"))
    }
}

/// Checks a sign-in against the stored hash of the account, if there is one.
pub fn check_signin(stored: Option<&str>, password: &str) -> (r: Result<(), String>)
    ensures
        r is Ok <==> (stored matches Some(h) && spec_password_check(password@, h@)
            == PasswordCheck::Matches),
        r matches Err(m) ==> m@ == invalid_credentials(),
{
    match stored {
        Some(h) => signin_outcome(true, check_password(password, h)),
        None => signin_outcome(false, PasswordCheck::Mismatch),
    }
}

/// The message for a role name that names no role.
pub open spec fn invalid_role_message(name: Seq<char>) -> Seq<char> {
    "'"@ + name + "' is not a valid Role"@
}

/// Every name names a role.
pub open spec fn all_roles(names: Seq<String>) -> bool {
    forall|i: int| 0 <= i < names.len() ==> (#[trigger] role_named(names[i]@)) is Some
}

/// The roles that the names name, in order.
pub open spec fn named_roles(names: Seq<String>) -> Seq<Role> {
    Seq::new(names.len(), |i: int| role_named(names[i]@)->0)
}

/// The first name that names no role.
pub open spec fn first_bad(names: Seq<String>, k: int) -> bool {
    &&& 0 <= k < names.len()
    &&& role_named(names[k]@) is None
    &&& forall|j: int| 0 <= j < k ==> (#[trigger] role_named(names[j]@)) is Some
}

/// Reads the roles that a new key asks for; the first name that names no
/// role is refused.
pub fn parse_token_roles(requested: &Vec<String>) -> (r: Result<Vec<Role>, String>)
    ensures
        r is Ok <==> all_roles(requested@),
        r matches Ok(v) ==> v@ == named_roles(requested@),
        r matches Err(m) ==> exists|k: int| first_bad(requested@, k) && m@ == invalid_role_message(
            requested@[k]@,
        ),
{
    let mut out: Vec<Role> = Vec::new();
    let mut i: usize = 0;
    while i < requested.len()
        invariant
            i <= requested@.len(),
            forall|j: int| 0 <= j < i ==> (#[trigger] role_named(requested@[j]@)) is Some,
            out@ == named_roles(requested@).subrange(0, i as int),
        decreases requested@.len() - i,
    {
        match Role::from_name(requested[i].as_str()) {
            Some(r) => {
                out.push(r);
                assert(out@ =~= named_roles(requested@).subrange(0, i + 1));
            },
            None => {
                let mut m = String::from_str("'");
                m.append(requested[i].as_str());
                m.append("' is not a valid Role");
                assert(first_bad(requested@, i as int));
                return Err(m);
            },
        }
        i = i + 1;
    }
    assert(out@ =~= named_roles(requested@));
    Ok(out)
}

/// Reads and checks the roles a new key asks for. Roles may only narrow
/// the user's own: `within_user_scope` tells whether the RPC methods that
/// the requested roles allow are among those that the user's roles allow,
/// which the method table decides. No roles at all is always accepted.
pub fn parse_and_validate_token_roles(requested: &Vec<String>, within_user_scope: bool) -> (r:
    Result<Vec<Role>, String>)
    ensures
        r is Ok <==> all_roles(requested@) && (requested@.len() == 0 || within_user_scope),
        r matches Ok(v) ==> v@ == named_roles(requested@),
        r matches Err(m) ==> if all_roles(requested@) {
            m@ == "Requested token roles exceed the scope of the user record"@
        } else {
            exists|k: int| first_bad(requested@, k) && m@ == invalid_role_message(requested@[k]@)
        },
{
    let parsed = parse_token_roles(requested)?;
    if parsed.len() > 0 && !within_user_scope {
        return Err(String::from_str("Requested token roles exceed the scope of the user record"));
    }
    Ok(parsed)
}

/// The message when a password's length in bytes falls outside
/// `min..=max`; `new` words it for a password change.
pub open spec fn length_message(len: int, min: int, max: int, new: bool) -> Option<Seq<char>> {
    let head = if new {
        "New password is too "@
    } else {
        "Password is too "@
    };
    if len < min {
        Some(head + "short, use at least "@ + int_text(min) + " chars"@)
    } else if len > max {
        Some(head + "long, use at most "@ + int_text(max) + " chars"@)
    } else {
        None
    }
}

/// Checks the length of a new password against the allowed bounds.
pub fn check_password_length(password: &str, min: usize, max: usize, new: bool) -> (r: Option<
    String,
>)
    requires
        min <= i64::MAX,
        max <= i64::MAX,
    ensures
        opt_view(r) == length_message(password.len() as int, min as int, max as int, new),
{
    let len = password.len();
    if len >= min && len <= max {
        return None;
    }
    let mut m = if new {
        String::from_str("New password is too ")
    } else {
        String::from_str("Password is too ")
    };
    if len < min {
        m.append("short, use at least ");
        push_int(&mut m, min as i64);
    } else {
        m.append("long, use at most ");
        push_int(&mut m, max as i64);
    }
    m.append(" chars");
    Some(m)
}

/// The message when a password change fails for the account or the old
/// password.
pub open spec fn wrong_login() -> Seq<char> {
    "Incorrect username or password"@
}

/// The message when a password change fails for any other reason.
pub open spec fn unexpected() -> Seq<char> {
    "Unexpected error, please contact administrator"@
}

/// What a password change gives, from whether the account exists and how
/// the old password compares with its hash.
pub fn change_password_outcome(user_found: bool, check: PasswordCheck) -> (r: Result<(), String>)
    ensures
        r is Ok <==> user_found && check == PasswordCheck::Matches,
        r matches Err(m) ==> m@ == if user_found && check == PasswordCheck::MalformedHash {
            unexpected()
        } else {
            wrong_login()
        },
{
    if !user_found {
        return Err(String::from_str("Incorrect username or password"));
    }
    match check {
        PasswordCheck::Matches => Ok(()),
        PasswordCheck::MalformedHash => Err(
            String::from_str("Unexpected error, please contact administrator"),
        ),
        PasswordCheck::Mismatch => Err(String::from_str("Incorrect username or password")),
    }
}

/// The message when inserting a new account fails: a constraint violation
/// means the name is taken.
pub fn signup_insert_error(constraint_violation: bool) -> (r: String)
    ensures
        constraint_violation ==> r@ == "Username already taken"@,
        !constraint_violation ==> r@ == unexpected(),
{
    if constraint_violation {
        String::from_str("Username already taken")
    } else {
        String::from_str("Unexpected error, please contact administrator")
    }
}

/// What revoking a key does.
#[derive(Debug, Clone, Copy, PartialEq, Eq, Structural)]
pub enum RevokeStep {
    /// The key is not the caller's: refuse, as for a missing key.
    Refuse,
    /// The key is already revoked: answer with it as it is.
    Unchanged,
    /// Revoke the key now.
    Revoke,
}

/// The step for revoking a key of user `token_user_id` by user `user_id`.
pub fn revoke_step(token_user_id: i64, user_id: i64, revoked: bool) -> (r: RevokeStep)
    ensures
        r == if token_user_id != user_id {
            RevokeStep::Refuse
        } else if revoked {
            RevokeStep::Unchanged
        } else {
            RevokeStep::Revoke
        },
{
    if token_user_id != user_id {
        RevokeStep::Refuse
    } else if revoked {
        RevokeStep::Unchanged
    } else {
        RevokeStep::Revoke
    }
}

/// A key as listed or revoked.
#[derive(Debug)]
pub struct KeyRes {
    pub id: i64,
    pub label: Option<String>,
    /// Nanoseconds since the Unix epoch.
    pub revoked_at: Option<i128>,
}

/// A key as listed or revoked.
pub fn key_res(token: AccessToken) -> (r: KeyRes)
    ensures
        r.id == token.id,
        r.label == token.name,
        r.revoked_at == token.deleted_at,
{
    KeyRes { id: token.id, label: token.name, revoked_at: token.deleted_at }
}

/// A key of the caller as listed.
#[derive(Debug)]
pub struct ApiKeyRes {
    pub id: i64,
    pub label: Option<String>,
    pub roles: Vec<String>,
    pub created_at: i128,
    pub updated_at: i128,
}

/// A key of the caller as listed, with the names of its roles.
pub fn api_key_res(token: &AccessToken) -> (r: ApiKeyRes)
    ensures
        r.id == token.id,
        opt_view(r.label) == opt_view(token.name),
        views(r.roles@) == role_texts(token.roles@),
        r.created_at == token.created_at,
        r.updated_at == token.updated_at,
{
    ApiKeyRes {
        id: token.id,
        label: match &token.name {
            Some(n) => Some(n.clone()),
            None => None,
        },
        roles: role_names(&token.roles),
        created_at: token.created_at,
        updated_at: token.updated_at,
    }
}

/// The caller as `whoami` describes them.
#[derive(Debug)]
pub struct WhoamiRes {
    pub name: String,
    pub roles: Vec<String>,
    pub npub: Option<String>,
    /// Nanoseconds since the Unix epoch.
    pub created_at: i128,
}

/// Describes the caller; `None` when the stored creation time is not
/// RFC 3339.
pub fn whoami(user: &User) -> (r: Option<WhoamiRes>)
    ensures
        r is Some <==> spec_parse_rfc3339(user.created_at@) is Some,
        r matches Some(w) ==> {
            &&& w.name@ == user.name@
            &&& views(w.roles@) == role_texts(user.roles@)
            &&& opt_view(w.npub) == opt_view(user.npub)
            &&& w.created_at == spec_parse_rfc3339(user.created_at@)->0
        },
{
    let created_at = match parse_rfc3339(user.created_at.as_str()) {
        Some(t) => t,
        None => {
            return None;
        },
    };
    Some(
        WhoamiRes {
            name: user.name.clone(),
            roles: role_names(&user.roles),
            npub: match &user.npub {
                Some(n) => Some(n.clone()),
                None => None,
            },
            created_at,
        },
    )
}

} // verus!
