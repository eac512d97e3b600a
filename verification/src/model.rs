//! The stored records that the endpoints read: users, their roles and
//! their access tokens. Times are nanoseconds since the Unix epoch.

use vstd::prelude::*;
use crate::text::str_eq;

verus! {

/// What a user or a token may do.
#[derive(Debug, Clone, Copy, PartialEq, Eq, Structural)]
pub enum Role {
    Root,
    Admin,
    User,
    Dashboard,
}

/// The name of a role, as it is stored and reported.
pub open spec fn role_text(r: Role) -> Seq<char> {
    match r {
        Role::Root => "root"@,
        Role::Admin => "admin"@,
        Role::User => "user"@,
        Role::Dashboard => "dashboard"@,
    }
}

/// The role that a name stands for.
pub open spec fn role_named(s: Seq<char>) -> Option<Role> {
    if s == "root"@ {
        Some(Role::Root)
    } else if s == "admin"@ {
        Some(Role::Admin)
    } else if s == "user"@ {
        Some(Role::User)
    } else if s == "dashboard"@ {
        Some(Role::Dashboard)
    } else {
        None
    }
}

impl Role {
    /// The role's name.
    pub fn to_string(&self) -> (r: String)
        ensures
            r@ == role_text(*self),
    {
        match self {
            Role::Root => String::from_str("root"),
            Role::Admin => String::from_str("admin"),
            Role::User => String::from_str("user"),
            Role::Dashboard => String::from_str("dashboard"),
        }
    }

    /// The role a name stands for, if any.
    pub fn from_name(s: &str) -> (r: Option<Role>)
        ensures
            r == role_named(s@),
    {
        if str_eq(s, "root") {
            Some(Role::Root)
        } else if str_eq(s, "admin") {
            Some(Role::Admin)
        } else if str_eq(s, "user") {
            Some(Role::User)
        } else if str_eq(s, "dashboard") {
            Some(Role::Dashboard)
        } else {
            None
        }
    }
}

/// Naming a role and reading the name back gives the role.
pub proof fn law_role_name_roundtrip(r: Role)
    ensures
        role_named(role_text(r)) == Some(r),
{
    reveal_strlit("root");
    reveal_strlit("admin");
    reveal_strlit("user");
    reveal_strlit("dashboard");
    assert("root"@.len() == 4);
    assert("admin"@.len() == 5);
    assert("user"@.len() == 4);
    assert("dashboard"@.len() == 9);
    assert("root"@[0] != "user"@[0]);
}

/// The names of `roles`, in order.
pub open spec fn role_texts(roles: Seq<Role>) -> Seq<Seq<char>> {
    Seq::new(roles.len(), |i: int| role_text(roles[i]))
}

/// The names of `roles`, in order.
pub fn role_names(roles: &Vec<Role>) -> (r: Vec<String>)
    ensures
        crate::text::views(r@) == role_texts(roles@),
{
    let mut out: Vec<String> = Vec::new();
    let mut i: usize = 0;
    while i < roles.len()
        invariant
            i <= roles@.len(),
            out@.len() == i,
            crate::text::views(out@) == role_texts(roles@).subrange(0, i as int),
        decreases roles@.len() - i,
    {
        let ghost before = out@;
        let name = roles[i].to_string();
        assert(name@ == role_text(roles@[i as int]));
        out.push(name);
        assert(out@ == before.push(name));
        assert forall|j: int| 0 <= j < i implies crate::text::views(out@)[j] == crate::text::views(before)[j] by {
            assert(out@[j] == before[j]);
        }
        assert(crate::text::views(out@) =~= role_texts(roles@).subrange(0, i + 1));
        i = i + 1;
    }
    assert(role_texts(roles@).subrange(0, i as int) =~= role_texts(roles@));
    out
}

/// A user account.
#[derive(Debug)]
pub struct User {
    pub id: i64,
    pub name: String,
    /// The PHC string of the password hash; empty for accounts without a password.
    pub password: String,
    pub roles: Vec<Role>,
    pub saved_places: Vec<i64>,
    pub saved_areas: Vec<i64>,
    /// The bech32 `npub1...` of the linked Nostr identity.
    pub npub: Option<String>,
    pub created_at: String,
    pub updated_at: String,
    pub deleted_at: Option<String>,
}

/// A Bearer token of a user.
#[derive(Debug)]
pub struct AccessToken {
    pub id: i64,
    pub user_id: i64,
    pub name: Option<String>,
    pub secret: String,
    pub roles: Vec<Role>,
    pub created_at: i128,
    pub updated_at: i128,
    pub deleted_at: Option<i128>,
}

} // verus!
