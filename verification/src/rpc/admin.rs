//! Granting and revoking roles by RPC.

use vstd::prelude::*;
use crate::ids::{added, differs_from, removed};
use crate::model::{role_names, role_texts, Role};
use crate::text::{str_eq, views};

verus! {

/// Whether `roles` holds `r`.
pub fn has_role(roles: &Vec<Role>, r: Role) -> (b: bool)
    ensures
        b == roles@.contains(r),
{
    let mut i: usize = 0;
    while i < roles.len()
        invariant
            i <= roles@.len(),
            forall|j: int| 0 <= j < i ==> roles@[j] != r,
        decreases roles@.len() - i,
    {
        if roles[i] == r {
            return true;
        }
        i = i + 1;
    }
    false
}

/// The roles of a user after granting `r`: appended when not yet held.
pub fn grant_role(roles: Vec<Role>, r: Role) -> (out: Vec<Role>)
    ensures
        out@ == added(roles@, r),
{
    let mut roles = roles;
    if !has_role(&roles, r) {
        roles.push(r);
    }
    roles
}

/// The roles of a user after revoking `r`: every grant of it goes, the
/// others keep their order.
pub fn revoke_role(roles: Vec<Role>, r: Role) -> (out: Vec<Role>)
    ensures
        out@ == removed(roles@, r),
{
    let mut out: Vec<Role> = Vec::new();
    let mut i: usize = 0;
    assert(roles@.subrange(0, 0) =~= Seq::<Role>::empty());
    while i < roles.len()
        invariant
            i <= roles@.len(),
            out@ == roles@.subrange(0, i as int).filter(differs_from(r)),
        decreases roles@.len() - i,
    {
        let x = roles[i];
        proof {
            reveal_with_fuel(Seq::filter, 1);
            assert(roles@.subrange(0, i + 1).drop_last() =~= roles@.subrange(0, i as int));
        }
        if x != r {
            out.push(x);
        }
        i = i + 1;
    }
    assert(roles@.subrange(0, i as int) =~= roles@);
    out
}

/// A user's roles as reported.
pub struct RolesRes {
    pub name: String,
    pub allowed_actions: Vec<String>,
}

/// The answer to a role change: the user's name and the names of its roles.
pub fn roles_res(name: String, roles: &Vec<Role>) -> (r: RolesRes)
    ensures
        r.name == name,
        views(r.allowed_actions@) == role_texts(roles@),
{
    RolesRes { name, allowed_actions: role_names(roles) }
}

/// Whether `actions` lists `action`.
pub fn lists_action(actions: &Vec<String>, action: &str) -> (b: bool)
    ensures
        b == views(actions@).contains(action@),
{
    let mut i: usize = 0;
    while i < actions.len()
        invariant
            i <= actions@.len(),
            forall|j: int| 0 <= j < i ==> actions@[j]@ != action@,
        decreases actions@.len() - i,
    {
        if str_eq(actions[i].as_str(), action) {
            assert(views(actions@)[i as int] == action@);
            return true;
        }
        i = i + 1;
    }
    proof {
        if views(actions@).contains(action@) {
            let k = choose|k: int| 0 <= k < views(actions@).len() && views(actions@)[k] == action@;
            assert(actions@[k]@ == action@);
        }
    }
    false
}

/// The allowed actions of an admin after allowing `action`: appended when
/// not yet listed.
pub fn allow_action(actions: Vec<String>, action: String) -> (r: Vec<String>)
    ensures
        views(r@) == added(views(actions@), action@),
{
    let mut actions = actions;
    if !lists_action(&actions, action.as_str()) {
        let ghost before = actions@;
        actions.push(action);
        proof {
            assert(views(actions@) =~= views(before).push(action@));
        }
    }
    actions
}

} // verus!
