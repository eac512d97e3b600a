use btcmap_api::model::{AccessToken, Role, User};
use btcmap_api::passwords::PasswordCheck;
use btcmap_api::rest::v4::users::new_password_hash;
use btcmap_api::rpc::auth::{
    api_key_res, change_password_outcome, check_password_length, check_signin, key_res,
    parse_and_validate_token_roles, revoke_step, signup_insert_error, whoami, RevokeStep,
};

fn token(id: i64, name: Option<&str>, roles: Vec<Role>, deleted_at: Option<i128>) -> AccessToken {
    AccessToken {
        id,
        user_id: 1,
        name: name.map(|s| s.to_string()),
        secret: "secret".to_string(),
        roles,
        created_at: 0,
        updated_at: 0,
        deleted_at,
    }
}

#[test]
fn from_access_token_info() {
    let res = api_key_res(&token(42, Some("my laptop"), vec![Role::User], None));
    assert_eq!(res.id, 42);
    assert_eq!(res.label.as_deref(), Some("my laptop"));
    assert_eq!(res.roles, vec!["user".to_string()]);
}

#[test]
fn from_access_token_info_without_name() {
    let res = api_key_res(&token(7, None, vec![], None));
    assert_eq!(res.label, None);
    assert!(res.roles.is_empty());
}

#[test]
fn from_access_token_info_with_admin_roles() {
    let res = api_key_res(&token(99, Some("ops"), vec![Role::Admin, Role::User], None));
    assert_eq!(res.roles, vec!["admin".to_string(), "user".to_string()]);
}

#[test]
fn revoke_api_key_from_access_token_marks_revoked_when_deleted_at_present() {
    let res = key_res(token(5, Some("laptop"), vec![], Some(0)));
    assert_eq!(res.id, 5);
    assert_eq!(res.label.as_deref(), Some("laptop"));
    assert!(res.revoked_at.is_some());
}

#[test]
fn revoke_api_key_from_access_token_marks_not_revoked_when_deleted_at_absent() {
    let res = key_res(token(5, Some("laptop"), vec![], None));
    assert_eq!(res.label.as_deref(), Some("laptop"));
    assert!(res.revoked_at.is_none());
}

#[test]
fn signout_from_access_token_marks_revoked_when_deleted_at_present() {
    let res = key_res(token(5, Some("laptop"), vec![], Some(0)));
    assert_eq!(res.id, 5);
    assert_eq!(res.label.as_deref(), Some("laptop"));
    assert!(res.revoked_at.is_some());
}

#[test]
fn signout_from_access_token_marks_not_revoked_when_deleted_at_absent() {
    let res = key_res(token(5, Some("laptop"), vec![], None));
    assert_eq!(res.id, 5);
    assert_eq!(res.label.as_deref(), Some("laptop"));
    assert!(res.revoked_at.is_none());
}

#[test]
fn revocation_refuses_foreign_keys_and_keeps_revoked_ones() {
    assert_eq!(RevokeStep::Refuse, revoke_step(2, 1, false));
    assert_eq!(RevokeStep::Unchanged, revoke_step(1, 1, true));
    assert_eq!(RevokeStep::Revoke, revoke_step(1, 1, false));
}

#[test]
fn invalid_role_string_is_rejected() {
    let err = parse_and_validate_token_roles(&vec!["superuser".to_string()], true).unwrap_err();
    assert_eq!("'superuser' is not a valid Role", err);
}

#[test]
fn regular_user_cannot_mint_admin_token() {
    let err = parse_and_validate_token_roles(&vec!["admin".to_string()], false).unwrap_err();
    assert_eq!("Requested token roles exceed the scope of the user record", err);
}

#[test]
fn omitted_roles_are_always_accepted() {
    assert_eq!(Vec::<Role>::new(), parse_and_validate_token_roles(&vec![], false).unwrap());
    assert_eq!(
        vec![Role::Dashboard],
        parse_and_validate_token_roles(&vec!["dashboard".to_string()], true).unwrap()
    );
}

#[test]
fn signin_masks_every_failure_alike() {
    let hash = new_password_hash("ihsotasatoshi123").ok().unwrap();
    assert!(check_signin(Some(&hash), "ihsotasatoshi123").is_ok());
    assert_eq!("Invalid credentials", check_signin(Some(&hash), "wrong-password").unwrap_err());
    assert_eq!("Invalid credentials", check_signin(None, "ihsotasatoshi123").unwrap_err());
    assert_eq!("Invalid credentials", check_signin(Some("not a hash"), "x").unwrap_err());
}

#[test]
fn password_change_messages() {
    assert!(change_password_outcome(true, PasswordCheck::Matches).is_ok());
    assert_eq!(
        "Incorrect username or password",
        change_password_outcome(false, PasswordCheck::Matches).unwrap_err()
    );
    assert_eq!(
        "Incorrect username or password",
        change_password_outcome(true, PasswordCheck::Mismatch).unwrap_err()
    );
    assert_eq!(
        "Unexpected error, please contact administrator",
        change_password_outcome(true, PasswordCheck::MalformedHash).unwrap_err()
    );
}

#[test]
fn password_length_bounds() {
    assert_eq!(
        Some("New password is too short, use at least 10 chars".to_string()),
        check_password_length("short", 10, 64, true)
    );
    assert_eq!(
        Some("Password is too long, use at most 8 chars".to_string()),
        check_password_length("ihsotasatoshi123", 4, 8, false)
    );
    assert_eq!(None, check_password_length("ihsotasatoshi123", 10, 64, false));
}

#[test]
fn duplicate_username_message() {
    assert_eq!("Username already taken", signup_insert_error(true));
    assert_eq!("Unexpected error, please contact administrator", signup_insert_error(false));
}

fn user(created_at: &str) -> User {
    User {
        id: 1,
        name: "satoshi".to_string(),
        password: String::new(),
        roles: vec![Role::User],
        saved_places: vec![],
        saved_areas: vec![],
        npub: None,
        created_at: created_at.to_string(),
        updated_at: String::new(),
        deleted_at: None,
    }
}

#[test]
fn whoami_reads_creation_time() {
    let w = whoami(&user("1970-01-02T00:00:00Z")).unwrap();
    assert_eq!("satoshi", w.name);
    assert_eq!(vec!["user".to_string()], w.roles);
    assert_eq!(86_400_000_000_000, w.created_at);
    assert!(whoami(&user("yesterday")).is_none());
}
