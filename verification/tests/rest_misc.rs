use btcmap_api::rest::v4::users::new_user_name;
use btcmap_api::model::{Role, User};
use btcmap_api::passwords::PasswordCheck;
use btcmap_api::rest::auth::{bearer_token, Auth};
use btcmap_api::rest::error::{RestApiError, RestApiErrorCode};
use btcmap_api::rest::nostr_auth::{signed_url, ApiBaseUrl};
use btcmap_api::rest::v3::sync::{
    area_element_item, comment_item, deleted_at_text, issues_updated_since, report_item,
    users_redirect, ISSUES_SINCE_DEFAULT,
};
use btcmap_api::rest::v4::events::{area_events, event_window, upcoming, EventTiming, DEFAULT_WINDOW_END};
use btcmap_api::rest::v4::nostr::{insert_outcome, is_unique_violation_on, recover_step, DbFailure, InsertOutcome, RecoverStep};
use btcmap_api::rest::v4::place_boosts::{boost_invoice_description, parse_boost_description};
use btcmap_api::rest::v4::place_comments::{check_comment, comment_invoice_description, default_limit};
use btcmap_api::rest::v4::places::{
    localized_names, merge_by_update, name_matches, pending_origin, pending_place_id,
    place_search_plan, requested_fields,
};
use btcmap_api::rest::v4::top_editors::{area_period, parse_date, ranking_limits, top_editors, EditorRow};
use btcmap_api::rest::v4::users::{
    check_credentials, check_npub_link, credential_outcome, me_response, new_password_hash,
    npub_write_error, token_label, token_password,
};

#[test]
fn error_codes_map_to_statuses() {
    assert_eq!(404, RestApiError::not_found().status_code());
    assert_eq!(500, RestApiError::database().status_code());
    assert_eq!(400, RestApiError::invalid_input("x").status_code());
    assert_eq!(401, RestApiError::unauthorized().status_code());
    assert_eq!("not_found: Entity with requested ID doesn't exist.", RestApiError::not_found().to_string());
    assert_eq!(RestApiErrorCode::NotFound, RestApiError::lookup_failed(true).code);
    assert_eq!(RestApiErrorCode::Database, RestApiError::lookup_failed(false).code);
}

#[test]
fn bearer_tokens_need_the_prefix() {
    assert_eq!(Some("abc".to_string()), bearer_token(Some("Bearer abc")));
    assert_eq!(None, bearer_token(Some("Basic abc")));
    assert_eq!(None, bearer_token(None));
    assert!(Auth::resolved(None, None).user.is_none());
}

#[test]
fn signed_url_drops_trailing_slashes_of_the_base() {
    let base = ApiBaseUrl("https://api.btcmap.org//".to_string());
    assert_eq!("https://api.btcmap.org/v4/auth/nostr?x=1", signed_url(&base, Some("/v4/auth/nostr?x=1"), "/v4/auth/nostr"));
    assert_eq!("https://api.btcmap.org/v4/auth/nostr", signed_url(&base, None, "/v4/auth/nostr"));
}

#[test]
fn tombstones_hide_everything_but_ids_and_times() {
    let live = area_element_item(1, 2, 3, 10, None);
    assert_eq!((Some(2), Some(3)), (live.area_id, live.element_id));
    let gone = area_element_item(1, 2, 3, 10, Some(11));
    assert_eq!((None, None), (gone.area_id, gone.element_id));
    let c = comment_item(1, 2, "hi".to_string(), 5, 6, Some(7));
    assert_eq!((None, None, None), (c.element_id, c.comment, c.created_at));
    let r = report_item(1, 662, "2024-01-01".to_string(), 9u8, true, 5, None);
    assert_eq!(None, r.tags);
    assert_eq!(Some("2024-01-01".to_string()), r.date);
    assert!(users_redirect(None, None));
    assert!(!users_redirect(Some(5), None));
}

#[test]
fn events_window_and_listing() {
    assert!(upcoming(EventTiming { deleted: false, starts_at: None }, 5));
    assert!(!upcoming(EventTiming { deleted: false, starts_at: Some(5) }, 5));
    assert!(!upcoming(EventTiming { deleted: true, starts_at: Some(9) }, 5));
    assert_eq!((7, DEFAULT_WINDOW_END), event_window(None, None, 7).ok().unwrap());
    assert_eq!("Invalid 'from' date", event_window(Some("nope"), None, 7).err().unwrap().message);
    assert_eq!("Invalid 'to' date", event_window(None, Some("nope"), 7).err().unwrap().message);
    let (from, _) = event_window(Some("1970-01-01T00:00:01Z"), None, 7).ok().unwrap();
    assert_eq!(1_000_000_000, from);
    let timings = vec![
        EventTiming { deleted: false, starts_at: Some(5) },
        EventTiming { deleted: true, starts_at: Some(5) },
        EventTiming { deleted: false, starts_at: Some(50) },
        EventTiming { deleted: false, starts_at: None },
        EventTiming { deleted: false, starts_at: None },
    ];
    let kept = area_events(&timings, &vec![true, true, true, true, false], 0, 10);
    assert_eq!(vec![0, 3], kept);
}

#[test]
fn nostr_insert_failures_are_read_by_constraint() {
    let npub = DbFailure { constraint_violation: true, message: Some("UNIQUE constraint failed: user.npub".to_string()) };
    let name = DbFailure { constraint_violation: true, message: Some("UNIQUE constraint failed: user.name".to_string()) };
    let other = DbFailure { constraint_violation: false, message: Some("user.npub".to_string()) };
    assert!(is_unique_violation_on(&npub, "user.npub"));
    assert!(!is_unique_violation_on(&other, "user.npub"));
    assert_eq!(InsertOutcome::NpubTaken, insert_outcome(&npub));
    assert_eq!(InsertOutcome::NameTaken, insert_outcome(&name));
    assert_eq!(InsertOutcome::Failed, insert_outcome(&other));
    assert_eq!(RecoverStep::Retry, recover_step(0, InsertOutcome::NameTaken));
    assert_eq!(RecoverStep::GiveUp, recover_step(4, InsertOutcome::NameTaken));
    assert_eq!(RecoverStep::Reselect, recover_step(4, InsertOutcome::NpubTaken));
    assert_eq!(RecoverStep::Done, recover_step(2, InsertOutcome::Inserted));
}

#[test]
fn boost_descriptions_read_back() {
    let d = boost_invoice_description(42, 90);
    assert_eq!("element_boost:42:90", d);
    assert_eq!(Some((42, 90)), parse_boost_description(&d));
    assert_eq!(None, parse_boost_description("element_comment:1:publish"));
}

#[test]
fn comments_must_not_be_blank() {
    assert_eq!("Comment cannot be empty", check_comment(" \n").unwrap_err().message);
    assert!(check_comment("great coffee").is_ok());
    assert_eq!("element_comment:-3:publish", comment_invoice_description(-3));
    assert_eq!(i64::MAX, default_limit());
}

#[test]
fn places_plan_and_merge() {
    let p = place_search_plan(true, "cafe", "", "");
    assert!(p.name_query && !p.name_filter && !p.bbox_query);
    let q = place_search_plan(false, "cafe", "amenity", "cafe");
    assert!(q.bbox_query && q.name_filter && q.tag_filter && !q.tag_query);
    let t = place_search_plan(true, "", "payment:lightning:operator", "square");
    assert!(t.tag_query);
    assert_eq!(Some("square"), pending_origin("payment:lightning:operator", "square"));
    assert_eq!(None, pending_origin("payment:lightning:operator", "other"));
    assert_eq!(100_000_007, pending_place_id(7, None));
    assert_eq!(7, pending_place_id(7, Some(false)));
    assert!(name_matches("Satoshi's CAFE", "cafe"));
    assert!(!name_matches("Satoshi's CAFE", "CAFE"));
    assert_eq!(vec!["name", "lat"], requested_fields(Some("name,lat")));
    assert_eq!(vec![""], requested_fields(None));
    let merged = merge_by_update(vec!["e1", "e2", "s1"], &vec![30, 10, 10], Some(2));
    assert_eq!(vec!["e2", "s1"], merged);
    assert_eq!(3, merge_by_update(vec![1, 2, 3], &vec![1, 2, 3], Some(-1)).len());
}

#[test]
fn localized_names_keep_two_byte_codes() {
    let tags = vec![
        ("name".to_string(), Some("Cafe".to_string())),
        ("name:de".to_string(), Some("Kaffee".to_string())),
        ("name:ab".to_string(), None),
        ("name:zh-Hant".to_string(), Some("咖啡".to_string())),
        ("name:é".to_string(), Some("x".to_string())),
    ];
    let names = localized_names(&tags).unwrap();
    assert_eq!(vec![("de".to_string(), "Kaffee".to_string()), ("é".to_string(), "x".to_string())], names);
    assert_eq!(None, localized_names(&vec![]));
}

#[test]
fn period_end_is_the_next_midnight() {
    assert_eq!(0, parse_date("1970-01-01", true).ok().unwrap());
    assert_eq!(86_400_000_000_000, parse_date("1970-01-01", false).ok().unwrap());
    assert_eq!("Invalid date format", parse_date("2024-13-01", true).err().unwrap().message);
    assert_eq!((100, 107), ranking_limits(None));
}

fn editor(id: i64, description: &str) -> EditorRow {
    EditorRow {
        id,
        name: format!("user{id}"),
        image_url: None,
        edits: 3,
        created: 1,
        updated: 1,
        deleted: 1,
        description: description.to_string(),
    }
}

#[test]
fn top_editors_take_the_limit_and_tips() {
    let rows = vec![editor(1, "(lightning:a@b.c)"), editor(2, ""), editor(3, "")];
    let top = top_editors(rows, 2);
    assert_eq!(2, top.len());
    assert_eq!(Some("lightning:a@b.c".to_string()), top[0].tip_url);
    assert_eq!(3, top_editors(vec![editor(1, ""), editor(2, ""), editor(3, "")], -1).len());
}

fn user() -> User {
    User {
        id: 1,
        name: "satoshi".to_string(),
        password: String::new(),
        roles: vec![Role::Admin, Role::User],
        saved_places: vec![],
        saved_areas: vec![],
        npub: Some("npub1xyz".to_string()),
        created_at: String::new(),
        updated_at: String::new(),
        deleted_at: None,
    }
}

#[test]
fn users_credentials_and_profile() {
    assert_eq!(RestApiErrorCode::Unauthorized, check_credentials("", "x").unwrap_err().code);
    assert_eq!("Invalid password hash", check_credentials("not-phc", "x").unwrap_err().message);
    let hash = new_password_hash("correct horse").ok().unwrap();
    assert!(check_credentials(&hash, "correct horse").is_ok());
    assert_eq!("Invalid credentials", check_credentials(&hash, "wrong").unwrap_err().message);
    assert_eq!(RestApiErrorCode::Unauthorized, credential_outcome(true, PasswordCheck::Matches).unwrap_err().code);
    assert_eq!("pw", token_password(Some("Bearer pw")).ok().unwrap());
    assert!(token_password(Some("pw")).is_err());
    assert_eq!("", token_label(None));
    let me = me_response(user(), vec![], vec![]);
    assert_eq!(vec!["admin".to_string(), "user".to_string()], me.roles);
    assert_eq!(Some("npub1xyz".to_string()), me.npub);
    assert!(check_npub_link(1, Some(1)).is_ok());
    assert!(check_npub_link(1, None).is_ok());
    assert_eq!("npub already linked to another account", check_npub_link(1, Some(2)).unwrap_err().message);
    assert_eq!(RestApiErrorCode::Database, npub_write_error(false).code);
}

#[test]
fn minted_tokens_carry_a_fresh_uuid_and_no_roles() {
    let a = btcmap_api::rest::v4::users::new_access_token(3, None);
    let b = btcmap_api::rest::v4::users::new_access_token(3, Some("cli".to_string()));
    assert_eq!(36, a.secret.len());
    assert_ne!(a.secret, b.secret);
    assert_eq!("", a.label);
    assert_eq!("cli", b.label);
    assert!(a.roles.is_empty());
}

#[test]
fn deleted_users_show_their_deletion_time() {
    assert_eq!("", deleted_at_text(None));
    assert_eq!("1970-01-01T00:00:01Z", deleted_at_text(Some(1_000_000_000)));
    assert_eq!(ISSUES_SINCE_DEFAULT, issues_updated_since(None));
    assert_eq!(5, issues_updated_since(Some(5)));
}

#[test]
fn new_user_keeps_given_name_or_gets_a_numbered_one() {
    assert_eq!("alice", new_user_name(Some("alice".to_string())));
    let generated: Vec<char> = new_user_name(None).chars().collect();
    let n = generated.len();
    assert!(n >= 10);
    assert_eq!('-', generated[n - 5]);
    assert!(generated[n - 4..].iter().all(|c| c.is_ascii_digit()));
    assert!(generated[..n - 5].iter().all(|c| c.is_ascii_lowercase() || *c == '-'));
}

#[test]
fn area_ranking_period_defaults_to_epoch_and_open_end() {
    let day: i128 = 86_400_000_000_000;
    assert_eq!((0, 42), area_period(None, None, 42).unwrap());
    let (start, end) = area_period(Some("1970-01-02"), Some("1970-01-03"), 42).unwrap();
    assert_eq!((day, 3 * day), (start, end));
    assert_eq!(RestApiErrorCode::InvalidInput, area_period(Some("bad"), None, 42).unwrap_err().code);
    assert_eq!(RestApiErrorCode::InvalidInput, area_period(None, Some("bad"), 42).unwrap_err().code);
}
