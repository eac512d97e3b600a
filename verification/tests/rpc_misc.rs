use btcmap_api::dates::LocalTime;
use btcmap_api::model::Role;
use btcmap_api::rpc::admin::{allow_action, grant_role, revoke_role};
use btcmap_api::rpc::boost::{boost_expires_tag, extend_boost, BoostTagError};
use btcmap_api::rpc::electrum::{
    apply_deleted_at, listed_servers, record_ping, unpinged, ElectrumServer,
};

const DAY: i128 = 86_400_000_000_000;

#[test]
fn roles_are_granted_once_and_revoked_fully() {
    let roles = grant_role(vec![Role::User], Role::Admin);
    assert_eq!(vec![Role::User, Role::Admin], roles);
    assert_eq!(roles.clone(), grant_role(roles.clone(), Role::Admin));
    assert_eq!(vec![Role::User], revoke_role(vec![Role::Admin, Role::User, Role::Admin], Role::Admin));
    let actions = allow_action(vec!["a".to_string()], "b".to_string());
    assert_eq!(vec!["a".to_string(), "b".to_string()], allow_action(actions, "a".to_string()));
}

#[test]
fn boosts_extend_from_the_later_of_expiry_and_now() {
    let now = 100 * DAY;
    let later = LocalTime { local_nanos: 200 * DAY, offset_seconds: 0 };
    assert_eq!(230 * DAY, extend_boost(Some(later), now, 30).local_nanos);
    let past = LocalTime { local_nanos: 50 * DAY, offset_seconds: 0 };
    assert_eq!(130 * DAY, extend_boost(Some(past), now, 30).local_nanos);
    assert_eq!(130 * DAY, extend_boost(None, now, 30).local_nanos);
}

#[test]
fn boost_tag_is_read_and_written_as_iso8601() {
    let tag = boost_expires_tag(Some("2100-01-01T00:00:00.000000000Z"), 0, 1).unwrap();
    assert!(tag.contains("2100-01-02T00:00:00"));
    let fresh = boost_expires_tag(Some("garbage"), 0, 1).unwrap();
    assert!(fresh.contains("1970-01-02T00:00:00"));
}

#[test]
fn boost_beyond_year_9999_is_out_of_range() {
    assert_eq!(Err(BoostTagError::OutOfRange), boost_expires_tag(None, 0, 10_000_000));
}

#[test]
fn boost_before_year_0000_cannot_be_written() {
    let year_minus_1200: i128 = -100_000_000_000_000_000_000;
    assert_eq!(Err(BoostTagError::NotFormattable), boost_expires_tag(None, year_minus_1200, 1));
}

fn server(id: i64, deleted_at: Option<i128>) -> ElectrumServer {
    ElectrumServer {
        id,
        name: format!("s{id}"),
        url: "ssl://example:50002".to_string(),
        priority: 0,
        spki_pin: String::new(),
        created_at: 0,
        updated_at: 0,
        deleted_at,
    }
}

#[test]
fn servers_listing_and_deletion_field() {
    let listed = listed_servers(vec![server(1, None), server(2, Some(5)), server(3, None)], None);
    assert_eq!(vec![1, 3], listed.iter().map(|s| s.id).collect::<Vec<_>>());
    assert_eq!(3, listed_servers(vec![server(1, None), server(2, Some(5)), server(3, None)], Some(true)).len());
    assert_eq!(Some(5), apply_deleted_at(Some(5), None));
    assert_eq!(None, apply_deleted_at(Some(5), Some(None)));
    assert_eq!(Some(9), apply_deleted_at(None, Some(Some(9))));
}

#[test]
fn pings_are_recorded_on_the_first_match() {
    let mut results = vec![unpinged(server(1, None)), unpinged(server(2, None))];
    record_ping(&mut results, 2, Ok(15));
    record_ping(&mut results, 1, Err("timeout".to_string()));
    record_ping(&mut results, 9, Ok(1));
    assert!(results[1].ok);
    assert_eq!(Some(15), results[1].latency_ms);
    assert!(!results[0].ok);
    assert_eq!(Some("timeout".to_string()), results[0].error);
}
