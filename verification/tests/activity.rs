use btcmap_api::rest::v4::activity::distinct_rows;
use btcmap_api::rest::error::RestApiErrorCode;
use btcmap_api::rest::v4::activity::{
    activity_period, area_refs, boost_in_period, boost_item, comment_item, element_filter,
    event_item, get_event_type, in_filter, keep_comment, parse_place_ids, sort_activity,
    uses_area_queries, validate_days, AreaMember,
};
use btcmap_api::dates::NANOS_PER_DAY;

#[test]
fn event_types_are_named_for_the_feed() {
    assert_eq!("place_added", get_event_type("create"));
    assert_eq!("place_updated", get_event_type("update"));
    assert_eq!("place_deleted", get_event_type("delete"));
    assert_eq!("", get_event_type("merge"));
}

#[test]
fn days_must_lie_in_range() {
    assert_eq!(1, validate_days(None).ok().unwrap());
    assert_eq!(3650, validate_days(Some(3650)).ok().unwrap());
    let e = validate_days(Some(0)).err().unwrap();
    assert_eq!(RestApiErrorCode::InvalidInput, e.code);
    assert_eq!("days must be between 1 and 3650", e.message);
    assert!(validate_days(Some(3651)).is_err());
}

#[test]
fn period_runs_from_days_ago_to_a_second_from_now() {
    let (start, end) = activity_period(10 * NANOS_PER_DAY, 7);
    assert_eq!(3 * NANOS_PER_DAY, start);
    assert_eq!(10 * NANOS_PER_DAY + 1_000_000_000, end);
}

#[test]
fn place_ids_are_read_trimmed_and_once() {
    let mut ids = parse_place_ids(" 1, 2 ,1,3").ok().unwrap();
    ids.sort();
    assert_eq!(vec![1, 2, 3], ids);
    let e = parse_place_ids("1,x").err().unwrap();
    assert_eq!("places must be a comma-separated list of integer place IDs", e.message);
    assert!(parse_place_ids("").is_err());
    let many = vec!["1"; 501].join(",");
    assert_eq!("places must contain at most 500 IDs", parse_place_ids(&many).err().unwrap().message);
}

#[test]
fn area_refs_prefer_the_list() {
    assert_eq!(vec!["a", "b"], area_refs(Some("x"), Some("a,b")));
    assert_eq!(vec!["x"], area_refs(Some("x"), None));
    assert!(area_refs(None, None).is_empty());
}

#[test]
fn filter_combines_live_members_and_places() {
    let members = vec![
        AreaMember { element_id: 10, deleted: false },
        AreaMember { element_id: 11, deleted: true },
    ];
    assert_eq!(None, element_filter(0, &vec![], &vec![]));
    let f = element_filter(1, &members, &vec![20]);
    assert!(in_filter(&f, 10));
    assert!(!in_filter(&f, 11));
    assert!(in_filter(&f, 20));
    assert!(in_filter(&None, 99));
    assert!(uses_area_queries(1, 0));
    assert!(!uses_area_queries(1, 1));
    assert!(keep_comment(&f, false, 10));
    assert!(!keep_comment(&f, true, 10));
}

#[test]
fn feed_entries_carry_tip_and_image() {
    let e = event_item("create", 5, "Cafe".into(), 7, "alice".into(), "tips: (lightning:alice@x.y) thanks", 100);
    assert_eq!("place_added", e.kind);
    assert_eq!(Some("lightning:alice@x.y".to_string()), e.osm_user_tip);
    assert_eq!("https://api.btcmap.org/og/element/5", e.image);
    let c = comment_item(5, "Cafe".into(), "nice".into(), 1);
    assert_eq!("place_commented", c.kind);
    let b = boost_item(5, 30, "Cafe".into(), 2);
    assert_eq!("place_boosted", b.kind);
    assert_eq!(Some(30), b.duration_days);
    assert!(boost_in_period(5, 5, 10));
    assert!(!boost_in_period(11, 5, 10));
}

#[test]
fn feed_is_newest_first_and_stable() {
    let items = vec![
        comment_item(1, "a".into(), "x".into(), 10),
        comment_item(2, "b".into(), "y".into(), 30),
        comment_item(3, "c".into(), "z".into(), 10),
    ];
    let sorted = sort_activity(items);
    let ids: Vec<i64> = sorted.iter().map(|i| i.place_id).collect();
    assert_eq!(vec![2, 1, 3], ids);
}

#[test]
fn rows_of_several_areas_are_kept_once() {
    assert_eq!(vec![0, 1, 3], distinct_rows(&vec![5, 7, 5, 9, 7]));
    assert_eq!(Vec::<usize>::new(), distinct_rows(&vec![]));
    assert_eq!(vec![0], distinct_rows(&vec![4, 4, 4]));
}
