use btcmap_api::rest::error::RestApiErrorCode;
use btcmap_api::rest::v4::search::{
    default_limit, has_next_page, merge_page, plan_search, search_response, SearchArgs, SearchKey,
    MAX_OFFSET,
};

#[test]
fn has_next_page_stops_at_the_offset_cap() {
    assert!(!has_next_page(MAX_OFFSET, 20, 25_000));
    assert!(!has_next_page(MAX_OFFSET - 10, 20, 25_000));
    assert!(has_next_page(MAX_OFFSET - 20, 20, 25_000));
    assert!(has_next_page(0, 20, 25_000));
    assert!(!has_next_page(0, 20, 15));
}

fn args(q: &str) -> SearchArgs {
    SearchArgs {
        q: q.to_string(),
        limit: default_limit(),
        offset: 0,
        has_lat: false,
        has_lon: false,
        type_filter: None,
    }
}

#[test]
fn rejects_short_and_empty_queries() {
    for q in ["ab", "", "  ab  "] {
        let e = plan_search(&args(q)).err().unwrap();
        assert_eq!(RestApiErrorCode::InvalidInput, e.code);
        assert_eq!("Search query must be at least 3 characters long", e.message);
    }
}

#[test]
fn rejects_unknown_type_filter_and_lone_coordinates() {
    let mut a = args("hamburg");
    a.type_filter = Some("element".to_string());
    assert_eq!("type_filter must be 'area' or 'place'", plan_search(&a).err().unwrap().message);
    let mut b = args("hamburg");
    b.has_lat = true;
    assert_eq!("lat and lon must be provided together", plan_search(&b).err().unwrap().message);
}

#[test]
fn plan_trims_and_clamps() {
    let mut a = args("  hamburg ");
    a.limit = 1000;
    a.offset = -5;
    a.type_filter = Some("place".to_string());
    let p = plan_search(&a).ok().unwrap();
    assert_eq!("hamburg", p.query);
    assert_eq!(100, p.limit);
    assert_eq!(0, p.offset);
    assert_eq!(100, p.row_limit);
    assert!(!p.want_area);
    assert!(p.want_place);
    let mut b = args("hamburg");
    b.limit = 0;
    b.offset = 20_000;
    let q = plan_search(&b).ok().unwrap();
    assert_eq!(1, q.limit);
    assert_eq!(10_000, q.offset);
    assert!(q.want_area && q.want_place);
}

fn key(rank: i64, kind: u8, distance: u64, name: &str, id: i64) -> SearchKey {
    SearchKey { rank, kind, distance, name: name.to_string(), id }
}

#[test]
fn areas_precede_places_at_equal_rank() {
    let keys = vec![key(1, 1, 0, "Hamburg", 1), key(1, 0, 0, "Hamburg", 1)];
    let page = merge_page(&keys, vec!["place", "area"], 0, 20);
    assert_eq!(vec!["area", "place"], page);
}

#[test]
fn nearer_place_wins_a_rank_tie() {
    let keys = vec![key(1, 1, 900, "Far", 1), key(1, 1, 100, "Near", 2)];
    let page = merge_page(&keys, vec!["Far", "Near"], 0, 20);
    assert_eq!(vec!["Near", "Far"], page);
}

#[test]
fn shorter_then_smaller_names_then_ids_break_ties() {
    let keys = vec![
        key(1, 1, 0, "Hamburger", 1),
        key(1, 1, 0, "Hamburg", 9),
        key(1, 1, 0, "Hamburg", 3),
        key(1, 1, 0, "Gamburg", 5),
        key(0, 1, 0, "Zzz", 4),
    ];
    let page = merge_page(&keys, vec![1, 9, 3, 5, 4], 0, 20);
    assert_eq!(vec![4, 5, 3, 9, 1], page);
}

#[test]
fn pagination_covers_every_row_exactly_once() {
    let keys: Vec<SearchKey> = (1..=5).rev().map(|id| key(1, 1, 0, "Hamburg", id)).collect();
    let mut seen = Vec::new();
    for offset in 0..5 {
        let ids: Vec<i64> = (1..=5).rev().collect();
        let page = merge_page(&keys, ids, offset, 1);
        assert_eq!(1, page.len());
        seen.push(page[0]);
    }
    assert_eq!(vec![1, 2, 3, 4, 5], seen);
    assert!(merge_page(&keys, (1..=5).collect(), 5, 1).is_empty());
}

#[test]
fn response_reports_total_and_next_page() {
    let p = plan_search(&SearchArgs {
        q: "hamburg".to_string(),
        limit: 2,
        offset: 0,
        has_lat: false,
        has_lon: false,
        type_filter: None,
    })
    .ok()
    .unwrap();
    let keys: Vec<SearchKey> = (1..=5).map(|id| key(1, 1, 0, "Hamburg", id)).collect();
    let r = search_response(p, &keys, (1..=5).collect(), Some(2), Some(3));
    assert_eq!(vec![1, 2], r.results);
    assert_eq!(5, r.total_count);
    assert!(r.has_more);
    assert_eq!("hamburg", r.query);
    assert_eq!(5, r.pagination.total);
    let last = plan_search(&SearchArgs {
        q: "hamburg".to_string(),
        limit: 2,
        offset: 4,
        has_lat: false,
        has_lon: false,
        type_filter: None,
    })
    .ok()
    .unwrap();
    let r = search_response(last, &keys, (1..=5).collect(), None, Some(5));
    assert_eq!(vec![5], r.results);
    assert!(!r.has_more);
}

#[test]
fn pages_read_from_each_sides_top_rows_match_the_full_merge() {
    // Areas and places, each listed in the order its own query returns them.
    let areas = vec![key(1, 0, 0, "aa", 3), key(2, 0, 0, "bb", 1), key(4, 0, 0, "cc", 2)];
    let places = vec![key(1, 1, 5, "x", 7), key(1, 1, 9, "y", 8), key(3, 1, 0, "z", 9), key(5, 1, 0, "w", 6)];
    let all_keys: Vec<SearchKey> = areas.iter().chain(places.iter()).map(|k| key(k.rank, k.kind, k.distance, &k.name, k.id)).collect();
    let all_ids: Vec<i64> = all_keys.iter().map(|k| k.id).collect();
    let n = all_ids.len() as i64;
    let full: Vec<i64> = merge_page(&all_keys, all_ids.clone(), 0, n);
    let mut seen = Vec::new();
    for offset in 0..n {
        let read = (offset + 1) as usize;
        let keys: Vec<SearchKey> = areas.iter().take(read).chain(places.iter().take(read)).map(|k| key(k.rank, k.kind, k.distance, &k.name, k.id)).collect();
        let ids: Vec<i64> = keys.iter().map(|k| k.id).collect();
        let page = merge_page(&keys, ids, offset, 1);
        assert_eq!(merge_page(&all_keys, all_ids.clone(), offset, 1), page);
        seen.extend(page);
    }
    assert_eq!(full, seen);
    assert_eq!(vec![3, 7, 8, 1, 9, 2, 6], full);
}
