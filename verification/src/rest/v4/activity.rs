//! The activity feed (`GET /v4/activity`): which places it covers, which
//! events, comments and boosts of the period it lists, and in what order.

use vstd::prelude::*;
use crate::dates::{parse_rfc3339, spec_parse_rfc3339, NANOS_PER_DAY};
use crate::rest::error::{RestApiError, RestApiErrorCode};
use crate::ids::contains_id;
use crate::order::{apply_order, is_stable_order, lemma_stable_order_is_permutation, stable_order};
use crate::text::{opt_view, int_text, parse_i64, parse_i64_spec, push_int, split_char, split_on, trim, trimmed, views};
use crate::tips::{extract_tip_url, first_tip};

verus! {

/// The longest period the feed covers, in days.
pub const MAX_DAYS: i64 = 3650;

/// The most place IDs that one request may name.
pub const MAX_PLACES: usize = 500;

/// Nanoseconds in a second.
pub const NANOS_PER_SECOND: i128 = 1_000_000_000;

/// The arguments of the feed.
#[derive(Debug)]
pub struct GetActivityArgs {
    pub days: Option<i64>,
    /// One area, by ID or alias; ignored when `areas` is given.
    pub area: Option<String>,
    /// Comma-separated areas, by ID or alias.
    pub areas: Option<String>,
    /// Comma-separated place IDs.
    pub places: Option<String>,
}

/// The areas a feed asks for, by ID or alias: the pieces of `areas` when it
/// is given, else `area` alone, else none.
pub open spec fn area_refs_spec(area: Option<Seq<char>>, areas: Option<Seq<char>>) -> Seq<Seq<char>> {
    match areas {
        Some(a) => split_on(a, ','),
        None => match area {
            Some(one) => seq![one],
            None => Seq::empty(),
        },
    }
}

/// Lists the areas a feed asks for.
pub fn area_refs(area: Option<&str>, areas: Option<&str>) -> (r: Vec<String>)
    ensures
        views(r@) == area_refs_spec(
            match area {
                Some(a) => Some(a@),
                None => None,
            },
            match areas {
                Some(a) => Some(a@),
                None => None,
            },
        ),
{
    match areas {
        Some(a) => split_char(a, ','),
        None => match area {
            Some(one) => {
                let mut v: Vec<String> = Vec::new();
                v.push(String::from_str(one));
                assert(views(v@) =~= seq![one@]);
                v
            },
            None => {
                let v: Vec<String> = Vec::new();
                assert(views(v@) =~= Seq::<Seq<char>>::empty());
                v
            },
        },
    }
}

/// The feed type of a place event of kind `t`.
pub open spec fn event_type_text(t: Seq<char>) -> Seq<char> {
    if t == "create"@ {
        "place_added"@
    } else if t == "update"@ {
        "place_updated"@
    } else if t == "delete"@ {
        "place_deleted"@
    } else {
        Seq::<char>::empty()
    }
}

/// The feed type of a place event: `create`, `update` and `delete` become
/// `place_added`, `place_updated` and `place_deleted`; anything else is empty.
pub fn get_event_type(t: &str) -> (r: String)
    ensures
        r@ == event_type_text(t@),
{
    if crate::text::str_eq(t, "create") {
        String::from_str("place_added")
    } else if crate::text::str_eq(t, "update") {
        String::from_str("place_updated")
    } else if crate::text::str_eq(t, "delete") {
        String::from_str("place_deleted")
    } else {
        String::new()
    }
}

/// The requested period in days: one day when none is given.
pub open spec fn requested_days(days: Option<i64>) -> i64 {
    match days {
        Some(d) => d,
        None => 1,
    }
}

/// Checks the `days` argument: it must lie in `1..=MAX_DAYS`.
pub fn validate_days(days: Option<i64>) -> (r: Result<i64, RestApiError>)
    ensures
        r is Ok <==> 1 <= requested_days(days) <= MAX_DAYS,
        r matches Ok(d) ==> d == requested_days(days),
        r matches Err(e) ==> e.code == RestApiErrorCode::InvalidInput && e.message@
            == "days must be between 1 and 3650"@,
{
    let d = match days {
        Some(d) => d,
        None => 1,
    };
    if d < 1 || d > MAX_DAYS {
        return Err(RestApiError::invalid_input("days must be between 1 and 3650"));
    }
    Ok(d)
}

/// The period `[start, end]` of a feed over `days` days ending at `now`:
/// it starts `days` days before `now` and ends one second after it.
pub fn activity_period(now: i128, days: i64) -> (r: (i128, i128))
    requires
        1 <= days <= MAX_DAYS,
        -0x1000_0000_0000_0000_0000_0000 <= now <= 0x1000_0000_0000_0000_0000_0000,
    ensures
        r.0 == now - days * NANOS_PER_DAY,
        r.1 == now + NANOS_PER_SECOND,
{
    (now - (days as i128) * NANOS_PER_DAY, now + NANOS_PER_SECOND)
}

/// The place ID that a piece of the `places` list names, if it is one.
pub open spec fn piece_id(p: Seq<char>) -> Option<i64> {
    parse_i64_spec(trimmed(p))
}

/// Every comma-separated piece of the list names a place ID.
pub open spec fn all_pieces_are_ids(ps: Seq<Seq<char>>) -> bool {
    forall|i: int| 0 <= i < ps.len() ==> (#[trigger] piece_id(ps[i])) is Some
}

/// The IDs that the pieces name.
pub open spec fn listed_ids(ps: Seq<Seq<char>>) -> Set<i64> {
    Set::new(|x: i64| exists|i: int| 0 <= i < ps.len() && #[trigger] piece_id(ps[i]) == Some(x))
}

/// The IDs that the first `k` pieces name.
pub open spec fn ids_upto(ps: Seq<Seq<char>>, k: int) -> Set<i64> {
    Set::new(|x: i64| exists|j: int| 0 <= j < k && #[trigger] piece_id(ps[j]) == Some(x))
}

proof fn lemma_ids_upto_step(ps: Seq<Seq<char>>, k: int, x: i64)
    requires
        0 <= k < ps.len(),
        piece_id(ps[k]) == Some(x),
    ensures
        ids_upto(ps, k + 1) == ids_upto(ps, k).insert(x),
{
    assert forall|y: i64| ids_upto(ps, k + 1).contains(y) == ids_upto(ps, k).insert(x).contains(y) by {
        if ids_upto(ps, k + 1).contains(y) {
            let j = choose|j: int| 0 <= j < k + 1 && #[trigger] piece_id(ps[j]) == Some(y);
            if j < k {
                assert(ids_upto(ps, k).contains(y));
            }
        }
        if ids_upto(ps, k).contains(y) {
            let j = choose|j: int| 0 <= j < k && #[trigger] piece_id(ps[j]) == Some(y);
            assert(0 <= j < k + 1 && piece_id(ps[j]) == Some(y));
        }
    }
    assert(ids_upto(ps, k + 1) =~= ids_upto(ps, k).insert(x));
}

/// Reads the `places` argument: a comma-separated list of at most
/// `MAX_PLACES` integer IDs, each possibly padded with whitespace. The
/// result holds each named ID once.
pub fn parse_place_ids(places: &str) -> (r: Result<Vec<i64>, RestApiError>)
    ensures
        r is Ok <==> split_on(places@, ',').len() <= MAX_PLACES && all_pieces_are_ids(
            split_on(places@, ','),
        ),
        r matches Ok(v) ==> v@.no_duplicates() && v@.to_set() == listed_ids(
            split_on(places@, ','),
        ),
        r matches Err(e) ==> e.code == RestApiErrorCode::InvalidInput && (if split_on(
            places@,
            ',',
        ).len() > MAX_PLACES {
            e.message@ == "places must contain at most 500 IDs"@
        } else {
            e.message@ == "places must be a comma-separated list of integer place IDs"@
        }),
{
    let pieces = split_char(places, ',');
    let ghost ps = split_on(places@, ',');
    assert(ps.len() == pieces@.len());
    if pieces.len() > MAX_PLACES {
        return Err(RestApiError::invalid_input("places must contain at most 500 IDs"));
    }
    let mut ids: Vec<i64> = Vec::new();
    let mut i: usize = 0;
    assert(ids@.to_set() =~= ids_upto(ps, 0));
    while i < pieces.len()
        invariant
            views(pieces@) == ps,
            ps == split_on(places@, ','),
            pieces@.len() <= MAX_PLACES,
            i <= pieces@.len(),
            forall|j: int| 0 <= j < i ==> (#[trigger] piece_id(ps[j])) is Some,
            ids@.no_duplicates(),
            ids@.to_set() == ids_upto(ps, i as int),
        decreases pieces@.len() - i,
    {
        assert(pieces@[i as int]@ == ps[i as int]);
        let t = trim(pieces[i].as_str());
        match parse_i64(t.as_str()) {
            None => {
                assert(piece_id(ps[i as int]) is None);
                assert(!all_pieces_are_ids(ps));
                assert(ps.len() == pieces@.len());
                return Err(
                    RestApiError::invalid_input(
                        "places must be a comma-separated list of integer place IDs",
                    ),
                );
            },
            Some(x) => {
                let ghost old_ids = ids@;
                if !contains_id(&ids, x) {
                    ids.push(x);
                    proof {
                        assert forall|a: int, b: int|
                            0 <= a < ids@.len() && 0 <= b < ids@.len() && a != b implies ids@[a]
                            != ids@[b] by {
                            if a < old_ids.len() && b < old_ids.len() {
                                assert(ids@[a] == old_ids[a] && ids@[b] == old_ids[b]);
                            } else if a < old_ids.len() {
                                assert(old_ids.contains(ids@[a]));
                            } else {
                                assert(old_ids.contains(ids@[b]));
                            }
                        }
                    }
                }
                proof {
                    lemma_ids_upto_step(ps, i as int, x);
                    old_ids.lemma_push_to_set_commute(x);
                    if old_ids.contains(x) {
                        assert(old_ids.to_set().insert(x) =~= old_ids.to_set());
                    }
                }
            },
        }
        i = i + 1;
    }
    assert(ids_upto(ps, ps.len() as int) =~= listed_ids(ps));
    Ok(ids)
}

/// A row linking a place to an area.
#[derive(Debug, Clone, Copy)]
pub struct AreaMember {
    pub element_id: i64,
    pub deleted: bool,
}

/// The places a feed is restricted to: none when neither areas nor places
/// were requested; otherwise the live members of the requested areas
/// together with the requested places.
pub open spec fn filter_ids(area_count: nat, members: Seq<AreaMember>, places: Seq<i64>) -> Option<
    Set<i64>,
> {
    if area_count == 0 && places.len() == 0 {
        None
    } else {
        Some(
            Set::new(
                |x: i64|
                    places.contains(x) || exists|i: int|
                        0 <= i < members.len() && !(#[trigger] members[i]).deleted
                            && members[i].element_id == x,
            ),
        )
    }
}

/// Builds the feed's place filter from the number of requested areas, the
/// area rows of those areas, and the requested place IDs.
pub fn element_filter(area_count: usize, members: &Vec<AreaMember>, places: &Vec<i64>) -> (r:
    Option<Vec<i64>>)
    ensures
        r is None <==> filter_ids(area_count as nat, members@, places@) is None,
        r matches Some(v) ==> filter_ids(area_count as nat, members@, places@) == Some(
            v@.to_set(),
        ),
{
    if area_count == 0 && places.len() == 0 {
        return None;
    }
    let mut combined: Vec<i64> = Vec::new();
    let mut i: usize = 0;
    while i < members.len()
        invariant
            i <= members@.len(),
            forall|x: i64|
                combined@.contains(x) <==> exists|j: int|
                    0 <= j < i && !(#[trigger] members@[j]).deleted && members@[j].element_id == x,
        decreases members@.len() - i,
    {
        let m = members[i];
        let ghost old_c = combined@;
        if !m.deleted {
            combined.push(m.element_id);
        }
        proof {
            assert forall|x: i64|
                combined@.contains(x) <==> exists|j: int|
                    0 <= j < i + 1 && !(#[trigger] members@[j]).deleted && members@[j].element_id
                        == x by {
                if combined@.contains(x) {
                    let k = choose|k: int| 0 <= k < combined@.len() && combined@[k] == x;
                    if k < old_c.len() {
                        assert(old_c[k] == x);
                        assert(old_c.contains(x));
                    }
                }
                if exists|j: int|
                    0 <= j < i + 1 && !(#[trigger] members@[j]).deleted && members@[j].element_id
                        == x {
                    let j = choose|j: int|
                        0 <= j < i + 1 && !(#[trigger] members@[j]).deleted
                            && members@[j].element_id == x;
                    if j < i {
                        assert(0 <= j < i && !members@[j].deleted && members@[j].element_id == x);
                        assert(old_c.contains(x));
                        let k = choose|k: int| 0 <= k < old_c.len() && old_c[k] == x;
                        assert(combined@[k] == x);
                    } else {
                        assert(combined@[combined@.len() - 1] == x);
                    }
                }
            }
        }
        i = i + 1;
    }
    let mut k: usize = 0;
    let ghost base = combined@;
    assert(places@.subrange(0, 0) =~= Seq::<i64>::empty());
    while k < places.len()
        invariant
            k <= places@.len(),
            forall|x: i64|
                base.contains(x) <==> exists|j: int|
                    0 <= j < members@.len() && !(#[trigger] members@[j]).deleted && members@[j].element_id == x,
            forall|x: i64|
                #[trigger] combined@.contains(x) <==> (base.contains(x) || places@.subrange(0, k as int).contains(x)),
        decreases places@.len() - k,
    {
        let ghost old_c = combined@;
        let p = places[k];
        combined.push(p);
        proof {
            let pre = places@.subrange(0, k as int);
            let nxt = places@.subrange(0, k + 1);
            assert(nxt =~= pre.push(p));
            old_c.lemma_push_to_set_commute(p);
            pre.lemma_push_to_set_commute(p);
            assert forall|x: i64|
                #[trigger] combined@.contains(x) <==> (base.contains(x) || nxt.contains(x)) by {
                assert(combined@.to_set().contains(x) == combined@.contains(x));
                assert(nxt.to_set().contains(x) == nxt.contains(x));
                assert(old_c.to_set().contains(x) == old_c.contains(x));
                assert(pre.to_set().contains(x) == pre.contains(x));
            }
        }
        k = k + 1;
    }
    proof {
        assert(places@.subrange(0, k as int) =~= places@);
    }
    assert(combined@.to_set() =~= filter_ids(area_count as nat, members@, places@)->0);
    Some(combined)
}

/// The row at `i` is the first with its ID.
pub open spec fn first_with_id(ids: Seq<i64>, i: int) -> bool {
    forall|j: int| 0 <= j < i ==> ids[j] != ids[i]
}

/// Whether the row at `i` is the first with its ID.
fn is_first_with_id(ids: &Vec<i64>, i: usize) -> (r: bool)
    requires
        i < ids@.len(),
    ensures
        r == first_with_id(ids@, i as int),
{
    let mut j: usize = 0;
    while j < i
        invariant
            j <= i < ids@.len(),
            forall|k: int| 0 <= k < j ==> ids@[k] != ids@[i as int],
        decreases i - j,
    {
        if ids[j] == ids[i] {
            return false;
        }
        j = j + 1;
    }
    true
}

/// The IDs of the rows at positions `keep`.
pub open spec fn ids_at(ids: Seq<i64>, keep: Seq<usize>) -> Seq<i64> {
    keep.map_values(|k: usize| ids[k as int])
}

/// The rows to keep when the events or comments of several areas are
/// merged: a place in two requested areas comes back from both queries with
/// the same row, and the feed holds each row once. Takes the rows' IDs in
/// the order the queries returned them and gives the positions of the rows
/// kept, in order: the first row with each ID. The kept rows carry every ID
/// of the input, each once.
pub fn distinct_rows(ids: &Vec<i64>) -> (r: Vec<usize>)
    ensures
        forall|k: int| 0 <= k < r@.len() ==> r@[k] < ids@.len(),
        forall|k1: int, k2: int| 0 <= k1 < k2 < r@.len() ==> r@[k1] < r@[k2],
        forall|i: int| 0 <= i < ids@.len() ==> (first_with_id(ids@, i) <==> r@.contains(i as usize)),
        ids_at(ids@, r@).to_set() == ids@.to_set(),
        ids_at(ids@, r@).no_duplicates(),
{
    let mut r: Vec<usize> = Vec::new();
    let mut i: usize = 0;
    while i < ids.len()
        invariant
            i <= ids@.len(),
            forall|k: int| 0 <= k < r@.len() ==> r@[k] < i,
            forall|k1: int, k2: int| 0 <= k1 < k2 < r@.len() ==> r@[k1] < r@[k2],
            forall|j: int| 0 <= j < i ==> (first_with_id(ids@, j) <==> r@.contains(j as usize)),
            ids_at(ids@, r@).to_set() == ids@.subrange(0, i as int).to_set(),
            ids_at(ids@, r@).no_duplicates(),
        decreases ids@.len() - i,
    {
        let ghost old_r = r@;
        let ghost pre = ids@.subrange(0, i as int);
        let ghost x = ids@[i as int];
        assert(ids@.subrange(0, i + 1) =~= pre.push(x));
        proof {
            pre.lemma_push_to_set_commute(x);
        }
        if is_first_with_id(ids, i) {
            r.push(i);
            proof {
                assert(ids_at(ids@, r@) =~= ids_at(ids@, old_r).push(x));
                ids_at(ids@, old_r).lemma_push_to_set_commute(x);
                assert(!pre.contains(x));
                assert(!pre.to_set().contains(x));
                assert(!ids_at(ids@, old_r).contains(x)) by {
                    assert(ids_at(ids@, old_r).to_set().contains(x) == ids_at(ids@, old_r).contains(x));
                }
                assert(r@[r@.len() - 1] == i);
                assert forall|j: int| 0 <= j < i + 1 implies (first_with_id(ids@, j)
                    <==> r@.contains(j as usize)) by {
                    if j < i {
                        if old_r.contains(j as usize) {
                            let k = choose|k: int| 0 <= k < old_r.len() && old_r[k] == j as usize;
                            assert(r@[k] == j as usize);
                        }
                        if r@.contains(j as usize) {
                            let k = choose|k: int| 0 <= k < r@.len() && r@[k] == j as usize;
                            if k < old_r.len() {
                                assert(old_r[k] == j as usize);
                            }
                        }
                    } else {
                        assert(r@.contains(i));
                    }
                }
            }
        } else {
            proof {
                assert forall|j: int| 0 <= j < i + 1 implies (first_with_id(ids@, j)
                    <==> r@.contains(j as usize)) by {
                    if j == i && r@.contains(i) {
                        let k = choose|k: int| 0 <= k < r@.len() && r@[k] == i;
                        assert(r@[k] < i);
                    }
                }
                let j0 = choose|j0: int| 0 <= j0 < i && ids@[j0] == x;
                assert(pre[j0] == x);
                assert(pre.contains(x));
                assert(pre.to_set().contains(x));
                assert(pre.to_set().insert(x) =~= pre.to_set());
            }
        }
        i = i + 1;
    }
    assert(ids@.subrange(0, i as int) =~= ids@);
    r
}

/// Whether the place `element_id` passes the filter: every place does when
/// there is none.
pub fn in_filter(filter: &Option<Vec<i64>>, element_id: i64) -> (r: bool)
    ensures
        r == match filter {
            Some(v) => v@.contains(element_id),
            None => true,
        },
{
    match filter {
        Some(v) => contains_id(v, element_id),
        None => true,
    }
}

/// The events and comments of a feed come from the per-area queries only
/// when areas were requested and places were not.
pub fn uses_area_queries(area_count: usize, place_count: usize) -> (r: bool)
    ensures
        r == (area_count > 0 && place_count == 0),
{
    area_count > 0 && place_count == 0
}

/// One entry of the activity feed.
#[derive(Debug)]
pub struct ActivityItem {
    pub kind: String,
    pub place_id: i64,
    pub place_name: Option<String>,
    pub osm_user_id: Option<i64>,
    pub osm_user_name: Option<String>,
    pub osm_user_tip: Option<String>,
    pub comment: Option<String>,
    pub duration_days: Option<i64>,
    pub image: String,
    /// Nanoseconds since the Unix epoch.
    pub created_at: i128,
}

/// The preview image of a place.
pub open spec fn place_image_url(place_id: i64) -> Seq<char> {
    "https://api.btcmap.org/og/element/"@ + int_text(place_id as int)
}

fn image_url(place_id: i64) -> (r: String)
    ensures
        r@ == place_image_url(place_id),
{
    let mut s = String::from_str("https://api.btcmap.org/og/element/");
    push_int(&mut s, place_id);
    s
}


/// The feed entry of a place event: its type from the event kind, the
/// place and its name, the editor and their tip address.
pub fn event_item(
    event_type: &str,
    place_id: i64,
    place_name: String,
    osm_user_id: i64,
    osm_user_name: String,
    osm_user_description: &str,
    created_at: i128,
) -> (r: ActivityItem)
    ensures
        r.kind@ == event_type_text(event_type@),
        r.place_id == place_id,
        r.place_name == Some(place_name),
        r.osm_user_id == Some(osm_user_id),
        r.osm_user_name == Some(osm_user_name),
        opt_view(r.osm_user_tip) == first_tip(osm_user_description@),
        r.comment is None,
        r.duration_days is None,
        r.image@ == place_image_url(place_id),
        r.created_at == created_at,
{
    let tip = extract_tip_url(osm_user_description);
    ActivityItem {
        kind: get_event_type(event_type),
        place_id,
        place_name: Some(place_name),
        osm_user_id: Some(osm_user_id),
        osm_user_name: Some(osm_user_name),
        osm_user_tip: tip,
        comment: None,
        duration_days: None,
        image: image_url(place_id),
        created_at,
    }
}

/// Whether a comment belongs in the feed: it is not deleted and its place
/// passes the filter.
pub fn keep_comment(filter: &Option<Vec<i64>>, deleted: bool, place_id: i64) -> (r: bool)
    ensures
        r == (!deleted && match filter {
            Some(v) => v@.contains(place_id),
            None => true,
        }),
{
    !deleted && in_filter(filter, place_id)
}

/// The feed entry of a comment on a place.
pub fn comment_item(place_id: i64, place_name: String, comment: String, created_at: i128) -> (r:
    ActivityItem)
    ensures
        r.kind@ == "place_commented"@,
        r.place_id == place_id,
        r.place_name == Some(place_name),
        r.osm_user_id is None,
        r.osm_user_name is None,
        r.osm_user_tip is None,
        r.comment == Some(comment),
        r.duration_days is None,
        r.image@ == place_image_url(place_id),
        r.created_at == created_at,
{
    ActivityItem {
        kind: String::from_str("place_commented"),
        place_id,
        place_name: Some(place_name),
        osm_user_id: None,
        osm_user_name: None,
        osm_user_tip: None,
        comment: Some(comment),
        duration_days: None,
        image: image_url(place_id),
        created_at,
    }
}

/// The instant a paid boost's invoice was created, read from its RFC 3339
/// text; text that cannot be read means the stored row is broken, a
/// database error.
pub fn boost_created_at(created_at: &str) -> (r: Result<i128, RestApiError>)
    ensures
        match r {
            Ok(n) => spec_parse_rfc3339(created_at@) == Some(n),
            Err(e) => spec_parse_rfc3339(created_at@) is None && e.code == RestApiErrorCode::Database,
        },
{
    match parse_rfc3339(created_at) {
        Some(n) => Ok(n),
        None => Err(RestApiError::database()),
    }
}

/// Whether a boost paid at `created_at` falls in the period `[start, now]`.
pub fn boost_in_period(created_at: i128, start: i128, now: i128) -> (r: bool)
    ensures
        r == (start <= created_at && created_at <= now),
{
    !(created_at < start || created_at > now)
}

/// The feed entry of a paid boost of a place.
pub fn boost_item(place_id: i64, duration_days: i64, place_name: String, created_at: i128) -> (r:
    ActivityItem)
    ensures
        r.kind@ == "place_boosted"@,
        r.place_id == place_id,
        r.place_name == Some(place_name),
        r.osm_user_id is None,
        r.osm_user_name is None,
        r.osm_user_tip is None,
        r.comment is None,
        r.duration_days == Some(duration_days),
        r.image@ == place_image_url(place_id),
        r.created_at == created_at,
{
    ActivityItem {
        kind: String::from_str("place_boosted"),
        place_id,
        place_name: Some(place_name),
        osm_user_id: None,
        osm_user_name: None,
        osm_user_tip: None,
        comment: None,
        duration_days: Some(duration_days),
        image: image_url(place_id),
        created_at,
    }
}

/// The creation times of the entries.
pub open spec fn created_keys(items: Seq<ActivityItem>) -> Seq<i128> {
    Seq::new(items.len(), |i: int| items[i].created_at)
}

/// Puts the feed newest first; entries of equal time keep their order.
pub fn sort_activity(items: Vec<ActivityItem>) -> (r: Vec<ActivityItem>)
    ensures
        exists|ord: Seq<usize>|
            is_stable_order(created_keys(items@), true, ord) && r@ == Seq::new(
                ord.len(),
                |k: int| items@[ord[k] as int],
            ),
{
    let n = items.len();
    let mut keys: Vec<i128> = Vec::new();
    let mut i: usize = 0;
    while i < n
        invariant
            n == items@.len(),
            i <= n,
            keys@ == created_keys(items@).subrange(0, i as int),
        decreases n - i,
    {
        keys.push(items[i].created_at);
        assert(keys@ =~= created_keys(items@).subrange(0, i + 1));
        i = i + 1;
    }
    assert(keys@ =~= created_keys(items@));
    let ord = stable_order(&keys, true);
    proof {
        lemma_stable_order_is_permutation(keys@, true, ord@);
    }
    apply_order(items, &ord)
}

} // verus!
