//! Issues of the places of an area (`GET /v4/place-issues`).

use vstd::prelude::*;

verus! {

/// The global area, whose issues are counted over every place.
pub const GLOBAL_AREA_ID: i64 = 662;

/// The issues of an area: how many there are and the requested page.
#[derive(Debug)]
pub struct PlaceIssuesRes {
    pub total_issues: i64,
    pub requested_issues: Vec<ResItem>,
}

/// One issue of a place.
#[derive(Debug)]
pub struct ResItem {
    pub element_osm_type: String,
    pub element_osm_id: i64,
    pub element_name: String,
    pub issue_code: String,
}

/// The page of issues asked for: 50 from the first when not given.
pub fn issue_page(limit: Option<i64>, offset: Option<i64>) -> (r: (i64, i64))
    ensures
        r.0 == match limit {
            Some(l) => l,
            None => 50,
        },
        r.1 == match offset {
            Some(o) => o,
            None => 0,
        },
{
    (
        match limit {
            Some(l) => l,
            None => 50,
        },
        match offset {
            Some(o) => o,
            None => 0,
        },
    )
}

/// Whether the issues are limited to the places of the area: for every
/// area but the global one.
pub fn scoped_to_area(area_id: i64) -> (r: bool)
    ensures
        r == (area_id != GLOBAL_AREA_ID),
{
    area_id != GLOBAL_AREA_ID
}

/// One issue as listed; a place without a name shows an empty one.
pub fn res_item(
    element_osm_type: String,
    element_osm_id: i64,
    element_name: Option<String>,
    issue_code: String,
) -> (r: ResItem)
    ensures
        r.element_osm_type == element_osm_type,
        r.element_osm_id == element_osm_id,
        r.element_name@ == match element_name {
            Some(n) => n@,
            None => Seq::<char>::empty(),
        },
        r.issue_code == issue_code,
{
    ResItem {
        element_osm_type,
        element_osm_id,
        element_name: match element_name {
            Some(n) => n,
            None => String::new(),
        },
        issue_code,
    }
}

} // verus!
