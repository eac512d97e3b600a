//! The most active OSM editors of a period (`GET /v4/top-editors`).

use vstd::prelude::*;
use crate::dates::{
    parse_rfc3339, spec_parse_rfc3339, spec_utc_date_text, utc_date_text, EARLIEST_NANOS,
    LATEST_NANOS, NANOS_PER_DAY,
};
use crate::rest::error::{RestApiError, RestApiErrorCode};
use crate::text::opt_view;
use crate::tips::{extract_tip_url, first_tip};

verus! {

/// The arguments of the ranking: two dates `YYYY-MM-DD` and a limit.
#[derive(Debug)]
pub struct GetTopEditorsArgs {
    pub period_start: String,
    pub period_end: String,
    pub limit: Option<i64>,
}

/// One editor of the ranking.
#[derive(Debug)]
pub struct TopEditor {
    pub id: i64,
    pub name: String,
    pub avatar_url: Option<String>,
    pub total_edits: i64,
    pub places_created: i64,
    pub places_updated: i64,
    pub places_deleted: i64,
    pub tip_url: Option<String>,
}

/// An editor as the ranking query returns it.
#[derive(Debug)]
pub struct EditorRow {
    pub id: i64,
    pub name: String,
    pub image_url: Option<String>,
    pub edits: i64,
    pub created: i64,
    pub updated: i64,
    pub deleted: i64,
    pub description: String,
}

/// How many bot and spam accounts the rankings leave out.
pub const EXCLUDED_USER_COUNT: usize = 7;

/// The bot and spam accounts that the rankings leave out.
pub fn excluded_user_ids() -> (r: Vec<i64>)
    ensures
        r@ == seq![9451067i64, 18545877, 19880430, 242345, 232801, 1778799, 21749653],
{
    vec![9451067, 18545877, 19880430, 242345, 232801, 1778799, 21749653]
}

/// The text that a date is read from: the date at midnight UTC.
pub open spec fn midnight_text(date: Seq<char>) -> Seq<char> {
    date + "T00:00:00Z"@
}

/// The instant that a period bound names: midnight UTC of the date for a
/// start, and midnight of the following day (the last day when there is
/// none) for an end; `None` when the date cannot be read.
pub open spec fn period_bound(date: Seq<char>, is_start: bool) -> Option<i128> {
    match spec_parse_rfc3339(midnight_text(date)) {
        None => None,
        Some(n) => if is_start {
            Some(n)
        } else {
            let next = if n + NANOS_PER_DAY > LATEST_NANOS {
                LATEST_NANOS as int
            } else {
                n + NANOS_PER_DAY
            };
            spec_parse_rfc3339(midnight_text(spec_utc_date_text(next as i128)))
        },
    }
}

fn midnight(date: &str) -> (r: String)
    ensures
        r@ == midnight_text(date@),
        r@.len() > 0 && r@.last() == 'Z',
{
    let mut s = String::from_str(date);
    s.append("T00:00:00Z");
    proof {
        reveal_strlit("T00:00:00Z");
    }
    s
}

/// The instant a day after `n`, held at the last instant timestamps reach.
pub fn day_after(n: i128) -> (r: i128)
    requires
        EARLIEST_NANOS <= n <= LATEST_NANOS,
    ensures
        r == if n + NANOS_PER_DAY > LATEST_NANOS {
            LATEST_NANOS as int
        } else {
            n + NANOS_PER_DAY
        },
        EARLIEST_NANOS <= r <= LATEST_NANOS,
{
    if n > LATEST_NANOS - NANOS_PER_DAY {
        LATEST_NANOS
    } else {
        n + NANOS_PER_DAY
    }
}

/// Reads a period bound; a date that cannot be read is invalid input.
pub fn parse_date(date: &str, is_start: bool) -> (r: Result<i128, RestApiError>)
    ensures
        r is Ok <==> period_bound(date@, is_start) is Some,
        r matches Ok(n) ==> period_bound(date@, is_start) == Some(n),
        r matches Err(e) ==> e.code == RestApiErrorCode::InvalidInput && e.message@
            == "Invalid date format"@,
{
    let text = midnight(date);
    let n = match parse_rfc3339(text.as_str()) {
        Some(n) => n,
        None => {
            return Err(RestApiError::invalid_input("Invalid date format"));
        },
    };
    if is_start {
        return Ok(n);
    }
    let next = day_after(n);
    let day = utc_date_text(next);
    let text2 = midnight(day.as_str());
    match parse_rfc3339(text2.as_str()) {
        Some(m) => Ok(m),
        None => Err(RestApiError::invalid_input("Invalid date format")),
    }
}

/// The period of an area's ranking from its optional bounds: a missing
/// start is the Unix epoch and a missing end is `open_end`, the instant the
/// service takes for an open period; a given bound is read as `parse_date`
/// reads it, the start first.
pub fn area_period(period_start: Option<&str>, period_end: Option<&str>, open_end: i128) -> (r:
    Result<(i128, i128), RestApiError>)
    ensures
        ({
            let start = match period_start {
                Some(s) => period_bound(s@, true),
                None => Some(0i128),
            };
            let end = match period_end {
                Some(s) => period_bound(s@, false),
                None => Some(open_end),
            };
            match r {
                Ok((a, b)) => start == Some(a) && end == Some(b),
                Err(e) => (start is None || end is None) && e.code == RestApiErrorCode::InvalidInput
                    && e.message@ == "Invalid date format"@,
            }
        }),
        r is Ok <==> (match period_start {
            Some(s) => period_bound(s@, true) is Some,
            None => true,
        }) && (match period_end {
            Some(s) => period_bound(s@, false) is Some,
            None => true,
        }),
{
    let start = match period_start {
        Some(s) => parse_date(s, true)?,
        None => 0,
    };
    let end = match period_end {
        Some(s) => parse_date(s, false)?,
        None => open_end,
    };
    Ok((start, end))
}

/// The limit of the ranking (100 when none is given) and the number of
/// rows to ask for, which covers the accounts that are left out.
pub fn ranking_limits(limit: Option<i64>) -> (r: (i64, i64))
    requires
        match limit {
            Some(l) => l + EXCLUDED_USER_COUNT <= i64::MAX,
            None => true,
        },
    ensures
        r.0 == match limit {
            Some(l) => l,
            None => 100,
        },
        r.1 == r.0 + EXCLUDED_USER_COUNT,
{
    let l = match limit {
        Some(l) => l,
        None => 100,
    };
    (l, l + EXCLUDED_USER_COUNT as i64)
}

/// `e` is the ranking entry of row `r`.
pub open spec fn is_entry_of(e: TopEditor, r: EditorRow) -> bool {
    &&& e.id == r.id
    &&& e.name == r.name
    &&& e.avatar_url == r.image_url
    &&& e.total_edits == r.edits
    &&& e.places_created == r.created
    &&& e.places_updated == r.updated
    &&& e.places_deleted == r.deleted
    &&& opt_view(e.tip_url) == first_tip(r.description@)
}

/// The ranking entry of a row, with the tip address from its profile.
pub fn top_editor(row: EditorRow) -> (e: TopEditor)
    ensures
        is_entry_of(e, row),
{
    let tip = extract_tip_url(row.description.as_str());
    TopEditor {
        id: row.id,
        name: row.name,
        avatar_url: row.image_url,
        total_edits: row.edits,
        places_created: row.created,
        places_updated: row.updated,
        places_deleted: row.deleted,
        tip_url: tip,
    }
}

/// How many entries a ranking with `limit` shows of `n` rows: a negative
/// limit, taken as an unsigned count, shows them all.
pub open spec fn shown(limit: i64, n: int) -> int {
    if limit < 0 || limit >= n {
        n
    } else {
        limit as int
    }
}

/// The first `limit` rows as ranking entries, in order.
pub fn top_editors(rows: Vec<EditorRow>, limit: i64) -> (r: Vec<TopEditor>)
    ensures
        r@.len() == shown(limit, rows@.len() as int),
        forall|k: int| 0 <= k < r@.len() ==> is_entry_of(#[trigger] r@[k], rows@[k]),
{
    let n = rows.len();
    let keep = if limit < 0 || (limit as i128) >= (n as i128) {
        n
    } else {
        limit as usize
    };
    let mut rows = rows;
    rows.truncate(keep);
    let ghost kept = rows@;
    let mut rev: Vec<TopEditor> = Vec::new();
    while rows.len() > 0
        invariant
            kept.len() == keep,
            rows@ == kept.subrange(0, rows@.len() as int),
            rows@.len() + rev@.len() == keep,
            forall|j: int| 0 <= j < rev@.len() ==> is_entry_of(#[trigger] rev@[j], kept[keep - 1 - j]),
        decreases rows@.len(),
    {
        let row = rows.pop().unwrap();
        assert(row == kept[rows@.len() as int]);
        rev.push(top_editor(row));
        assert(rows@ =~= kept.subrange(0, rows@.len() as int));
    }
    let mut out: Vec<TopEditor> = Vec::new();
    while rev.len() > 0
        invariant
            kept.len() == keep,
            rev@.len() + out@.len() == keep,
            forall|j: int| 0 <= j < rev@.len() ==> is_entry_of(#[trigger] rev@[j], kept[keep - 1 - j]),
            forall|j: int| 0 <= j < out@.len() ==> is_entry_of(#[trigger] out@[j], kept[j]),
        decreases rev@.len(),
    {
        let e = rev.pop().unwrap();
        out.push(e);
    }
    out
}

} // verus!
