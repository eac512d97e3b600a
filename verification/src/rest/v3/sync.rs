//! Records as the sync lists show them. A deleted record is a tombstone: it
//! keeps its ID and times and loses the rest, so that a client syncing by
//! update time learns of the deletion and nothing more.

use vstd::prelude::*;
use crate::dates::{format_rfc3339, spec_format_rfc3339, LATEST_NANOS, YEAR_ZERO_NANOS};

verus! {

/// A link of a place to an area, as synced.
#[derive(Debug, Clone, Copy)]
pub struct AreaElementItem {
    pub id: i64,
    pub area_id: Option<i64>,
    pub element_id: Option<i64>,
    pub updated_at: i128,
    pub deleted_at: Option<i128>,
}

/// The synced form of a link of place `element_id` to area `area_id`.
pub fn area_element_item(
    id: i64,
    area_id: i64,
    element_id: i64,
    updated_at: i128,
    deleted_at: Option<i128>,
) -> (r: AreaElementItem)
    ensures
        r.id == id,
        r.updated_at == updated_at,
        r.deleted_at == deleted_at,
        r.area_id == if deleted_at is None { Some(area_id) } else { None },
        r.element_id == if deleted_at is None { Some(element_id) } else { None },
{
    let live = deleted_at.is_none();
    AreaElementItem {
        id,
        area_id: if live { Some(area_id) } else { None },
        element_id: if live { Some(element_id) } else { None },
        updated_at,
        deleted_at,
    }
}

/// A comment on a place, as synced.
#[derive(Debug)]
pub struct CommentItem {
    pub id: i64,
    pub element_id: Option<i64>,
    pub comment: Option<String>,
    pub updated_at: i128,
    pub created_at: Option<i128>,
    pub deleted_at: Option<i128>,
}

/// The synced form of a comment.
pub fn comment_item(
    id: i64,
    element_id: i64,
    comment: String,
    created_at: i128,
    updated_at: i128,
    deleted_at: Option<i128>,
) -> (r: CommentItem)
    ensures
        r.id == id,
        r.updated_at == updated_at,
        r.deleted_at == deleted_at,
        r.element_id == if deleted_at is None { Some(element_id) } else { None },
        r.created_at == if deleted_at is None { Some(created_at) } else { None },
        r.comment == if deleted_at is None { Some(comment) } else { None },
{
    if deleted_at.is_none() {
        CommentItem {
            id,
            element_id: Some(element_id),
            comment: Some(comment),
            updated_at,
            created_at: Some(created_at),
            deleted_at,
        }
    } else {
        CommentItem { id, element_id: None, comment: None, updated_at, created_at: None, deleted_at }
    }
}

/// A daily report of an area, as synced; its tags are of type `T`.
#[derive(Debug)]
pub struct ReportItem<T> {
    pub id: i64,
    pub area_id: Option<i64>,
    pub date: Option<String>,
    pub tags: Option<T>,
    pub updated_at: i128,
    pub deleted_at: Option<i128>,
}

/// The synced form of a report; empty tags are left out too.
pub fn report_item<T>(
    id: i64,
    area_id: i64,
    date: String,
    tags: T,
    tags_empty: bool,
    updated_at: i128,
    deleted_at: Option<i128>,
) -> (r: ReportItem<T>)
    ensures
        r.id == id,
        r.updated_at == updated_at,
        r.deleted_at == deleted_at,
        r.area_id == if deleted_at is None { Some(area_id) } else { None },
        r.date == if deleted_at is None { Some(date) } else { None },
        r.tags == if deleted_at is None && !tags_empty { Some(tags) } else { None },
{
    let live = deleted_at.is_none();
    ReportItem {
        id,
        area_id: if live { Some(area_id) } else { None },
        date: if live { Some(date) } else { None },
        tags: if live && !tags_empty { Some(tags) } else { None },
        updated_at,
        deleted_at,
    }
}

/// Whether the v2 user list redirects to its static copy: when neither a
/// limit nor an update time is given.
pub fn users_redirect(limit: Option<i64>, updated_since: Option<i128>) -> (r: bool)
    ensures
        r == (limit is None && updated_since is None),
{
    limit.is_none() && updated_since.is_none()
}

/// How the v2 user list shows when a user was deleted: RFC 3339 text, or
/// empty for a user that is not.
pub fn deleted_at_text(deleted_at: Option<i128>) -> (r: String)
    requires
        deleted_at matches Some(t) ==> YEAR_ZERO_NANOS <= t <= LATEST_NANOS,
    ensures
        r@ == match deleted_at {
            Some(t) => spec_format_rfc3339(t),
            None => Seq::<char>::empty(),
        },
{
    match deleted_at {
        Some(t) => format_rfc3339(t),
        None => String::new(),
    }
}

/// Place issues updated since 2000-01-01 are listed when no time is given.
pub const ISSUES_SINCE_DEFAULT: i128 = 946_684_800_000_000_000;

/// The update time from which place issues are listed.
pub fn issues_updated_since(updated_since: Option<i128>) -> (r: i128)
    ensures
        r == match updated_since {
            Some(t) => t,
            None => ISSUES_SINCE_DEFAULT,
        },
{
    match updated_since {
        Some(t) => t,
        None => ISSUES_SINCE_DEFAULT,
    }
}

} // verus!
