//! Place submissions (`/v4/place-submissions`): how a ticket link is shown
//! and what a new submission must hold.

use vstd::prelude::*;
use crate::rest::error::{RestApiError, RestApiErrorCode};
use crate::text::{is_blank, replace_first, replace_first_str, trimmed};

verus! {

/// The origin of submissions made through the API.
pub const ORIGIN: &'static str = "user";

/// The API path segment that ticket links carry and the web view lacks.
pub open spec fn api_repos_segment() -> Seq<char> {
    "/api/v1/repos"@
}

/// The web link of a ticket: its API link with the first `/api/v1/repos`
/// removed.
pub fn humanize_ticket_url(url: String) -> (r: String)
    ensures
        r@ == replace_first(url@, "/api/v1/repos"@, ""@),
{
    proof {
        reveal_strlit("/api/v1/repos");
    }
    replace_first_str(url.as_str(), "/api/v1/repos", "")
}

/// The shown ticket link of a submission, if it has one.
pub fn shown_ticket_url(url: Option<String>) -> (r: Option<String>)
    ensures
        url is None ==> r is None,
        url matches Some(u) ==> r matches Some(v) && v@ == replace_first(u@, "/api/v1/repos"@, ""@),
{
    match url {
        Some(u) => Some(humanize_ticket_url(u)),
        None => None,
    }
}

/// A new submission.
#[derive(Debug)]
pub struct PostResponse {
    pub id: i64,
    pub origin: String,
}

/// Checks the text of a new submission (its coordinates are checked
/// first): the category, then the name, must hold more than whitespace.
pub fn check_submission_text(category: &str, name: &str) -> (r: Result<(), RestApiError>)
    ensures
        r is Ok <==> trimmed(category@).len() > 0 && trimmed(name@).len() > 0,
        r matches Err(e) ==> e.code == RestApiErrorCode::InvalidInput && e.message@ == (if trimmed(
            category@,
        ).len() == 0 {
            "category cannot be empty"@
        } else {
            "name cannot be empty"@
        }),
{
    if is_blank(category) {
        return Err(RestApiError::invalid_input("category cannot be empty"));
    }
    if is_blank(name) {
        return Err(RestApiError::invalid_input("name cannot be empty"));
    }
    Ok(())
}

/// The answer to a new submission.
pub fn post_response(id: i64, origin: String) -> (r: PostResponse)
    ensures
        r.id == id,
        r.origin == origin,
{
    PostResponse { id, origin }
}

} // verus!
