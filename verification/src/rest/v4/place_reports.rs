//! Reports on places (`POST /v4/place-reports`).

use vstd::prelude::*;
use crate::rest::error::{RestApiError, RestApiErrorCode};

verus! {

/// The import origin that reports made through the API belong to.
pub const ORIGIN: &'static str = "user";

/// A new report.
#[derive(Debug)]
pub struct PostResponse {
    pub id: i64,
    pub origin: String,
}

/// The ID of the `user` import origin; a store without it is misconfigured.
pub fn report_origin(origin_id: Option<i64>) -> (r: Result<i64, RestApiError>)
    ensures
        r is Ok <==> origin_id is Some,
        r matches Ok(id) ==> origin_id == Some(id),
        r matches Err(e) ==> e.code == RestApiErrorCode::Database && e.message@
            == "import origin 'user' is not configured"@,
{
    match origin_id {
        Some(id) => Ok(id),
        None => Err(
            RestApiError::new(RestApiErrorCode::Database, "import origin 'user' is not configured"),
        ),
    }
}

/// The answer to a new report.
pub fn post_response(id: i64, origin: String) -> (r: PostResponse)
    ensures
        r.id == id,
        r.origin == origin,
{
    PostResponse { id, origin }
}

} // verus!
