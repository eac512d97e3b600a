//! Comments on places (`/v4/place-comments`): the defaults of the listing,
//! what a new comment must hold, and the invoice that publishes it.

use vstd::prelude::*;
use crate::rest::error::{RestApiError, RestApiErrorCode};
use crate::text::{int_text, is_blank, push_int, trimmed};

verus! {

/// Comments updated since the Unix epoch, when no time is given.
pub fn default_updated_since() -> (r: i128)
    ensures
        r == 0,
{
    0
}

/// No limit, when none is given.
pub fn default_limit() -> (r: i64)
    ensures
        r == i64::MAX,
{
    i64::MAX
}

/// Deleted comments are left out, unless asked for.
pub fn default_include_deleted() -> (r: bool)
    ensures
        r == false,
{
    false
}

/// The price of publishing a comment.
#[derive(Debug, Clone, Copy)]
pub struct Quote {
    pub quote_sat: i64,
}

/// The price of publishing a comment, from the configuration.
pub fn get_quote(price_sat: i64) -> (r: Quote)
    ensures
        r.quote_sat == price_sat,
{
    Quote { quote_sat: price_sat }
}

/// The invoice that publishes a new comment.
#[derive(Debug)]
pub struct PostResponse {
    pub invoice_id: String,
    pub invoice: String,
}

/// A new comment must hold more than whitespace.
pub fn check_comment(comment: &str) -> (r: Result<(), RestApiError>)
    ensures
        r is Ok <==> trimmed(comment@).len() > 0,
        r matches Err(e) ==> e.code == RestApiErrorCode::InvalidInput && e.message@
            == "Comment cannot be empty"@,
{
    if is_blank(comment) {
        Err(RestApiError::invalid_input("Comment cannot be empty"))
    } else {
        Ok(())
    }
}

/// The description of the invoice that publishes comment `id`.
pub open spec fn publish_description(id: i64) -> Seq<char> {
    "element_comment:"@ + int_text(id as int) + ":publish"@
}

/// Writes the description of the invoice that publishes comment `id`.
pub fn comment_invoice_description(id: i64) -> (r: String)
    ensures
        r@ == publish_description(id),
{
    let mut s = String::from_str("element_comment:");
    push_int(&mut s, id);
    s.append(":publish");
    s
}

/// The answer to a new comment: the invoice's ID and payment request.
pub fn post_response(invoice_id: String, payment_request: String) -> (r: PostResponse)
    ensures
        r.invoice_id == invoice_id,
        r.invoice == payment_request,
{
    PostResponse { invoice_id, invoice: payment_request }
}

} // verus!
