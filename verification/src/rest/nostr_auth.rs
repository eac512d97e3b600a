//! NIP-98 authentication: the URL a signed event must name.

use vstd::prelude::*;
use crate::text::{trim_end_char, trim_end_len};

verus! {

/// The trusted external base URL of the API, such as
/// `https://api.btcmap.org`. The URL that a NIP-98 event must sign is built
/// from it, never from the request's `Host` headers.
#[derive(Debug)]
pub struct ApiBaseUrl(pub String);

/// The outcome of NIP-98 authentication: the bech32 `npub1...` of the
/// verified signer, or `None` when the request carries no valid proof.
#[derive(Debug)]
pub struct NostrAuth {
    pub npub: Option<String>,
}

/// The URL that the event of a request must sign: the base URL without its
/// trailing slashes, then the request's path and query (its path alone when
/// it has no query part).
pub open spec fn signed_url_spec(base: Seq<char>, target: Seq<char>) -> Seq<char> {
    trim_end_char(base, '/') + target
}

/// Builds the URL that a request's NIP-98 event must sign.
pub fn signed_url(base: &ApiBaseUrl, path_and_query: Option<&str>, path: &str) -> (r: String)
    ensures
        r@ == signed_url_spec(
            base.0@,
            match path_and_query {
                Some(pq) => pq@,
                None => path@,
            },
        ),
{
    let b = trim_end_len(base.0.as_str(), '/');
    let mut url = String::from_str(base.0.as_str().substring_char(0, b));
    match path_and_query {
        Some(pq) => url.append(pq),
        None => url.append(path),
    }
    url
}

} // verus!
