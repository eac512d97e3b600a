//! Boosting a place (`/v4/place-boosts`): the price of each boost duration
//! and the invoice description that records what was bought.

use vstd::prelude::*;
use crate::rest::error::{RestApiError, RestApiErrorCode};
use crate::text::{
    int_text, lemma_int_text_chars, lemma_parse_int_text, lemma_split_on_append,
    lemma_split_on_push_sep, parse_i64, parse_i64_spec, push_int, split_char, split_on, str_eq,
    views,
};

verus! {

/// The configured boost prices, in satoshis.
#[derive(Debug, Clone, Copy)]
pub struct BoostPrices {
    pub price_30d_sat: i64,
    pub price_90d_sat: i64,
    pub price_365d_sat: i64,
}

/// The prices of the three boost durations.
#[derive(Debug, Clone, Copy)]
pub struct Quote {
    pub quote_30d_sat: i64,
    pub quote_90d_sat: i64,
    pub quote_365d_sat: i64,
}

/// The invoice that pays for a boost.
#[derive(Debug)]
pub struct PostResponse {
    pub payment_request: String,
    pub invoice_uuid: String,
}

/// The answer to a boost order: the invoice's payment request and ID.
pub fn post_response(payment_request: String, invoice_uuid: String) -> (r: PostResponse)
    ensures
        r.payment_request == payment_request,
        r.invoice_uuid == invoice_uuid,
{
    PostResponse { payment_request, invoice_uuid }
}

/// The answer of `GET /v4/place-boosts/quote`.
pub fn get_quote(prices: &BoostPrices) -> (r: Quote)
    ensures
        r.quote_30d_sat == prices.price_30d_sat,
        r.quote_90d_sat == prices.price_90d_sat,
        r.quote_365d_sat == prices.price_365d_sat,
{
    Quote {
        quote_30d_sat: prices.price_30d_sat,
        quote_90d_sat: prices.price_90d_sat,
        quote_365d_sat: prices.price_365d_sat,
    }
}

/// The price of a boost of `days` days: only 30, 90 and 365 are sold.
pub fn boost_price(prices: &BoostPrices, days: i64) -> (r: Result<i64, RestApiError>)
    ensures
        r is Ok <==> (days == 30 || days == 90 || days == 365),
        days == 30 ==> r == Ok::<i64, RestApiError>(prices.price_30d_sat),
        days == 90 ==> r == Ok::<i64, RestApiError>(prices.price_90d_sat),
        days == 365 ==> r == Ok::<i64, RestApiError>(prices.price_365d_sat),
        r matches Err(e) ==> e.code == RestApiErrorCode::InvalidInput && e.message@
            == "invalid duration"@,
{
    match days {
        30 => Ok(prices.price_30d_sat),
        90 => Ok(prices.price_90d_sat),
        365 => Ok(prices.price_365d_sat),
        _ => Err(RestApiError::new(RestApiErrorCode::InvalidInput, "invalid duration")),
    }
}

/// The invoice description of a boost: `element_boost:<place>:<days>`.
pub open spec fn boost_description(place_id: i64, days: i64) -> Seq<char> {
    "element_boost:"@ + int_text(place_id as int) + ":"@ + int_text(days as int)
}

/// Writes the invoice description of a boost of `place_id` for `days` days.
pub fn boost_invoice_description(place_id: i64, days: i64) -> (r: String)
    ensures
        r@ == boost_description(place_id, days),
{
    let mut s = String::from_str("element_boost:");
    push_int(&mut s, place_id);
    s.append(":");
    push_int(&mut s, days);
    s
}

/// The boost that an invoice description records: exactly three
/// `:`-separated fields, `element_boost`, the place and the days.
pub open spec fn described_boost(description: Seq<char>) -> Option<(i64, i64)> {
    let f = split_on(description, ':');
    if f.len() == 3 && f[0] == "element_boost"@ && parse_i64_spec(f[1]) is Some && parse_i64_spec(
        f[2],
    ) is Some {
        Some((parse_i64_spec(f[1])->0, parse_i64_spec(f[2])->0))
    } else {
        None
    }
}

/// Reads the place and the days back from a boost invoice description.
pub fn parse_boost_description(description: &str) -> (r: Option<(i64, i64)>)
    ensures
        r == described_boost(description@),
{
    let f = split_char(description, ':');
    proof {
        assert(views(f@) == split_on(description@, ':'));
    }
    if f.len() != 3 {
        return None;
    }
    assert(f@[0]@ == split_on(description@, ':')[0]);
    assert(f@[1]@ == split_on(description@, ':')[1]);
    assert(f@[2]@ == split_on(description@, ':')[2]);
    if !str_eq(f[0].as_str(), "element_boost") {
        return None;
    }
    let place = parse_i64(f[1].as_str());
    let days = parse_i64(f[2].as_str());
    match (place, days) {
        (Some(p), Some(d)) => Some((p, d)),
        _ => None,
    }
}

/// Reading back the description of a boost gives the boost.
pub proof fn law_boost_description_roundtrip(place_id: i64, days: i64)
    ensures
        described_boost(boost_description(place_id, days)) == Some((place_id, days)),
{
    reveal_strlit("element_boost:");
    reveal_strlit("element_boost");
    reveal_strlit(":");
    let p = "element_boost"@;
    let a = int_text(place_id as int);
    let b = int_text(days as int);
    assert(!p.contains(':')) by {
        if p.contains(':') {
            let i = choose|i: int| 0 <= i < p.len() && p[i] == ':';
            assert(false);
        }
    }
    lemma_int_text_chars(place_id as int, ':');
    lemma_int_text_chars(days as int, ':');
    let e = Seq::<char>::empty();
    lemma_split_on_append(e, p, ':');
    assert(e + p =~= p);
    assert(split_on(e, ':') =~= seq![e]);
    assert(split_on(p, ':') =~= seq![p]);
    lemma_split_on_push_sep(p, ':');
    let s1 = p.push(':');
    lemma_split_on_append(s1, a, ':');
    assert(split_on(s1 + a, ':') =~= seq![p, a]);
    lemma_split_on_push_sep(s1 + a, ':');
    let s2 = (s1 + a).push(':');
    lemma_split_on_append(s2, b, ':');
    assert(split_on(s2 + b, ':') =~= seq![p, a, b]);
    assert(boost_description(place_id, days) =~= s2 + b);
    lemma_parse_int_text(place_id as int);
    lemma_parse_int_text(days as int);
}

} // verus!
