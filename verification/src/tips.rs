//! Lightning tip addresses that OSM users leave in their profile text.

use vstd::prelude::*;
use crate::text::occurs_at;

verus! {

/// A match of the pattern `lightning:[^)]+` can start at index `i` of `s`.
pub open spec fn tip_starts_at(s: Seq<char>, i: int) -> bool {
    &&& occurs_at(s, "lightning:"@, i)
    &&& i + "lightning:"@.len() < s.len()
    &&& s[i + "lightning:"@.len()] != ')'
}

/// The end of the run of characters other than `)` that starts at `j`.
pub open spec fn run_end(s: Seq<char>, j: int) -> int
    decreases s.len() + 1 - j,
{
    if 0 <= j < s.len() && s[j] != ')' {
        run_end(s, j + 1)
    } else {
        j
    }
}

/// The leftmost, longest match of `lightning:[^)]+` in `s` at or after `k`.
pub open spec fn tip_from(s: Seq<char>, k: int) -> Option<Seq<char>>
    decreases s.len() + 1 - k,
{
    if k < 0 || k >= s.len() {
        None
    } else if tip_starts_at(s, k) {
        Some(s.subrange(k, run_end(s, k + "lightning:"@.len())))
    } else {
        tip_from(s, k + 1)
    }
}

/// The first `lightning:` address in `description`: the leftmost match of
/// the regular expression `(lightning:[^)]+)`, which the regex crate finds
/// leftmost-first and extends greedily.
pub open spec fn first_tip(description: Seq<char>) -> Option<Seq<char>> {
    tip_from(description, 0)
}

/// Trusted: compiles `(lightning:[^)]+)` with `regex::Regex::new` (a valid
/// pattern, so that always succeeds) and returns the first capture group of
/// `Regex::captures` on `description`. The contract claims that this is the
/// leftmost match, extended over every following character other than `)`,
/// as the regex crate documents its leftmost-first, greedy matching.
#[verifier::external_body]
pub(crate) fn extract_tip_url(description: &str) -> (r: Option<String>)
    ensures
        r matches Some(t) ==> first_tip(description@) == Some(t@),
        r is None ==> first_tip(description@) is None,
{
    let re = regex::Regex::new(r"(lightning:[^)]+)").ok()?;
    re.captures(description).map(|c| c[1].to_string())
}

} // verus!
