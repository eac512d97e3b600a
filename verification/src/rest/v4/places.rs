//! Places (`/v4/places`): the fields and language a place is asked in, and
//! which of its areas are listed.

use vstd::prelude::*;
use crate::text::opt_view;
use vstd::string::StringSliceAdditionalSpecFns;
use crate::tips::{extract_tip_url, first_tip};
use crate::order::{apply_order, is_stable_order, lemma_stable_order_is_permutation, stable_order};
use crate::text::{contains_str, contains_text, has_prefix, split_char, split_on, starts_with, str_eq, views};

verus! {

/// The fields and language a place is asked in.
#[derive(Debug)]
pub struct GetSingleArgs {
    pub fields: Option<String>,
    pub lang: Option<String>,
}

/// Which areas of a place are listed.
#[derive(Debug)]
pub struct GetAreasArgs {
    /// The area type to keep, if any.
    pub kind: Option<String>,
    pub include_deleted: Option<bool>,
}

/// The requested fields: the comma-separated pieces of `fields` (one empty
/// piece when none is given).
pub fn requested_fields(fields: Option<&str>) -> (r: Vec<String>)
    ensures
        views(r@) == split_on(
            match fields {
                Some(f) => f@,
                None => Seq::<char>::empty(),
            },
            ',',
        ),
{
    match fields {
        Some(f) => split_char(f, ','),
        None => {
            proof {
                reveal_strlit("");
            }
            split_char("", ',')
        },
    }
}

/// The language of the tags: the first two bytes of `lang`, English when
/// it is not given.
pub fn place_lang(lang: Option<&str>) -> (r: &str)
    requires
        lang matches Some(l) ==> vstd::utf8::is_char_boundary(
            l.spec_bytes(),
            if l.len() < 2 { l.len() as int } else { 2 },
        ),
    ensures
        lang matches Some(l) ==> r.spec_bytes() == l.spec_bytes().subrange(
            0,
            if l.len() < 2 { l.len() as int } else { 2 },
        ),
        lang is None ==> r@ == "en"@,
{
    match lang {
        Some(l) => {
            let k = if l.len() < 2 { l.len() } else { 2 };
            let (head, _) = l.split_at(k);
            head
        },
        None => "en",
    }
}

/// An area of the place is listed: deleted areas only when asked for, and
/// only areas whose `type` tag equals the type asked for, if any.
pub open spec fn area_listed(
    include_deleted: Option<bool>,
    deleted: bool,
    type_tag: Option<Seq<char>>,
    kind: Option<Seq<char>>,
) -> bool {
    &&& (match include_deleted {
        Some(b) => b,
        None => false,
    } || !deleted)
    &&& match kind {
        Some(k) => type_tag == Some(k),
        None => true,
    }
}

/// Deleted areas are left out unless `include_deleted` is true: an absent
/// flag lists exactly what `false` lists, and with a type asked for only
/// areas of that type are listed. A live area of the right type is always
/// listed, and with the flag set a deleted one is too.
pub proof fn law_deleted_areas_hidden_by_default(
    deleted: bool,
    type_tag: Option<Seq<char>>,
    kind: Option<Seq<char>>,
)
    ensures
        area_listed(None, deleted, type_tag, kind) == area_listed(Some(false), deleted, type_tag, kind),
        !area_listed(None, true, type_tag, kind),
        !area_listed(Some(false), true, type_tag, kind),
        area_listed(Some(true), deleted, type_tag, kind) == area_listed(None, false, type_tag, kind),
        area_listed(None, false, type_tag, None),
        kind matches Some(k) ==> (area_listed(Some(true), deleted, type_tag, kind) <==> type_tag
            == Some(k)),
{
}

/// Whether an area of the place is listed.
pub fn list_area(
    include_deleted: Option<bool>,
    deleted: bool,
    type_tag: &Option<String>,
    kind: &Option<String>,
) -> (r: bool)
    ensures
        r == area_listed(include_deleted, deleted, opt_view(*type_tag), opt_view(*kind)),
{
    let with_deleted = match include_deleted {
        Some(b) => b,
        None => false,
    };
    if !with_deleted && deleted {
        return false;
    }
    match kind {
        Some(k) => match type_tag {
            Some(t) => str_eq(t.as_str(), k.as_str()),
            None => false,
        },
        None => true,
    }
}


/// Whether deleted places are listed: when asked for, or when the
/// `deleted_at` field is requested.
pub fn list_includes_deleted(include_deleted: Option<bool>, fields: &Vec<String>) -> (r: bool)
    ensures
        r == (match include_deleted {
            Some(b) => b,
            None => false,
        } || views(fields@).contains("deleted_at"@)),
{
    let asked = match include_deleted {
        Some(b) => b,
        None => false,
    };
    if asked {
        return true;
    }
    crate::rpc::admin::lists_action(fields, "deleted_at")
}

/// The first `limit` items (all of them for no or a negative limit).
pub open spec fn take_limit<T>(s: Seq<T>, limit: Option<i64>) -> Seq<T> {
    match limit {
        Some(l) => if 0 <= l < s.len() {
            s.subrange(0, l as int)
        } else {
            s
        },
        None => s,
    }
}

/// Merges places and pending submissions into one list, ordered by update
/// time with ties kept in order (places first), and keeps the first
/// `limit`. `times[i]` is the update time of `items[i]`.
pub fn merge_by_update<T>(items: Vec<T>, times: &Vec<i128>, limit: Option<i64>) -> (r: Vec<T>)
    requires
        times@.len() == items@.len(),
    ensures
        exists|ord: Seq<usize>|
            is_stable_order(times@, false, ord) && r@ == take_limit(
                Seq::new(ord.len(), |k: int| items@[ord[k] as int]),
                limit,
            ),
{
    let ord = stable_order(times, false);
    proof {
        lemma_stable_order_is_permutation(times@, false, ord@);
    }
    let ghost all = Seq::new(ord@.len(), |k: int| items@[ord@[k] as int]);
    let mut v = apply_order(items, &ord);
    match limit {
        Some(l) => {
            if 0 <= l && (l as i128) < (v.len() as i128) {
                v.truncate(l as usize);
            }
        },
        None => {},
    }
    assert(v@ =~= take_limit(all, limit));
    v
}

/// The ID clash guard for pending places is on unless turned off.
pub fn prevents_id_clash(prevent_pending_id_clash: Option<bool>) -> (r: bool)
    ensures
        r == match prevent_pending_id_clash {
            Some(b) => b,
            None => true,
        },
{
    match prevent_pending_id_clash {
        Some(b) => b,
        None => true,
    }
}

/// The offset that keeps pending places' IDs apart from places' IDs.
pub const PENDING_ID_OFFSET: i64 = 100_000_000;

/// The ID under which a pending submission is listed.
pub fn pending_place_id(id: i64, prevent_pending_id_clash: Option<bool>) -> (r: i64)
    requires
        id + PENDING_ID_OFFSET <= i64::MAX,
    ensures
        r == if prevents_clash(prevent_pending_id_clash) {
            id + PENDING_ID_OFFSET
        } else {
            id as int
        },
{
    if prevents_id_clash(prevent_pending_id_clash) {
        id + PENDING_ID_OFFSET
    } else {
        id
    }
}

pub open spec fn prevents_clash(p: Option<bool>) -> bool {
    match p {
        Some(b) => b,
        None => true,
    }
}

/// The comment count shown for a place: none when it has none.
pub fn shown_comments(count: i64) -> (r: Option<i64>)
    ensures
        r == if count > 0 { Some(count) } else { None::<i64> },
{
    if count > 0 {
        Some(count)
    } else {
        None
    }
}

/// The number of bytes that UTF-8 spends on `c`.
pub open spec fn char_width(c: char) -> int {
    let u = c as u32;
    if u < 0x80 {
        1
    } else if u < 0x800 {
        2
    } else if u < 0x10000 {
        3
    } else {
        4
    }
}

/// The length of `s` in UTF-8 bytes.
pub open spec fn utf8_len(s: Seq<char>) -> int
    decreases s.len(),
{
    if s.len() == 0 {
        0
    } else {
        utf8_len(s.drop_last()) + char_width(s.last())
    }
}

/// The localized name that a tag gives: for a key `name:<code>` whose code
/// is two bytes long and a string value, the code and the value.
pub open spec fn localized_entry(t: (String, Option<String>)) -> Option<(Seq<char>, Seq<char>)> {
    match t.1 {
        Some(v) => if has_prefix(t.0@, "name:"@) && utf8_len(t.0@.subrange(5, t.0@.len() as int))
            == 2 {
            Some((t.0@.subrange(5, t.0@.len() as int), v@))
        } else {
            None
        },
        None => None,
    }
}

/// The localized names that the tags give, in order.
pub open spec fn localized_seq(tags: Seq<(String, Option<String>)>) -> Seq<(Seq<char>, Seq<char>)>
    decreases tags.len(),
{
    if tags.len() == 0 {
        Seq::empty()
    } else {
        let p = localized_seq(tags.drop_last());
        match localized_entry(tags.last()) {
            Some(e) => p.push(e),
            None => p,
        }
    }
}

pub open spec fn pair_views(v: Seq<(String, String)>) -> Seq<(Seq<char>, Seq<char>)> {
    Seq::new(v.len(), |i: int| (v[i].0@, v[i].1@))
}

fn utf8_len_is_two(s: &str) -> (r: bool)
    ensures
        r == (utf8_len(s@) == 2),
{
    let n = s.unicode_len();
    let mut total: usize = 0;
    let mut i: usize = 0;
    while i < n
        invariant
            n == s@.len(),
            i <= n,
            total == utf8_len(s@.subrange(0, i as int)),
            total <= 4 * i,
        decreases n - i,
    {
        let u = s.get_char(i) as u32;
        let w: usize = if u < 0x80 {
            1
        } else if u < 0x800 {
            2
        } else if u < 0x10000 {
            3
        } else {
            4
        };
        assert(s@.subrange(0, i + 1).drop_last() =~= s@.subrange(0, i as int));
        if total > 2 {
            proof {
                lemma_utf8_len_grows(s@, i as int);
            }
            return false;
        }
        total = total + w;
        i = i + 1;
    }
    assert(s@.subrange(0, i as int) =~= s@);
    total == 2
}

proof fn lemma_utf8_len_grows(s: Seq<char>, i: int)
    requires
        0 <= i <= s.len(),
    ensures
        utf8_len(s) >= utf8_len(s.subrange(0, i)),
    decreases s.len() - i,
{
    if i < s.len() {
        lemma_utf8_len_grows(s, i + 1);
        assert(s.subrange(0, i + 1).drop_last() =~= s.subrange(0, i));
    } else {
        assert(s.subrange(0, i) =~= s);
    }
}

/// The localized names of a place from its tags, as `(key, string value)`
/// pairs in key order; `None` when there are none.
pub fn localized_names(tags: &Vec<(String, Option<String>)>) -> (r: Option<Vec<(String, String)>>)
    ensures
        r is None <==> localized_seq(tags@).len() == 0,
        r matches Some(v) ==> pair_views(v@) == localized_seq(tags@),
{
    let mut out: Vec<(String, String)> = Vec::new();
    let mut i: usize = 0;
    proof {
        reveal_strlit("name:");
    }
    while i < tags.len()
        invariant
            i <= tags@.len(),
            pair_views(out@) == localized_seq(tags@.subrange(0, i as int)),
            "name:"@.len() == 5,
        decreases tags@.len() - i,
    {
        let key = tags[i].0.as_str();
        let ghost before = out@;
        assert(tags@.subrange(0, i + 1).drop_last() =~= tags@.subrange(0, i as int));
        assert(tags@.subrange(0, i + 1).last() == tags@[i as int]);
        match &tags[i].1 {
            Some(v) => {
                if starts_with(key, "name:") {
                    let n = key.unicode_len();
                    let code = key.substring_char(5, n);
                    if utf8_len_is_two(code) {
                        out.push((String::from_str(code), v.clone()));
                        assert(pair_views(out@) =~= pair_views(before).push((code@, v@)));
                    }
                }
            },
            None => {},
        }
        i = i + 1;
    }
    assert(tags@.subrange(0, i as int) =~= tags@);
    if out.len() > 0 {
        Some(out)
    } else {
        None
    }
}


/// Which queries and filters a place search runs.
#[derive(Debug, Clone, Copy, PartialEq, Eq, Structural)]
pub struct PlaceSearchPlan {
    /// Select places in the bounding box.
    pub bbox_query: bool,
    /// Select places by name in the store.
    pub name_query: bool,
    /// Keep the selected places whose name contains the query.
    pub name_filter: bool,
    /// Select places by tag value in the store.
    pub tag_query: bool,
    /// Keep the selected places whose tag has the value.
    pub tag_filter: bool,
}

/// The plan of a search: a bounding box unless it covers the globe, then
/// the name, then the tag; the first condition selects from the store and
/// the later ones filter what it selected.
pub open spec fn search_plan(global: bool, name: Seq<char>, tag_name: Seq<char>, tag_value: Seq<char>) -> PlaceSearchPlan {
    let by_name = name.len() > 0;
    let by_tag = tag_name.len() > 0 && tag_value.len() > 0;
    PlaceSearchPlan {
        bbox_query: !global,
        name_query: by_name && global,
        name_filter: by_name && !global,
        tag_query: by_tag && global && !by_name,
        tag_filter: by_tag && !(global && !by_name),
    }
}

/// A search selects from the store once and filters after that: a bounding
/// box that is not the globe is always the selection, and then the name
/// and the tag only filter it; otherwise the name selects, and then the
/// tag only filters; the tag selects only when it is the sole condition.
/// Each condition given is applied exactly once, as a selection or as a
/// filter, and one that is not given is not applied.
pub proof fn law_search_selects_once(global: bool, name: Seq<char>, tag_name: Seq<char>, tag_value: Seq<char>)
    ensures
        ({
            let p = search_plan(global, name, tag_name, tag_value);
            let by_name = name.len() > 0;
            let by_tag = tag_name.len() > 0 && tag_value.len() > 0;
            &&& !global ==> p.bbox_query && !p.name_query && !p.tag_query
            &&& p.bbox_query <==> !global
            &&& (p.name_query || p.name_filter) <==> by_name
            &&& !(p.name_query && p.name_filter)
            &&& (p.tag_query || p.tag_filter) <==> by_tag
            &&& !(p.tag_query && p.tag_filter)
            &&& !(p.bbox_query && p.name_query) && !(p.bbox_query && p.tag_query) && !(p.name_query
                && p.tag_query)
            &&& p.name_filter ==> p.bbox_query
            &&& p.tag_filter ==> p.bbox_query || p.name_query
        }),
{
}

/// Plans a place search.
pub fn place_search_plan(global: bool, name: &str, tag_name: &str, tag_value: &str) -> (r:
    PlaceSearchPlan)
    ensures
        r == search_plan(global, name@, tag_name@, tag_value@),
{
    let mut filters_applied: u8 = 0;
    let mut plan = PlaceSearchPlan {
        bbox_query: false,
        name_query: false,
        name_filter: false,
        tag_query: false,
        tag_filter: false,
    };
    if !global {
        plan.bbox_query = true;
        filters_applied = 1;
    }
    if name.unicode_len() > 0 {
        if filters_applied == 0 {
            plan.name_query = true;
            filters_applied = 1;
        } else {
            plan.name_filter = true;
        }
        filters_applied = filters_applied + 1;
    }
    if tag_name.unicode_len() > 0 && tag_value.unicode_len() > 0 {
        if filters_applied == 0 {
            plan.tag_query = true;
        } else {
            plan.tag_filter = true;
        }
    }
    plan
}

/// The import origin whose pending places a tag search covers: `square`
/// for the Square lightning operator, none otherwise.
pub fn pending_origin(tag_name: &str, tag_value: &str) -> (r: Option<&'static str>)
    ensures
        r is Some <==> (tag_name@ == "payment:lightning:operator"@ && tag_value@ == "square"@),
        r matches Some(o) ==> o@ == "square"@,
{
    if str_eq(tag_name, "payment:lightning:operator") && str_eq(tag_value, "square") {
        Some("square")
    } else {
        None
    }
}

/// `s` in lower case, as `str::to_lowercase` gives it.
pub uninterp spec fn spec_lowercase(s: Seq<char>) -> Seq<char>;

/// Trusted: `str::to_lowercase`, which maps each character by Unicode's
/// lowercase mapping. The result is named, not stated.
#[verifier::external_body]
fn lowercase(s: &str) -> (r: String)
    ensures
        r@ == spec_lowercase(s@),
{
    s.to_lowercase()
}

/// A place passes the name filter: its name in lower case contains the
/// query as given.
pub fn name_matches(place_name: &str, query: &str) -> (r: bool)
    ensures
        r == contains_text(spec_lowercase(place_name@), query@),
{
    let lower = lowercase(place_name);
    contains_str(lower.as_str(), query)
}

/// A place passes the tag filter: its tag holds exactly the value.
pub fn tag_matches(value: Option<&str>, wanted: &str) -> (r: bool)
    ensures
        r == (value matches Some(v) && v@ == wanted@),
{
    match value {
        Some(v) => str_eq(v, wanted),
        None => false,
    }
}


/// An event of a place, as its activity lists it. Times are nanoseconds
/// since the Unix epoch.
#[derive(Debug)]
pub struct Activity {
    pub id: i64,
    pub kind: String,
    pub user_id: Option<i64>,
    pub user_name: Option<String>,
    pub user_tip: Option<String>,
    pub created_at: i128,
    pub updated_at: i128,
}

/// An event of a place with its editor, and the editor's tip address from
/// their profile text.
pub fn place_activity(
    id: i64,
    kind: String,
    user_id: i64,
    user_name: String,
    user_description: &str,
    created_at: i128,
    updated_at: i128,
) -> (r: Activity)
    ensures
        r.id == id,
        r.kind == kind,
        r.user_id == Some(user_id),
        r.user_name == Some(user_name),
        opt_view(r.user_tip) == first_tip(user_description@),
        r.created_at == created_at,
        r.updated_at == updated_at,
{
    Activity {
        id,
        kind,
        user_id: Some(user_id),
        user_name: Some(user_name),
        user_tip: extract_tip_url(user_description),
        created_at,
        updated_at,
    }
}

} // verus!
