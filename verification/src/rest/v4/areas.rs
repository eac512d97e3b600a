//! Areas (`/v4/areas`): the public view of an area, the search filter by
//! type, and the area images with their content types and resizing.

use vstd::prelude::*;
use crate::images::{
    decoded_size, guess_format, resized, spec_decoded_size, spec_guess_format, spec_resized,
    ImageKind,
};
use crate::rest::error::{RestApiError, RestApiErrorCode};
use crate::text::opt_view;
use crate::text::{has_prefix, has_suffix, starts_with, str_eq, trim_bounds, trimmed_start, utf8_text};

verus! {

/// What an area's record says of it, as the endpoints read it.
#[derive(Debug)]
pub struct AreaRecord {
    pub id: i64,
    pub name: String,
    pub url_alias: String,
    /// The `type` tag, when it is a string.
    pub type_tag: Option<String>,
    /// The `icon:square` tag, when it is a string.
    pub icon_square: Option<String>,
    /// The `icon:wide` tag, when it is a string.
    pub icon_wide: Option<String>,
    /// The `description` tag, when it is a string.
    pub description: Option<String>,
}

/// An area in a list of areas.
#[derive(Debug)]
pub struct AreaSearchResult {
    pub id: i64,
    pub name: String,
    /// The area's `type` tag, empty when it has none.
    pub kind: String,
    pub url_alias: String,
    pub icon: Option<String>,
    pub website_url: String,
}

/// One area.
#[derive(Debug)]
pub struct GetByIdRes {
    pub id: i64,
    pub name: String,
    /// The area's `type` tag, empty when it has none.
    pub kind: String,
    pub url_alias: String,
    pub icon: Option<String>,
    pub icon_wide: Option<String>,
    pub website_url: String,
    pub description: String,
}

/// The arguments of an area's top editors.
#[derive(Debug)]
pub struct GetTopEditorsForAreaArgs {
    pub period_start: Option<String>,
    pub period_end: Option<String>,
    pub limit: Option<i64>,
}

/// The arguments of an area image.
#[derive(Debug)]
pub struct GetImageArgs {
    /// Which image of the area, such as `square`.
    pub kind: String,
    pub w: Option<u32>,
    pub h: Option<u32>,
}

/// The text of an optional tag, empty when it is missing.
pub open spec fn tag_text(t: Option<String>) -> Seq<char> {
    match t {
        Some(s) => s@,
        None => Seq::<char>::empty(),
    }
}

/// The singular of an area type as the website's paths spell it: `ies`
/// becomes `y`, a final `s` is dropped.
pub open spec fn singular_type(t: Seq<char>) -> Seq<char> {
    if has_suffix(t, "ies"@) {
        t.subrange(0, t.len() - 3) + "y"@
    } else if has_suffix(t, "s"@) {
        t.subrange(0, t.len() - 1)
    } else {
        t
    }
}

/// The website page of an area of type `t` with alias `alias`.
pub open spec fn website_url_spec(t: Seq<char>, alias: Seq<char>) -> Seq<char> {
    "https://btcmap.org/"@ + singular_type(t) + "/"@ + alias
}

fn singular(t: &str) -> (r: String)
    ensures
        r@ == singular_type(t@),
{
    let n = t.unicode_len();
    if crate::text::ends_with(t, "ies") {
        proof {
            reveal_strlit("ies");
        }
        let mut s = String::from_str(t.substring_char(0, n - 3));
        s.append("y");
        s
    } else if crate::text::ends_with(t, "s") {
        proof {
            reveal_strlit("s");
        }
        String::from_str(t.substring_char(0, n - 1))
    } else {
        String::from_str(t)
    }
}

fn website_url(t: &str, alias: &str) -> (r: String)
    ensures
        r@ == website_url_spec(t@, alias@),
{
    let mut s = String::from_str("https://btcmap.org/");
    let single = singular(t);
    s.append(single.as_str());
    s.append("/");
    s.append(alias);
    s
}

fn tag_string(t: &Option<String>) -> (r: String)
    ensures
        r@ == tag_text(*t),
{
    match t {
        Some(s) => s.clone(),
        None => String::new(),
    }
}

fn clone_opt(o: &Option<String>) -> (r: Option<String>)
    ensures
        opt_view(r) == opt_view(*o),
{
    match o {
        Some(s) => Some(s.clone()),
        None => None,
    }
}

/// `r` is the list entry of `area`.
pub open spec fn is_search_result_of(r: AreaSearchResult, area: AreaRecord) -> bool {
    &&& r.id == area.id
    &&& r.name@ == area.name@
    &&& r.kind@ == tag_text(area.type_tag)
    &&& r.url_alias@ == area.url_alias@
    &&& opt_view(r.icon) == opt_view(area.icon_square)
    &&& r.website_url@ == website_url_spec(tag_text(area.type_tag), area.url_alias@)
}

/// The list entry of an area.
pub fn area_search_result(area: &AreaRecord) -> (r: AreaSearchResult)
    ensures
        is_search_result_of(r, *area),
{
    let kind = tag_string(&area.type_tag);
    let website_url = website_url(kind.as_str(), area.url_alias.as_str());
    AreaSearchResult {
        id: area.id,
        name: area.name.clone(),
        kind,
        url_alias: area.url_alias.clone(),
        icon: clone_opt(&area.icon_square),
        website_url,
    }
}

/// The answer for one area.
pub fn get_by_id_res(area: &AreaRecord) -> (r: GetByIdRes)
    ensures
        r.id == area.id,
        r.name@ == area.name@,
        r.kind@ == tag_text(area.type_tag),
        r.url_alias@ == area.url_alias@,
        opt_view(r.icon) == opt_view(area.icon_square),
        opt_view(r.icon_wide) == opt_view(area.icon_wide),
        r.website_url@ == website_url_spec(tag_text(area.type_tag), area.url_alias@),
        r.description@ == tag_text(area.description),
{
    let kind = tag_string(&area.type_tag);
    let website_url = website_url(kind.as_str(), area.url_alias.as_str());
    GetByIdRes {
        id: area.id,
        name: area.name.clone(),
        kind,
        url_alias: area.url_alias.clone(),
        icon: clone_opt(&area.icon_square),
        icon_wide: clone_opt(&area.icon_wide),
        website_url,
        description: tag_string(&area.description),
    }
}

/// The area passes the type filter: there is none, or its `type` tag (empty
/// when missing) equals it.
pub open spec fn matches_type(area: AreaRecord, filter: Option<Seq<char>>) -> bool {
    match filter {
        Some(f) => tag_text(area.type_tag) == f,
        None => true,
    }
}

/// The filter as text.
pub open spec fn filter_view(filter: Option<&str>) -> Option<Seq<char>> {
    match filter {
        Some(f) => Some(f@),
        None => None,
    }
}

/// The test an area must pass.
pub open spec fn type_test(f: Option<Seq<char>>) -> spec_fn(AreaRecord) -> bool {
    |a: AreaRecord| matches_type(a, f)
}

/// The list entries of the areas that pass the type filter, in order.
pub fn filter_areas(areas: &Vec<AreaRecord>, filter: Option<&str>) -> (r: Vec<AreaSearchResult>)
    ensures
        r@.len() == areas@.filter(type_test(filter_view(filter))).len(),
        forall|k: int|
            0 <= k < r@.len() ==> is_search_result_of(
                #[trigger] r@[k],
                areas@.filter(type_test(filter_view(filter)))[k],
            ),
{
    let ghost pred = type_test(filter_view(filter));
    let mut out: Vec<AreaSearchResult> = Vec::new();
    let mut i: usize = 0;
    while i < areas.len()
        invariant
            i <= areas@.len(),
            pred == type_test(filter_view(filter)),
            out@.len() == areas@.subrange(0, i as int).filter(pred).len(),
            forall|k: int|
                0 <= k < out@.len() ==> is_search_result_of(
                    #[trigger] out@[k],
                    areas@.subrange(0, i as int).filter(pred)[k],
                ),
        decreases areas@.len() - i,
    {
        let a = &areas[i];
        let keep = match filter {
            Some(ft) => {
                let t = tag_string(&a.type_tag);
                str_eq(t.as_str(), ft)
            },
            None => true,
        };
        let ghost pre = areas@.subrange(0, i as int);
        let ghost nxt = areas@.subrange(0, i + 1);
        proof {
            assert(nxt.drop_last() =~= pre);
            assert(nxt.last() == *a);
            reveal_with_fuel(Seq::filter, 1);
            assert(keep == pred(*a));
        }
        if keep {
            let e = area_search_result(a);
            out.push(e);
        }
        i = i + 1;
    }
    assert(areas@.subrange(0, i as int) =~= areas@);
    out
}

/// The longest area ID or alias, in bytes.
pub const MAX_AREA_ID_LEN: usize = 128;

/// Rejects an area ID or alias longer than `MAX_AREA_ID_LEN` bytes.
pub fn check_area_id(id: &str) -> (r: Result<(), RestApiError>)
    ensures
        r is Ok <==> id.len() <= MAX_AREA_ID_LEN,
        r matches Err(e) ==> e.code == RestApiErrorCode::InvalidInput && e.message@ == "id too long"@,
{
    if id.len() > MAX_AREA_ID_LEN {
        Err(RestApiError::invalid_input("id too long"))
    } else {
        Ok(())
    }
}

/// Checks the arguments of an area image: the ID's length, and any
/// requested width or height must be positive.
pub fn check_image_args(id: &str, w: Option<u32>, h: Option<u32>) -> (r: Result<(), RestApiError>)
    ensures
        r is Ok <==> id.len() <= MAX_AREA_ID_LEN && w != Some(0u32) && h != Some(0u32),
        r matches Err(e) ==> e.code == RestApiErrorCode::InvalidInput && e.message@ == (if id.len()
            > MAX_AREA_ID_LEN {
            "id too long"@
        } else if w == Some(0u32) {
            "w must be greater than 0"@
        } else {
            "h must be greater than 0"@
        }),
{
    check_area_id(id)?;
    if w == Some(0u32) {
        return Err(RestApiError::invalid_input("w must be greater than 0"));
    }
    if h == Some(0u32) {
        return Err(RestApiError::invalid_input("h must be greater than 0"));
    }
    Ok(())
}

/// `a / b` rounded to the nearest integer, halves up.
pub open spec fn round_div(a: int, b: int) -> int {
    (2 * a + b) / (2 * b)
}

pub open spec fn at_least_one(x: int) -> int {
    if x < 1 {
        1
    } else {
        x
    }
}

/// The size that fits a `sw` by `sh` image into the requested bounds
/// without enlarging it. With one bound, the other side follows the aspect
/// ratio, rounded down. With both, the image is scaled by the smaller of
/// the two ratios, each side rounded to the nearest pixel and at least 1.
///
/// The arithmetic is exact, on integers: a side that scales to exactly half
/// a pixel rounds up. Computed in `f64` as a ratio and then a product, such
/// a side can land a hair below the half and round down instead: fitting
/// 11 by 22 into 15 by 15 gives 8 by 15 here, 7 by 15 in floating point
/// (and 10 by 45 into 7 by 32 likewise differs in its height).
pub open spec fn fit_spec(sw: u32, sh: u32, w: Option<u32>, h: Option<u32>) -> (int, int) {
    match (w, h) {
        (None, None) => (sw as int, sh as int),
        (Some(mw), None) => if mw >= sw {
            (sw as int, sh as int)
        } else {
            (mw as int, (sh * mw) / (sw as int))
        },
        (None, Some(mh)) => if mh >= sh {
            (sw as int, sh as int)
        } else {
            ((sw * mh) / (sh as int), mh as int)
        },
        (Some(mw), Some(mh)) => if sw <= mw && sh <= mh {
            (sw as int, sh as int)
        } else if sw > 0 && mw * sh <= mh * sw {
            (at_least_one(mw as int), at_least_one(round_div(sh * mw, sw as int)))
        } else {
            (at_least_one(round_div(sw * mh, sh as int)), at_least_one(mh as int))
        },
    }
}

/// The one-bound cases keep the scaled side within `u32`, as the
/// arithmetic on `u32` requires.
pub open spec fn fit_defined(sw: u32, sh: u32, w: Option<u32>, h: Option<u32>) -> bool {
    match (w, h) {
        (Some(mw), None) => mw >= sw || sh * mw <= u32::MAX,
        (None, Some(mh)) => mh >= sh || sw * mh <= u32::MAX,
        _ => true,
    }
}

proof fn lemma_product_fits(a: u128, b: u128)
    requires
        a <= u32::MAX,
        b <= u32::MAX,
    ensures
        a * b <= u64::MAX,
        2 * a * b + u32::MAX <= u128::MAX,
{
    assert(a * b <= u32::MAX * u32::MAX) by (nonlinear_arith)
        requires
            a <= u32::MAX,
            b <= u32::MAX,
    ;
    assert(2 * a * b == 2 * (a * b)) by (nonlinear_arith);
}

/// Fitting never enlarges an image and keeps it within every bound given
/// (for images and bounds of at least one pixel).
pub proof fn law_fit_within(sw: u32, sh: u32, w: Option<u32>, h: Option<u32>)
    requires
        sw >= 1,
        sh >= 1,
        w matches Some(mw) ==> mw >= 1,
        h matches Some(mh) ==> mh >= 1,
    ensures
        fit_spec(sw, sh, w, h).0 <= sw,
        fit_spec(sw, sh, w, h).1 <= sh,
        w matches Some(mw) ==> fit_spec(sw, sh, w, h).0 <= mw,
        h matches Some(mh) ==> fit_spec(sw, sh, w, h).1 <= mh,
{
    match (w, h) {
        (Some(mw), None) => {
            if mw < sw {
                assert((sh * mw) / (sw as int) <= sh) by (nonlinear_arith)
                    requires
                        mw < sw,
                        sw >= 1,
                        sh >= 0,
                ;
            }
        },
        (None, Some(mh)) => {
            if mh < sh {
                assert((sw * mh) / (sh as int) <= sw) by (nonlinear_arith)
                    requires
                        mh < sh,
                        sh >= 1,
                        sw >= 0,
                ;
            }
        },
        (Some(mw), Some(mh)) => {
            if !(sw <= mw && sh <= mh) {
                if mw * sh <= mh * sw {
                    assert(mw < sw) by (nonlinear_arith)
                        requires
                            !(sw <= mw && sh <= mh),
                            mw * sh <= mh * sw,
                            sw >= 1,
                            sh >= 1,
                    ;
                    assert(round_div(sh * mw, sw as int) <= sh) by (nonlinear_arith)
                        requires
                            mw < sw,
                            sw >= 1,
                    ;
                    assert(round_div(sh * mw, sw as int) <= mh) by (nonlinear_arith)
                        requires
                            mw * sh <= mh * sw,
                            sw >= 1,
                            mh >= 1,
                    ;
                } else {
                    assert(mh < sh) by (nonlinear_arith)
                        requires
                            !(sw <= mw && sh <= mh),
                            mw * sh > mh * sw,
                            sw >= 1,
                            sh >= 1,
                    ;
                    assert(round_div(sw * mh, sh as int) <= sw) by (nonlinear_arith)
                        requires
                            mh < sh,
                            sh >= 1,
                    ;
                    assert(round_div(sw * mh, sh as int) <= mw) by (nonlinear_arith)
                        requires
                            mw * sh > mh * sw,
                            sh >= 1,
                            mw >= 1,
                    ;
                }
            }
        },
        (None, None) => {},
    }
}

/// Fitting keeps the source's aspect ratio. With one bound that is smaller
/// than the image, that side takes the bound and the other side is scaled
/// by the same factor, rounded down: `w * sh <= sw * mh < (w + 1) * sh`
/// for a height bound, and likewise for a width bound. With both bounds,
/// the tighter one is met exactly and the other side is the scaled side
/// rounded to the nearest pixel (at least one).
pub proof fn law_fit_keeps_ratio(sw: u32, sh: u32, w: Option<u32>, h: Option<u32>)
    requires
        sw >= 1,
        sh >= 1,
        w matches Some(mw) ==> mw >= 1,
        h matches Some(mh) ==> mh >= 1,
    ensures
        ({
            let (a, b) = fit_spec(sw, sh, w, h);
            match (w, h) {
                (None, Some(mh)) => mh < sh ==> b == mh && a * sh <= sw * mh && sw * mh < (a
                    + 1) * sh,
                (Some(mw), None) => mw < sw ==> a == mw && b * sw <= sh * mw && sh * mw < (b
                    + 1) * sw,
                (Some(mw), Some(mh)) => !(sw <= mw && sh <= mh) ==> if mw * sh <= mh * sw {
                    a == mw && b >= 1 && 2 * sh * mw < (2 * b + 1) * sw && (b == 1 || (2 * b
                        - 1) * sw <= 2 * sh * mw)
                } else {
                    b == mh && a >= 1 && 2 * sw * mh < (2 * a + 1) * sh && (a == 1 || (2 * a
                        - 1) * sh <= 2 * sw * mh)
                },
                (None, None) => a == sw && b == sh,
            }
        }),
{
    match (w, h) {
        (None, Some(mh)) => {
            if mh < sh {
                let x = sw * mh;
                let a = x / (sh as int);
                assert(a * sh <= x && x < (a + 1) * sh) by (nonlinear_arith)
                    requires
                        sh >= 1,
                        a == x / (sh as int),
                ;
            }
        },
        (Some(mw), None) => {
            if mw < sw {
                let x = sh * mw;
                let b = x / (sw as int);
                assert(b * sw <= x && x < (b + 1) * sw) by (nonlinear_arith)
                    requires
                        sw >= 1,
                        b == x / (sw as int),
                ;
            }
        },
        (Some(mw), Some(mh)) => {
            if !(sw <= mw && sh <= mh) {
                if mw * sh <= mh * sw {
                    let x = sh * mw;
                    let q = round_div(x, sw as int);
                    assert(2 * q * sw <= 2 * x + sw && 2 * x + sw < 2 * (q + 1) * sw) by (
                    nonlinear_arith)
                        requires
                            sw >= 1,
                            x >= 0,
                            q == (2 * x + sw) / (2 * sw),
                    ;
                    assert(q >= 0) by (nonlinear_arith)
                        requires
                            sw >= 1,
                            x >= 0,
                            q == (2 * x + sw) / (2 * sw),
                    ;
                    assert(2 * sh * mw == 2 * x) by (nonlinear_arith)
                        requires
                            x == sh * mw,
                    ;
                    let b = at_least_one(q);
                    if q < 1 {
                        assert(2 * x < (2 * b + 1) * sw) by (nonlinear_arith)
                            requires
                                2 * x + sw < 2 * (q + 1) * sw,
                                q < 1,
                                b == 1,
                                sw >= 1,
                        ;
                    } else {
                        assert(2 * x < (2 * b + 1) * sw && (2 * b - 1) * sw <= 2 * x) by (
                        nonlinear_arith)
                            requires
                                2 * q * sw <= 2 * x + sw,
                                2 * x + sw < 2 * (q + 1) * sw,
                                b == q,
                        ;
                    }
                } else {
                    let x = sw * mh;
                    let q = round_div(x, sh as int);
                    assert(2 * q * sh <= 2 * x + sh && 2 * x + sh < 2 * (q + 1) * sh) by (
                    nonlinear_arith)
                        requires
                            sh >= 1,
                            x >= 0,
                            q == (2 * x + sh) / (2 * sh),
                    ;
                    assert(2 * sw * mh == 2 * x) by (nonlinear_arith)
                        requires
                            x == sw * mh,
                    ;
                    let a = at_least_one(q);
                    if q < 1 {
                        assert(2 * x < (2 * a + 1) * sh) by (nonlinear_arith)
                            requires
                                2 * x + sh < 2 * (q + 1) * sh,
                                q < 1,
                                a == 1,
                                sh >= 1,
                        ;
                    } else {
                        assert(2 * x < (2 * a + 1) * sh && (2 * a - 1) * sh <= 2 * x) by (
                        nonlinear_arith)
                            requires
                                2 * q * sh <= 2 * x + sh,
                                2 * x + sh < 2 * (q + 1) * sh,
                                a == q,
                        ;
                    }
                }
            }
        },
        (None, None) => {},
    }
}

/// Picks the size that fits a `src_w` by `src_h` image into the requested
/// bounds without enlarging it; an image that already fits keeps its size.
pub fn fit_dimensions(src_w: u32, src_h: u32, w: Option<u32>, h: Option<u32>) -> (r: (u32, u32))
    requires
        fit_defined(src_w, src_h, w, h),
    ensures
        (r.0 as int, r.1 as int) == fit_spec(src_w, src_h, w, h),
{
    match (w, h) {
        (None, None) => (src_w, src_h),
        (Some(mw), None) => {
            if mw >= src_w {
                (src_w, src_h)
            } else {
                (mw, src_h * mw / src_w)
            }
        },
        (None, Some(mh)) => {
            if mh >= src_h {
                (src_w, src_h)
            } else {
                (src_w * mh / src_h, mh)
            }
        },
        (Some(mw), Some(mh)) => {
            if src_w <= mw && src_h <= mh {
                return (src_w, src_h);
            }
            let sw = src_w as u128;
            let sh = src_h as u128;
            let bw = mw as u128;
            let bh = mh as u128;
            proof {
                lemma_product_fits(bw, sh);
                lemma_product_fits(bh, sw);
                lemma_product_fits(sh, bw);
                lemma_product_fits(sw, bh);
            }
            if src_w > 0 && bw * sh <= bh * sw {
                assert(bw < sw) by (nonlinear_arith)
                    requires
                        !(sw <= bw && sh <= bh),
                        sw > 0,
                        bw * sh <= bh * sw,
                ;
                let nh = (2 * sh * bw + sw) / (2 * sw);
                assert(2 * sh * bw == 2 * (sh * bw)) by (nonlinear_arith);
                assert(sh * bw == (src_h as int) * (mw as int));
                assert(nh == round_div((src_h * mw) as int, src_w as int));
                assert(nh <= sh) by (nonlinear_arith)
                    requires
                        nh == (2 * sh * bw + sw) / (2 * sw),
                        bw < sw,
                        sw > 0,
                ;
                let a = if mw < 1 { 1 } else { mw };
                let b = if nh < 1 { 1 } else { nh as u32 };
                (a, b)
            } else {
                assert(sh > 0) by {
                    if sh == 0 {
                        assert(bw * sh == 0) by (nonlinear_arith)
                            requires
                                sh == 0,
                        ;
                        assert(sw > 0 && bw * sh <= bh * sw) by (nonlinear_arith)
                            requires
                                sh == 0,
                                sw > bw,
                        ;
                    }
                }
                assert(bh < sh) by (nonlinear_arith)
                    requires
                        !(sw <= bw && sh <= bh),
                        sh > 0,
                        !(sw > 0 && bw * sh <= bh * sw),
                ;
                let nw = (2 * sw * bh + sh) / (2 * sh);
                assert(2 * sw * bh == 2 * (sw * bh)) by (nonlinear_arith);
                assert(sw * bh == (src_w as int) * (mh as int));
                assert(nw == round_div((src_w * mh) as int, src_h as int));
                assert(nw <= sw) by (nonlinear_arith)
                    requires
                        nw == (2 * sw * bh + sh) / (2 * sh),
                        bh < sh,
                        sh > 0,
                ;
                let a = if nw < 1 { 1 } else { nw as u32 };
                let b = if mh < 1 { 1 } else { mh };
                (a, b)
            }
        },
    }
}

/// The first `min(512, len)` bytes of `bytes`, where an image is checked
/// for SVG text.
pub open spec fn svg_head(bytes: Seq<u8>) -> Seq<u8> {
    if bytes.len() < 512 {
        bytes
    } else {
        bytes.subrange(0, 512)
    }
}

/// The image starts like SVG text: its head is valid UTF-8 whose text,
/// once leading whitespace is skipped, opens with `<?xml` or `<svg`.
pub open spec fn looks_like_svg_spec(bytes: Seq<u8>) -> bool {
    vstd::utf8::valid_utf8(svg_head(bytes)) && {
        let t = trimmed_start(vstd::utf8::decode_utf8(svg_head(bytes)));
        has_prefix(t, "<?xml"@) || has_prefix(t, "<svg"@)
    }
}

/// Whether the image looks like SVG text.
pub fn looks_like_svg(bytes: &[u8]) -> (r: bool)
    ensures
        r == looks_like_svg_spec(bytes@),
{
    let n = if bytes.len() < 512 { bytes.len() } else { 512 };
    let mut head: Vec<u8> = Vec::new();
    let mut i: usize = 0;
    while i < n
        invariant
            n <= bytes@.len(),
            n == if bytes@.len() < 512 { bytes@.len() } else { 512 },
            i <= n,
            head@ == bytes@.subrange(0, i as int),
        decreases n - i,
    {
        head.push(bytes[i]);
        assert(head@ =~= bytes@.subrange(0, i + 1));
        i = i + 1;
    }
    assert(head@ =~= svg_head(bytes@));
    match utf8_text(head.as_slice()) {
        None => false,
        Some(text) => {
            let (a, _) = trim_bounds(text.as_str());
            let n2 = text.as_str().unicode_len();
            let rest = text.as_str().substring_char(a, n2);
            starts_with(rest, "<?xml") || starts_with(rest, "<svg")
        },
    }
}

/// The MIME type of a recognised image format.
pub open spec fn kind_type(k: ImageKind) -> Seq<char> {
    match k {
        ImageKind::Png => "image/png"@,
        ImageKind::Jpeg => "image/jpeg"@,
        ImageKind::WebP => "image/webp"@,
        ImageKind::Bmp => "image/bmp"@,
        ImageKind::Other => "application/octet-stream"@,
    }
}

fn kind_type_str(k: ImageKind) -> (r: &'static str)
    ensures
        r@ == kind_type(k),
{
    match k {
        ImageKind::Png => "image/png",
        ImageKind::Jpeg => "image/jpeg",
        ImageKind::WebP => "image/webp",
        ImageKind::Bmp => "image/bmp",
        ImageKind::Other => "application/octet-stream",
    }
}

/// The content type of an image from whether it looks like SVG and the
/// format that `image` recognised in it: SVG first, then the format, and
/// none when neither applies.
pub open spec fn content_type_spec(svg: bool, format: Option<ImageKind>) -> Option<Seq<char>> {
    if svg {
        Some("image/svg+xml"@)
    } else {
        match format {
            Some(k) => Some(kind_type(k)),
            None => None,
        }
    }
}

/// The content type from the two findings.
pub fn content_type_of(svg: bool, format: Option<ImageKind>) -> (r: Option<String>)
    ensures
        opt_view(r) == content_type_spec(svg, format),
{
    if svg {
        return Some(String::from_str("image/svg+xml"));
    }
    match format {
        Some(k) => Some(String::from_str(kind_type_str(k))),
        None => None,
    }
}

/// The content type of the image `bytes`, if it can be told.
pub fn content_type_for(bytes: &[u8]) -> (r: Option<String>)
    ensures
        opt_view(r) == content_type_spec(
            looks_like_svg_spec(bytes@),
            if looks_like_svg_spec(bytes@) {
                None
            } else {
                spec_guess_format(bytes@)
            },
        ),
{
    if looks_like_svg(bytes) {
        return content_type_of(true, None);
    }
    content_type_of(false, guess_format(bytes))
}

/// The content type served with the image unchanged: the one told, or
/// `application/octet-stream`.
pub open spec fn served_type(bytes: Seq<u8>) -> Seq<char> {
    match content_type_spec(
        looks_like_svg_spec(bytes),
        if looks_like_svg_spec(bytes) {
            None
        } else {
            spec_guess_format(bytes)
        },
    ) {
        Some(t) => t,
        None => "application/octet-stream"@,
    }
}

/// The formats that are resized.
pub open spec fn resizable(k: ImageKind) -> bool {
    k == ImageKind::Png || k == ImageKind::Jpeg || k == ImageKind::WebP
}

/// The answer for a stored area image: its bytes and content type, or an
/// error. SVG images, images without a requested size and images of other
/// formats are served unchanged; others are fitted into the requested
/// bounds and re-encoded in their format, unless they already fit. A
/// failure to decode, to size or to encode is a database error.
pub open spec fn image_answer(bytes: Seq<u8>, w: Option<u32>, h: Option<u32>) -> Option<
    (Seq<u8>, Seq<char>),
> {
    if (w is None && h is None) || looks_like_svg_spec(bytes) || !(spec_guess_format(bytes) matches Some(
        k,
    ) && resizable(k)) {
        Some((bytes, served_type(bytes)))
    } else {
        let k = spec_guess_format(bytes)->0;
        match spec_decoded_size(bytes) {
            None => None,
            Some((sw, sh)) => if !fit_defined(sw, sh, w, h) {
                None
            } else {
                let (tw, th) = fit_spec(sw, sh, w, h);
                if tw == sw && th == sh {
                    Some((bytes, kind_type(k)))
                } else {
                    match spec_resized(bytes, k, tw as u32, th as u32) {
                        Some(out) => Some((out, kind_type(k))),
                        None => None,
                    }
                }
            },
        }
    }
}

/// Serves a stored area image at the requested size.
pub fn image_response(bytes: Vec<u8>, w: Option<u32>, h: Option<u32>) -> (r: Result<
    (Vec<u8>, String),
    RestApiError,
>)
    ensures
        r is Ok <==> image_answer(bytes@, w, h) is Some,
        r matches Ok(p) ==> image_answer(bytes@, w, h) == Some((p.0@, p.1@)),
        r matches Err(e) ==> e.code == RestApiErrorCode::Database,
{
    let svg = looks_like_svg(bytes.as_slice());
    let resize_requested = w.is_some() || h.is_some();
    let as_is = if !resize_requested || svg {
        true
    } else {
        match guess_format(bytes.as_slice()) {
            Some(k) => !(k == ImageKind::Png || k == ImageKind::Jpeg || k == ImageKind::WebP),
            None => true,
        }
    };
    if as_is {
        let ct = match content_type_for(bytes.as_slice()) {
            Some(t) => t,
            None => String::from_str("application/octet-stream"),
        };
        return Ok((bytes, ct));
    }
    let k = match guess_format(bytes.as_slice()) {
        Some(k) => k,
        None => {
            return Err(RestApiError::database());
        },
    };
    let (sw, sh) = match decoded_size(bytes.as_slice()) {
        Some(d) => d,
        None => {
            return Err(RestApiError::database());
        },
    };
    let defined = match (w, h) {
        (Some(mw), None) => {
            proof {
                lemma_product_fits(sh as u128, mw as u128);
            }
            mw >= sw || (sh as u64) * (mw as u64) <= u32::MAX as u64
        },
        (None, Some(mh)) => {
            proof {
                lemma_product_fits(sw as u128, mh as u128);
            }
            mh >= sh || (sw as u64) * (mh as u64) <= u32::MAX as u64
        },
        _ => true,
    };
    if !defined {
        return Err(RestApiError::database());
    }
    let (tw, th) = fit_dimensions(sw, sh, w, h);
    let ct = String::from_str(kind_type_str(k));
    if tw == sw && th == sh {
        return Ok((bytes, ct));
    }
    match resized(bytes.as_slice(), k, tw, th) {
        Some(out) => Ok((out, ct)),
        None => Err(RestApiError::database()),
    }
}

} // verus!
