//! Search over areas and places (`GET /v4/search`): the checks on the
//! arguments, the one order in which area and place rows are merged, and
//! the page that is cut from it.

use vstd::prelude::*;
use crate::order::{
    apply_order, is_permutation, lemma_name_lt_irreflexive, lemma_name_lt_total,
    lemma_name_lt_trans, name_before, name_lt,
};
use crate::rest::error::{RestApiError, RestApiErrorCode};
use crate::text::opt_view;
use crate::text::{str_eq, trim, trimmed};

verus! {

/// The fewest characters a query may have, once trimmed.
pub const MIN_QUERY_LEN: usize = 3;

/// The largest page.
pub const MAX_LIMIT: i64 = 100;

/// The largest offset.
pub const MAX_OFFSET: i64 = 10_000;

/// The page size when none is given.
pub fn default_limit() -> (r: i64)
    ensures
        r == 20,
{
    20
}

/// Whether a reachable next page exists: the next offset must lie below the
/// total and within the offset cap, since beyond the cap the clamp would
/// serve the same page again.
pub fn has_next_page(offset: i64, limit: i64, total: i64) -> (r: bool)
    requires
        i64::MIN <= offset + limit <= i64::MAX,
    ensures
        r == (offset + limit < total && offset + limit <= MAX_OFFSET),
{
    let next_offset = offset + limit;
    next_offset < total && next_offset <= MAX_OFFSET
}

/// The arguments of a search. The coordinates themselves only serve to
/// measure distances; what the checks read is whether each was given.
pub struct SearchArgs {
    pub q: String,
    pub limit: i64,
    pub offset: i64,
    pub has_lat: bool,
    pub has_lon: bool,
    /// `area` or `place`; `None` for both.
    pub type_filter: Option<String>,
}

/// What a checked search asks for.
pub struct SearchPlan {
    /// The trimmed query.
    pub query: String,
    pub want_area: bool,
    pub want_place: bool,
    /// Whether places are ranked by distance from the given point.
    pub use_location: bool,
    pub limit: i64,
    pub offset: i64,
    /// How many rows each side must return: enough to cover the page.
    pub row_limit: i64,
}

pub open spec fn clamp(x: int, lo: int, hi: int) -> int {
    if x < lo {
        lo
    } else if x > hi {
        hi
    } else {
        x
    }
}

/// The query is long enough once trimmed.
pub open spec fn query_ok(q: Seq<char>) -> bool {
    trimmed(q).len() >= MIN_QUERY_LEN
}

/// The kinds of rows (areas, places) that a type filter asks for; `None`
/// when the filter is not understood.
pub open spec fn wanted_kinds(type_filter: Option<Seq<char>>) -> Option<(bool, bool)> {
    match type_filter {
        None => Some((true, true)),
        Some(t) => if t == "area"@ {
            Some((true, false))
        } else if t == "place"@ {
            Some((false, true))
        } else {
            None
        },
    }
}

/// A plan as checking produces it.
pub open spec fn plan_valid(p: SearchPlan) -> bool {
    &&& 1 <= p.limit <= MAX_LIMIT
    &&& 0 <= p.offset <= MAX_OFFSET
    &&& p.row_limit == p.offset + p.limit
}

/// Checks the arguments of a search and fixes the page: the trimmed query
/// must have at least three characters, the type filter must be `area` or
/// `place` if given, and `lat` and `lon` come together or not at all. The
/// limit is clamped to `1..=MAX_LIMIT` and the offset to `0..=MAX_OFFSET`.
pub fn plan_search(args: &SearchArgs) -> (r: Result<SearchPlan, RestApiError>)
    ensures
        r is Ok <==> query_ok(args.q@) && wanted_kinds(opt_view(args.type_filter)) is Some
            && args.has_lat == args.has_lon,
        r matches Ok(p) ==> {
            &&& plan_valid(p)
            &&& p.query@ == trimmed(args.q@)
            &&& (p.want_area, p.want_place) == wanted_kinds(opt_view(args.type_filter))->0
            &&& p.use_location == args.has_lat
            &&& p.limit == clamp(args.limit as int, 1, MAX_LIMIT as int)
            &&& p.offset == clamp(args.offset as int, 0, MAX_OFFSET as int)
        },
        r matches Err(e) ==> e.code == RestApiErrorCode::InvalidInput && e.message@ == (if !query_ok(
            args.q@,
        ) {
            "Search query must be at least 3 characters long"@
        } else if wanted_kinds(opt_view(args.type_filter)) is None {
            "type_filter must be 'area' or 'place'"@
        } else {
            "lat and lon must be provided together"@
        }),
{
    let query = trim(args.q.as_str());
    if query.as_str().unicode_len() < MIN_QUERY_LEN {
        return Err(
            RestApiError::new(
                RestApiErrorCode::InvalidInput,
                "Search query must be at least 3 characters long",
            ),
        );
    }
    let (want_area, want_place) = match &args.type_filter {
        None => (true, true),
        Some(t) => {
            if str_eq(t.as_str(), "area") {
                (true, false)
            } else if str_eq(t.as_str(), "place") {
                (false, true)
            } else {
                return Err(
                    RestApiError::new(
                        RestApiErrorCode::InvalidInput,
                        "type_filter must be 'area' or 'place'",
                    ),
                );
            }
        },
    };
    if args.has_lat != args.has_lon {
        return Err(
            RestApiError::new(
                RestApiErrorCode::InvalidInput,
                "lat and lon must be provided together",
            ),
        );
    }
    let limit = if args.limit < 1 {
        1
    } else if args.limit > MAX_LIMIT {
        MAX_LIMIT
    } else {
        args.limit
    };
    let offset = if args.offset < 0 {
        0
    } else if args.offset > MAX_OFFSET {
        MAX_OFFSET
    } else {
        args.offset
    };
    Ok(
        SearchPlan {
            query,
            want_area,
            want_place,
            use_location: args.has_lat,
            limit,
            offset,
            row_limit: offset + limit,
        },
    )
}

/// The sort key of one candidate row. Areas have `kind` 0 and places 1, so
/// that areas come first at equal rank; `distance` orders places by how far
/// they are from the given point (0 without one), as an order-preserving
/// integer image of the distance; `id` makes the order total.
pub struct SearchKey {
    pub rank: i64,
    pub kind: u8,
    pub distance: u64,
    pub name: String,
    pub id: i64,
}

/// The merged order of search rows: by rank, kind, distance, name length,
/// name and id, each ascending.
pub open spec fn key_lt(a: SearchKey, b: SearchKey) -> bool {
    if a.rank != b.rank {
        a.rank < b.rank
    } else if a.kind != b.kind {
        a.kind < b.kind
    } else if a.distance != b.distance {
        a.distance < b.distance
    } else if a.name@.len() != b.name@.len() {
        a.name@.len() < b.name@.len()
    } else if a.name@ != b.name@ {
        name_lt(a.name@, b.name@)
    } else {
        a.id < b.id
    }
}

/// Two keys that no part of the order tells apart.
pub open spec fn key_same(a: SearchKey, b: SearchKey) -> bool {
    &&& a.rank == b.rank
    &&& a.kind == b.kind
    &&& a.distance == b.distance
    &&& a.name@ == b.name@
    &&& a.id == b.id
}

/// In a stable sort of `keys`, row `i` comes before row `j`.
pub open spec fn row_precedes(keys: Seq<SearchKey>, i: int, j: int) -> bool {
    if key_same(keys[i], keys[j]) {
        i < j
    } else {
        key_lt(keys[i], keys[j])
    }
}

/// `ord` lists the rows of `keys`, each once, in the order a stable sort by
/// key leaves them.
pub open spec fn is_search_order(keys: Seq<SearchKey>, ord: Seq<usize>) -> bool {
    &&& ord.len() == keys.len()
    &&& forall|k: int| 0 <= k < ord.len() ==> (#[trigger] ord[k]) < keys.len()
    &&& forall|k: int, l: int|
        0 <= k < l < ord.len() ==> row_precedes(keys, #[trigger] ord[k] as int, #[trigger] ord[l] as int)
}

proof fn lemma_precedes_total(keys: Seq<SearchKey>, i: int, j: int)
    requires
        i != j,
    ensures
        row_precedes(keys, i, j) || row_precedes(keys, j, i),
        !(row_precedes(keys, i, j) && row_precedes(keys, j, i)),
{
    let a = keys[i];
    let b = keys[j];
    if a.rank == b.rank && a.kind == b.kind && a.distance == b.distance && a.name@.len()
        == b.name@.len() && a.name@ != b.name@ {
        lemma_name_lt_total(a.name@, b.name@);
    }
}

proof fn lemma_precedes_trans(keys: Seq<SearchKey>, i: int, j: int, l: int)
    requires
        row_precedes(keys, i, j),
        row_precedes(keys, j, l),
    ensures
        row_precedes(keys, i, l),
{
    let a = keys[i];
    let b = keys[j];
    let c = keys[l];
    lemma_name_lt_irreflexive(a.name@);
    lemma_name_lt_irreflexive(b.name@);
    if a.rank == b.rank && b.rank == c.rank && a.kind == b.kind && b.kind == c.kind && a.distance
        == b.distance && b.distance == c.distance && a.name@.len() == b.name@.len() && b.name@.len()
        == c.name@.len() {
        if a.name@ != b.name@ && b.name@ != c.name@ {
            lemma_name_lt_trans(a.name@, b.name@, c.name@);
            if a.name@ == c.name@ {
                lemma_name_lt_total(a.name@, b.name@);
            }
        }
    }
}

/// Whether key `a` sorts strictly before key `b`.
fn key_before(a: &SearchKey, b: &SearchKey) -> (r: bool)
    ensures
        r == key_lt(*a, *b),
{
    if a.rank != b.rank {
        a.rank < b.rank
    } else if a.kind != b.kind {
        a.kind < b.kind
    } else if a.distance != b.distance {
        a.distance < b.distance
    } else {
        let la = a.name.as_str().unicode_len();
        let lb = b.name.as_str().unicode_len();
        if la != lb {
            la < lb
        } else if !str_eq(a.name.as_str(), b.name.as_str()) {
            name_before(a.name.as_str(), b.name.as_str())
        } else {
            a.id < b.id
        }
    }
}

/// The order of the rows of `keys` that a stable sort by key gives.
pub fn search_order(keys: &Vec<SearchKey>) -> (ord: Vec<usize>)
    ensures
        is_search_order(keys@, ord@),
{
    let n = keys.len();
    let mut ord: Vec<usize> = Vec::new();
    let mut i: usize = 0;
    while i < n
        invariant
            n == keys@.len(),
            i <= n,
            ord@.len() == i,
            forall|k: int| 0 <= k < ord@.len() ==> (#[trigger] ord@[k]) < i,
            forall|k: int, l: int|
                0 <= k < l < ord@.len() ==> row_precedes(keys@, #[trigger] ord@[k] as int, #[trigger] ord@[l] as int),
        decreases n - i,
    {
        let mut p: usize = 0;
        while p < ord.len() && !key_before(&keys[i], &keys[ord[p]])
            invariant
                n == keys@.len(),
                i < n,
                p <= ord@.len(),
                ord@.len() == i,
                forall|k: int| 0 <= k < ord@.len() ==> (#[trigger] ord@[k]) < i,
                forall|k: int| 0 <= k < p ==> row_precedes(keys@, #[trigger] ord@[k] as int, i as int),
            decreases ord@.len() - p,
        {
            proof {
                let e = ord@[p as int] as int;
                assert(e < i);
                lemma_precedes_total(keys@, e, i as int);
                assert(row_precedes(keys@, e, i as int));
            }
            p = p + 1;
        }
        let ghost old_ord = ord@;
        proof {
            if p < old_ord.len() {
                let e = old_ord[p as int] as int;
                assert(e < i);
                assert(row_precedes(keys@, i as int, e));
            }
        }
        ord.insert(p, i);
        proof {
            assert(ord@ == old_ord.insert(p as int, i));
            assert forall|k: int| 0 <= k < ord@.len() implies (#[trigger] ord@[k]) < i + 1 by {
                if k < p {
                    assert(ord@[k] == old_ord[k]);
                } else if k > p {
                    assert(ord@[k] == old_ord[k - 1]);
                }
            }
            assert forall|k: int, l: int| 0 <= k < l < ord@.len() implies row_precedes(
                keys@,
                #[trigger] ord@[k] as int,
                #[trigger] ord@[l] as int,
            ) by {
                if l < p {
                    assert(ord@[k] == old_ord[k] && ord@[l] == old_ord[l]);
                } else if l == p {
                    assert(ord@[k] == old_ord[k]);
                } else if k == p {
                    assert(ord@[l] == old_ord[l - 1]);
                    if l - 1 > p {
                        lemma_precedes_trans(
                            keys@,
                            i as int,
                            old_ord[p as int] as int,
                            old_ord[l - 1] as int,
                        );
                    }
                } else if k < p {
                    assert(ord@[k] == old_ord[k] && ord@[l] == old_ord[l - 1]);
                } else {
                    assert(ord@[k] == old_ord[k - 1] && ord@[l] == old_ord[l - 1]);
                }
            }
        }
        i = i + 1;
    }
    ord
}

/// The part of `s` that a page at `offset` of `limit` rows shows.
pub open spec fn page_of<T>(s: Seq<T>, offset: int, limit: int) -> Seq<T> {
    let start = if offset < s.len() {
        offset
    } else {
        s.len() as int
    };
    let end = if offset + limit < s.len() {
        offset + limit
    } else {
        s.len() as int
    };
    s.subrange(start, end)
}

/// Every row appears in a search order.
proof fn lemma_search_order_covers(keys: Seq<SearchKey>, ord: Seq<usize>, x: int)
    requires
        is_search_order(keys, ord),
        0 <= x < keys.len(),
    ensures
        exists|p: int| 0 <= p < ord.len() && ord[p] == x,
{
    let s = ord.map_values(|u: usize| u as int);
    assert forall|i: int, j: int| 0 <= i < s.len() && 0 <= j < s.len() && i != j implies s[i] != s[j] by {
        if i < j {
            assert(row_precedes(keys, ord[i] as int, ord[j] as int));
        } else {
            assert(row_precedes(keys, ord[j] as int, ord[i] as int));
        }
    }
    assert(s.no_duplicates());
    s.unique_seq_to_set();
    vstd::set_lib::lemma_int_range(0, keys.len() as int);
    let range = vstd::set_lib::set_int_range(0, keys.len() as int);
    assert forall|v: int| s.to_set().contains(v) implies range.contains(v) by {
        let i = choose|i: int| 0 <= i < s.len() && s[i] == v;
        assert(ord[i] < keys.len());
    }
    assert(s.to_set().subset_of(range));
    vstd::set_lib::lemma_subset_equality(s.to_set(), range);
    assert(range.contains(x));
    assert(s.to_set().contains(x));
    let p = choose|p: int| 0 <= p < s.len() && s[p] == x;
    assert(ord[p] == x);
}

proof fn lemma_orders_agree_at(keys: Seq<SearchKey>, o1: Seq<usize>, o2: Seq<usize>, k: int)
    requires
        is_search_order(keys, o1),
        is_search_order(keys, o2),
        0 <= k < o1.len(),
    ensures
        o1[k] == o2[k],
    decreases k,
{
    if k > 0 {
        lemma_orders_agree_at(keys, o1, o2, k - 1);
    }
    let a = o1[k] as int;
    let b = o2[k] as int;
    if a != b {
        lemma_search_order_covers(keys, o2, a);
        lemma_search_order_covers(keys, o1, b);
        let p = choose|p: int| 0 <= p < o2.len() && o2[p] == a;
        let q = choose|q: int| 0 <= q < o1.len() && o1[q] == b;
        assert forall|j: int| 0 <= j < k implies o1[j] == o2[j] by {
            lemma_orders_agree_at(keys, o1, o2, j);
        }
        if p < k {
            assert(o1[p] == o2[p]);
            assert(row_precedes(keys, o1[p] as int, o1[k] as int));
            assert(false);
        }
        if q < k {
            assert(o1[q] == o2[q]);
            assert(row_precedes(keys, o2[q] as int, o2[k] as int));
            assert(false);
        }
        assert(row_precedes(keys, a, b));
        assert(row_precedes(keys, b, a));
        lemma_precedes_total(keys, a, b);
    }
}

/// The merged order is a function of the rows' keys: any two runs over the
/// same candidate rows order them alike, so the pages cut from separate
/// runs tile one order and show every row exactly once.
pub proof fn law_search_order_unique(keys: Seq<SearchKey>, o1: Seq<usize>, o2: Seq<usize>)
    requires
        is_search_order(keys, o1),
        is_search_order(keys, o2),
    ensures
        o1 == o2,
{
    assert forall|k: int| 0 <= k < o1.len() implies o1[k] == o2[k] by {
        lemma_orders_agree_at(keys, o1, o2, k);
    }
    assert(o1 =~= o2);
}

/// Consecutive pages tile the order: the page at `offset` of `limit` rows
/// followed by the page right after it of `more` rows is the page at
/// `offset` of `limit + more` rows, so paging through the order shows each
/// row once.
pub proof fn law_pages_tile<T>(s: Seq<T>, offset: int, limit: int, more: int)
    requires
        0 <= offset,
        0 <= limit,
        0 <= more,
    ensures
        page_of(s, offset, limit) + page_of(s, offset + limit, more) == page_of(
            s,
            offset,
            limit + more,
        ),
{
    assert(page_of(s, offset, limit) + page_of(s, offset + limit, more) =~= page_of(
        s,
        offset,
        limit + more,
    ));
}

/// `s` lists keys strictly in the merged order.
pub open spec fn key_sorted(s: Seq<SearchKey>) -> bool {
    forall|i: int, j: int| 0 <= i < j < s.len() ==> key_lt(#[trigger] s[i], #[trigger] s[j])
}

/// `top` is what a query that returns the first `r` rows of `all` in the
/// merged order gives: rows of `all`, as many as `r` allows, and every row
/// it leaves out comes after every row it returns.
pub open spec fn top_rows(all: Set<SearchKey>, top: Set<SearchKey>, r: int) -> bool {
    &&& top.subset_of(all)
    &&& top.len() == (if r < all.len() {
        r
    } else {
        all.len() as int
    })
    &&& forall|x: SearchKey, y: SearchKey|
        #![trigger all.contains(x), top.contains(y)]
        all.contains(x) && !top.contains(x) && top.contains(y) ==> key_lt(y, x)
}

proof fn lemma_key_lt_asym(a: SearchKey, b: SearchKey)
    ensures
        !(key_lt(a, b) && key_lt(b, a)),
{
    lemma_name_lt_irreflexive(a.name@);
    if a.rank == b.rank && a.kind == b.kind && a.distance == b.distance && a.name@.len()
        == b.name@.len() && a.name@ != b.name@ {
        lemma_name_lt_total(a.name@, b.name@);
    }
}

proof fn lemma_sorted_set(s: Seq<SearchKey>)
    requires
        key_sorted(s),
    ensures
        s.no_duplicates(),
        s.to_set().finite(),
        s.to_set().len() == s.len(),
{
    assert forall|i: int, j: int| 0 <= i < s.len() && 0 <= j < s.len() && i != j implies s[i]
        != s[j] by {
        if i < j {
            assert(key_lt(s[i], s[j]));
        } else {
            assert(key_lt(s[j], s[i]));
        }
        lemma_key_lt_asym(s[i], s[j]);
    }
    s.unique_seq_to_set();
    vstd::seq_lib::seq_to_set_is_finite(s);
}

proof fn lemma_sorted_take(s: Seq<SearchKey>, k: int)
    requires
        key_sorted(s),
        0 <= k <= s.len(),
    ensures
        key_sorted(s.take(k)),
        s.take(k).to_set().finite(),
        s.take(k).to_set().len() == k,
{
    assert forall|i: int, j: int| 0 <= i < j < s.take(k).len() implies key_lt(
        #[trigger] s.take(k)[i],
        #[trigger] s.take(k)[j],
    ) by {
        assert(s.take(k)[i] == s[i] && s.take(k)[j] == s[j]);
    }
    lemma_sorted_set(s.take(k));
}

/// Two sorted lists of the same keys are the same list.
proof fn lemma_sorted_same_set(s: Seq<SearchKey>, t: Seq<SearchKey>)
    requires
        key_sorted(s),
        key_sorted(t),
        s.to_set() == t.to_set(),
    ensures
        s == t,
    decreases s.len(),
{
    lemma_sorted_set(s);
    lemma_sorted_set(t);
    if s.len() > 0 {
        assert(s.to_set().contains(s[0]));
        assert(t.to_set().contains(t[0]));
        let j = choose|j: int| 0 <= j < s.len() && s[j] == t[0];
        let i = choose|i: int| 0 <= i < t.len() && t[i] == s[0];
        if j > 0 && i > 0 {
            assert(key_lt(s[0], s[j]));
            assert(key_lt(t[0], t[i]));
            lemma_key_lt_asym(s[0], t[0]);
        }
        let s1 = s.drop_first();
        let t1 = t.drop_first();
        assert forall|x: SearchKey| s1.to_set().contains(x) <==> t1.to_set().contains(x) by {
            if s1.to_set().contains(x) {
                let a = choose|a: int| 0 <= a < s1.len() && s1[a] == x;
                assert(s[a + 1] == x);
                assert(s.to_set().contains(x));
                let b = choose|b: int| 0 <= b < t.len() && t[b] == x;
                if b == 0 {
                    assert(s[0] == x);
                }
                assert(t1[b - 1] == x);
            }
            if t1.to_set().contains(x) {
                let a = choose|a: int| 0 <= a < t1.len() && t1[a] == x;
                assert(t[a + 1] == x);
                assert(t.to_set().contains(x));
                let b = choose|b: int| 0 <= b < s.len() && s[b] == x;
                if b == 0 {
                    assert(t[0] == x);
                }
                assert(s1[b - 1] == x);
            }
        }
        assert(s1.to_set() =~= t1.to_set());
        assert(key_sorted(s1)) by {
            assert forall|a: int, b: int| 0 <= a < b < s1.len() implies key_lt(
                #[trigger] s1[a],
                #[trigger] s1[b],
            ) by {
                assert(s1[a] == s[a + 1] && s1[b] == s[b + 1]);
            }
        }
        assert(key_sorted(t1)) by {
            assert forall|a: int, b: int| 0 <= a < b < t1.len() implies key_lt(
                #[trigger] t1[a],
                #[trigger] t1[b],
            ) by {
                assert(t1[a] == t[a + 1] && t1[b] == t[b + 1]);
            }
        }
        lemma_sorted_same_set(s1, t1);
        assert(s =~= seq![s[0]] + s1);
        assert(t =~= seq![t[0]] + t1);
    } else {
        assert(t.len() == 0);
        assert(s =~= t);
    }
}

/// The keys that come before position `i` of a sorted list are its first
/// `i` keys.
proof fn lemma_before_in_take(s: Seq<SearchKey>, i: int, y: SearchKey)
    requires
        key_sorted(s),
        0 <= i < s.len(),
        s.to_set().contains(y),
        key_lt(y, s[i]),
    ensures
        s.take(i).to_set().contains(y),
{
    let j = choose|j: int| 0 <= j < s.len() && s[j] == y;
    lemma_key_lt_asym(y, s[i]);
    if j > i {
        assert(key_lt(s[i], s[j]));
    }
    if j == i {
        lemma_name_lt_irreflexive(y.name@);
    }
    assert(s.take(i)[j] == y);
}

/// A row among the first `r` of the full merge is among the first `r` of
/// its own side, so the query of that side returns it.
proof fn lemma_top_row_returned(
    all: Set<SearchKey>,
    top: Set<SearchKey>,
    full: Seq<SearchKey>,
    r: int,
    i: int,
)
    requires
        key_sorted(full),
        all.finite(),
        all.subset_of(full.to_set()),
        top_rows(all, top, r),
        0 <= i < r,
        i < full.len(),
        all.contains(full[i]),
    ensures
        top.contains(full[i]),
{
    let x = full[i];
    if !top.contains(x) {
        lemma_sorted_take(full, i);
        assert forall|y: SearchKey| top.contains(y) implies full.take(i).to_set().contains(y) by {
            assert(key_lt(y, x));
            lemma_before_in_take(full, i, y);
        }
        vstd::set_lib::lemma_len_subset(top, full.take(i).to_set());
        vstd::set_lib::lemma_len_subset(top.insert(x), all);
    }
}

/// Where no two candidate rows share a key (the id settles every tie), the
/// merged order lists the keys strictly in key order: the list that
/// `law_search_pages_from_top_rows` speaks of is the one `merge_page` cuts
/// its page from.
pub proof fn law_search_order_is_key_order(keys: Seq<SearchKey>, ord: Seq<usize>)
    requires
        is_search_order(keys, ord),
        forall|i: int, j: int|
            0 <= i < keys.len() && 0 <= j < keys.len() && i != j ==> !key_same(
                #[trigger] keys[i],
                #[trigger] keys[j],
            ),
    ensures
        key_sorted(Seq::new(ord.len(), |k: int| keys[ord[k] as int])),
{
    let s = Seq::new(ord.len(), |k: int| keys[ord[k] as int]);
    assert forall|a: int, b: int| 0 <= a < b < s.len() implies key_lt(
        #[trigger] s[a],
        #[trigger] s[b],
    ) by {
        let i = ord[a] as int;
        let j = ord[b] as int;
        assert(row_precedes(keys, i, j));
        if i != j {
            assert(!key_same(keys[i], keys[j]));
        }
    }
}

/// Paging through search results over separate calls shows the full merge.
/// Each call reads only the first `offset + limit` rows of each side (areas
/// and places) in the merged order, merges what it read and cuts its page:
/// that page is the page at `offset` of `limit` rows of the merge of all
/// matching rows. With `law_pages_tile`, single-row pages at offsets 0 to
/// n - 1 show each of the n matching rows once.
pub proof fn law_search_pages_from_top_rows(
    areas: Set<SearchKey>,
    places: Set<SearchKey>,
    area_top: Set<SearchKey>,
    place_top: Set<SearchKey>,
    full: Seq<SearchKey>,
    merged: Seq<SearchKey>,
    offset: int,
    limit: int,
)
    requires
        0 <= offset,
        0 <= limit,
        key_sorted(full),
        full.to_set() == areas + places,
        top_rows(areas, area_top, offset + limit),
        top_rows(places, place_top, offset + limit),
        key_sorted(merged),
        merged.to_set() == area_top + place_top,
    ensures
        page_of(merged, offset, limit) == page_of(full, offset, limit),
{
    let r = offset + limit;
    let rr = if r < full.len() {
        r
    } else {
        full.len() as int
    };
    lemma_sorted_set(full);
    lemma_sorted_set(merged);
    vstd::set_lib::lemma_len_subset(areas, full.to_set());
    vstd::set_lib::lemma_len_subset(places, full.to_set());
    lemma_sorted_take(full, rr);
    let head = full.take(rr);
    // The first rows of the full merge are all read.
    assert forall|x: SearchKey| head.to_set().contains(x) implies merged.to_set().contains(x) by {
        let i = choose|i: int| 0 <= i < head.len() && head[i] == x;
        assert(full[i] == x);
        assert(full.to_set().contains(x));
        if areas.contains(x) {
            lemma_top_row_returned(areas, area_top, full, r, i);
        } else {
            lemma_top_row_returned(places, place_top, full, r, i);
        }
    }
    vstd::set_lib::lemma_len_subset(head.to_set(), merged.to_set());
    assert(merged.to_set().subset_of(full.to_set()));
    // So they are the first rows of the merge of what was read.
    lemma_sorted_take(merged, rr);
    let mhead = merged.take(rr);
    assert forall|z: SearchKey| mhead.to_set().contains(z) implies head.to_set().contains(z) by {
        let k = choose|k: int| 0 <= k < mhead.len() && mhead[k] == z;
        assert(merged[k] == z);
        assert(merged.to_set().contains(z));
        assert(full.to_set().contains(z));
        let p = choose|p: int| 0 <= p < full.len() && full[p] == z;
        if p >= rr {
            lemma_sorted_take(merged, k);
            assert forall|t: SearchKey| head.to_set().contains(t) implies merged.take(
                k,
            ).to_set().contains(t) by {
                let q = choose|q: int| 0 <= q < head.len() && head[q] == t;
                assert(full[q] == t);
                assert(key_lt(t, z));
                assert(merged.to_set().contains(t));
                lemma_before_in_take(merged, k, t);
            }
            vstd::set_lib::lemma_len_subset(head.to_set(), merged.take(k).to_set());
        }
        assert(head[p] == z);
    }
    vstd::set_lib::lemma_subset_equality(mhead.to_set(), head.to_set());
    lemma_sorted_same_set(mhead, head);
    if r >= full.len() {
        vstd::set_lib::lemma_len_subset(merged.to_set(), full.to_set());
        assert(merged.len() == full.len());
        assert(merged =~= mhead);
        assert(full =~= head);
    } else {
        assert(merged.len() >= r);
        assert(page_of(merged, offset, limit) =~= mhead.subrange(offset, r));
        assert(page_of(full, offset, limit) =~= head.subrange(offset, r));
    }
    assert(page_of(merged, offset, limit) =~= page_of(full, offset, limit));
}

/// Puts the candidate rows in the merged order and cuts the page at
/// `offset` of `limit` rows from it. `keys[i]` is the key of `results[i]`.
pub fn merge_page<T>(keys: &Vec<SearchKey>, results: Vec<T>, offset: i64, limit: i64) -> (r: Vec<T>)
    requires
        keys@.len() == results@.len(),
        0 <= offset <= MAX_OFFSET,
        0 <= limit <= MAX_LIMIT,
    ensures
        exists|ord: Seq<usize>|
            is_search_order(keys@, ord) && r@ == page_of(
                Seq::new(ord.len(), |k: int| results@[ord[k] as int]),
                offset as int,
                limit as int,
            ),
{
    let ord = search_order(keys);
    proof {
        assert forall|k: int, l: int| 0 <= k < l < ord@.len() implies #[trigger] ord@[k]
            != #[trigger] ord@[l] by {
            assert(row_precedes(keys@, ord@[k] as int, ord@[l] as int));
        }
        assert(is_permutation(ord@, results@.len()));
    }
    let ghost ordered = Seq::new(ord@.len(), |k: int| results@[ord@[k] as int]);
    let mut v = apply_order(results, &ord);
    let n = v.len();
    let off = offset as usize;
    let lim = limit as usize;
    let end = if off + lim < n {
        off + lim
    } else {
        n
    };
    v.truncate(end);
    let start = if off < n {
        off
    } else {
        n
    };
    let page = v.split_off(start);
    assert(page@ =~= page_of(ordered, offset as int, limit as int));
    page
}

/// The pagination block of a search response.
pub struct PaginationInfo {
    pub offset: i64,
    pub limit: i64,
    pub total: u32,
}

/// A search response over results of type `T`.
pub struct SearchResponse<T> {
    pub results: Vec<T>,
    pub total_count: u32,
    pub has_more: bool,
    pub query: String,
    pub pagination: PaginationInfo,
}

/// The count that a response reports for `total` matches: negative counts
/// become 0 and the count is kept modulo 2^32, as a cast to `u32` keeps it.
pub open spec fn reported_total(total: int) -> int {
    if total < 0 {
        0
    } else {
        total % 0x1_0000_0000
    }
}

/// The number of matches over both kinds: each count is `None` when that
/// kind was not searched.
pub open spec fn match_count(area_total: Option<i64>, place_total: Option<i64>) -> int {
    (match area_total {
        Some(a) => a as int,
        None => 0,
    }) + (match place_total {
        Some(p) => p as int,
        None => 0,
    })
}

/// Assembles the response of a checked search from the candidate rows
/// (`keys[i]` is the key of `results[i]`) and the match counts of the kinds
/// that were searched.
pub fn search_response<T>(
    plan: SearchPlan,
    keys: &Vec<SearchKey>,
    results: Vec<T>,
    area_total: Option<i64>,
    place_total: Option<i64>,
) -> (r: SearchResponse<T>)
    requires
        plan_valid(plan),
        keys@.len() == results@.len(),
        i64::MIN <= match_count(area_total, place_total) <= i64::MAX,
    ensures
        exists|ord: Seq<usize>|
            is_search_order(keys@, ord) && r.results@ == page_of(
                Seq::new(ord.len(), |k: int| results@[ord[k] as int]),
                plan.offset as int,
                plan.limit as int,
            ),
        r.total_count == reported_total(match_count(area_total, place_total)),
        r.has_more == (plan.offset + plan.limit < r.total_count && plan.offset + plan.limit
            <= MAX_OFFSET),
        r.query == plan.query,
        r.pagination.offset == plan.offset,
        r.pagination.limit == plan.limit,
        r.pagination.total == r.total_count,
{
    let mut total: i64 = 0;
    match area_total {
        Some(a) => {
            total = a;
        },
        None => {},
    }
    match place_total {
        Some(p) => {
            total = total + p;
        },
        None => {},
    }
    let kept: i64 = if total < 0 {
        0
    } else {
        total % 0x1_0000_0000
    };
    let total32 = kept as u32;
    let page = merge_page(keys, results, plan.offset, plan.limit);
    let has_more = has_next_page(plan.offset, plan.limit, total32 as i64);
    SearchResponse {
        results: page,
        total_count: total32,
        has_more,
        query: plan.query,
        pagination: PaginationInfo { offset: plan.offset, limit: plan.limit, total: total32 },
    }
}

} // verus!
