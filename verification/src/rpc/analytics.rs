//! The figures of the admin dashboard and reports: per-window counts,
//! import statistics merged by origin, and the ranking of client platforms.

use vstd::prelude::*;
use crate::dates::{EARLIEST_NANOS, LATEST_NANOS, NANOS_PER_DAY};
use crate::order::{
    apply_order, is_stable_order, lemma_stable_order_is_permutation, lemma_text_lt_order,
    stable_order, text_before, text_lt,
};

verus! {

/// A count over the last day, week (7 days) and month (30 days).
#[derive(Debug, Clone, Copy, PartialEq, Eq, Structural)]
pub struct PeriodCounts {
    pub d1: i64,
    pub d7: i64,
    pub d30: i64,
}

/// Added, updated and deleted places per window.
#[derive(Debug, Clone, Copy)]
pub struct PlaceStats {
    pub added: PeriodCounts,
    pub updated: PeriodCounts,
    pub deleted: PeriodCounts,
}

/// The submissions of one import origin, per window.
#[derive(Debug)]
pub struct ImportOriginStats {
    pub origin: String,
    pub total: PeriodCounts,
    pub pending: PeriodCounts,
    pub revoked: PeriodCounts,
}

/// One row of the per-origin submission counts of one window.
#[derive(Debug)]
pub struct OriginCounts {
    pub origin: String,
    pub total: i64,
    pub pending: i64,
    pub revoked: i64,
}

/// An RPC method and how often it was called.
#[derive(Debug)]
pub struct TopRpc {
    pub method: String,
    pub count: i64,
}

/// A REST call and how often it was made.
#[derive(Debug)]
pub struct TopRestApiCall {
    pub method: String,
    pub path: String,
    pub count: i64,
}

/// What the request log shows.
#[derive(Debug)]
pub struct LogStats {
    pub file_size_bytes: u64,
    pub requests: PeriodCounts,
    pub top_rpcs: Vec<TopRpc>,
    pub top_rest_api_calls: Vec<TopRestApiCall>,
}

/// The balances of the project's wallets.
#[derive(Debug, Clone, Copy, PartialEq, Eq, Structural)]
pub struct Wallets {
    pub spending: i64,
    pub donations: i64,
    pub treasury: i64,
}

/// Unique client IPs of the last day, by platform.
#[derive(Debug, Clone, Copy, PartialEq, Eq, Structural)]
pub struct PlatformUniqueIps24h {
    pub web: i64,
    pub android: i64,
    pub ios: i64,
    pub other_humans: i64,
    pub bots: i64,
}

/// Requests and unique IPs of one platform.
#[derive(Debug, Clone, Copy)]
pub struct PlatformStats {
    pub requests: i64,
    pub unique_ips: i64,
}

/// A user agent, its requests and unique IPs.
#[derive(Debug)]
pub struct TopUserAgent {
    pub user_agent: String,
    pub count: i64,
    pub unique_ips: i64,
}

/// How many users there are, and how many joined in the last day and month.
#[derive(Debug, Clone, Copy)]
pub struct UserStats {
    pub total: i64,
    pub new_1d: i64,
    pub new_1m: i64,
}

/// A client IP and its number of requests.
#[derive(Debug)]
pub struct TopIp {
    pub ip: String,
    pub count: i64,
}

/// The wallet figures to show: those fetched, or zeros when fetching failed.
pub fn wallets_or_zero(fetched: Option<Wallets>) -> (r: Wallets)
    ensures
        r == match fetched {
            Some(w) => w,
            None => Wallets { spending: 0, donations: 0, treasury: 0 },
        },
{
    match fetched {
        Some(w) => w,
        None => Wallets { spending: 0, donations: 0, treasury: 0 },
    }
}

/// The last row of `rows` for origin `o`.
pub open spec fn last_row(rows: Seq<OriginCounts>, o: Seq<char>) -> Option<OriginCounts>
    decreases rows.len(),
{
    if rows.len() == 0 {
        None
    } else if rows.last().origin@ == o {
        Some(rows.last())
    } else {
        last_row(rows.drop_last(), o)
    }
}

/// Some row of `rows` is for origin `o`.
pub open spec fn lists_origin(rows: Seq<OriginCounts>, o: Seq<char>) -> bool {
    exists|i: int| 0 <= i < rows.len() && #[trigger] rows[i].origin@ == o
}

/// Field `f` (0 total, 1 pending, 2 revoked) of a row, 0 for no row.
pub open spec fn row_field(c: Option<OriginCounts>, f: int) -> i64 {
    match c {
        Some(c) => if f == 0 {
            c.total
        } else if f == 1 {
            c.pending
        } else {
            c.revoked
        },
        None => 0,
    }
}

/// The count of field `f` in window `w` (0 day, 1 week, 2 month) for origin
/// `o`, given the row lists of the windows read so far: the last row of
/// the origin wins, and a window not yet read counts 0.
pub open spec fn expected_count(done: Seq<Seq<OriginCounts>>, o: Seq<char>, f: int, w: int) -> i64 {
    if w < done.len() {
        row_field(last_row(done[w], o), f)
    } else {
        0
    }
}

/// The counts of one window of a `PeriodCounts`.
pub open spec fn period_at(p: PeriodCounts, w: int) -> i64 {
    if w == 0 {
        p.d1
    } else if w == 1 {
        p.d7
    } else {
        p.d30
    }
}

/// `s` holds, for its origin, the counts that the windows read so far give.
pub open spec fn stats_match(s: ImportOriginStats, done: Seq<Seq<OriginCounts>>) -> bool {
    &&& forall|w: int|
        0 <= w < 3 ==> #[trigger] period_at(s.total, w) == expected_count(done, s.origin@, 0, w)
    &&& forall|w: int|
        0 <= w < 3 ==> #[trigger] period_at(s.pending, w) == expected_count(done, s.origin@, 1, w)
    &&& forall|w: int|
        0 <= w < 3 ==> #[trigger] period_at(s.revoked, w) == expected_count(done, s.origin@, 2, w)
}

/// The entries are in strictly ascending order of origin.
pub open spec fn sorted_by_origin(acc: Seq<ImportOriginStats>) -> bool {
    forall|i: int, j: int| 0 <= i < j < acc.len() ==> text_lt(#[trigger] acc[i].origin@, #[trigger] acc[j].origin@)
}

/// Some entry is for origin `o`.
pub open spec fn has_origin(acc: Seq<ImportOriginStats>, o: Seq<char>) -> bool {
    exists|i: int| 0 <= i < acc.len() && #[trigger] acc[i].origin@ == o
}

/// Some list read so far has a row for origin `o`.
pub open spec fn seen_origin(done: Seq<Seq<OriginCounts>>, o: Seq<char>) -> bool {
    exists|w: int| 0 <= w < done.len() && #[trigger] lists_origin(done[w], o)
}

/// The accumulated entries agree with the lists read so far.
pub open spec fn merged(acc: Seq<ImportOriginStats>, done: Seq<Seq<OriginCounts>>) -> bool {
    &&& sorted_by_origin(acc)
    &&& forall|o: Seq<char>| has_origin(acc, o) <==> seen_origin(done, o)
    &&& forall|i: int| 0 <= i < acc.len() ==> stats_match(#[trigger] acc[i], done)
}

/// `p` with window `w` set to `v`.
pub open spec fn with_period_spec(p: PeriodCounts, w: int, v: i64) -> PeriodCounts {
    if w == 0 {
        PeriodCounts { d1: v, ..p }
    } else if w == 1 {
        PeriodCounts { d7: v, ..p }
    } else {
        PeriodCounts { d30: v, ..p }
    }
}

fn with_period(p: PeriodCounts, w: usize, v: i64) -> (r: PeriodCounts)
    requires
        w < 3,
    ensures
        r == with_period_spec(p, w as int, v),
{
    if w == 0 {
        PeriodCounts { d1: v, ..p }
    } else if w == 1 {
        PeriodCounts { d7: v, ..p }
    } else {
        PeriodCounts { d30: v, ..p }
    }
}

proof fn lemma_last_row_push(rows: Seq<OriginCounts>, c: OriginCounts, o: Seq<char>)
    ensures
        last_row(rows.push(c), o) == if c.origin@ == o {
            Some(c)
        } else {
            last_row(rows, o)
        },
{
    assert(rows.push(c).drop_last() =~= rows);
}

proof fn lemma_lists_origin_push(rows: Seq<OriginCounts>, c: OriginCounts, o: Seq<char>)
    ensures
        lists_origin(rows.push(c), o) == (lists_origin(rows, o) || c.origin@ == o),
{
    if lists_origin(rows.push(c), o) {
        let i = choose|i: int| 0 <= i < rows.push(c).len() && #[trigger] rows.push(c)[i].origin@ == o;
        if i < rows.len() {
            assert(rows[i].origin@ == o);
        }
    }
    if lists_origin(rows, o) {
        let i = choose|i: int| 0 <= i < rows.len() && #[trigger] rows[i].origin@ == o;
        assert(rows.push(c)[i].origin@ == o);
    }
    if c.origin@ == o {
        assert(rows.push(c)[rows.len() as int].origin@ == o);
    }
}

/// Reads the rows of window `w` into the entries, in order; a later row of
/// an origin overwrites an earlier one.
fn ingest(
    acc: &mut Vec<ImportOriginStats>,
    rows: &Vec<OriginCounts>,
    w: usize,
    Ghost(done): Ghost<Seq<Seq<OriginCounts>>>,
)
    requires
        w < 3,
        done.len() == w,
        merged(old(acc)@, done),
    ensures
        merged(final(acc)@, done.push(rows@)),
{
    let mut k: usize = 0;
    assert(rows@.subrange(0, 0) =~= Seq::<OriginCounts>::empty());
    proof {
        let d0 = done.push(rows@.subrange(0, 0));
        assert forall|o: Seq<char>| has_origin(acc@, o) <==> seen_origin(d0, o) by {
            if seen_origin(d0, o) {
                let v = choose|v: int| 0 <= v < d0.len() && #[trigger] lists_origin(d0[v], o);
                if v < done.len() {
                    assert(lists_origin(done[v], o));
                }
            }
            if seen_origin(done, o) {
                let v = choose|v: int| 0 <= v < done.len() && #[trigger] lists_origin(done[v], o);
                assert(d0[v] == done[v]);
            }
        }
        assert forall|i: int| 0 <= i < acc@.len() implies stats_match(#[trigger] acc@[i], d0) by {
            assert(stats_match(acc@[i], done));
            let o = acc@[i].origin@;
            assert forall|f: int, v: int| 0 <= v < 3 implies expected_count(d0, o, f, v)
                == expected_count(done, o, f, v) by {
                if v < done.len() {
                    assert(d0[v] == done[v]);
                }
            }
        }
    }
    while k < rows.len()
        invariant
            w < 3,
            done.len() == w,
            k <= rows@.len(),
            merged(acc@, done.push(rows@.subrange(0, k as int))),
        decreases rows@.len() - k,
    {
        let ghost before = acc@;
        let ghost d_old = done.push(rows@.subrange(0, k as int));
        let ghost d_new = done.push(rows@.subrange(0, k + 1));
        let c = &rows[k];
        proof {
            assert(rows@.subrange(0, k + 1) =~= rows@.subrange(0, k as int).push(*c));
        }
        let mut p: usize = 0;
        while p < acc.len() && text_before(acc[p].origin.as_str(), c.origin.as_str())
            invariant
                acc@ == before,
                p <= acc@.len(),
                forall|i: int| 0 <= i < p ==> text_lt(#[trigger] acc@[i].origin@, c.origin@),
            decreases acc@.len() - p,
        {
            p = p + 1;
        }
        let found = p < acc.len() && crate::text::str_eq(acc[p].origin.as_str(), c.origin.as_str());
        if found {
            let t = with_period(acc[p].total, w, c.total);
            let pe = with_period(acc[p].pending, w, c.pending);
            let rv = with_period(acc[p].revoked, w, c.revoked);
            acc[p].total = t;
            acc[p].pending = pe;
            acc[p].revoked = rv;
        } else {
            let zero = PeriodCounts { d1: 0, d7: 0, d30: 0 };
            let entry = ImportOriginStats {
                origin: c.origin.clone(),
                total: with_period(zero, w, c.total),
                pending: with_period(zero, w, c.pending),
                revoked: with_period(zero, w, c.revoked),
            };
            acc.insert(p, entry);
        }
        proof {
            let o = c.origin@;
            // Origins listed before this row keep their counts; this origin gets the row's.
            assert forall|o2: Seq<char>, f: int, v: int| 0 <= v < 3 implies #[trigger] expected_count(
                d_new,
                o2,
                f,
                v,
            ) == if v == w && o2 == o {
                row_field(Some(*c), f)
            } else {
                expected_count(d_old, o2, f, v)
            } by {
                lemma_last_row_push(rows@.subrange(0, k as int), *c, o2);
                if v < w {
                    assert(d_new[v] == d_old[v]);
                }
            }
            assert forall|o2: Seq<char>| seen_origin(d_new, o2) <==> (seen_origin(d_old, o2)
                || o2 == o) by {
                lemma_lists_origin_push(rows@.subrange(0, k as int), *c, o2);
                if seen_origin(d_new, o2) {
                    let v = choose|v: int| 0 <= v < d_new.len() && #[trigger] lists_origin(d_new[v], o2);
                    if v < w {
                        assert(d_new[v] == d_old[v]);
                    } else if !(o2 == o) {
                        assert(lists_origin(d_old[v], o2));
                    }
                }
                if seen_origin(d_old, o2) {
                    let v = choose|v: int| 0 <= v < d_old.len() && #[trigger] lists_origin(d_old[v], o2);
                    if v < w {
                        assert(d_new[v] == d_old[v]);
                    }
                    assert(lists_origin(d_new[v], o2));
                }
                if o2 == o {
                    assert(lists_origin(d_new[w as int], o2));
                }
            }
            if found {
                assert(acc@[p as int].origin@ == o);
                assert forall|i: int| 0 <= i < acc@.len() implies stats_match(#[trigger] acc@[i], d_new) by {
                    assert(stats_match(before[i], d_old));
                    let e = acc@[i];
                    let b = before[i];
                    let o2 = e.origin@;
                    assert(o2 == b.origin@);
                    if i != p {
                        assert(e == b);
                        if b.origin@ == o {
                            lemma_text_lt_order(b.origin@, before[p as int].origin@, o);
                            if i < p {
                                assert(text_lt(b.origin@, before[p as int].origin@));
                            } else {
                                assert(text_lt(before[p as int].origin@, b.origin@));
                            }
                        }
                    }
                    assert forall|v: int| 0 <= v < 3 implies #[trigger] period_at(e.total, v)
                        == expected_count(d_new, o2, 0, v) by {
                        assert(period_at(b.total, v) == expected_count(d_old, o2, 0, v));
                        assert(expected_count(d_new, o2, 0, v) == if v == w && o2 == o {
                            row_field(Some(*c), 0)
                        } else {
                            expected_count(d_old, o2, 0, v)
                        });
                    }
                    assert forall|v: int| 0 <= v < 3 implies #[trigger] period_at(e.pending, v)
                        == expected_count(d_new, o2, 1, v) by {
                        assert(period_at(b.pending, v) == expected_count(d_old, o2, 1, v));
                        assert(expected_count(d_new, o2, 1, v) == if v == w && o2 == o {
                            row_field(Some(*c), 1)
                        } else {
                            expected_count(d_old, o2, 1, v)
                        });
                    }
                    assert forall|v: int| 0 <= v < 3 implies #[trigger] period_at(e.revoked, v)
                        == expected_count(d_new, o2, 2, v) by {
                        assert(period_at(b.revoked, v) == expected_count(d_old, o2, 2, v));
                        assert(expected_count(d_new, o2, 2, v) == if v == w && o2 == o {
                            row_field(Some(*c), 2)
                        } else {
                            expected_count(d_old, o2, 2, v)
                        });
                    }
                }
                assert forall|o2: Seq<char>| has_origin(acc@, o2) <==> seen_origin(d_new, o2) by {
                    if has_origin(before, o2) {
                        let i = choose|i: int| 0 <= i < before.len() && #[trigger] before[i].origin@ == o2;
                        assert(acc@[i].origin@ == o2);
                    }
                    if has_origin(acc@, o2) {
                        let i = choose|i: int| 0 <= i < acc@.len() && #[trigger] acc@[i].origin@ == o2;
                        assert(before[i].origin@ == o2);
                    }
                }
                assert forall|i: int, j: int| 0 <= i < j < acc@.len() implies text_lt(
                    #[trigger] acc@[i].origin@,
                    #[trigger] acc@[j].origin@,
                ) by {
                    assert(acc@[i].origin@ == before[i].origin@);
                    assert(acc@[j].origin@ == before[j].origin@);
                }
            } else {
                assert(acc@ == before.insert(p as int, acc@[p as int]));
                if p < before.len() {
                    lemma_text_lt_order(o, before[p as int].origin@, o);
                    assert(text_lt(o, before[p as int].origin@));
                }
                assert forall|i: int| 0 <= i < acc@.len() implies stats_match(#[trigger] acc@[i], d_new) by {
                    if i < p {
                        assert(acc@[i] == before[i]);
                        assert(stats_match(before[i], d_old));
                        lemma_text_lt_order(before[i].origin@, o, o);
                    } else if i > p {
                        assert(acc@[i] == before[i - 1]);
                        assert(stats_match(before[i - 1], d_old));
                        lemma_text_lt_order(o, before[p as int].origin@, before[i - 1].origin@);
                        if i - 1 > p {
                            assert(text_lt(before[p as int].origin@, before[i - 1].origin@));
                        }
                        lemma_text_lt_order(o, before[i - 1].origin@, o);
                    } else {
                        assert(!has_origin(before, o)) by {
                            if has_origin(before, o) {
                                let j = choose|j: int| 0 <= j < before.len() && #[trigger] before[j].origin@ == o;
                                lemma_text_lt_order(o, o, o);
                                if j < p {
                                    assert(text_lt(before[j].origin@, o));
                                } else if j > p {
                                    lemma_text_lt_order(o, before[p as int].origin@, before[j].origin@);
                                    assert(text_lt(before[p as int].origin@, before[j].origin@));
                                }
                            }
                        }
                        assert(!seen_origin(d_old, o));
                        assert forall|f: int, v: int| 0 <= v < 3 && v != w implies expected_count(d_old, o, f, v) == 0 by {
                            if v < w {
                                if last_row(d_old[v], o) is Some {
                                    lemma_last_row_some(d_old[v], o);
                                    assert(lists_origin(d_old[v], o));
                                }
                            }
                        }
                        let e = acc@[i];
                        assert(e.origin@ == o);
                        assert forall|v: int| 0 <= v < 3 implies #[trigger] period_at(e.total, v)
                            == expected_count(d_new, o, 0, v) by {
                            assert(expected_count(d_new, o, 0, v) == if v == w && o == o {
                                row_field(Some(*c), 0)
                            } else {
                                expected_count(d_old, o, 0, v)
                            });
                        }
                        assert forall|v: int| 0 <= v < 3 implies #[trigger] period_at(e.pending, v)
                            == expected_count(d_new, o, 1, v) by {
                            assert(expected_count(d_new, o, 1, v) == if v == w && o == o {
                                row_field(Some(*c), 1)
                            } else {
                                expected_count(d_old, o, 1, v)
                            });
                        }
                        assert forall|v: int| 0 <= v < 3 implies #[trigger] period_at(e.revoked, v)
                            == expected_count(d_new, o, 2, v) by {
                            assert(expected_count(d_new, o, 2, v) == if v == w && o == o {
                                row_field(Some(*c), 2)
                            } else {
                                expected_count(d_old, o, 2, v)
                            });
                        }
                    }
                    if i != p {
                        let e = acc@[i];
                        let o2 = e.origin@;
                        assert(o2 != o);
                        assert(stats_match(e, d_old));
                        assert forall|v: int| 0 <= v < 3 implies #[trigger] period_at(e.total, v)
                            == expected_count(d_new, o2, 0, v) by {
                            assert(expected_count(d_new, o2, 0, v) == expected_count(d_old, o2, 0, v));
                        }
                        assert forall|v: int| 0 <= v < 3 implies #[trigger] period_at(e.pending, v)
                            == expected_count(d_new, o2, 1, v) by {
                            assert(expected_count(d_new, o2, 1, v) == expected_count(d_old, o2, 1, v));
                        }
                        assert forall|v: int| 0 <= v < 3 implies #[trigger] period_at(e.revoked, v)
                            == expected_count(d_new, o2, 2, v) by {
                            assert(expected_count(d_new, o2, 2, v) == expected_count(d_old, o2, 2, v));
                        }
                    }
                }
                assert forall|o2: Seq<char>| has_origin(acc@, o2) <==> seen_origin(d_new, o2) by {
                    if has_origin(before, o2) {
                        let i = choose|i: int| 0 <= i < before.len() && #[trigger] before[i].origin@ == o2;
                        if i < p {
                            assert(acc@[i].origin@ == o2);
                        } else {
                            assert(acc@[i + 1].origin@ == o2);
                        }
                    }
                    if has_origin(acc@, o2) {
                        let i = choose|i: int| 0 <= i < acc@.len() && #[trigger] acc@[i].origin@ == o2;
                        if i < p {
                            assert(before[i].origin@ == o2);
                        } else if i > p {
                            assert(before[i - 1].origin@ == o2);
                        }
                    }
                    if o2 == o {
                        assert(acc@[p as int].origin@ == o2);
                    }
                }
                assert forall|i: int, j: int| 0 <= i < j < acc@.len() implies text_lt(
                    #[trigger] acc@[i].origin@,
                    #[trigger] acc@[j].origin@,
                ) by {
                    if j < p {
                        assert(acc@[i] == before[i] && acc@[j] == before[j]);
                    } else if j == p {
                        assert(acc@[i] == before[i]);
                    } else if i == p {
                        assert(acc@[j] == before[j - 1]);
                        if j - 1 > p {
                            assert(text_lt(before[p as int].origin@, before[j - 1].origin@));
                            lemma_text_lt_order(o, before[p as int].origin@, before[j - 1].origin@);
                        }
                    } else if i < p {
                        assert(acc@[i] == before[i] && acc@[j] == before[j - 1]);
                    } else {
                        assert(acc@[i] == before[i - 1] && acc@[j] == before[j - 1]);
                    }
                }
            }
        }
        k = k + 1;
    }
    assert(rows@.subrange(0, k as int) =~= rows@);
}

proof fn lemma_last_row_some(rows: Seq<OriginCounts>, o: Seq<char>)
    requires
        last_row(rows, o) is Some,
    ensures
        lists_origin(rows, o),
    decreases rows.len(),
{
    if rows.last().origin@ == o {
        assert(rows[rows.len() - 1].origin@ == o);
    } else {
        lemma_last_row_some(rows.drop_last(), o);
        let i = choose|i: int| 0 <= i < rows.drop_last().len() && #[trigger] rows.drop_last()[i].origin@ == o;
        assert(rows[i].origin@ == o);
    }
}

/// Merges the per-origin submission counts of the last day, week and month
/// into one entry per origin, in ascending order of origin. Each window of
/// an entry holds the counts of the origin's last row in that window's
/// list, or 0 when the list has no row for it.
pub fn collect_imports(
    d1: &Vec<OriginCounts>,
    d7: &Vec<OriginCounts>,
    d30: &Vec<OriginCounts>,
) -> (r: Vec<ImportOriginStats>)
    ensures
        merged(r@, seq![d1@, d7@, d30@]),
{
    let mut acc: Vec<ImportOriginStats> = Vec::new();
    let ghost none: Seq<Seq<OriginCounts>> = Seq::empty();
    proof {
        assert forall|o: Seq<char>| has_origin(acc@, o) <==> seen_origin(none, o) by {}
    }
    ingest(&mut acc, d1, 0, Ghost(none));
    ingest(&mut acc, d7, 1, Ghost(none.push(d1@)));
    ingest(&mut acc, d30, 2, Ghost(none.push(d1@).push(d7@)));
    assert(none.push(d1@).push(d7@).push(d30@) =~= seq![d1@, d7@, d30@]);
    acc
}


/// The start of the window of the last `days` days before `now`, held at
/// the earliest instant when it would fall before it.
pub open spec fn window_start_spec(now: int, days: int) -> int {
    if now - days * NANOS_PER_DAY < EARLIEST_NANOS {
        EARLIEST_NANOS as int
    } else {
        now - days * NANOS_PER_DAY
    }
}

/// The starts of the dashboard's day, week and month windows ending at
/// `now` (nanoseconds since the Unix epoch).
pub fn dashboard_windows(now: i128) -> (r: (i128, i128, i128))
    requires
        EARLIEST_NANOS <= now <= 0x1000_0000_0000_0000_0000_0000,
    ensures
        r.0 == window_start_spec(now as int, 1),
        r.1 == window_start_spec(now as int, 7),
        r.2 == window_start_spec(now as int, 30),
{
    let a = now - NANOS_PER_DAY;
    let b = now - 7 * NANOS_PER_DAY;
    let c = now - 30 * NANOS_PER_DAY;
    (
        if a < EARLIEST_NANOS { EARLIEST_NANOS } else { a },
        if b < EARLIEST_NANOS { EARLIEST_NANOS } else { b },
        if c < EARLIEST_NANOS { EARLIEST_NANOS } else { c },
    )
}

/// A span of `d` nanoseconds in whole milliseconds, truncated toward zero.
pub open spec fn whole_millis(d: int) -> int {
    if d >= 0 {
        d / 1_000_000
    } else {
        -((-d) / 1_000_000)
    }
}

/// How long the dashboard took to build, in whole milliseconds, from the
/// instants it started and finished at.
pub fn generation_time_ms(started: i128, finished: i128) -> (r: i64)
    requires
        EARLIEST_NANOS <= started <= LATEST_NANOS,
        EARLIEST_NANOS <= finished <= LATEST_NANOS,
    ensures
        r == whole_millis(finished - started),
{
    let d = finished - started;
    if d >= 0 {
        (d / 1_000_000) as i64
    } else {
        let m = (0 - d) / 1_000_000;
        (0 - m) as i64
    }
}

/// The node statistics to show: those fetched, or none when fetching
/// failed.
pub fn stats_or_none<T, E>(fetched: Result<T, E>) -> (r: Option<T>)
    ensures
        r == match fetched {
            Ok(s) => Some(s),
            Err(_) => None::<T>,
        },
{
    match fetched {
        Ok(s) => Some(s),
        Err(_) => None,
    }
}

/// The traffic of one client platform.
#[derive(Debug)]
pub struct TopClient {
    pub name: String,
    pub total_requests: i64,
    pub unique_ips: i64,
    pub top_ips: Vec<TopIp>,
}

/// The unique-IP counts of the platforms.
pub open spec fn unique_ip_keys(clients: Seq<TopClient>) -> Seq<i128> {
    Seq::new(clients.len(), |i: int| clients[i].unique_ips as i128)
}

/// Ranks the platforms by unique IPs, most first; platforms with equal
/// counts keep their order.
pub fn rank_clients(clients: Vec<TopClient>) -> (r: Vec<TopClient>)
    ensures
        exists|ord: Seq<usize>|
            is_stable_order(unique_ip_keys(clients@), true, ord) && r@ == Seq::new(
                ord.len(),
                |k: int| clients@[ord[k] as int],
            ),
{
    let n = clients.len();
    let mut keys: Vec<i128> = Vec::new();
    let mut i: usize = 0;
    while i < n
        invariant
            n == clients@.len(),
            i <= n,
            keys@ == unique_ip_keys(clients@).subrange(0, i as int),
        decreases n - i,
    {
        keys.push(clients[i].unique_ips as i128);
        assert(keys@ =~= unique_ip_keys(clients@).subrange(0, i + 1));
        i = i + 1;
    }
    assert(keys@ =~= unique_ip_keys(clients@));
    let ord = stable_order(&keys, true);
    proof {
        lemma_stable_order_is_permutation(keys@, true, ord@);
    }
    apply_order(clients, &ord)
}

/// The figures of the global report on one day.
#[derive(Debug, Clone, Copy)]
pub struct ReportSnapshot {
    pub total_elements: i64,
    pub up_to_date_elements: i64,
    /// When the report was made, in nanoseconds since the Unix epoch.
    pub created_at: i128,
    /// The average verification date of the places, likewise.
    pub avg_verification_date: i128,
}

/// A boost, by when it was paid for and for how many days.
#[derive(Debug, Clone, Copy)]
pub struct ReportBoost {
    pub created_at: i128,
    pub duration_days: i64,
}

/// How the map changed between two dates.
#[derive(Debug, Clone, Copy)]
pub struct ChangeReport {
    pub total_places_start: i64,
    pub total_places_end: i64,
    pub total_places_change: i64,
    pub verified_places_1y_start: i64,
    pub verified_places_1y_end: i64,
    pub verified_places_1y_change: i64,
    pub days_since_verified_start: i64,
    pub days_since_verified_end: i64,
    pub days_since_verified_change: i64,
    pub boosts: i64,
    pub boosts_total_days: i64,
    pub comments: i64,
}

/// Whole days in a span of nanoseconds, truncated toward zero.
pub open spec fn whole_days(span: int) -> int {
    if span >= 0 {
        span / NANOS_PER_DAY as int
    } else {
        -((-span) / NANOS_PER_DAY as int)
    }
}

/// How many whole days lie between the average verification date and the
/// report's date.
pub open spec fn days_since_verified(s: ReportSnapshot) -> int {
    whole_days(s.created_at - s.avg_verification_date)
}

/// The boost was paid for strictly between `start` and `end`.
pub open spec fn boost_in(b: ReportBoost, start: i128, end: i128) -> bool {
    start < b.created_at && b.created_at < end
}

/// How many boosts were paid for strictly between `start` and `end`.
pub open spec fn boosts_in(bs: Seq<ReportBoost>, start: i128, end: i128) -> int
    decreases bs.len(),
{
    if bs.len() == 0 {
        0
    } else {
        boosts_in(bs.drop_last(), start, end) + if boost_in(bs.last(), start, end) {
            1int
        } else {
            0int
        }
    }
}

/// The days those boosts bought, together.
pub open spec fn boost_days_in(bs: Seq<ReportBoost>, start: i128, end: i128) -> int
    decreases bs.len(),
{
    if bs.len() == 0 {
        0
    } else {
        boost_days_in(bs.drop_last(), start, end) + if boost_in(bs.last(), start, end) {
            bs.last().duration_days as int
        } else {
            0int
        }
    }
}

/// The running totals of the days bought stay in range.
pub open spec fn boost_days_fit(bs: Seq<ReportBoost>, start: i128, end: i128) -> bool {
    forall|k: int| 0 <= k <= bs.len() ==> i64::MIN <= #[trigger] boost_days_in(bs.subrange(0, k), start, end) <= i64::MAX
}

/// How many of the comments are not deleted.
pub open spec fn live_count(deleted: Seq<bool>) -> int
    decreases deleted.len(),
{
    if deleted.len() == 0 {
        0
    } else {
        live_count(deleted.drop_last()) + if deleted.last() {
            0int
        } else {
            1int
        }
    }
}

fn whole_days_of(span: i128) -> (r: i64)
    requires
        -0x1000_0000_0000_0000_0000_0000 <= span <= 0x1000_0000_0000_0000_0000_0000,
    ensures
        r == whole_days(span as int),
{
    if span >= 0 {
        (span / NANOS_PER_DAY) as i64
    } else {
        -(((-span) / NANOS_PER_DAY) as i64)
    }
}

/// The report of how the map changed between `start` and `end`: the global
/// figures at both ends and their changes, the boosts paid for strictly
/// between the two and the days they bought, and the comments made then
/// that are not deleted (`comments_deleted` tells, for each comment made
/// between the two, whether it is deleted).
pub fn change_report(
    start: i128,
    end: i128,
    at_start: ReportSnapshot,
    at_end: ReportSnapshot,
    boosts: &Vec<ReportBoost>,
    comments_deleted: &Vec<bool>,
) -> (r: ChangeReport)
    requires
        i64::MIN <= at_end.total_elements - at_start.total_elements <= i64::MAX,
        i64::MIN <= at_end.up_to_date_elements - at_start.up_to_date_elements <= i64::MAX,
        -0x1000_0000_0000_0000_0000_0000 <= at_start.created_at - at_start.avg_verification_date
            <= 0x1000_0000_0000_0000_0000_0000,
        -0x1000_0000_0000_0000_0000_0000 <= at_end.created_at - at_end.avg_verification_date
            <= 0x1000_0000_0000_0000_0000_0000,
        boost_days_fit(boosts@, start, end),
        boosts@.len() <= i64::MAX,
        comments_deleted@.len() <= i64::MAX,
    ensures
        r.total_places_start == at_start.total_elements,
        r.total_places_end == at_end.total_elements,
        r.total_places_change == at_end.total_elements - at_start.total_elements,
        r.verified_places_1y_start == at_start.up_to_date_elements,
        r.verified_places_1y_end == at_end.up_to_date_elements,
        r.verified_places_1y_change == at_end.up_to_date_elements - at_start.up_to_date_elements,
        r.days_since_verified_start == days_since_verified(at_start),
        r.days_since_verified_end == days_since_verified(at_end),
        r.days_since_verified_change == days_since_verified(at_end) - days_since_verified(at_start),
        r.boosts == boosts_in(boosts@, start, end),
        r.boosts_total_days == boost_days_in(boosts@, start, end),
        r.comments == live_count(comments_deleted@),
{
    let ds = whole_days_of(at_start.created_at - at_start.avg_verification_date);
    let de = whole_days_of(at_end.created_at - at_end.avg_verification_date);
    proof {
        assert(-0x1000_0000_0000_0000 <= ds <= 0x1000_0000_0000_0000) by (nonlinear_arith)
            requires
                ds == whole_days((at_start.created_at - at_start.avg_verification_date) as int),
                -0x1000_0000_0000_0000_0000_0000 <= at_start.created_at - at_start.avg_verification_date
                    <= 0x1000_0000_0000_0000_0000_0000,
        ;
        assert(-0x1000_0000_0000_0000 <= de <= 0x1000_0000_0000_0000) by (nonlinear_arith)
            requires
                de == whole_days((at_end.created_at - at_end.avg_verification_date) as int),
                -0x1000_0000_0000_0000_0000_0000 <= at_end.created_at - at_end.avg_verification_date
                    <= 0x1000_0000_0000_0000_0000_0000,
        ;
    }
    let mut count: i64 = 0;
    let mut days: i64 = 0;
    let mut i: usize = 0;
    while i < boosts.len()
        invariant
            i <= boosts@.len(),
            boosts@.len() <= i64::MAX,
            boost_days_fit(boosts@, start, end),
            count == boosts_in(boosts@.subrange(0, i as int), start, end),
            days == boost_days_in(boosts@.subrange(0, i as int), start, end),
            0 <= count <= i,
        decreases boosts@.len() - i,
    {
        let b = boosts[i];
        let ghost pre = boosts@.subrange(0, i as int);
        let ghost nxt = boosts@.subrange(0, i + 1);
        assert(nxt.drop_last() =~= pre);
        assert(nxt.last() == b);
        assert(i64::MIN <= boost_days_in(nxt, start, end) <= i64::MAX);
        if start < b.created_at && b.created_at < end {
            count = count + 1;
            days = days + b.duration_days;
        }
        i = i + 1;
    }
    assert(boosts@.subrange(0, i as int) =~= boosts@);
    let mut live: i64 = 0;
    let mut j: usize = 0;
    while j < comments_deleted.len()
        invariant
            j <= comments_deleted@.len(),
            comments_deleted@.len() <= i64::MAX,
            live == live_count(comments_deleted@.subrange(0, j as int)),
            0 <= live <= j,
        decreases comments_deleted@.len() - j,
    {
        let ghost nxt = comments_deleted@.subrange(0, j + 1);
        assert(nxt.drop_last() =~= comments_deleted@.subrange(0, j as int));
        if !comments_deleted[j] {
            live = live + 1;
        }
        j = j + 1;
    }
    assert(comments_deleted@.subrange(0, j as int) =~= comments_deleted@);
    ChangeReport {
        total_places_start: at_start.total_elements,
        total_places_end: at_end.total_elements,
        total_places_change: at_end.total_elements - at_start.total_elements,
        verified_places_1y_start: at_start.up_to_date_elements,
        verified_places_1y_end: at_end.up_to_date_elements,
        verified_places_1y_change: at_end.up_to_date_elements - at_start.up_to_date_elements,
        days_since_verified_start: ds,
        days_since_verified_end: de,
        days_since_verified_change: de - ds,
        boosts: count,
        boosts_total_days: days,
        comments: live,
    }
}

} // verus!
