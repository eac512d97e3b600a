//! Country rankings (`GET /v4/countries/top`): each country's grade from
//! the share of its places verified within the last year.

use vstd::prelude::*;

verus! {

/// A ranked country.
#[derive(Debug)]
pub struct Country {
    pub id: i64,
    pub alias: String,
    pub name: String,
    pub icon: Option<String>,
    pub places_total: i64,
    pub places_verified_1y: i64,
    pub grade: i32,
}

/// The gap between neighbouring `f64` values around the integer `m >= 0`:
/// 1 below 2^53, doubling with each further binary digit.
pub open spec fn double_spacing(m: nat) -> nat
    decreases m,
{
    if m < 0x20_0000_0000_0000 {
        1
    } else {
        2 * double_spacing(m / 2)
    }
}

/// The `f64` nearest the integer `m >= 0`, ties to an even significand.
pub open spec fn round_to_double(m: nat) -> int {
    let u = double_spacing(m);
    let q = m / u;
    let r = m % u;
    if 2 * r > u || (2 * r == u && q % 2 == 1) {
        ((q + 1) * u) as int
    } else {
        (q * u) as int
    }
}

/// The value of `v as f64`.
pub open spec fn as_f64(v: int) -> int {
    if v < 0 {
        -round_to_double((-v) as nat)
    } else {
        round_to_double(v as nat)
    }
}

/// The least ratio, as numerator and denominator, at which
/// `(a / b) * 100.0` reaches `percent` in `f64`: the midpoint between the
/// least double whose hundredfold rounds to at least `percent` and the
/// double below it. That double has an even significand, so a quotient
/// exactly at the midpoint rounds up to it.
pub open spec fn share_threshold(percent: int) -> (int, int) {
    if percent == 95 {
        (17113678584007883, 18014398509481984)
    } else if percent == 75 {
        (13510798882111487, 18014398509481984)
    } else if percent == 50 {
        (18014398509481983, 36028797018963968)
    } else {
        (18014398509481983, 72057594037927936)
    }
}

/// `(a / b) * 100.0 >= percent` in `f64`, for doubles `a` and `b != 0`
/// that hold integers: the exact quotient reaches the threshold.
pub open spec fn share_at_least(b: int, a: int, percent: int) -> bool {
    let (n, d) = share_threshold(percent);
    if b > 0 {
        a * d >= n * b
    } else {
        a * d <= n * b
    }
}

/// The grade of a country: 1 without places, else 5, 4, 3, 2 or 1 as the
/// share of verified places, computed as
/// `(verified as f64 / total as f64) * 100.0`, reaches 95, 75, 50, 25 or
/// none of these.
pub open spec fn grade(total: int, verified: int) -> i32 {
    let b = as_f64(total);
    let a = as_f64(verified);
    if total == 0 {
        1
    } else if share_at_least(b, a, 95) {
        5
    } else if share_at_least(b, a, 75) {
        4
    } else if share_at_least(b, a, 50) {
        3
    } else if share_at_least(b, a, 25) {
        2
    } else {
        1
    }
}

/// `v as f64`, as an integer.
fn f64_value(v: i64) -> (r: i128)
    ensures
        r == as_f64(v as int),
        -0x1_0000_0000_0000_0000 <= r <= 0x1_0000_0000_0000_0000,
        v != 0 ==> r != 0,
{
    let m: i128 = if v < 0 {
        -(v as i128)
    } else {
        v as i128
    };
    let ghost mn = m as nat;
    let mut mm: i128 = m;
    let mut u: i128 = 1;
    while mm >= 0x20_0000_0000_0000
        invariant
            0 <= m <= 0x8000_0000_0000_0000,
            mn == m,
            1 <= u <= 0x800,
            0 <= mm,
            u * mm <= m,
            mm == m / u,
            double_spacing(mn) == u * double_spacing(mm as nat),
        decreases mm,
    {
        proof {
            assert(u <= 0x400) by (nonlinear_arith)
                requires
                    u >= 1,
                    mm >= 0x20_0000_0000_0000,
                    u * mm <= 0x8000_0000_0000_0000,
            ;
            vstd::arithmetic::div_mod::lemma_div_denominator(m as int, u as int, 2);
            assert(double_spacing(mm as nat) == 2 * double_spacing((mm / 2) as nat));
            assert(u * (2 * double_spacing((mm / 2) as nat)) == (u * 2) * double_spacing(
                (mm / 2) as nat,
            )) by (nonlinear_arith);
            assert((u * 2) * (mm / 2) <= u * mm) by (nonlinear_arith)
                requires
                    u >= 1,
                    mm >= 0,
            ;
        }
        mm = mm / 2;
        u = u * 2;
    }
    proof {
        vstd::arithmetic::div_mod::lemma_fundamental_div_mod(m as int, u as int);
        vstd::arithmetic::div_mod::lemma_mod_bound(m as int, u as int);
        assert(double_spacing(mm as nat) == 1);
        assert(double_spacing(mn) == u * double_spacing(mm as nat));
        assert(u * 1 == u);
        assert(double_spacing(mn) == u);
    }
    let r = m - u * mm;
    assert(r == m % u);
    let rounded = if 2 * r > u || (2 * r == u && mm % 2 == 1) {
        assert(u * (mm + 1) == u * mm + u) by (nonlinear_arith);
        assert((mm + 1) * u == u * (mm + 1)) by (nonlinear_arith);
        u * (mm + 1)
    } else {
        assert(mm * u == u * mm) by (nonlinear_arith);
        u * mm
    };
    proof {
        if v != 0 && rounded == 0 {
            assert(mm == 0);
            assert(r == m);
            assert(u * mm == 0) by (nonlinear_arith) requires mm == 0;
        }
    }
    if v < 0 {
        -rounded
    } else {
        rounded
    }
}

/// Whether `(a / b) * 100.0 >= percent` in `f64`, for the doubles `a` and
/// `b != 0` that hold integers.
fn share_reaches(b: i128, a: i128, percent: i64) -> (r: bool)
    requires
        b != 0,
        -0x1_0000_0000_0000_0000 <= a <= 0x1_0000_0000_0000_0000,
        -0x1_0000_0000_0000_0000 <= b <= 0x1_0000_0000_0000_0000,
        percent == 95 || percent == 75 || percent == 50 || percent == 25,
    ensures
        r == share_at_least(b as int, a as int, percent as int),
{
    let (n, d): (i128, i128) = if percent == 95 {
        (17113678584007883, 18014398509481984)
    } else if percent == 75 {
        (13510798882111487, 18014398509481984)
    } else if percent == 50 {
        (18014398509481983, 36028797018963968)
    } else {
        (18014398509481983, 72057594037927936)
    };
    assert(-0x1_0000_0000_0000_0000 * 72057594037927936 <= a * d <= 0x1_0000_0000_0000_0000
        * 72057594037927936) by (nonlinear_arith)
        requires
            -0x1_0000_0000_0000_0000 <= a <= 0x1_0000_0000_0000_0000,
            0 < d <= 72057594037927936,
    ;
    assert(-0x1_0000_0000_0000_0000 * 72057594037927936 <= n * b <= 0x1_0000_0000_0000_0000
        * 72057594037927936) by (nonlinear_arith)
        requires
            -0x1_0000_0000_0000_0000 <= b <= 0x1_0000_0000_0000_0000,
            0 < n <= 72057594037927936,
    ;
    if b > 0 {
        a * d >= n * b
    } else {
        a * d <= n * b
    }
}

/// The grade of a country with `places_total` places, of which
/// `places_verified_1y` were verified within the last year.
pub fn calculate_grade(places_total: i64, places_verified_1y: i64) -> (r: i32)
    ensures
        r == grade(places_total as int, places_verified_1y as int),
{
    if places_total == 0 {
        return 1;
    }
    let b = f64_value(places_total);
    let a = f64_value(places_verified_1y);
    if share_reaches(b, a, 95) {
        5
    } else if share_reaches(b, a, 75) {
        4
    } else if share_reaches(b, a, 50) {
        3
    } else if share_reaches(b, a, 25) {
        2
    } else {
        1
    }
}

proof fn lemma_spacing_quotient(m: nat)
    ensures
        double_spacing(m) >= 1,
        m / double_spacing(m) < 0x20_0000_0000_0000,
        double_spacing(m) > 1 ==> m / double_spacing(m) >= 0x10_0000_0000_0000,
    decreases m,
{
    if m >= 0x20_0000_0000_0000 {
        let h = m / 2;
        lemma_spacing_quotient(h as nat);
        vstd::arithmetic::div_mod::lemma_div_denominator(m as int, 2, double_spacing(h) as int);
        assert(2 * double_spacing(h) == double_spacing(h) * 2) by (nonlinear_arith);
        if double_spacing(h) == 1 {
            assert(h / 1 == h);
        }
    } else {
        assert(m / 1 == m);
    }
}

proof fn lemma_spacing_grows(m1: nat, m2: nat)
    requires
        m1 <= m2,
    ensures
        double_spacing(m1) == double_spacing(m2) || 2 * double_spacing(m1) <= double_spacing(m2),
    decreases m2,
{
    if m2 >= 0x20_0000_0000_0000 {
        lemma_spacing_quotient((m2 / 2) as nat);
        if m1 >= 0x20_0000_0000_0000 {
            lemma_spacing_grows((m1 / 2) as nat, (m2 / 2) as nat);
        }
    }
}

proof fn lemma_round_monotone(m1: nat, m2: nat)
    requires
        m1 <= m2,
    ensures
        round_to_double(m1) <= round_to_double(m2),
{
    let u1 = double_spacing(m1);
    let u2 = double_spacing(m2);
    lemma_spacing_quotient(m1);
    lemma_spacing_quotient(m2);
    lemma_spacing_grows(m1, m2);
    let q1 = m1 / u1;
    let q2 = m2 / u2;
    vstd::arithmetic::div_mod::lemma_fundamental_div_mod(m1 as int, u1 as int);
    vstd::arithmetic::div_mod::lemma_fundamental_div_mod(m2 as int, u2 as int);
    vstd::arithmetic::div_mod::lemma_mod_bound(m1 as int, u1 as int);
    vstd::arithmetic::div_mod::lemma_mod_bound(m2 as int, u2 as int);
    if u1 == u2 {
        vstd::arithmetic::div_mod::lemma_div_is_ordered(m1 as int, m2 as int, u1 as int);
        if q1 < q2 {
            assert((q1 + 1) * u1 <= q2 * u1) by (nonlinear_arith)
                requires
                    q1 + 1 <= q2,
                    u1 >= 1,
            ;
            assert(q2 * u1 <= (q2 + 1) * u1) by (nonlinear_arith)
                requires
                    u1 >= 1,
            ;
            assert(q1 * u1 <= (q1 + 1) * u1) by (nonlinear_arith)
                requires
                    u1 >= 1,
            ;
        } else {
            assert(q1 == q2);
            assert(u1 * q1 == q1 * u1) by (nonlinear_arith);
            assert(q1 * u1 <= (q1 + 1) * u1) by (nonlinear_arith)
                requires
                    u1 >= 1,
            ;
        }
    } else {
        assert((q1 + 1) * u1 <= 0x20_0000_0000_0000 * u1) by (nonlinear_arith)
            requires
                q1 + 1 <= 0x20_0000_0000_0000,
                u1 >= 1,
        ;
        assert(0x20_0000_0000_0000 * u1 <= 0x10_0000_0000_0000 * u2) by (nonlinear_arith)
            requires
                2 * u1 <= u2,
        ;
        assert(0x10_0000_0000_0000 * u2 <= q2 * u2) by (nonlinear_arith)
            requires
                q2 >= 0x10_0000_0000_0000,
                u2 >= 1,
        ;
        assert(q2 * u2 <= (q2 + 1) * u2) by (nonlinear_arith)
            requires
                u2 >= 1,
        ;
        assert(q1 * u1 <= (q1 + 1) * u1) by (nonlinear_arith)
            requires
                u1 >= 1,
        ;
    }
}

proof fn lemma_round_exact(m: nat)
    requires
        m < 0x20_0000_0000_0000,
    ensures
        round_to_double(m) == m,
{
    assert(double_spacing(m) == 1);
    vstd::arithmetic::div_mod::lemma_fundamental_div_mod(m as int, 1);
    vstd::arithmetic::div_mod::lemma_mod_bound(m as int, 1);
}

proof fn lemma_as_f64_monotone(v1: int, v2: int)
    requires
        v1 <= v2,
    ensures
        as_f64(v1) <= as_f64(v2),
{
    if v1 >= 0 {
        lemma_round_monotone(v1 as nat, v2 as nat);
    } else if v2 < 0 {
        lemma_round_monotone((-v2) as nat, (-v1) as nat);
    } else {
        lemma_round_exact(0);
        lemma_round_monotone(0, v2 as nat);
        lemma_round_monotone(0, (-v1) as nat);
    }
}

proof fn lemma_share_monotone(b: int, a1: int, a2: int, percent: int)
    requires
        b > 0,
        a1 <= a2,
    ensures
        share_at_least(b, a1, percent) ==> share_at_least(b, a2, percent),
{
    let (n, d) = share_threshold(percent);
    assert(d > 0);
    assert(a2 * d >= a1 * d) by (nonlinear_arith)
        requires
            a2 >= a1,
            d > 0,
    ;
}

/// A grade lies in `1..=5`; with places, more verified places never lower
/// it, and a fully verified country gets the top grade.
pub proof fn law_grade(total: int, v1: int, v2: int)
    ensures
        1 <= grade(total, v1) <= 5,
        total > 0 && v1 <= v2 ==> grade(total, v1) <= grade(total, v2),
        total != 0 ==> grade(total, total) == 5,
{
    if total > 0 && v1 <= v2 {
        lemma_as_f64_monotone(v1, v2);
        let b = as_f64(total);
        let a1 = as_f64(v1);
        let a2 = as_f64(v2);
        assert(b > 0) by {
            lemma_round_exact(1);
            lemma_round_monotone(1, total as nat);
        }
        lemma_share_monotone(b, a1, a2, 95);
        lemma_share_monotone(b, a1, a2, 75);
        lemma_share_monotone(b, a1, a2, 50);
        lemma_share_monotone(b, a1, a2, 25);
    }
    if total != 0 {
        let b = as_f64(total);
        assert(b * 18014398509481984 >= 17113678584007883 * b || b < 0) by (nonlinear_arith);
        assert(b < 0 ==> b * 18014398509481984 <= 17113678584007883 * b) by (nonlinear_arith);
    }
}

/// The ranking entry of a country, graded from its place counts.
pub fn country(
    id: i64,
    alias: String,
    name: String,
    icon: Option<String>,
    places_total: i64,
    places_verified_1y: i64,
) -> (r: Country)
    ensures
        r.id == id,
        r.alias == alias,
        r.name == name,
        r.icon == icon,
        r.places_total == places_total,
        r.places_verified_1y == places_verified_1y,
        r.grade == grade(places_total as int, places_verified_1y as int),
{
    Country {
        id,
        alias,
        name,
        icon,
        places_total,
        places_verified_1y,
        grade: calculate_grade(places_total, places_verified_1y),
    }
}

} // verus!
