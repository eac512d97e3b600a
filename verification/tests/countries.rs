use btcmap_api::rest::v4::countries::calculate_grade;

#[test]
fn test_calculate_grade_zero_places() {
    assert_eq!(calculate_grade(0, 0), 1);
}

#[test]
fn test_calculate_grade_0_to_25_percent() {
    assert_eq!(calculate_grade(100, 0), 1);
    assert_eq!(calculate_grade(100, 24), 1);
}

#[test]
fn test_calculate_grade_25_to_50_percent() {
    assert_eq!(calculate_grade(100, 25), 2);
    assert_eq!(calculate_grade(100, 49), 2);
}

#[test]
fn test_calculate_grade_50_to_75_percent() {
    assert_eq!(calculate_grade(100, 50), 3);
    assert_eq!(calculate_grade(100, 74), 3);
}

#[test]
fn test_calculate_grade_75_to_95_percent() {
    assert_eq!(calculate_grade(100, 75), 4);
    assert_eq!(calculate_grade(100, 94), 4);
}

#[test]
fn test_calculate_grade_95_plus_percent() {
    assert_eq!(calculate_grade(100, 95), 5);
    assert_eq!(calculate_grade(100, 100), 5);
}

#[test]
fn grade_uses_exact_shares_of_odd_totals() {
    // 1 of 3 is 33.3%: grade 2; 2 of 3 is 66.7%: grade 3.
    assert_eq!(calculate_grade(3, 1), 2);
    assert_eq!(calculate_grade(3, 2), 3);
    assert_eq!(calculate_grade(20, 19), 5);
}

fn float_grade(total: i64, verified: i64) -> i32 {
    if total == 0 {
        return 1;
    }
    let p = (verified as f64 / total as f64) * 100.0;
    if p >= 95.0 {
        5
    } else if p >= 75.0 {
        4
    } else if p >= 50.0 {
        3
    } else if p >= 25.0 {
        2
    } else {
        1
    }
}

#[test]
fn grade_follows_the_floating_point_share() {
    assert_eq!(5, calculate_grade(844_720_600_218_478_240, 802_484_570_207_554_325));
    for t in -60i64..=60 {
        for v in -70i64..=70 {
            assert_eq!(float_grade(t, v), calculate_grade(t, v), "{v} of {t}");
        }
    }
    let mut x: u64 = 0x9E37_79B9_7F4A_7C15;
    for _ in 0..200_000 {
        x ^= x << 13;
        x ^= x >> 7;
        x ^= x << 17;
        let t = (x as i64) >> (x % 40);
        if t == 0 {
            continue;
        }
        for (num, den) in [
            (95i128, 100i128),
            (75, 100),
            (50, 100),
            (25, 100),
            (17113678584007883, 18014398509481984),
            (13510798882111487, 18014398509481984),
            (18014398509481983, 36028797018963968),
            (18014398509481983, 72057594037927936),
        ] {
            let base = (t as i128) * num / den;
            for d in -2i128..=2 {
                let v = (base + d).clamp(i64::MIN as i128, i64::MAX as i128) as i64;
                assert_eq!(float_grade(t, v), calculate_grade(t, v), "{v} of {t}");
            }
        }
        let v = (x.rotate_left(17) as i64) >> (x % 50);
        assert_eq!(float_grade(t, v), calculate_grade(t, v), "{v} of {t}");
    }
}
