use btcmap_api::rpc::disks::parse_df_output;
use btcmap_api::rpc::analytics::{
    change_report, collect_imports, dashboard_windows, generation_time_ms, rank_clients,
    stats_or_none, wallets_or_zero,
    OriginCounts, PeriodCounts, ReportBoost, ReportSnapshot, TopClient, Wallets,
};
use btcmap_api::dates::{EARLIEST_NANOS, NANOS_PER_DAY};

fn row(origin: &str, total: i64, pending: i64, revoked: i64) -> OriginCounts {
    OriginCounts { origin: origin.to_string(), total, pending, revoked }
}

#[test]
fn counts_imports_by_origin_and_window() {
    let d1 = vec![row("square", 2, 2, 0), row("coinos", 3, 1, 1)];
    let d7 = vec![row("coinos", 3, 1, 1), row("square", 2, 2, 0)];
    let d30 = vec![row("square", 3, 2, 0), row("coinos", 4, 1, 1)];
    let imports = collect_imports(&d1, &d7, &d30);
    assert_eq!(2, imports.len());
    assert_eq!("coinos", imports[0].origin);
    assert_eq!(PeriodCounts { d1: 3, d7: 3, d30: 4 }, imports[0].total);
    assert_eq!(PeriodCounts { d1: 1, d7: 1, d30: 1 }, imports[0].revoked);
    assert_eq!("square", imports[1].origin);
    assert_eq!(PeriodCounts { d1: 2, d7: 2, d30: 2 }, imports[1].pending);
}

#[test]
fn origins_missing_from_a_window_count_zero_and_later_rows_win() {
    let imports = collect_imports(&vec![], &vec![row("b", 1, 0, 0), row("b", 5, 0, 0)], &vec![row("a", 1, 1, 1)]);
    assert_eq!(vec!["a", "b"], imports.iter().map(|i| i.origin.clone()).collect::<Vec<_>>());
    assert_eq!(PeriodCounts { d1: 0, d7: 0, d30: 1 }, imports[0].total);
    assert_eq!(PeriodCounts { d1: 0, d7: 5, d30: 0 }, imports[1].total);
    assert!(collect_imports(&vec![], &vec![], &vec![]).is_empty());
}

#[test]
fn windows_end_now_and_stop_at_the_earliest_instant() {
    let now = 100 * NANOS_PER_DAY;
    assert_eq!((99 * NANOS_PER_DAY, 93 * NANOS_PER_DAY, 70 * NANOS_PER_DAY), dashboard_windows(now));
    let (a, _, c) = dashboard_windows(EARLIEST_NANOS + NANOS_PER_DAY);
    assert_eq!(EARLIEST_NANOS, a);
    assert_eq!(EARLIEST_NANOS, c);
}

#[test]
fn failed_wallet_fetch_reads_zero() {
    assert_eq!(Wallets { spending: 0, donations: 0, treasury: 0 }, wallets_or_zero(None));
    let w = Wallets { spending: 1, donations: 2, treasury: 3 };
    assert_eq!(w, wallets_or_zero(Some(w)));
}

fn client(name: &str, unique_ips: i64) -> TopClient {
    TopClient { name: name.to_string(), total_requests: 10, unique_ips, top_ips: vec![] }
}

#[test]
fn platforms_rank_by_unique_ips() {
    let ranked = rank_clients(vec![client("web", 5), client("android", 9), client("ios", 5)]);
    let names: Vec<String> = ranked.iter().map(|c| c.name.clone()).collect();
    assert_eq!(vec!["android", "web", "ios"], names);
}

#[test]
fn change_report_counts_boosts_strictly_inside_and_live_comments() {
    let start = 10 * NANOS_PER_DAY;
    let end = 20 * NANOS_PER_DAY;
    let at_start = ReportSnapshot {
        total_elements: 100,
        up_to_date_elements: 40,
        created_at: start,
        avg_verification_date: start - 300 * NANOS_PER_DAY - 1,
    };
    let at_end = ReportSnapshot {
        total_elements: 110,
        up_to_date_elements: 35,
        created_at: end,
        avg_verification_date: end - 250 * NANOS_PER_DAY,
    };
    let boosts = vec![
        ReportBoost { created_at: start, duration_days: 30 },
        ReportBoost { created_at: start + 1, duration_days: 90 },
        ReportBoost { created_at: end - 1, duration_days: 365 },
    ];
    let r = change_report(start, end, at_start, at_end, &boosts, &vec![false, true, false]);
    assert_eq!(10, r.total_places_change);
    assert_eq!(-5, r.verified_places_1y_change);
    assert_eq!(300, r.days_since_verified_start);
    assert_eq!(250, r.days_since_verified_end);
    assert_eq!(-50, r.days_since_verified_change);
    assert_eq!(2, r.boosts);
    assert_eq!(455, r.boosts_total_days);
    assert_eq!(2, r.comments);
}

#[test]
fn df_output_lists_real_devices_only() {
    let output = "Filesystem 1-blocks Used Available Capacity Mounted on\n\
                  udev 100 0 100 0% /dev\n\
                  /dev/sda1 1000 250 750 25% /\n\
                  /dev/sdb1 2000 500 1500 25% /mnt/my disk\n\
                  /dev/sdc1 x 1 1 1% /bad\n\
                  /dev/sdd1 10 1\n";
    let rows = parse_df_output(output);
    assert_eq!(2, rows.len());
    assert_eq!("/dev/sda1", rows[0].device);
    assert_eq!(1000, rows[0].total_bytes);
    assert_eq!(250, rows[0].used_bytes);
    assert_eq!(750, rows[0].available_bytes);
    assert_eq!("25", rows[0].used_percent);
    assert_eq!("/", rows[0].mount_point);
    assert_eq!("/mnt/my disk", rows[1].mount_point);
    assert!(parse_df_output("").is_empty());
}

#[test]
fn dashboard_timing_and_node_stats() {
    assert_eq!(1234, generation_time_ms(1_000_000_000, 2_234_999_999));
    assert_eq!(0, generation_time_ms(5, 5));
    assert_eq!(-1, generation_time_ms(2_000_000, 999_999));
    assert_eq!(Some(7), stats_or_none::<i32, String>(Ok(7)));
    assert_eq!(None, stats_or_none::<i32, String>(Err("down".to_string())));
}
