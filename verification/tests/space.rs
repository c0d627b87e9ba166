use fastetcd::space::{
    pct_ppm, reclaim, should_reclaim, FsSpace, ReclaimEvent, ReclaimStep, Sample, SpaceConfig,
    SpaceGuard, Usage,
};
use fastetcd::status::Code;

fn guard(quota: u64) -> SpaceGuard {
    SpaceGuard::new(
        String::from("/tmp"),
        SpaceConfig {
            quota_backend_bytes: quota,
            ..SpaceConfig::default()
        },
    )
}

#[test]
fn capacity_prefers_the_filesystem_over_an_oversized_quota() {
    // A 2 GiB quota on a volume with 10 MB free is not a 2 GiB
    // limit. Capacity must be what the store can actually reach.
    let g = guard(2 * 1024 * 1024 * 1024);
    let used = 54 * 1024 * 1024;
    let avail = 10 * 1024 * 1024;
    assert_eq!(g.capacity_bytes(used, Some(avail)), used + avail);
}

#[test]
fn a_quota_below_the_filesystem_still_binds() {
    let g = guard(100 * 1024 * 1024);
    assert_eq!(
        g.capacity_bytes(10 * 1024 * 1024, Some(500 * 1024 * 1024)),
        100 * 1024 * 1024
    );
}

#[test]
fn no_quota_and_no_probe_means_nothing_to_measure() {
    assert_eq!(guard(0).capacity_bytes(1024, None), 0);
}

#[test]
fn alarm_raises_at_the_alarm_mark_and_clears_at_the_low_mark() {
    let mut g = guard(1000);
    g.update_alarm(pct_ppm(90), 900, 1000);
    assert!(!g.nospace(), "90% is below the 95% alarm mark");
    g.update_alarm(pct_ppm(96), 960, 1000);
    assert!(g.nospace(), "96% must raise the alarm");
    // Hysteresis: still alarmed between the clear and alarm marks.
    g.update_alarm(pct_ppm(80), 800, 1000);
    assert!(g.nospace(), "80% is above the 70% clear mark");
    g.update_alarm(pct_ppm(65), 650, 1000);
    assert!(!g.nospace(), "65% must clear the alarm");
}

#[test]
fn writes_are_refused_under_the_alarm_and_allowed_otherwise() {
    let mut g = guard(1000);
    assert!(g.check_write().is_ok());
    g.update_alarm(pct_ppm(99), 990, 1000);
    let err = g.check_write().expect_err("write must be refused");
    assert_eq!(err.code(), Code::ResourceExhausted);
    assert_eq!(err.message(), "etcdserver: mvcc: database space exceeded");
    g.disarm_nospace();
    assert!(g.check_write().is_ok(), "disarm must let writes through");
}

#[test]
fn a_disabled_guard_never_alarms() {
    let mut g = SpaceGuard::disabled();
    g.update_alarm(pct_ppm(100), 1000, 1000);
    assert!(!g.nospace());
    assert!(g.check_write().is_ok());
}

fn sample(db: u64, available: u64) -> Sample {
    Sample {
        db_bytes: Some(db),
        snapshot_bytes: 0,
        data_dir_bytes: db,
        fs: Some(FsSpace { total: 10_000, available }),
    }
}

#[test]
fn a_sample_moves_the_alarm_and_the_reading() {
    let mut g = guard(0);
    let stats = g.refresh(&sample(960, 40));
    assert_eq!(stats.capacity_bytes, 1000);
    assert_eq!(stats.used_ppm, 960_000);
    assert!(stats.nospace);
    assert_eq!(stats.fs_total_bytes, 10_000);
    // In between the marks the alarm stays, below the low one it goes.
    assert!(g.refresh(&sample(800, 200)).nospace);
    assert!(!g.refresh(&sample(700, 300)).nospace);
    // A size that could not be read keeps the last one.
    let stats = g.refresh(&Sample { db_bytes: None, ..sample(1, 300) });
    assert_eq!(stats.db_bytes, 700);
}

#[test]
fn a_store_over_its_quota_is_alarmed_at_once() {
    let mut g = SpaceGuard::new(
        String::from("/tmp"),
        SpaceConfig {
            quota_backend_bytes: 1,
            high_water_percent: 100,
            alarm_percent: 1,
            clear_percent: 0,
            ..SpaceConfig::default()
        },
    );
    assert!(g.check_write().is_ok());
    assert!(g.refresh(&sample(4096, 1 << 30)).nospace);
    assert!(g.check_write().is_err());
    assert!(g.disarm_nospace());
    assert!(g.check_write().is_ok());
    assert!(g.refresh(&sample(4096, 1 << 30)).nospace);
}

#[test]
fn live_bytes_are_measured_again_once_stale() {
    let mut g = guard(0);
    assert!(g.in_use_is_stale(1000, 300));
    g.record_in_use(50, 1000);
    assert!(!g.in_use_is_stale(1299, 300));
    assert!(g.in_use_is_stale(1300, 300));
    assert_eq!(g.in_use_bytes(1300, Some(70)), 70);
    g.invalidate_in_use();
    assert!(g.in_use_is_stale(1301, 300));
    // Never more than the file holds.
    g.refresh(&sample(60, 1000));
    assert_eq!(g.stats().db_in_use_bytes, 60);
}

#[test]
fn a_reclaim_pass_runs_from_compaction_to_defragment() {
    let cfg = SpaceConfig::default();
    let mut g = guard(0);
    let mut step = ReclaimStep::Compact;
    step = reclaim(&mut g, &cfg, step, ReclaimEvent::Failure, 10);
    assert_eq!(step, ReclaimStep::Snapshot);
    step = reclaim(&mut g, &cfg, step, ReclaimEvent::Failure, 10);
    assert_eq!(step, ReclaimStep::Settle);
    step = reclaim(&mut g, &cfg, step, ReclaimEvent::Carried, 10);
    assert_eq!(step, ReclaimStep::Measure);
    let much = Usage { file_bytes: 10 << 20, in_use_bytes: 1 << 20 };
    step = reclaim(&mut g, &cfg, step, ReclaimEvent::Usage(much), 10);
    assert_eq!(step, ReclaimStep::Defragment);
    assert!(!g.in_use_is_stale(10, 1));
    step = reclaim(&mut g, &cfg, step, ReclaimEvent::Carried, 10);
    assert_eq!(step, ReclaimStep::Resample);
    assert!(g.in_use_is_stale(10, 1));
    step = reclaim(&mut g, &cfg, step, ReclaimEvent::Carried, 10);
    assert_eq!(step, ReclaimStep::Done);
    let little = Usage { file_bytes: 10 << 20, in_use_bytes: 9 << 20 };
    let next = reclaim(&mut g, &cfg, ReclaimStep::Measure, ReclaimEvent::Usage(little), 10);
    assert_eq!(next, ReclaimStep::Done);
    let next = reclaim(&mut g, &cfg, ReclaimStep::Measure, ReclaimEvent::Failure, 10);
    assert_eq!(next, ReclaimStep::Failed);
}

#[test]
fn reclaim_waits_for_the_high_mark_and_the_backoff() {
    let cfg = SpaceConfig::default();
    let mut g = guard(0);
    let high = g.refresh(&sample(800, 200));
    assert!(should_reclaim(&cfg, &high, None));
    assert!(!should_reclaim(&cfg, &high, Some(59)));
    assert!(should_reclaim(&cfg, &high, Some(60)));
    let low = g.refresh(&sample(799, 201));
    assert!(!should_reclaim(&cfg, &low, None));
}
