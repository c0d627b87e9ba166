//! Disk-space accounting and the NOSPACE alarm.
//!
//! Occupancy is measured against the smaller of a configured quota and
//! what the store could reach on its filesystem. Above a high mark the
//! store reclaims; above a higher one the alarm is raised and requests
//! that consume space are refused, until occupancy falls to a low mark.

use vstd::prelude::*;
use crate::status::{Code, Status};

verus! {

/// How stale, in seconds, a live-bytes measurement may be before it is
/// taken again.
pub const IN_USE_MAX_AGE_SECS: u64 = 300;

/// Tunables. Percentages are of the effective capacity.
#[derive(Debug, Clone, Copy, PartialEq, Eq, Structural)]
pub struct SpaceConfig {
    /// Ceiling on the store's footprint in bytes; zero means none.
    pub quota_backend_bytes: u64,
    /// Reclaim above this percentage.
    pub high_water_percent: u8,
    /// Raise the alarm from this percentage on.
    pub alarm_percent: u8,
    /// Clear the alarm at this percentage or below.
    pub clear_percent: u8,
    /// Seconds between samples.
    pub interval_secs: u64,
    /// Revisions of history to keep when compacting under pressure.
    pub reclaim_retention: i64,
    /// Whether reclaiming may defragment.
    pub auto_defrag: bool,
    /// Do not defragment for fewer bytes than this.
    pub defrag_min_reclaim_bytes: u64,
    /// Least number of seconds between two reclaims.
    pub reclaim_backoff_secs: u64,
}

/// The tunables a store runs with unless told otherwise.
pub open spec fn default_config() -> SpaceConfig {
    SpaceConfig {
        quota_backend_bytes: 0,
        high_water_percent: 80,
        alarm_percent: 95,
        clear_percent: 70,
        interval_secs: 30,
        reclaim_retention: 1000,
        auto_defrag: true,
        defrag_min_reclaim_bytes: 0x40_0000,
        reclaim_backoff_secs: 60,
    }
}

impl Default for SpaceConfig {
    fn default() -> (r: SpaceConfig)
        ensures
            r == default_config(),
    {
        SpaceConfig {
            quota_backend_bytes: 0,
            high_water_percent: 80,
            alarm_percent: 95,
            clear_percent: 70,
            interval_secs: 30,
            reclaim_retention: 1000,
            auto_defrag: true,
            defrag_min_reclaim_bytes: 4 * 1024 * 1024,
            reclaim_backoff_secs: 60,
        }
    }
}

/// A reading of the store's footprint.
#[derive(Debug, Clone, Copy, PartialEq, Eq, Structural)]
pub struct SpaceStats {
    pub db_bytes: u64,
    pub db_in_use_bytes: u64,
    pub snapshot_bytes: u64,
    pub data_dir_bytes: u64,
    pub fs_total_bytes: u64,
    pub fs_available_bytes: u64,
    pub capacity_bytes: u64,
    pub used_ppm: u64,
    pub nospace: bool,
}

/// A sum that stops at the largest number.
pub open spec fn sat_sum(a: int, b: int) -> int {
    if a + b > u64::MAX {
        u64::MAX as int
    } else {
        a + b
    }
}

/// What a store occupies: everything in its directory, and at least the
/// database and the snapshots together.
pub open spec fn used_of(data_dir: int, db: int, snapshots: int) -> int {
    if data_dir >= sat_sum(db, snapshots) {
        data_dir
    } else {
        sat_sum(db, snapshots)
    }
}

/// What a store occupies.
fn used_total(data_dir: u64, db: u64, snapshots: u64) -> (r: u64)
    ensures
        r == used_of(data_dir as int, db as int, snapshots as int),
{
    let both = db.saturating_add(snapshots);
    if data_dir >= both {
        data_dir
    } else {
        both
    }
}

impl SpaceStats {
    /// Everything the store occupies on the data volume.
    pub fn used_bytes(&self) -> (r: u64)
        ensures
            r == used_of(
                self.data_dir_bytes as int,
                self.db_bytes as int,
                self.snapshot_bytes as int,
            ),
    {
        used_total(self.data_dir_bytes, self.db_bytes, self.snapshot_bytes)
    }
}

/// Parts per million that a percentage stands for.
pub fn pct_ppm(percent: u8) -> (r: u64)
    ensures
        r == percent * 10_000,
{
    percent as u64 * 10_000
}

/// Occupancy in parts per million of capacity, rounded down; zero where
/// there is nothing to measure against.
pub open spec fn ppm(used: int, capacity: int) -> int {
    if capacity == 0 {
        0
    } else if used * 1_000_000 / capacity > u64::MAX {
        u64::MAX as int
    } else {
        used * 1_000_000 / capacity
    }
}

/// Occupancy in parts per million of capacity.
pub fn used_ppm(used: u64, capacity: u64) -> (r: u64)
    ensures
        r == ppm(used as int, capacity as int),
{
    if capacity == 0 {
        return 0;
    }
    let q: u128 = (used as u128 * 1_000_000) / capacity as u128;
    if q > u64::MAX as u128 {
        u64::MAX
    } else {
        q as u64
    }
}

/// What a capacity is: the smaller of quota and reach, where each exists.
pub open spec fn capacity_of(quota: int, used: int, fs_available: Option<u64>) -> int {
    match fs_available {
        Some(avail) => {
            let reach = sat_sum(used, avail as int);
            if quota == 0 || reach < quota {
                reach
            } else {
                quota
            }
        },
        None => quota,
    }
}

/// Whether the alarm stands after a sample: raised from the alarm mark
/// on, cleared at the clear mark or below, and otherwise as it was.
pub open spec fn alarm_after(
    raised: bool,
    used_ppm: int,
    capacity: int,
    alarm_percent: int,
    clear_percent: int,
) -> bool {
    if capacity == 0 {
        raised
    } else if !raised {
        used_ppm >= alarm_percent * 10_000
    } else {
        used_ppm > clear_percent * 10_000
    }
}

/// The size and free space of a filesystem.
#[derive(Debug, Clone, Copy, PartialEq, Eq, Structural)]
pub struct FsSpace {
    pub total: u64,
    pub available: u64,
}

/// What one sample of the volume found. A database size that could not
/// be read is `None`.
#[derive(Debug, Clone, Copy, PartialEq, Eq, Structural)]
pub struct Sample {
    pub db_bytes: Option<u64>,
    pub snapshot_bytes: u64,
    pub data_dir_bytes: u64,
    pub fs: Option<FsSpace>,
}

/// The store's space state.
#[derive(Debug)]
pub struct SpaceGuard {
    cfg: SpaceConfig,
    data_dir: String,
    enabled: bool,
    db_bytes: u64,
    db_in_use_bytes: u64,
    snapshot_bytes: u64,
    data_dir_bytes: u64,
    fs_total_bytes: u64,
    fs_available_bytes: u64,
    capacity_bytes: u64,
    used_ppm: u64,
    nospace: bool,
    in_use_measured_at: u64,
}

/// What a guard holds.
pub struct GuardView {
    pub cfg: SpaceConfig,
    pub data_dir: Seq<char>,
    pub enabled: bool,
    pub db_bytes: u64,
    pub db_in_use_bytes: u64,
    pub snapshot_bytes: u64,
    pub data_dir_bytes: u64,
    pub fs_total_bytes: u64,
    pub fs_available_bytes: u64,
    pub capacity_bytes: u64,
    pub used_ppm: u64,
    pub raised: bool,
    pub in_use_measured_at: u64,
}

impl GuardView {
    /// Whether requests that consume space are refused.
    pub open spec fn nospace(self) -> bool {
        self.enabled && self.raised
    }

    /// Live bytes as reported: never more than the file holds, once its
    /// size is known.
    pub open spec fn in_use(self) -> u64 {
        if self.db_bytes == 0 || self.db_in_use_bytes <= self.db_bytes {
            self.db_in_use_bytes
        } else {
            self.db_bytes
        }
    }

    /// The reading the guard reports.
    pub open spec fn stats(self) -> SpaceStats {
        SpaceStats {
            db_bytes: self.db_bytes,
            db_in_use_bytes: self.in_use(),
            snapshot_bytes: self.snapshot_bytes,
            data_dir_bytes: self.data_dir_bytes,
            fs_total_bytes: self.fs_total_bytes,
            fs_available_bytes: self.fs_available_bytes,
            capacity_bytes: self.capacity_bytes,
            used_ppm: self.used_ppm,
            nospace: self.nospace(),
        }
    }

    /// The guard after a sample.
    pub open spec fn sampled(self, s: Sample) -> GuardView {
        let db = match s.db_bytes {
            Some(n) => n,
            None => self.db_bytes,
        };
        let used = used_of(s.data_dir_bytes as int, db as int, s.snapshot_bytes as int);
        let avail = match s.fs {
            Some(f) => Some(f.available),
            None => None,
        };
        let capacity = capacity_of(self.cfg.quota_backend_bytes as int, used, avail);
        GuardView {
            db_bytes: db,
            snapshot_bytes: s.snapshot_bytes,
            data_dir_bytes: s.data_dir_bytes,
            fs_total_bytes: match s.fs {
                Some(f) => f.total,
                None => 0,
            },
            fs_available_bytes: match s.fs {
                Some(f) => f.available,
                None => 0,
            },
            capacity_bytes: capacity as u64,
            used_ppm: ppm(used, capacity) as u64,
            raised: alarm_after(
                self.raised,
                ppm(used, capacity),
                capacity,
                self.cfg.alarm_percent as int,
                self.cfg.clear_percent as int,
            ),
            ..self
        }
    }
}

impl View for SpaceGuard {
    type V = GuardView;

    closed spec fn view(&self) -> GuardView {
        GuardView {
            cfg: self.cfg,
            data_dir: self.data_dir@,
            enabled: self.enabled,
            db_bytes: self.db_bytes,
            db_in_use_bytes: self.db_in_use_bytes,
            snapshot_bytes: self.snapshot_bytes,
            data_dir_bytes: self.data_dir_bytes,
            fs_total_bytes: self.fs_total_bytes,
            fs_available_bytes: self.fs_available_bytes,
            capacity_bytes: self.capacity_bytes,
            used_ppm: self.used_ppm,
            raised: self.nospace,
            in_use_measured_at: self.in_use_measured_at,
        }
    }
}

/// A guard that has not sampled anything yet.
pub open spec fn fresh_guard(cfg: SpaceConfig, data_dir: Seq<char>, enabled: bool) -> GuardView {
    GuardView {
        cfg,
        data_dir,
        enabled,
        db_bytes: 0,
        db_in_use_bytes: 0,
        snapshot_bytes: 0,
        data_dir_bytes: 0,
        fs_total_bytes: 0,
        fs_available_bytes: 0,
        capacity_bytes: 0,
        used_ppm: 0,
        raised: false,
        in_use_measured_at: 0,
    }
}

/// The text a write is refused with under the alarm. Client libraries
/// match on it.
pub open spec fn no_space_text() -> Seq<char> {
    "etcdserver: mvcc: database space exceeded"@
}

impl SpaceGuard {
    /// A guard over a data directory.
    pub fn new(data_dir: String, cfg: SpaceConfig) -> (r: SpaceGuard)
        ensures
            r@ == fresh_guard(cfg, data_dir@, true),
    {
        SpaceGuard {
            cfg,
            data_dir,
            enabled: true,
            db_bytes: 0,
            db_in_use_bytes: 0,
            snapshot_bytes: 0,
            data_dir_bytes: 0,
            fs_total_bytes: 0,
            fs_available_bytes: 0,
            capacity_bytes: 0,
            used_ppm: 0,
            nospace: false,
            in_use_measured_at: 0,
        }
    }

    /// A guard that never measures anything and never alarms.
    pub fn disabled() -> (r: SpaceGuard)
        ensures
            r@ == fresh_guard(default_config(), Seq::empty(), false),
    {
        let mut g = SpaceGuard::new(String::new(), SpaceConfig::default());
        g.enabled = false;
        g
    }

    /// Whether the guard measures.
    pub fn is_enabled(&self) -> (r: bool)
        ensures
            r == self@.enabled,
    {
        self.enabled
    }

    /// The tunables.
    pub fn config(&self) -> (r: &SpaceConfig)
        ensures
            *r == self@.cfg,
    {
        &self.cfg
    }

    /// The data directory.
    pub fn data_dir(&self) -> (r: &str)
        ensures
            r@ == self@.data_dir,
    {
        self.data_dir.as_str()
    }

    /// Whether the alarm is raised.
    pub fn nospace(&self) -> (r: bool)
        ensures
            r == self@.nospace(),
    {
        self.enabled && self.nospace
    }

    /// Gate for requests that consume space.
    pub fn check_write(&self) -> (r: Result<(), Status>)
        ensures
            r is Ok <==> !self@.nospace(),
            r is Err ==> r->Err_0.says(Code::ResourceExhausted, no_space_text()),
    {
        if self.nospace() {
            return Err(
                Status::new(Code::ResourceExhausted, "etcdserver: mvcc: database space exceeded"),
            );
        }
        Ok(())
    }

    /// Clear the alarm by request; whether it was raised. The next sample
    /// may raise it again.
    pub fn disarm_nospace(&mut self) -> (was: bool)
        ensures
            was == old(self)@.raised,
            final(self)@ == (GuardView { raised: false, ..old(self)@ }),
    {
        let was = self.nospace;
        self.nospace = false;
        was
    }

    /// Live bytes, never more than the file holds.
    fn in_use_capped(&self) -> (r: u64)
        ensures
            r == self@.in_use(),
    {
        if self.db_bytes == 0 || self.db_in_use_bytes <= self.db_bytes {
            self.db_in_use_bytes
        } else {
            self.db_bytes
        }
    }

    /// The latest reading.
    pub fn stats(&self) -> (r: SpaceStats)
        ensures
            r == self@.stats(),
    {
        SpaceStats {
            db_bytes: self.db_bytes,
            db_in_use_bytes: self.in_use_capped(),
            snapshot_bytes: self.snapshot_bytes,
            data_dir_bytes: self.data_dir_bytes,
            fs_total_bytes: self.fs_total_bytes,
            fs_available_bytes: self.fs_available_bytes,
            capacity_bytes: self.capacity_bytes,
            used_ppm: self.used_ppm,
            nospace: self.nospace(),
        }
    }

    /// The ceiling occupancy is measured against; zero where there is
    /// nothing to measure against.
    pub fn capacity_bytes(&self, used: u64, fs_available: Option<u64>) -> (r: u64)
        ensures
            r == capacity_of(self@.cfg.quota_backend_bytes as int, used as int, fs_available),
    {
        let quota: u64 = self.cfg.quota_backend_bytes;
        match fs_available {
            Some(avail) => {
                let reach = used.saturating_add(avail);
                if quota == 0 || reach < quota {
                    reach
                } else {
                    quota
                }
            },
            None => quota,
        }
    }

    /// Forget when live bytes were measured, so that the next reader
    /// measures again.
    pub fn invalidate_in_use(&mut self)
        ensures
            final(self)@ == (GuardView { in_use_measured_at: 0, ..old(self)@ }),
    {
        self.in_use_measured_at = 0;
    }

    /// Whether the live-bytes measurement is at least `max_age_secs` old.
    pub fn in_use_is_stale(&self, now_secs: u64, max_age_secs: u64) -> (r: bool)
        ensures
            r == ((if now_secs >= self@.in_use_measured_at {
                now_secs - self@.in_use_measured_at
            } else {
                0
            }) >= max_age_secs),
    {
        now_secs.saturating_sub(self.in_use_measured_at) >= max_age_secs
    }

    /// Live bytes in the database. `measured` is what a fresh measurement
    /// gave, if one was due and succeeded; it is then remembered.
    pub fn in_use_bytes(&mut self, now_secs: u64, measured: Option<u64>) -> (r: u64)
        ensures
            final(self)@ == (match measured {
                Some(n) => GuardView {
                    db_in_use_bytes: n,
                    in_use_measured_at: now_secs,
                    ..old(self)@
                },
                None => old(self)@,
            }),
            r == final(self)@.in_use(),
    {
        if let Some(n) = measured {
            self.db_in_use_bytes = n;
            self.in_use_measured_at = now_secs;
        }
        self.in_use_capped()
    }

    /// Remember a live-bytes measurement taken elsewhere.
    pub fn record_in_use(&mut self, bytes: u64, now_secs: u64)
        ensures
            final(self)@ == (GuardView {
                db_in_use_bytes: bytes,
                in_use_measured_at: now_secs,
                ..old(self)@
            }),
    {
        self.db_in_use_bytes = bytes;
        self.in_use_measured_at = now_secs;
    }

    /// Move the alarm as an occupancy asks. The bytes in use themselves
    /// decide nothing: their share of the capacity does.
    pub fn update_alarm(&mut self, used_ppm: u64, used: u64, capacity: u64)
        ensures
            final(self)@ == (GuardView {
                raised: alarm_after(
                    old(self)@.raised,
                    used_ppm as int,
                    capacity as int,
                    old(self)@.cfg.alarm_percent as int,
                    old(self)@.cfg.clear_percent as int,
                ),
                ..old(self)@
            }),
    {
        if capacity == 0 {
            return;
        }
        let alarm_ppm = pct_ppm(self.cfg.alarm_percent);
        let clear_ppm = pct_ppm(self.cfg.clear_percent);
        if !self.nospace && used_ppm >= alarm_ppm {
            self.nospace = true;
        } else if self.nospace && used_ppm <= clear_ppm {
            self.nospace = false;
        }
    }

    /// Take in a sample and move the alarm. A disabled guard does
    /// neither.
    pub fn refresh(&mut self, s: &Sample) -> (r: SpaceStats)
        ensures
            final(self)@ == (if old(self)@.enabled {
                old(self)@.sampled(*s)
            } else {
                old(self)@
            }),
            r == final(self)@.stats(),
    {
        if !self.enabled {
            return self.stats();
        }
        let db_bytes: u64 = match s.db_bytes {
            Some(n) => n,
            None => self.db_bytes,
        };
        let used = used_total(s.data_dir_bytes, db_bytes, s.snapshot_bytes);
        let avail: Option<u64> = match s.fs {
            Some(f) => Some(f.available),
            None => None,
        };
        let capacity = self.capacity_bytes(used, avail);
        let occupancy = used_ppm(used, capacity);
        self.db_bytes = db_bytes;
        self.snapshot_bytes = s.snapshot_bytes;
        self.data_dir_bytes = s.data_dir_bytes;
        self.fs_total_bytes = match s.fs {
            Some(f) => f.total,
            None => 0,
        };
        self.fs_available_bytes = match s.fs {
            Some(f) => f.available,
            None => 0,
        };
        self.capacity_bytes = capacity;
        self.used_ppm = occupancy;
        self.update_alarm(occupancy, used, capacity);
        self.stats()
    }
}

/// Whether the monitor reclaims after a sample: it could measure, it is
/// at or above the high mark, and the last reclaim lies far enough back.
pub fn should_reclaim(
    cfg: &SpaceConfig,
    stats: &SpaceStats,
    secs_since_last: Option<u64>,
) -> (r: bool)
    ensures
        r == (stats.capacity_bytes != 0 && stats.used_ppm >= cfg.high_water_percent * 10_000 && (
        match secs_since_last {
            Some(s) => s >= cfg.reclaim_backoff_secs,
            None => true,
        })),
{
    if stats.capacity_bytes == 0 || stats.used_ppm < pct_ppm(cfg.high_water_percent) {
        return false;
    }
    match secs_since_last {
        Some(s) => s >= cfg.reclaim_backoff_secs,
        None => true,
    }
}

/// Size of the database file and of the live data in it.
#[derive(Debug, Clone, Copy, PartialEq, Eq, Structural)]
pub struct Usage {
    pub file_bytes: u64,
    pub in_use_bytes: u64,
}

/// Bytes that a defragment would return.
pub open spec fn reclaimable(u: Usage) -> int {
    if u.file_bytes >= u.in_use_bytes {
        u.file_bytes - u.in_use_bytes
    } else {
        0
    }
}

/// Where a reclaim pass stands. Compaction comes first, then a snapshot
/// so that the log can be purged, then a measurement, and only where
/// enough would come back a defragment.
#[derive(Debug, Clone, Copy, PartialEq, Eq, Structural)]
pub enum ReclaimStep {
    Compact,
    Snapshot,
    Settle,
    Measure,
    Defragment,
    Resample,
    Done,
    Failed,
}

/// What came of carrying out a reclaim step.
#[derive(Debug, Clone, Copy, PartialEq, Eq, Structural)]
pub enum ReclaimEvent {
    /// The step was carried out.
    Carried,
    /// The step failed.
    Failure,
    /// The measurement.
    Usage(Usage),
}

/// The step after one: a failed compaction or a declined snapshot does
/// not stop the pass, a failed measurement or defragment does.
pub open spec fn reclaim_after(cfg: SpaceConfig, step: ReclaimStep, event: ReclaimEvent)
    -> ReclaimStep {
    match step {
        ReclaimStep::Compact => ReclaimStep::Snapshot,
        ReclaimStep::Snapshot => ReclaimStep::Settle,
        ReclaimStep::Settle => if cfg.auto_defrag {
            ReclaimStep::Measure
        } else {
            ReclaimStep::Done
        },
        ReclaimStep::Measure => match event {
            ReclaimEvent::Usage(u) => if reclaimable(u) < cfg.defrag_min_reclaim_bytes {
                ReclaimStep::Done
            } else {
                ReclaimStep::Defragment
            },
            _ => ReclaimStep::Failed,
        },
        ReclaimStep::Defragment => if event == ReclaimEvent::Carried {
            ReclaimStep::Resample
        } else {
            ReclaimStep::Failed
        },
        ReclaimStep::Resample => ReclaimStep::Done,
        ReclaimStep::Done => ReclaimStep::Done,
        ReclaimStep::Failed => ReclaimStep::Failed,
    }
}

/// One step of a reclaim pass: takes what came of the current step,
/// remembers a measurement, forgets it after a defragment, and names the
/// next step.
pub fn reclaim(
    guard: &mut SpaceGuard,
    cfg: &SpaceConfig,
    step: ReclaimStep,
    event: ReclaimEvent,
    now_secs: u64,
) -> (next: ReclaimStep)
    ensures
        next == reclaim_after(*cfg, step, event),
        final(guard)@ == (match (step, event) {
            (ReclaimStep::Measure, ReclaimEvent::Usage(u)) => GuardView {
                db_in_use_bytes: u.in_use_bytes,
                in_use_measured_at: now_secs,
                ..old(guard)@
            },
            (ReclaimStep::Defragment, ReclaimEvent::Carried) => GuardView {
                in_use_measured_at: 0,
                ..old(guard)@
            },
            _ => old(guard)@,
        }),
{
    match step {
        ReclaimStep::Compact => ReclaimStep::Snapshot,
        ReclaimStep::Snapshot => ReclaimStep::Settle,
        ReclaimStep::Settle => {
            if cfg.auto_defrag {
                ReclaimStep::Measure
            } else {
                ReclaimStep::Done
            }
        },
        ReclaimStep::Measure => match event {
            ReclaimEvent::Usage(u) => {
                guard.record_in_use(u.in_use_bytes, now_secs);
                if u.file_bytes.saturating_sub(u.in_use_bytes) < cfg.defrag_min_reclaim_bytes {
                    ReclaimStep::Done
                } else {
                    ReclaimStep::Defragment
                }
            },
            _ => ReclaimStep::Failed,
        },
        ReclaimStep::Defragment => match event {
            ReclaimEvent::Carried => {
                guard.invalidate_in_use();
                ReclaimStep::Resample
            },
            _ => ReclaimStep::Failed,
        },
        ReclaimStep::Resample => ReclaimStep::Done,
        ReclaimStep::Done => ReclaimStep::Done,
        ReclaimStep::Failed => ReclaimStep::Failed,
    }
}

/// A disabled guard refuses nothing, whatever it is shown.
pub proof fn law_disabled_guard_never_refuses(g: GuardView, s: Sample)
    requires
        !g.enabled,
    ensures
        !g.nospace(),
        !g.sampled(s).nospace(),
{
}

/// Between the two marks the alarm keeps its state: once raised it does
/// not clear by falling just below the mark that raised it, and once
/// cleared it does not return by rising just above the clear mark.
pub proof fn law_alarm_has_hysteresis(g: GuardView, s: Sample)
    requires
        g.enabled,
        g.cfg.clear_percent < g.cfg.alarm_percent,
        g.sampled(s).capacity_bytes != 0,
        g.cfg.clear_percent * 10_000 < g.sampled(s).used_ppm < g.cfg.alarm_percent * 10_000,
    ensures
        g.sampled(s).nospace() == g.nospace(),
{
    lemma_sample_fits(g, s);
}

/// At or above the alarm mark the alarm stands, whatever it was before,
/// where the clear mark lies below the alarm mark.
pub proof fn law_full_store_is_alarmed(g: GuardView, s: Sample)
    requires
        g.enabled,
        g.cfg.clear_percent < g.cfg.alarm_percent,
        g.sampled(s).capacity_bytes != 0,
        g.sampled(s).used_ppm >= g.cfg.alarm_percent * 10_000,
    ensures
        g.sampled(s).nospace(),
{
    lemma_sample_fits(g, s);
}

/// At or below the clear mark the alarm does not stand, where the alarm
/// mark lies above the clear mark.
pub proof fn law_emptied_store_is_not_alarmed(g: GuardView, s: Sample)
    requires
        g.enabled,
        g.cfg.clear_percent < g.cfg.alarm_percent,
        g.sampled(s).capacity_bytes != 0,
        g.sampled(s).used_ppm <= g.cfg.clear_percent * 10_000,
    ensures
        !g.sampled(s).nospace(),
{
    lemma_sample_fits(g, s);
}

/// The figures of a sample fit the fields that hold them.
proof fn lemma_sample_fits(g: GuardView, s: Sample)
    ensures
        ({
            let db = match s.db_bytes {
                Some(n) => n,
                None => g.db_bytes,
            };
            let used = used_of(s.data_dir_bytes as int, db as int, s.snapshot_bytes as int);
            let avail = match s.fs {
                Some(f) => Some(f.available),
                None => None,
            };
            let capacity = capacity_of(g.cfg.quota_backend_bytes as int, used, avail);
            &&& 0 <= used <= u64::MAX
            &&& 0 <= capacity <= u64::MAX
            &&& 0 <= ppm(used, capacity) <= u64::MAX
        }),
{
    let db = match s.db_bytes {
        Some(n) => n,
        None => g.db_bytes,
    };
    let used = used_of(s.data_dir_bytes as int, db as int, s.snapshot_bytes as int);
    let avail = match s.fs {
        Some(f) => Some(f.available),
        None => None,
    };
    let capacity = capacity_of(g.cfg.quota_backend_bytes as int, used, avail);
    if capacity > 0 {
        assert(used * 1_000_000 / capacity >= 0) by (nonlinear_arith)
            requires
                used >= 0,
                capacity > 0,
        ;
    }
}

/// Capacity never exceeds what the store could reach on its filesystem,
/// however large the quota, nor a quota that is set.
pub proof fn law_capacity_is_reachable(quota: u64, used: u64, avail: u64)
    ensures
        capacity_of(quota as int, used as int, Some(avail)) <= used + avail,
        quota > 0 ==> capacity_of(quota as int, used as int, Some(avail)) <= quota,
{
}

/// A reclaim pass comes to an end within seven steps.
pub proof fn law_reclaim_ends(cfg: SpaceConfig, e: spec_fn(int) -> ReclaimEvent)
    ensures
        ({
            let s = |i: int| reclaim_run(cfg, e, i);
            s(7) == ReclaimStep::Done || s(7) == ReclaimStep::Failed
        }),
{
    reveal_with_fuel(reclaim_run, 8);
}

/// The step a reclaim pass stands at after `n` steps.
pub open spec fn reclaim_run(cfg: SpaceConfig, e: spec_fn(int) -> ReclaimEvent, n: int)
    -> ReclaimStep
    decreases n,
{
    if n <= 0 {
        ReclaimStep::Compact
    } else {
        reclaim_after(cfg, reclaim_run(cfg, e, n - 1), e(n - 1))
    }
}

/// Unless told otherwise a store has no quota, reclaims at four fifths,
/// raises the alarm above that and clears it below.
pub proof fn law_default_marks_are_in_order(c: SpaceConfig)
    requires
        c == default_config(),
    ensures
        c.quota_backend_bytes == 0,
        c.clear_percent == 70,
        c.high_water_percent == 80,
        c.alarm_percent == 95,
        c.interval_secs == 30,
        c.reclaim_retention == 1000,
        c.auto_defrag,
        c.defrag_min_reclaim_bytes == 4 * 1024 * 1024,
        c.reclaim_backoff_secs == 60,
        IN_USE_MAX_AGE_SECS == 5 * 60,
{
}

/// What a store occupies is no less than its directory holds, and no less
/// than the database and the snapshots together, and is one of the two.
pub proof fn law_occupancy_is_the_larger_count(data_dir: u64, db: u64, snapshots: u64)
    ensures
        ({
            let used = used_of(data_dir as int, db as int, snapshots as int);
            &&& used >= data_dir
            &&& db + snapshots <= u64::MAX ==> used >= db + snapshots
            &&& db + snapshots > u64::MAX ==> used == u64::MAX
            &&& used == data_dir || used == db + snapshots || used == u64::MAX
            &&& used <= u64::MAX
        }),
{
}

/// Parts per million are the share, rounded down: that many millionths of
/// the capacity fit into what is used, and one more would not. Without a
/// capacity there is no share.
pub proof fn law_share_is_rounded_down(used: u64, capacity: u64)
    ensures
        capacity == 0 ==> ppm(used as int, 0) == 0,
        capacity > 0 && ppm(used as int, capacity as int) < u64::MAX ==> ppm(
            used as int,
            capacity as int,
        ) * capacity <= used * 1_000_000 < (ppm(used as int, capacity as int) + 1) * capacity,
        capacity > 0 && used <= capacity ==> ppm(used as int, capacity as int) <= 1_000_000,
{
    if capacity > 0 {
        let n = used * 1_000_000;
        let c = capacity as int;
        let q = n / c;
        assert(q * c <= n < (q + 1) * c) by (nonlinear_arith)
            requires
                c > 0,
                q == n / c,
        ;
        if used <= capacity {
            assert(q <= 1_000_000) by (nonlinear_arith)
                requires
                    q * c <= n,
                    n <= c * 1_000_000,
                    c > 0,
            ;
        }
    }
}

/// The capacity is the quota where the volume is not measured; otherwise
/// what is used and free together, and no more than a quota that is set.
pub proof fn law_capacity_is_the_tighter_bound(quota: u64, used: u64, avail: u64)
    ensures
        capacity_of(quota as int, used as int, None) == quota,
        used + avail <= u64::MAX && quota == 0 ==> capacity_of(
            quota as int,
            used as int,
            Some(avail),
        ) == used + avail,
        used + avail <= u64::MAX && quota > 0 ==> {
            let c = capacity_of(quota as int, used as int, Some(avail));
            &&& c <= quota
            &&& c <= used + avail
            &&& c == quota || c == used + avail
        },
        used + avail > u64::MAX && quota == 0 ==> capacity_of(
            quota as int,
            used as int,
            Some(avail),
        ) == u64::MAX,
        used + avail > u64::MAX && quota > 0 ==> capacity_of(
            quota as int,
            used as int,
            Some(avail),
        ) == quota,
{
}

/// A lowered alarm is raised exactly at or above its mark, a raised one
/// stays exactly above the clear mark, and neither moves where there is
/// nothing to measure against.
pub proof fn law_alarm_moves_at_its_marks(
    used_ppm: int,
    capacity: int,
    alarm_percent: int,
    clear_percent: int,
)
    ensures
        capacity != 0 ==> (alarm_after(false, used_ppm, capacity, alarm_percent, clear_percent)
            <==> used_ppm >= alarm_percent * 10_000),
        capacity != 0 ==> (alarm_after(true, used_ppm, capacity, alarm_percent, clear_percent)
            <==> used_ppm > clear_percent * 10_000),
        !alarm_after(false, used_ppm, 0, alarm_percent, clear_percent),
        alarm_after(true, used_ppm, 0, alarm_percent, clear_percent),
{
}

/// Writes are refused exactly while the guard is on and the alarm raised,
/// with the text that clients know.
pub proof fn law_writes_are_refused_under_the_alarm(g: GuardView)
    ensures
        g.nospace() <==> g.enabled && g.raised,
        no_space_text() == "etcdserver: mvcc: database space exceeded"@,
{
}

/// A sample replaces what was measured, keeps the last database size where
/// none was read, and changes nothing that was set.
pub proof fn law_sample_replaces_what_was_measured(g: GuardView, s: Sample)
    ensures
        g.sampled(s).cfg == g.cfg,
        g.sampled(s).data_dir == g.data_dir,
        g.sampled(s).enabled == g.enabled,
        g.sampled(s).db_in_use_bytes == g.db_in_use_bytes,
        g.sampled(s).in_use_measured_at == g.in_use_measured_at,
        s.db_bytes is None ==> g.sampled(s).db_bytes == g.db_bytes,
        s.db_bytes matches Some(n) ==> g.sampled(s).db_bytes == n,
        g.sampled(s).snapshot_bytes == s.snapshot_bytes,
        g.sampled(s).data_dir_bytes == s.data_dir_bytes,
        s.fs matches Some(f) ==> g.sampled(s).fs_total_bytes == f.total && g.sampled(
            s,
        ).fs_available_bytes == f.available,
        s.fs is None ==> g.sampled(s).fs_total_bytes == 0 && g.sampled(s).fs_available_bytes == 0,
{
}

/// The share and the alarm after a sample are those of what the store then
/// occupies and of the capacity it then has.
pub proof fn law_sample_measures_against_the_capacity(g: GuardView, s: Sample)
    ensures
        ({
            let after = g.sampled(s);
            let used = used_of(
                after.data_dir_bytes as int,
                after.db_bytes as int,
                after.snapshot_bytes as int,
            );
            let avail = match s.fs {
                Some(f) => Some(f.available),
                None => None,
            };
            &&& after.capacity_bytes as int == capacity_of(
                g.cfg.quota_backend_bytes as int,
                used,
                avail,
            )
            &&& after.used_ppm as int == ppm(used, after.capacity_bytes as int)
            &&& after.raised == alarm_after(
                g.raised,
                after.used_ppm as int,
                after.capacity_bytes as int,
                g.cfg.alarm_percent as int,
                g.cfg.clear_percent as int,
            )
        }),
{
    lemma_sample_fits(g, s);
}

/// Live bytes are reported as measured, but never above a file size that
/// is known.
pub proof fn law_live_bytes_fit_the_file(g: GuardView)
    ensures
        g.db_bytes > 0 ==> g.in_use() <= g.db_bytes,
        g.db_bytes == 0 || g.db_in_use_bytes <= g.db_bytes ==> g.in_use() == g.db_in_use_bytes,
        g.db_bytes > 0 && g.db_in_use_bytes > g.db_bytes ==> g.in_use() == g.db_bytes,
{
}

/// A reading reports each value as the guard holds it.
pub proof fn law_reading_reports_what_is_held(g: GuardView)
    ensures
        g.stats().db_bytes == g.db_bytes,
        g.stats().db_in_use_bytes == g.in_use(),
        g.stats().snapshot_bytes == g.snapshot_bytes,
        g.stats().data_dir_bytes == g.data_dir_bytes,
        g.stats().fs_total_bytes == g.fs_total_bytes,
        g.stats().fs_available_bytes == g.fs_available_bytes,
        g.stats().capacity_bytes == g.capacity_bytes,
        g.stats().used_ppm == g.used_ppm,
        g.stats().nospace <==> g.enabled && g.raised,
{
}

/// A guard starts with nothing measured and no alarm.
pub proof fn law_guard_starts_empty(cfg: SpaceConfig, data_dir: Seq<char>, enabled: bool)
    ensures
        ({
            let g = fresh_guard(cfg, data_dir, enabled);
            &&& g.cfg == cfg
            &&& g.data_dir == data_dir
            &&& g.enabled == enabled
            &&& !g.raised
            &&& g.capacity_bytes == 0
            &&& g.used_ppm == 0
            &&& g.db_bytes == 0
            &&& g.db_in_use_bytes == 0
            &&& g.snapshot_bytes == 0
            &&& g.data_dir_bytes == 0
            &&& g.fs_total_bytes == 0
            &&& g.fs_available_bytes == 0
            &&& g.in_use_measured_at == 0
        }),
{
}

/// A defragment returns what the file holds beyond the live bytes, and
/// nothing where it holds no more.
pub proof fn law_defragment_returns_the_slack(u: Usage)
    ensures
        reclaimable(u) >= 0,
        u.file_bytes >= u.in_use_bytes ==> reclaimable(u) + u.in_use_bytes == u.file_bytes,
        u.file_bytes < u.in_use_bytes ==> reclaimable(u) == 0,
{
}

/// A reclaim pass compacts, snapshots and settles whatever came of each;
/// it goes on to measure only where it may defragment, defragments only
/// where enough would come back, and fails where it could not measure or
/// defragment.
pub proof fn law_reclaim_goes_step_by_step(cfg: SpaceConfig, event: ReclaimEvent)
    ensures
        reclaim_after(cfg, ReclaimStep::Compact, event) == ReclaimStep::Snapshot,
        reclaim_after(cfg, ReclaimStep::Snapshot, event) == ReclaimStep::Settle,
        cfg.auto_defrag ==> reclaim_after(cfg, ReclaimStep::Settle, event) == ReclaimStep::Measure,
        !cfg.auto_defrag ==> reclaim_after(cfg, ReclaimStep::Settle, event) == ReclaimStep::Done,
        event matches ReclaimEvent::Usage(u) ==> {
            &&& u.file_bytes - u.in_use_bytes >= cfg.defrag_min_reclaim_bytes ==> reclaim_after(
                cfg,
                ReclaimStep::Measure,
                event,
            ) == ReclaimStep::Defragment
            &&& u.file_bytes - u.in_use_bytes < cfg.defrag_min_reclaim_bytes
                && cfg.defrag_min_reclaim_bytes > 0 ==> reclaim_after(
                cfg,
                ReclaimStep::Measure,
                event,
            ) == ReclaimStep::Done
        },
        !(event is Usage) ==> reclaim_after(cfg, ReclaimStep::Measure, event)
            == ReclaimStep::Failed,
        event is Carried ==> reclaim_after(cfg, ReclaimStep::Defragment, event)
            == ReclaimStep::Resample,
        !(event is Carried) ==> reclaim_after(cfg, ReclaimStep::Defragment, event)
            == ReclaimStep::Failed,
        reclaim_after(cfg, ReclaimStep::Resample, event) == ReclaimStep::Done,
        reclaim_after(cfg, ReclaimStep::Done, event) == ReclaimStep::Done,
        reclaim_after(cfg, ReclaimStep::Failed, event) == ReclaimStep::Failed,
{
}

} // verus!
