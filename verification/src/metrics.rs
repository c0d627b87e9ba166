//! What the metrics endpoint reports, and the plain HTTP answers.

use vstd::prelude::*;
use crate::space::SpaceStats;
use crate::state::RaftMetrics;

verus! {

/// The values of the exported metrics. The share of the capacity in use is
/// a ratio of two of them.
#[derive(Debug, Clone, Copy, PartialEq, Eq, Structural)]
pub struct Metrics {
    pub has_leader: i64,
    pub leader_changes_total: u64,
    pub db_size_bytes: i64,
    pub db_size_in_use_bytes: i64,
    pub quota_backend_bytes: i64,
    pub snapshot_size_bytes: i64,
    pub disk_total_bytes: i64,
    pub disk_available_bytes: i64,
    pub nospace_alarm: i64,
    pub current_revision: i64,
    pub compact_revision: i64,
    /// The leader that was seen last; zero for none.
    pub last_leader: u64,
    /// The storage engine in use.
    pub engine: Engine,
}

/// A storage engine.
#[derive(Debug, Clone, Copy, PartialEq, Eq, Structural)]
pub enum Engine {
    Redb,
    Wal,
    Iouring,
}

impl Engine {
    /// What an engine is called.
    pub open spec fn called(self) -> Seq<char> {
        match self {
            Engine::Redb => "redb"@,
            Engine::Wal => "wal"@,
            Engine::Iouring => "iouring"@,
        }
    }

    /// What an engine is called.
    pub fn name(self) -> (r: &'static str)
        ensures
            r@ == self.called(),
    {
        match self {
            Engine::Redb => "redb",
            Engine::Wal => "wal",
            Engine::Iouring => "iouring",
        }
    }
}

/// What an exported metric reads.
#[derive(Debug, Clone, Copy, PartialEq, Eq, Structural)]
pub enum Reading {
    /// A value of the moment.
    Gauge(i64),
    /// A count that only grows.
    Counter(u64),
    /// The share of the capacity in use, as it was last sampled.
    UsedShare,
    /// The storage engine, by its name.
    Info(Engine),
}

/// An exported metric.
#[derive(Debug, Clone, Copy)]
pub struct Metric {
    pub name: &'static str,
    pub help: &'static str,
    pub reading: Reading,
}

/// What an exported metric is.
pub struct MetricView {
    pub name: Seq<char>,
    pub help: Seq<char>,
    pub reading: Reading,
}

impl View for Metric {
    type V = MetricView;

    open spec fn view(&self) -> MetricView {
        exported(self.name@, self.help@, self.reading)
    }
}

/// A metric under a name.
pub open spec fn exported(name: Seq<char>, help: Seq<char>, reading: Reading) -> MetricView {
    MetricView { name, help, reading }
}

/// What a list of exported metrics is.
pub open spec fn metric_views(ms: Seq<Metric>) -> Seq<MetricView> {
    ms.map_values(|m: Metric| m@)
}

fn metric(name: &'static str, help: &'static str, reading: Reading) -> (r: Metric)
    ensures
        r@ == exported(name@, help@, reading),
{
    Metric { name, help, reading }
}

/// A node id, or zero.
pub open spec fn leader_or_zero(m: RaftMetrics) -> u64 {
    match m.current_leader {
        Some(l) => l,
        None => 0,
    }
}

/// One for yes, zero for no.
pub open spec fn flag(b: bool) -> i64 {
    if b {
        1
    } else {
        0
    }
}

impl Metrics {
    /// Everything at zero, over the default engine.
    pub fn new() -> (r: Metrics)
        ensures
            r == (Metrics {
                has_leader: 0,
                leader_changes_total: 0,
                db_size_bytes: 0,
                db_size_in_use_bytes: 0,
                quota_backend_bytes: 0,
                snapshot_size_bytes: 0,
                disk_total_bytes: 0,
                disk_available_bytes: 0,
                nospace_alarm: 0,
                current_revision: 0,
                compact_revision: 0,
                last_leader: 0,
                engine: Engine::Redb,
            }),
    {
        Metrics {
            has_leader: 0,
            leader_changes_total: 0,
            db_size_bytes: 0,
            db_size_in_use_bytes: 0,
            quota_backend_bytes: 0,
            snapshot_size_bytes: 0,
            disk_total_bytes: 0,
            disk_available_bytes: 0,
            nospace_alarm: 0,
            current_revision: 0,
            compact_revision: 0,
            last_leader: 0,
            engine: Engine::Redb,
        }
    }

    /// The same values over another engine.
    pub fn with_engine(self, engine: Engine) -> (r: Metrics)
        ensures
            r == (Metrics { engine, ..self }),
    {
        Metrics { engine, ..self }
    }

    /// The metrics as they are exported.
    pub open spec fn listed(self) -> Seq<MetricView> {
        seq![
            exported(
                "etcd_server_has_leader"@,
                "Whether this node has a known leader (1) or not (0)"@,
                Reading::Gauge(self.has_leader),
            ),
            exported(
                "etcd_server_leader_changes_seen_total"@,
                "Total number of times the locally-observed leader has changed"@,
                Reading::Counter(self.leader_changes_total),
            ),
            exported(
                "etcd_mvcc_db_total_size_in_bytes"@,
                "Total on-disk size of the backend engine in bytes"@,
                Reading::Gauge(self.db_size_bytes),
            ),
            exported(
                "etcd_mvcc_db_total_size_in_use_in_bytes"@,
                "Bytes of the backend engine actually holding live data; the gap to the total size is what a defragment would free"@,
                Reading::Gauge(self.db_size_in_use_bytes),
            ),
            exported(
                "etcd_server_quota_backend_bytes"@,
                "Effective ceiling on the store's footprint: the configured quota, or what the data volume can actually hold"@,
                Reading::Gauge(self.quota_backend_bytes),
            ),
            exported(
                "fastetcd_store_snapshot_size_in_bytes"@,
                "Bytes occupied by the retained raft snapshots on the data volume"@,
                Reading::Gauge(self.snapshot_size_bytes),
            ),
            exported(
                "fastetcd_disk_total_bytes"@,
                "Total size of the filesystem holding the data directory"@,
                Reading::Gauge(self.disk_total_bytes),
            ),
            exported(
                "fastetcd_disk_available_bytes"@,
                "Bytes still available to fastetcd on the data volume"@,
                Reading::Gauge(self.disk_available_bytes),
            ),
            exported(
                "fastetcd_store_space_used_ratio"@,
                "Store footprint as a fraction of its effective capacity; reclaim starts at the high-water mark and writes are refused at the alarm mark"@,
                Reading::UsedShare,
            ),
            exported(
                "fastetcd_nospace_alarm_active"@,
                "1 while the NOSPACE alarm is raised and writes are refused"@,
                Reading::Gauge(self.nospace_alarm),
            ),
            exported(
                "etcd_debugging_mvcc_current_revision"@,
                "Latest MVCC revision applied to the state machine"@,
                Reading::Gauge(self.current_revision),
            ),
            exported(
                "etcd_debugging_mvcc_compact_revision"@,
                "MVCC revision below which historical reads return ErrCompacted"@,
                Reading::Gauge(self.compact_revision),
            ),
            exported(
                "fastetcd_engine"@,
                "Storage engine in use: redb, wal or iouring"@,
                Reading::Info(self.engine),
            ),
        ]
    }

    /// The metrics as they are exported, each under its name.
    pub fn list(&self) -> (r: Vec<Metric>)
        ensures
            metric_views(r@) == self.listed(),
    {
        let r: Vec<Metric> = vec![
            metric(
                "etcd_server_has_leader",
                "Whether this node has a known leader (1) or not (0)",
                Reading::Gauge(self.has_leader),
            ),
            metric(
                "etcd_server_leader_changes_seen_total",
                "Total number of times the locally-observed leader has changed",
                Reading::Counter(self.leader_changes_total),
            ),
            metric(
                "etcd_mvcc_db_total_size_in_bytes",
                "Total on-disk size of the backend engine in bytes",
                Reading::Gauge(self.db_size_bytes),
            ),
            metric(
                "etcd_mvcc_db_total_size_in_use_in_bytes",
                "Bytes of the backend engine actually holding live data; the gap to the total size is what a defragment would free",
                Reading::Gauge(self.db_size_in_use_bytes),
            ),
            metric(
                "etcd_server_quota_backend_bytes",
                "Effective ceiling on the store's footprint: the configured quota, or what the data volume can actually hold",
                Reading::Gauge(self.quota_backend_bytes),
            ),
            metric(
                "fastetcd_store_snapshot_size_in_bytes",
                "Bytes occupied by the retained raft snapshots on the data volume",
                Reading::Gauge(self.snapshot_size_bytes),
            ),
            metric(
                "fastetcd_disk_total_bytes",
                "Total size of the filesystem holding the data directory",
                Reading::Gauge(self.disk_total_bytes),
            ),
            metric(
                "fastetcd_disk_available_bytes",
                "Bytes still available to fastetcd on the data volume",
                Reading::Gauge(self.disk_available_bytes),
            ),
            metric(
                "fastetcd_store_space_used_ratio",
                "Store footprint as a fraction of its effective capacity; reclaim starts at the high-water mark and writes are refused at the alarm mark",
                Reading::UsedShare,
            ),
            metric(
                "fastetcd_nospace_alarm_active",
                "1 while the NOSPACE alarm is raised and writes are refused",
                Reading::Gauge(self.nospace_alarm),
            ),
            metric(
                "etcd_debugging_mvcc_current_revision",
                "Latest MVCC revision applied to the state machine",
                Reading::Gauge(self.current_revision),
            ),
            metric(
                "etcd_debugging_mvcc_compact_revision",
                "MVCC revision below which historical reads return ErrCompacted",
                Reading::Gauge(self.compact_revision),
            ),
            metric(
                "fastetcd_engine",
                "Storage engine in use: redb, wal or iouring",
                Reading::Info(self.engine),
            ),
        ];
        assert(metric_views(r@) =~= self.listed());
        r
    }

    /// A leader other than the one seen last is there.
    pub open spec fn sees_new_leader(self, m: RaftMetrics) -> bool {
        leader_or_zero(m) != 0 && leader_or_zero(m) != self.last_leader
    }

    /// The values after a scrape. A file size that could not be read keeps
    /// the last one, and without an enabled guard the occupancy stays.
    pub open spec fn refreshed(
        self,
        m: RaftMetrics,
        current: i64,
        compact: i64,
        db_size: Option<u64>,
        space: Option<SpaceStats>,
    ) -> Metrics {
        let base = Metrics {
            has_leader: flag(leader_or_zero(m) != 0),
            leader_changes_total: if self.sees_new_leader(m) {
                if self.leader_changes_total == u64::MAX {
                    0u64
                } else {
                    (self.leader_changes_total + 1) as u64
                }
            } else {
                self.leader_changes_total
            },
            db_size_bytes: match db_size {
                Some(n) => n as i64,
                None => self.db_size_bytes,
            },
            current_revision: current,
            compact_revision: compact,
            last_leader: leader_or_zero(m),
            ..self
        };
        match space {
            None => base,
            Some(s) => Metrics {
                snapshot_size_bytes: s.snapshot_bytes as i64,
                disk_total_bytes: s.fs_total_bytes as i64,
                disk_available_bytes: s.fs_available_bytes as i64,
                quota_backend_bytes: s.capacity_bytes as i64,
                nospace_alarm: flag(s.nospace),
                db_size_in_use_bytes: s.db_in_use_bytes as i64,
                ..base
            },
        }
    }

    /// Take over the values of a scrape.
    pub fn refresh(
        &mut self,
        m: RaftMetrics,
        current: i64,
        compact: i64,
        db_size: Option<u64>,
        space: Option<SpaceStats>,
    )
        ensures
            *final(self) == old(self).refreshed(m, current, compact, db_size, space),
    {
        let leader: u64 = match m.current_leader {
            Some(l) => l,
            None => 0,
        };
        let prev: u64 = self.last_leader;
        self.last_leader = leader;
        if leader != 0 && leader != prev {
            self.leader_changes_total = if self.leader_changes_total == u64::MAX {
                0
            } else {
                self.leader_changes_total + 1
            };
        }
        self.has_leader = if leader != 0 {
            1
        } else {
            0
        };
        self.current_revision = current;
        self.compact_revision = compact;
        if let Some(n) = db_size {
            self.db_size_bytes = n as i64;
        }
        if let Some(s) = space {
            self.snapshot_size_bytes = s.snapshot_bytes as i64;
            self.disk_total_bytes = s.fs_total_bytes as i64;
            self.disk_available_bytes = s.fs_available_bytes as i64;
            self.quota_backend_bytes = s.capacity_bytes as i64;
            self.nospace_alarm = if s.nospace {
                1
            } else {
                0
            };
            self.db_size_in_use_bytes = s.db_in_use_bytes as i64;
        }
    }
}

/// Scraping twice while nothing changes counts no change of leader.
pub proof fn law_same_leader_is_counted_once(
    before: Metrics,
    m: RaftMetrics,
    current: i64,
    compact: i64,
    db_size: Option<u64>,
    space: Option<SpaceStats>,
)
    ensures
        ({
            let once = before.refreshed(m, current, compact, db_size, space);
            once.refreshed(m, current, compact, db_size, space) == once
        }),
{
}

/// What a plain HTTP request to the metrics port asks for.
pub fn serves_metrics(path: &str) -> (r: bool)
    ensures
        r == (path@ == "/metrics"@ || path@ == "/"@),
{
    crate::text::str_eq(path, "/metrics") || crate::text::str_eq(path, "/")
}

/// The answer to a health probe on the client port; other paths are not
/// probes.
pub fn health_answer(path: &str) -> (r: Option<&'static str>)
    ensures
        path@ == "/health"@ ==> r is Some && r->0@ == "{\"health\":\"true\"}"@,
        path@ != "/health"@ && (path@ == "/livez"@ || path@ == "/readyz"@) ==> r is Some && r->0@
            == "ok"@,
        path@ != "/health"@ && path@ != "/livez"@ && path@ != "/readyz"@ ==> r is None,
{
    if crate::text::str_eq(path, "/health") {
        Some("{\"health\":\"true\"}")
    } else if crate::text::str_eq(path, "/livez") || crate::text::str_eq(path, "/readyz") {
        Some("ok")
    } else {
        None
    }
}

/// An engine is called by its name.
pub proof fn law_engines_go_by_their_names(e: Engine)
    ensures
        e is Redb ==> e.called() == "redb"@,
        e is Wal ==> e.called() == "wal"@,
        e is Iouring ==> e.called() == "iouring"@,
{
}

/// After a scrape there is a leader exactly when a node other than zero is
/// known as one, and a change is counted exactly when that node is not the
/// one seen before.
pub proof fn law_scrape_sees_the_leader(
    before: Metrics,
    m: RaftMetrics,
    current: i64,
    compact: i64,
    db_size: Option<u64>,
    space: Option<SpaceStats>,
)
    ensures
        ({
            let after = before.refreshed(m, current, compact, db_size, space);
            let known = m.current_leader is Some && m.current_leader->0 != 0;
            &&& known ==> after.has_leader == 1
            &&& !known ==> after.has_leader == 0
            &&& known ==> after.last_leader == m.current_leader->0
            &&& !known ==> after.last_leader == 0
            &&& !known || m.current_leader->0 == before.last_leader
                ==> after.leader_changes_total == before.leader_changes_total
            &&& known && m.current_leader->0 != before.last_leader && before.leader_changes_total
                < u64::MAX ==> after.leader_changes_total == before.leader_changes_total + 1
            &&& after.engine == before.engine
        }),
{
}

/// After a scrape each value is the one that was read for it; a size that
/// could not be read keeps the last one, and so does everything about
/// space where none was read.
pub proof fn law_scrape_takes_over_what_was_read(
    before: Metrics,
    m: RaftMetrics,
    current: i64,
    compact: i64,
    db_size: Option<u64>,
    space: Option<SpaceStats>,
)
    ensures
        ({
            let after = before.refreshed(m, current, compact, db_size, space);
            &&& after.current_revision == current
            &&& after.compact_revision == compact
            &&& db_size is None ==> after.db_size_bytes == before.db_size_bytes
            &&& db_size matches Some(n) ==> after.db_size_bytes == n as i64
            &&& space is None ==> {
                &&& after.snapshot_size_bytes == before.snapshot_size_bytes
                &&& after.disk_total_bytes == before.disk_total_bytes
                &&& after.disk_available_bytes == before.disk_available_bytes
                &&& after.quota_backend_bytes == before.quota_backend_bytes
                &&& after.nospace_alarm == before.nospace_alarm
                &&& after.db_size_in_use_bytes == before.db_size_in_use_bytes
            }
            &&& space matches Some(s) ==> {
                &&& after.snapshot_size_bytes == s.snapshot_bytes as i64
                &&& after.disk_total_bytes == s.fs_total_bytes as i64
                &&& after.disk_available_bytes == s.fs_available_bytes as i64
                &&& after.quota_backend_bytes == s.capacity_bytes as i64
                &&& s.nospace ==> after.nospace_alarm == 1
                &&& !s.nospace ==> after.nospace_alarm == 0
                &&& after.db_size_in_use_bytes == s.db_in_use_bytes as i64
            }
        }),
{
}

/// A metric is what its fields hold, and a list of them its items in
/// order.
pub proof fn law_metric_is_what_it_holds(ms: Seq<Metric>, i: int)
    requires
        0 <= i < ms.len(),
    ensures
        metric_views(ms).len() == ms.len(),
        metric_views(ms)[i].name == ms[i].name@,
        metric_views(ms)[i].help == ms[i].help@,
        metric_views(ms)[i].reading == ms[i].reading,
{
}

/// Each value is exported under its own name, and as what it is: the
/// count of leader changes as a count, the engine by its name, the share
/// in use as a share, every other as a value of the moment.
pub proof fn law_each_value_is_exported_under_its_name(m: Metrics)
    ensures
        m.listed().len() == 13,
        m.listed()[0].name == "etcd_server_has_leader"@,
        m.listed()[0].reading == Reading::Gauge(m.has_leader),
        m.listed()[1].name == "etcd_server_leader_changes_seen_total"@,
        m.listed()[1].reading == Reading::Counter(m.leader_changes_total),
        m.listed()[2].name == "etcd_mvcc_db_total_size_in_bytes"@,
        m.listed()[2].reading == Reading::Gauge(m.db_size_bytes),
        m.listed()[3].name == "etcd_mvcc_db_total_size_in_use_in_bytes"@,
        m.listed()[3].reading == Reading::Gauge(m.db_size_in_use_bytes),
        m.listed()[4].name == "etcd_server_quota_backend_bytes"@,
        m.listed()[4].reading == Reading::Gauge(m.quota_backend_bytes),
        m.listed()[5].name == "fastetcd_store_snapshot_size_in_bytes"@,
        m.listed()[5].reading == Reading::Gauge(m.snapshot_size_bytes),
        m.listed()[6].name == "fastetcd_disk_total_bytes"@,
        m.listed()[6].reading == Reading::Gauge(m.disk_total_bytes),
        m.listed()[7].name == "fastetcd_disk_available_bytes"@,
        m.listed()[7].reading == Reading::Gauge(m.disk_available_bytes),
        m.listed()[8].name == "fastetcd_store_space_used_ratio"@,
        m.listed()[8].reading == Reading::UsedShare,
        m.listed()[9].name == "fastetcd_nospace_alarm_active"@,
        m.listed()[9].reading == Reading::Gauge(m.nospace_alarm),
        m.listed()[10].name == "etcd_debugging_mvcc_current_revision"@,
        m.listed()[10].reading == Reading::Gauge(m.current_revision),
        m.listed()[11].name == "etcd_debugging_mvcc_compact_revision"@,
        m.listed()[11].reading == Reading::Gauge(m.compact_revision),
        m.listed()[12].name == "fastetcd_engine"@,
        m.listed()[12].reading == Reading::Info(m.engine),
{
}

/// Each exported metric says what it is for.
pub proof fn law_each_value_says_what_it_is_for(m: Metrics)
    ensures
        m.listed()[0].help == "Whether this node has a known leader (1) or not (0)"@,
        m.listed()[1].help == "Total number of times the locally-observed leader has changed"@,
        m.listed()[2].help == "Total on-disk size of the backend engine in bytes"@,
        m.listed()[3].help
            == "Bytes of the backend engine actually holding live data; the gap to the total size is what a defragment would free"@,
        m.listed()[4].help
            == "Effective ceiling on the store's footprint: the configured quota, or what the data volume can actually hold"@,
        m.listed()[5].help
            == "Bytes occupied by the retained raft snapshots on the data volume"@,
        m.listed()[6].help == "Total size of the filesystem holding the data directory"@,
        m.listed()[7].help == "Bytes still available to fastetcd on the data volume"@,
        m.listed()[8].help
            == "Store footprint as a fraction of its effective capacity; reclaim starts at the high-water mark and writes are refused at the alarm mark"@,
        m.listed()[9].help == "1 while the NOSPACE alarm is raised and writes are refused"@,
        m.listed()[10].help == "Latest MVCC revision applied to the state machine"@,
        m.listed()[11].help
            == "MVCC revision below which historical reads return ErrCompacted"@,
        m.listed()[12].help == "Storage engine in use: redb, wal or iouring"@,
{
}

} // verus!
