//! Host-based security monitoring core: a state coordinator that owns the
//! canonical system snapshot, an anomaly detector over a rolling history,
//! and a policy engine that evaluates resource, process-trust and
//! network-trust rules.

use vstd::prelude::*;

pub mod analysis;
pub mod monitor;
pub mod network;
pub mod security;
pub mod store;
pub mod text;
pub mod time;

pub use analysis::AnomalyDetector;
pub use monitor::SystemMonitor;
pub use network::ConnectionInfo;
pub use network::ConnectionState;
pub use network::NetworkMonitor;
pub use network::NetworkStats;
pub use network::Protocol;
pub use security::SecurityManager;
pub use security::SecurityPolicies;
pub use store::Database;
pub use time::TimeStamp;

verus! {

/// Severity of a security alert. The variants are ordered from least to
/// most severe: `Low < Medium < High < Critical`.
#[derive(Debug, Clone, Copy, PartialEq, Eq, Structural)]
pub enum AlertSeverity {
    Low,
    Medium,
    High,
    Critical,
}

/// One hundred percent in the tenths-of-a-percent unit used for every
/// usage figure in this crate.
pub const FULL_SCALE: u32 = 1000;

impl AlertSeverity {
    /// Position of this severity in the escalation order.
    pub open spec fn spec_rank(self) -> nat {
        match self {
            AlertSeverity::Low => 0,
            AlertSeverity::Medium => 1,
            AlertSeverity::High => 2,
            AlertSeverity::Critical => 3,
        }
    }

    /// Numeric rank used for escalation comparisons.
    pub fn rank(&self) -> (r: u8)
        ensures
            r as nat == self.spec_rank(),
    {
        match self {
            AlertSeverity::Low => 0,
            AlertSeverity::Medium => 1,
            AlertSeverity::High => 2,
            AlertSeverity::Critical => 3,
        }
    }

    /// Whether `self` is at most as severe as `other`.
    pub fn le(&self, other: &AlertSeverity) -> (r: bool)
        ensures
            r == (self.spec_rank() <= other.spec_rank()),
    {
        self.rank() <= other.rank()
    }
}

/// One security finding, raised by the anomaly detector or the policy engine.
#[derive(Debug)]
pub struct SecurityAlert {
    pub timestamp: time::TimeStamp,
    pub severity: AlertSeverity,
    pub description: String,
    pub source: String,
    pub recommendation: Option<String>,
}

impl Clone for SecurityAlert {
    fn clone(&self) -> (r: Self)
        ensures
            r == *self,
    {
        SecurityAlert {
            timestamp: self.timestamp,
            severity: self.severity,
            description: self.description.clone(),
            source: self.source.clone(),
            recommendation: match &self.recommendation {
                Some(t) => Some(t.clone()),
                None => None,
            },
        }
    }
}

/// One process in a snapshot. Usage figures are tenths of a percent.
#[derive(Debug)]
pub struct ProcessInfo {
    pub pid: u32,
    pub name: String,
    pub cpu_usage: u32,
    pub memory_usage: u32,
    pub threads: u32,
}

impl ProcessInfo {
    /// A process record, with usage figures capped at one hundred percent
    /// and the thread count raised to at least one.
    pub fn new(pid: u32, name: String, cpu_usage: u32, memory_usage: u32, threads: u32) -> (r:
        ProcessInfo)
        ensures
            r.pid == pid,
            r.name == name,
            r.cpu_usage == if cpu_usage <= FULL_SCALE { cpu_usage } else { FULL_SCALE },
            r.memory_usage == if memory_usage <= FULL_SCALE { memory_usage } else { FULL_SCALE },
            r.threads == if threads >= 1 { threads } else { 1 },
    {
        ProcessInfo {
            pid,
            name,
            cpu_usage: if cpu_usage <= FULL_SCALE { cpu_usage } else { FULL_SCALE },
            memory_usage: if memory_usage <= FULL_SCALE { memory_usage } else { FULL_SCALE },
            threads: if threads >= 1 { threads } else { 1 },
        }
    }
}

impl Clone for ProcessInfo {
    fn clone(&self) -> (r: Self)
        ensures
            r == *self,
    {
        ProcessInfo {
            pid: self.pid,
            name: self.name.clone(),
            cpu_usage: self.cpu_usage,
            memory_usage: self.memory_usage,
            threads: self.threads,
        }
    }
}

/// Coarse machine-level metrics attached to a snapshot. The load average is
/// held in hundredths.
#[derive(Debug, Clone, Copy, PartialEq, Eq, Structural)]
pub struct SystemMetrics {
    pub load_average_hundredths: u64,
    pub uptime: u64,
    pub cpu_count: u32,
    pub physical_cpu_count: u32,
}

impl Default for SystemMetrics {
    /// All metrics zero.
    fn default() -> (r: Self)
        ensures
            r.load_average_hundredths == 0,
            r.uptime == 0,
            r.cpu_count == 0,
            r.physical_cpu_count == 0,
    {
        SystemMetrics { load_average_hundredths: 0, uptime: 0, cpu_count: 0, physical_cpu_count: 0 }
    }
}

/// One snapshot of the monitored host. Usage figures are tenths of a
/// percent; a snapshot is built once per cycle and never mutated after it
/// is published.
#[derive(Debug)]
pub struct SystemState {
    pub timestamp: time::TimeStamp,
    pub cpu_usage: u32,
    pub memory_usage: u32,
    pub disk_usage: u32,
    pub network_stats: network::NetworkStats,
    pub active_processes: Vec<ProcessInfo>,
    pub security_alerts: Vec<SecurityAlert>,
    pub system_metrics: Option<SystemMetrics>,
}

/// The mathematical content of a `SystemState`.
#[verifier::ext_equal]
pub struct SystemStateView {
    pub timestamp: time::TimeStamp,
    pub cpu_usage: u32,
    pub memory_usage: u32,
    pub disk_usage: u32,
    pub network_stats: network::NetworkStatsView,
    pub active_processes: Seq<ProcessInfo>,
    pub security_alerts: Seq<SecurityAlert>,
    pub system_metrics: Option<SystemMetrics>,
}

impl View for SystemState {
    type V = SystemStateView;

    open spec fn view(&self) -> SystemStateView {
        SystemStateView {
            timestamp: self.timestamp,
            cpu_usage: self.cpu_usage,
            memory_usage: self.memory_usage,
            disk_usage: self.disk_usage,
            network_stats: self.network_stats@,
            active_processes: self.active_processes@,
            security_alerts: self.security_alerts@,
            system_metrics: self.system_metrics,
        }
    }
}

impl SystemState {
    /// The three usage figures lie within the zero-to-one-hundred-percent
    /// scale. Every constructor of this crate establishes this.
    pub open spec fn valid(self) -> bool {
        self.cpu_usage <= FULL_SCALE && self.memory_usage <= FULL_SCALE && self.disk_usage
            <= FULL_SCALE
    }

    /// A snapshot with each usage figure capped at one hundred percent.
    pub fn new(
        timestamp: time::TimeStamp,
        cpu_usage: u32,
        memory_usage: u32,
        disk_usage: u32,
        network_stats: network::NetworkStats,
        active_processes: Vec<ProcessInfo>,
        security_alerts: Vec<SecurityAlert>,
        system_metrics: Option<SystemMetrics>,
    ) -> (r: SystemState)
        ensures
            r.valid(),
            r.timestamp == timestamp,
            r.cpu_usage == if cpu_usage <= FULL_SCALE { cpu_usage } else { FULL_SCALE },
            r.memory_usage == if memory_usage <= FULL_SCALE { memory_usage } else { FULL_SCALE },
            r.disk_usage == if disk_usage <= FULL_SCALE { disk_usage } else { FULL_SCALE },
            r.network_stats == network_stats,
            r.active_processes == active_processes,
            r.security_alerts == security_alerts,
            r.system_metrics == system_metrics,
    {
        SystemState {
            timestamp,
            cpu_usage: if cpu_usage <= FULL_SCALE { cpu_usage } else { FULL_SCALE },
            memory_usage: if memory_usage <= FULL_SCALE { memory_usage } else { FULL_SCALE },
            disk_usage: if disk_usage <= FULL_SCALE { disk_usage } else { FULL_SCALE },
            network_stats,
            active_processes,
            security_alerts,
            system_metrics,
        }
    }
}

/// A usage figure capped at one hundred percent.
pub open spec fn clamp_pct(x: u32) -> u32 {
    if x <= FULL_SCALE {
        x
    } else {
        FULL_SCALE
    }
}

impl Clone for SystemState {
    fn clone(&self) -> (r: Self)
        ensures
            r@ == self@,
    {
        let r = SystemState {
            timestamp: self.timestamp,
            cpu_usage: self.cpu_usage,
            memory_usage: self.memory_usage,
            disk_usage: self.disk_usage,
            network_stats: self.network_stats.clone(),
            active_processes: self.active_processes.clone(),
            security_alerts: self.security_alerts.clone(),
            system_metrics: self.system_metrics,
        };
        proof {
            assert(r.active_processes@ =~= self.active_processes@);
            assert(r.security_alerts@ =~= self.security_alerts@);
            assert(r@ =~= self@);
        }
        r
    }
}

/// One reading of the telemetry source: the three usage figures in tenths
/// of a percent, not yet capped, the process table, and optional machine
/// metrics.
#[derive(Debug)]
pub struct TelemetryReading {
    pub cpu_usage: u32,
    pub memory_usage: u32,
    pub disk_usage: u32,
    pub processes: Vec<ProcessInfo>,
    pub metrics: Option<SystemMetrics>,
}

/// The snapshot assembled from one cycle's readings, before any alerts are
/// attached.
pub open spec fn base_snapshot(
    now: time::TimeStamp,
    cpu: u32,
    mem: u32,
    disk: u32,
    net: network::NetworkStatsView,
    processes: Seq<ProcessInfo>,
    metrics: Option<SystemMetrics>,
) -> SystemStateView {
    SystemStateView {
        timestamp: now,
        cpu_usage: clamp_pct(cpu),
        memory_usage: clamp_pct(mem),
        disk_usage: clamp_pct(disk),
        network_stats: net,
        active_processes: processes,
        security_alerts: Seq::empty(),
        system_metrics: metrics,
    }
}

/// A rolling history after one snapshot is appended under the detector's
/// cap: full histories lose their oldest entry.
pub open spec fn bounded_push(h: Seq<SystemStateView>, v: SystemStateView) -> Seq<
    SystemStateView,
> {
    if h.len() < analysis::HISTORY_CAP {
        h.push(v)
    } else {
        h.push(v).drop_first()
    }
}

/// The feature vectors of a sequence of snapshot views, in order.
pub open spec fn fv_seq(vs: Seq<SystemStateView>) -> Seq<analysis::FeatureVec> {
    vs.map_values(|v: SystemStateView| analysis::features(v))
}

/// The alert raised when the policy engine reports violations.
pub open spec fn is_policy_alert(a: SecurityAlert, now: time::TimeStamp, msgs: Seq<Seq<char>>) -> bool {
    &&& a.timestamp == now
    &&& a.severity == AlertSeverity::High
    &&& a.description@ == text::spec_join(msgs, "; "@)
    &&& a.source@ == "Security Policy Check"@
    &&& a.recommendation is None
}

/// The coordinator: sole owner of the canonical current snapshot. Every
/// cycle builds a fresh snapshot from the readings it is handed, runs the
/// detector and the policy engine over it, attaches their alerts, publishes
/// the snapshot, and appends it to the store.
#[derive(Debug)]
pub struct AngeGardien {
    state: SystemState,
    db: store::Database,
    detector: analysis::AnomalyDetector,
    security: security::SecurityManager,
}

impl AngeGardien {
    /// The canonical current snapshot.
    pub closed spec fn current(self) -> SystemState {
        self.state
    }

    /// The audit store.
    pub closed spec fn spec_db(self) -> store::Database {
        self.db
    }

    /// The anomaly detector.
    pub closed spec fn spec_detector(self) -> analysis::AnomalyDetector {
        self.detector
    }

    /// The policy engine.
    pub closed spec fn spec_security(self) -> security::SecurityManager {
        self.security
    }

    /// The component invariants, carried through every cycle.
    pub open spec fn wf(self) -> bool {
        self.spec_security().wf() && self.spec_detector().wf()
    }

    /// A coordinator with an empty store, an untrained detector, the
    /// default policy, and a zeroed initial snapshot stamped with the
    /// current time.
    pub fn new() -> (r: AngeGardien)
        ensures
            r.wf(),
            r.current().valid(),
            r.current()@.cpu_usage == 0,
            r.current()@.memory_usage == 0,
            r.current()@.disk_usage == 0,
            r.current()@.network_stats.bytes_sent == 0,
            r.current()@.network_stats.bytes_received == 0,
            r.current()@.network_stats.connections == Seq::<ConnectionInfo>::empty(),
            r.current()@.network_stats.suspicious_activity == Seq::<String>::empty(),
            r.current()@.active_processes == Seq::<ProcessInfo>::empty(),
            r.current()@.security_alerts == Seq::<SecurityAlert>::empty(),
            r.current()@.system_metrics is None,
            r.spec_db().spec_states() == Seq::<SystemState>::empty(),
            r.spec_db().spec_alerts() == Seq::<SecurityAlert>::empty(),
            r.spec_detector().spec_history() == Seq::<SystemState>::empty(),
            r.spec_detector().spec_model() is None,
            security::is_default_policy(r.spec_security().spec_policies()),
            r.spec_security().sign_cache() == Map::<Seq<char>, bool>::empty(),
            r.spec_security().baselines() == Map::<u32, Seq<char>>::empty(),
    {
        let state = SystemState::new(
            time::TimeStamp::now(),
            0,
            0,
            0,
            network::NetworkStats::default(),
            Vec::new(),
            Vec::new(),
            None,
        );
        AngeGardien {
            state,
            db: store::Database::new(),
            detector: analysis::AnomalyDetector::new(),
            security: security::SecurityManager::new(),
        }
    }

    /// Runs one refresh cycle on the readings of this tick. The published
    /// snapshot carries the readings, capped to the percentage scale, and
    /// this cycle's alerts: one Medium anomaly alert when the newest sample
    /// scores as an outlier, then one High alert joining all policy
    /// violations. The detector's history grows under its cap, the model
    /// trains once when the minimum sample count is first reached, the
    /// policy caches advance over this snapshot's processes, and the
    /// published snapshot with its alerts is appended to the store.
    #[verifier::rlimit(100)]
    pub fn update_system_state(
        &mut self,
        now: time::TimeStamp,
        telemetry: TelemetryReading,
        network_stats: network::NetworkStats,
        facts: &Vec<security::ProcessFact>,
    )
        requires
            old(self).wf(),
        ensures
            final(self).wf(),
            ({
                let base = base_snapshot(
                    now,
                    telemetry.cpu_usage,
                    telemetry.memory_usage,
                    telemetry.disk_usage,
                    network_stats@,
                    telemetry.processes@,
                    telemetry.metrics,
                );
                let h0 = store::views_of(old(self).spec_detector().spec_history());
                let h1 = bounded_push(h0, base);
                let cores = match old(self).spec_detector().spec_model() {
                    Some(m) => m,
                    None => analysis::core_points(fv_seq(h1), fv_seq(h1)),
                };
                let anomaly = h1.len() >= analysis::MIN_SAMPLES && analysis::anomalous(
                    cores,
                    analysis::features(base),
                );
                let pol = old(self).spec_security().spec_policies();
                let msgs = security::all_violations(
                    base,
                    facts@,
                    pol,
                    old(self).spec_security().sign_cache(),
                    old(self).spec_security().baselines(),
                );
                let after = security::procs_fold(
                    telemetry.processes@,
                    facts@,
                    pol,
                    old(self).spec_security().sign_cache(),
                    old(self).spec_security().baselines(),
                );
                let pub_v = final(self).current()@;
                &&& pub_v.timestamp == now
                &&& pub_v.cpu_usage == clamp_pct(telemetry.cpu_usage)
                &&& pub_v.memory_usage == clamp_pct(telemetry.memory_usage)
                &&& pub_v.disk_usage == clamp_pct(telemetry.disk_usage)
                &&& final(self).current().valid()
                &&& pub_v.network_stats == network_stats@
                &&& pub_v.active_processes == telemetry.processes@
                &&& pub_v.system_metrics == telemetry.metrics
                &&& pub_v.security_alerts.len() == (if anomaly {
                    1int
                } else {
                    0int
                }) + (if msgs.len() > 0 {
                    1int
                } else {
                    0int
                })
                &&& (anomaly ==> analysis::is_anomaly_alert(pub_v.security_alerts[0], now))
                &&& (msgs.len() > 0 ==> is_policy_alert(
                    pub_v.security_alerts[pub_v.security_alerts.len() - 1],
                    now,
                    msgs,
                ))
                &&& store::views_of(final(self).spec_detector().spec_history()) == h1
                &&& final(self).spec_detector().spec_model() == (if h1.len()
                    >= analysis::MIN_SAMPLES {
                    Some(cores)
                } else {
                    old(self).spec_detector().spec_model()
                })
                &&& final(self).spec_security().spec_policies() == pol
                &&& final(self).spec_security().sign_cache() == after.1
                &&& final(self).spec_security().baselines() == after.2
                &&& final(self).spec_db().spec_states().len() == old(
                    self,
                ).spec_db().spec_states().len() + 1
                &&& final(self).spec_db().spec_states().take(
                    old(self).spec_db().spec_states().len() as int,
                ) == old(self).spec_db().spec_states()
                &&& final(self).spec_db().spec_states().last()@ == pub_v
                &&& final(self).spec_db().spec_alerts() == old(self).spec_db().spec_alerts()
                    + pub_v.security_alerts
            }),
    {
        let ghost h0 = store::views_of(self.detector.spec_history());
        let base = SystemState::new(
            now,
            telemetry.cpu_usage,
            telemetry.memory_usage,
            telemetry.disk_usage,
            network_stats,
            telemetry.processes,
            Vec::new(),
            telemetry.metrics,
        );
        let ghost base_v = base@;
        let ghost h1 = bounded_push(h0, base_v);

        self.detector.add_state(base.clone());
        proof {
            if h0.len() < analysis::HISTORY_CAP {
                assert(store::views_of(self.detector.spec_history()) =~= h1);
            } else {
                assert(store::views_of(self.detector.spec_history()) =~= h1);
            }
            assert(analysis::feature_seq(self.detector.spec_history()) =~= fv_seq(h1));
            if h1.len() > 0 {
                assert(self.detector.spec_history().last()@ == h1.last());
            }
            assert(h1.len() > 0 && h1.last() == base_v);
        }
        let mut alerts = self.detector.detect_anomalies(now);
        let violation = self.security.check_policies(&base, facts);
        match violation {
            Some(v) => {
                alerts.push(
                    SecurityAlert {
                        timestamp: now,
                        severity: AlertSeverity::High,
                        description: v,
                        source: String::from_str("Security Policy Check"),
                        recommendation: None,
                    },
                );
            },
            None => {},
        }
        let published = SystemState {
            timestamp: base.timestamp,
            cpu_usage: base.cpu_usage,
            memory_usage: base.memory_usage,
            disk_usage: base.disk_usage,
            network_stats: base.network_stats,
            active_processes: base.active_processes,
            security_alerts: alerts,
            system_metrics: base.system_metrics,
        };
        self.state = published;
        self.db.store_state(&self.state);
    }

    /// A copy of the latest published snapshot. Reading changes nothing, so
    /// consecutive reads with no cycle between them return the same
    /// snapshot.
    pub fn get_current_state(&self) -> (r: SystemState)
        ensures
            r@ == self.current()@,
    {
        self.state.clone()
    }

    /// The stored alerts recorded strictly after `since`, newest first.
    pub fn get_alerts(&self, since: time::TimeStamp) -> (r: Vec<SecurityAlert>)
        ensures
            store::alerts_sorted_desc(r@),
            r@.to_multiset() == store::alerts_after(
                self.spec_db().spec_alerts(),
                since,
            ).to_multiset(),
    {
        self.db.get_alerts_since(since)
    }
}

/// Reads are idempotent: what `get_current_state` returns is the published
/// snapshot, unchanged, so two reads with no cycle between them return
/// identical snapshots.
pub proof fn lemma_read_idempotent(g: AngeGardien, r1: SystemStateView, r2: SystemStateView)
    requires
        r1 == g.current()@,
        r2 == g.current()@,
    ensures
        r1 == r2,
{
}

} // verus!
