//! Unsupervised anomaly detection over a bounded rolling history of
//! snapshots. Each snapshot is reduced to a five-dimensional feature vector;
//! a density-based clustering model is trained once, the first time the
//! history reaches the minimum sample count, and the newest sample is then
//! scored against the dense points of that model.

use vstd::prelude::*;

use crate::network::NetworkStatsView;
use crate::AlertSeverity;
use crate::SecurityAlert;
use crate::SystemState;
use crate::SystemStateView;
use crate::time::TimeStamp;

verus! {

/// Bound on the rolling history: oldest entries are evicted first.
pub const HISTORY_CAP: usize = 1000;

/// Minimum number of samples before any detection is attempted.
pub const MIN_SAMPLES: usize = 10;

/// Neighbour count (the point itself included) that makes a point dense.
pub const MIN_POINTS: usize = 5;

/// One snapshot reduced to the figures the clustering model inspects.
/// Usage figures are tenths of a percent; `network_bytes` is the sum of the
/// sent and received counters, capped at `u64::MAX`.
#[derive(Debug, Clone, Copy, PartialEq, Eq, Structural)]
pub struct FeatureVec {
    pub cpu_usage: u32,
    pub memory_usage: u32,
    pub disk_usage: u32,
    pub network_bytes: u64,
    pub process_count: u64,
}

/// The feature vector of a snapshot.
pub open spec fn features(s: SystemStateView) -> FeatureVec {
    FeatureVec {
        cpu_usage: s.cpu_usage,
        memory_usage: s.memory_usage,
        disk_usage: s.disk_usage,
        network_bytes: if s.network_stats.bytes_sent + s.network_stats.bytes_received <= u64::MAX {
            (s.network_stats.bytes_sent + s.network_stats.bytes_received) as u64
        } else {
            u64::MAX
        },
        process_count: s.active_processes.len() as u64,
    }
}

/// The feature vectors of a history, in history order.
pub open spec fn feature_seq(h: Seq<SystemState>) -> Seq<FeatureVec> {
    h.map_values(|s: SystemState| features(s@))
}

pub open spec fn sq(x: int) -> int {
    x * x
}

/// Squared Euclidean distance between two feature vectors, measured on the
/// scale where one unit is a tenth of a percentage point. Byte and process
/// counts come in whole percentage-point units, so they enter scaled by
/// ten, like the percentages.
pub open spec fn dist2(a: FeatureVec, b: FeatureVec) -> int {
    sq(a.cpu_usage - b.cpu_usage) + sq(a.memory_usage - b.memory_usage) + sq(
        a.disk_usage - b.disk_usage,
    ) + sq(10 * (a.network_bytes - b.network_bytes)) + sq(10 * (a.process_count - b.process_count))
}

/// Neighbourhood radius: half a percentage point, i.e. five tenths, so two
/// points are neighbours when their squared distance is at most twenty-five.
pub open spec fn near(a: FeatureVec, b: FeatureVec) -> bool {
    dist2(a, b) <= 25
}

/// How many points of `points` lie in the neighbourhood of `p`.
pub open spec fn count_near(points: Seq<FeatureVec>, p: FeatureVec) -> nat
    decreases points.len(),
{
    if points.len() == 0 {
        0
    } else {
        count_near(points.drop_last(), p) + if near(p, points.last()) {
            1nat
        } else {
            0nat
        }
    }
}

/// A point is dense in a dataset when its neighbourhood, itself included,
/// holds at least `MIN_POINTS` points of the dataset.
pub open spec fn is_core(points: Seq<FeatureVec>, p: FeatureVec) -> bool {
    count_near(points, p) >= MIN_POINTS
}

/// The points of `prefix` that are dense in `all`, in order.
pub open spec fn core_points(all: Seq<FeatureVec>, prefix: Seq<FeatureVec>) -> Seq<FeatureVec>
    decreases prefix.len(),
{
    if prefix.len() == 0 {
        Seq::empty()
    } else {
        core_points(all, prefix.drop_last()) + if is_core(all, prefix.last()) {
            seq![prefix.last()]
        } else {
            Seq::empty()
        }
    }
}

/// A sample is anomalous when it lies in no dense point's neighbourhood.
pub open spec fn anomalous(cores: Seq<FeatureVec>, f: FeatureVec) -> bool {
    forall|i: int| 0 <= i < cores.len() ==> !near(#[trigger] cores[i], f)
}

/// The alert raised for an anomalous sample.
pub open spec fn is_anomaly_alert(a: SecurityAlert, now: TimeStamp) -> bool {
    &&& a.timestamp == now
    &&& a.severity == AlertSeverity::Medium
    &&& a.description@ == "Anomalous system behavior detected"@
    &&& a.source@ == "AnomalyDetector"@
    &&& a.recommendation matches Some(t) && t@ == "Investigate unusual system activity"@
}

proof fn lemma_sq_nonneg(x: int)
    ensures
        sq(x) >= 0,
{
    assert(x * x >= 0) by (nonlinear_arith);
}

proof fn lemma_sq_same(x: int, y: int)
    requires
        y == x || y == -x,
    ensures
        sq(y) == sq(x),
{
    assert((-x) * (-x) == x * x) by (nonlinear_arith);
}

proof fn lemma_sq_le(x: int, y: int)
    requires
        0 <= x <= y,
    ensures
        sq(x) <= sq(y),
{
    assert(x * x <= y * y) by (nonlinear_arith)
        requires
            0 <= x <= y,
    ;
}

proof fn lemma_scaled_far(d: int)
    requires
        d != 0,
    ensures
        sq(10 * d) >= 100,
{
    assert((10 * d) * (10 * d) >= 100) by (nonlinear_arith)
        requires
            d != 0,
    ;
}

fn abs_diff_u32(a: u32, b: u32) -> (r: u32)
    ensures
        r as int == if a >= b {
            a - b
        } else {
            b - a
        },
{
    if a >= b {
        a - b
    } else {
        b - a
    }
}

/// Whether `q` lies in the neighbourhood of `center`.
fn near_exec(center: &FeatureVec, q: &FeatureVec) -> (r: bool)
    ensures
        r == near(*center, *q),
{
    if center.network_bytes != q.network_bytes {
        proof {
            lemma_scaled_far(center.network_bytes - q.network_bytes);
            lemma_sq_nonneg(center.cpu_usage - q.cpu_usage);
            lemma_sq_nonneg(center.memory_usage - q.memory_usage);
            lemma_sq_nonneg(center.disk_usage - q.disk_usage);
            lemma_sq_nonneg(10 * (center.process_count - q.process_count));
        }
        return false;
    }
    if center.process_count != q.process_count {
        proof {
            lemma_scaled_far(center.process_count - q.process_count);
            lemma_sq_nonneg(center.cpu_usage - q.cpu_usage);
            lemma_sq_nonneg(center.memory_usage - q.memory_usage);
            lemma_sq_nonneg(center.disk_usage - q.disk_usage);
            lemma_sq_nonneg(10 * (center.network_bytes - q.network_bytes));
        }
        return false;
    }
    let dc = abs_diff_u32(center.cpu_usage, q.cpu_usage);
    let dm = abs_diff_u32(center.memory_usage, q.memory_usage);
    let dd = abs_diff_u32(center.disk_usage, q.disk_usage);
    proof {
        lemma_sq_same(center.cpu_usage - q.cpu_usage, dc as int);
        lemma_sq_same(center.memory_usage - q.memory_usage, dm as int);
        lemma_sq_same(center.disk_usage - q.disk_usage, dd as int);
        lemma_sq_nonneg(center.cpu_usage - q.cpu_usage);
        lemma_sq_nonneg(center.memory_usage - q.memory_usage);
        lemma_sq_nonneg(center.disk_usage - q.disk_usage);
    }
    if dc > 5 {
        proof {
            lemma_sq_le(6, dc as int);
        }
        return false;
    }
    if dm > 5 {
        proof {
            lemma_sq_le(6, dm as int);
        }
        return false;
    }
    if dd > 5 {
        proof {
            lemma_sq_le(6, dd as int);
        }
        return false;
    }
    proof {
        lemma_sq_le(dc as int, 5);
        lemma_sq_le(dm as int, 5);
        lemma_sq_le(dd as int, 5);
        assert(sq(dc as int) == (dc as int) * (dc as int));
        assert(sq(dm as int) == (dm as int) * (dm as int));
        assert(sq(dd as int) == (dd as int) * (dd as int));
        assert(sq(0) == 0);
        assert(10 * (center.network_bytes - q.network_bytes) == 0);
        assert(10 * (center.process_count - q.process_count) == 0);
        assert(sq(10 * (center.network_bytes - q.network_bytes)) == 0);
        assert(sq(10 * (center.process_count - q.process_count)) == 0);
    }
    let s: u32 = dc * dc + dm * dm + dd * dd;
    proof {
        assert(s as int == dist2(*center, *q));
    }
    s <= 25
}

/// The trained model: the dense points of the training set, against which
/// new samples are scored.
#[derive(Debug)]
pub struct ClusterModel {
    core_points: Vec<FeatureVec>,
}

impl ClusterModel {
    /// The dense points the model holds.
    pub closed spec fn cores(self) -> Seq<FeatureVec> {
        self.core_points@
    }

    /// Trains a model: keeps exactly the dense points of the dataset.
    pub fn fit(points: &Vec<FeatureVec>) -> (r: ClusterModel)
        ensures
            r.cores() == core_points(points@, points@),
    {
        let n = points.len();
        let mut cores: Vec<FeatureVec> = Vec::new();
        let mut i: usize = 0;
        while i < n
            invariant
                n == points@.len(),
                0 <= i <= n,
                cores@ == core_points(points@, points@.take(i as int)),
            decreases n - i,
        {
            let mut cnt: usize = 0;
            let mut j: usize = 0;
            while j < n
                invariant
                    n == points@.len(),
                    0 <= i < n,
                    0 <= j <= n,
                    cnt <= j,
                    cnt as nat == count_near(points@.take(j as int), points@[i as int]),
                decreases n - j,
            {
                if near_exec(&points[i], &points[j]) {
                    cnt += 1;
                }
                proof {
                    assert(points@.take(j + 1).drop_last() =~= points@.take(j as int));
                    assert(points@.take(j + 1).last() == points@[j as int]);
                }
                j += 1;
            }
            proof {
                assert(points@.take(n as int) =~= points@);
            }
            if cnt >= MIN_POINTS {
                cores.push(points[i]);
            }
            proof {
                assert(points@.take(i + 1).drop_last() =~= points@.take(i as int));
                assert(points@.take(i + 1).last() == points@[i as int]);
                if is_core(points@, points@[i as int]) {
                    assert(cores@ =~= core_points(points@, points@.take(i + 1)));
                } else {
                    assert(cores@ =~= core_points(points@, points@.take(i + 1)));
                }
            }
            i += 1;
        }
        proof {
            assert(points@.take(n as int) =~= points@);
        }
        ClusterModel { core_points: cores }
    }

    /// Whether the sample lies in no dense point's neighbourhood.
    pub fn is_anomalous(&self, f: &FeatureVec) -> (r: bool)
        ensures
            r == anomalous(self.cores(), *f),
    {
        let n = self.core_points.len();
        let mut i: usize = 0;
        while i < n
            invariant
                n == self.core_points@.len(),
                0 <= i <= n,
                forall|k: int| 0 <= k < i ==> !near(#[trigger] self.core_points@[k], *f),
            decreases n - i,
        {
            if near_exec(&self.core_points[i], f) {
                return false;
            }
            i += 1;
        }
        true
    }
}

/// Detector state: the bounded history and the lazily trained model.
#[derive(Debug)]
pub struct AnomalyDetector {
    history: Vec<SystemState>,
    model: Option<ClusterModel>,
}

impl AnomalyDetector {
    /// The rolling history, oldest first.
    pub closed spec fn spec_history(self) -> Seq<SystemState> {
        self.history@
    }

    /// The dense points of the trained model, or `None` before training.
    pub closed spec fn spec_model(self) -> Option<Seq<FeatureVec>> {
        match self.model {
            Some(m) => Some(m.cores()),
            None => None,
        }
    }

    /// The history never outgrows its cap.
    pub open spec fn wf(self) -> bool {
        self.spec_history().len() <= HISTORY_CAP
    }

    /// An empty, untrained detector.
    pub fn new() -> (r: AnomalyDetector)
        ensures
            r.spec_history() == Seq::<SystemState>::empty(),
            r.spec_model() is None,
            r.wf(),
    {
        AnomalyDetector { history: Vec::new(), model: None }
    }

    /// Number of samples currently held.
    pub fn history_len(&self) -> (r: usize)
        ensures
            r == self.spec_history().len(),
    {
        self.history.len()
    }

    /// Appends a sample; when the history outgrows its cap, the oldest
    /// sample is evicted, so a full history keeps its length and loses its
    /// first entry.
    pub fn add_state(&mut self, state: SystemState)
        ensures
            old(self).spec_history().len() < HISTORY_CAP ==> final(self).spec_history() == old(
                self,
            ).spec_history().push(state),
            old(self).spec_history().len() >= HISTORY_CAP ==> final(self).spec_history() == old(
                self,
            ).spec_history().push(state).drop_first(),
            final(self).spec_model() == old(self).spec_model(),
            old(self).wf() ==> final(self).wf(),
    {
        self.history.push(state);
        if self.history.len() > HISTORY_CAP {
            self.history.remove(0);
            proof {
                assert(final(self).spec_history() =~= old(self).spec_history().push(
                    state,
                ).drop_first());
            }
        }
    }

    /// The feature vector of one snapshot.
    pub fn state_to_features(&self, state: &SystemState) -> (r: FeatureVec)
        ensures
            r == features(state@),
    {
        let bytes = state.network_stats.bytes_sent.saturating_add(
            state.network_stats.bytes_received,
        );
        FeatureVec {
            cpu_usage: state.cpu_usage,
            memory_usage: state.memory_usage,
            disk_usage: state.disk_usage,
            network_bytes: bytes,
            process_count: state.active_processes.len() as u64,
        }
    }

    /// The feature vectors of the whole history, in history order.
    fn extract_features(&self) -> (r: Vec<FeatureVec>)
        ensures
            r@ == feature_seq(self.spec_history()),
    {
        let n = self.history.len();
        let mut r: Vec<FeatureVec> = Vec::new();
        let mut i: usize = 0;
        while i < n
            invariant
                n == self.history@.len(),
                0 <= i <= n,
                r@ =~= feature_seq(self.history@.take(i as int)),
            decreases n - i,
        {
            let f = self.state_to_features(&self.history[i]);
            r.push(f);
            proof {
                assert(r@ =~= feature_seq(self.history@.take(i + 1)));
            }
            i += 1;
        }
        proof {
            assert(self.history@.take(n as int) =~= self.history@);
        }
        r
    }

    /// Scores the newest sample. With fewer than `MIN_SAMPLES` samples the
    /// result is empty and nothing changes. Otherwise the model is trained
    /// on the history's feature vectors if it was never trained before, and
    /// one Medium alert is returned exactly when the newest sample lies in
    /// no dense point's neighbourhood.
    pub fn detect_anomalies(&mut self, now: TimeStamp) -> (r: Vec<SecurityAlert>)
        ensures
            final(self).spec_history() == old(self).spec_history(),
            old(self).spec_history().len() < MIN_SAMPLES ==> {
                &&& r@ == Seq::<SecurityAlert>::empty()
                &&& final(self).spec_model() == old(self).spec_model()
            },
            old(self).spec_history().len() >= MIN_SAMPLES ==> {
                let feats = feature_seq(old(self).spec_history());
                let cores = match old(self).spec_model() {
                    Some(m) => m,
                    None => core_points(feats, feats),
                };
                &&& final(self).spec_model() == Some(cores)
                &&& (anomalous(cores, features(old(self).spec_history().last()@)) ==> r@.len() == 1
                    && is_anomaly_alert(r@[0], now))
                &&& (!anomalous(cores, features(old(self).spec_history().last()@)) ==> r@
                    == Seq::<SecurityAlert>::empty())
            },
    {
        let mut alerts: Vec<SecurityAlert> = Vec::new();
        if self.history.len() < MIN_SAMPLES {
            return alerts;
        }
        if self.model.is_none() {
            let feats = self.extract_features();
            self.model = Some(ClusterModel::fit(&feats));
        }
        let latest = self.state_to_features(&self.history[self.history.len() - 1]);
        let scored = match &self.model {
            Some(m) => m.is_anomalous(&latest),
            None => false,
        };
        if scored {
            alerts.push(
                SecurityAlert {
                    timestamp: now,
                    severity: AlertSeverity::Medium,
                    description: String::from_str("Anomalous system behavior detected"),
                    source: String::from_str("AnomalyDetector"),
                    recommendation: Some(
                        String::from_str("Investigate unusual system activity"),
                    ),
                },
            );
        }
        alerts
    }
}

} // verus!
