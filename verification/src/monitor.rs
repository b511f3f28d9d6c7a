//! Telemetry bookkeeping: the usage arithmetic applied to raw sensor
//! counters, the per-process rolling history with its one-hour window, and
//! the ordering of the process table by cpu usage.

use vstd::multiset::Multiset;
use vstd::prelude::*;
use vstd::seq_lib::group_to_multiset_ensures;

use crate::time::TimeStamp;
use crate::ProcessInfo;

verus! {

broadcast use group_to_multiset_ensures;

/// Samples older than this many seconds fall out of a process's history.
pub const HISTORY_WINDOW_SECS: i64 = 3600;

/// The per-process rolling history: one cpu figure, one memory figure and
/// one timestamp per sample, in sample order.
#[derive(Debug)]
pub struct ProcessHistory {
    pub cpu_usage: Vec<u32>,
    pub memory_usage: Vec<u32>,
    pub timestamp: Vec<i64>,
}

/// The mathematical content of a `ProcessHistory`.
#[verifier::ext_equal]
pub struct ProcessHistoryView {
    pub cpu: Seq<u32>,
    pub mem: Seq<u32>,
    pub ts: Seq<i64>,
}

impl View for ProcessHistory {
    type V = ProcessHistoryView;

    open spec fn view(&self) -> ProcessHistoryView {
        ProcessHistoryView { cpu: self.cpu_usage@, mem: self.memory_usage@, ts: self.timestamp@ }
    }
}

/// The three columns of a history hold one entry per sample.
pub open spec fn hist_wf(h: ProcessHistoryView) -> bool {
    h.cpu.len() == h.ts.len() && h.mem.len() == h.ts.len()
}

/// A history with no samples.
pub open spec fn empty_hist() -> ProcessHistoryView {
    ProcessHistoryView { cpu: Seq::empty(), mem: Seq::empty(), ts: Seq::empty() }
}

/// How many samples at the front of the history are older than the window.
pub open spec fn stale_prefix(ts: Seq<i64>, now: i64) -> int
    decreases ts.len(),
{
    if ts.len() == 0 || !(now - ts[0] > HISTORY_WINDOW_SECS) {
        0
    } else {
        1 + stale_prefix(ts.drop_first(), now)
    }
}

/// A history after one sample lands: the stale front falls away and the
/// sample is appended to each column.
pub open spec fn record_spec(h: ProcessHistoryView, cpu: u32, mem: u32, now: i64) -> ProcessHistoryView {
    let k = stale_prefix(h.ts, now);
    ProcessHistoryView {
        cpu: h.cpu.skip(k).push(cpu),
        mem: h.mem.skip(k).push(mem),
        ts: h.ts.skip(k).push(now),
    }
}

impl Clone for ProcessHistory {
    fn clone(&self) -> (r: Self)
        ensures
            r@ == self@,
    {
        let r = ProcessHistory {
            cpu_usage: self.cpu_usage.clone(),
            memory_usage: self.memory_usage.clone(),
            timestamp: self.timestamp.clone(),
        };
        proof {
            assert(r.cpu_usage@ =~= self.cpu_usage@);
            assert(r.memory_usage@ =~= self.memory_usage@);
            assert(r.timestamp@ =~= self.timestamp@);
            assert(r@ =~= self@);
        }
        r
    }
}

impl ProcessHistory {
    /// A history with no samples.
    pub fn new() -> (r: ProcessHistory)
        ensures
            r@ == empty_hist(),
            hist_wf(r@),
    {
        let r = ProcessHistory { cpu_usage: Vec::new(), memory_usage: Vec::new(), timestamp: Vec::new() };
        proof {
            assert(r@ =~= empty_hist());
        }
        r
    }

    /// Lands one sample: drops samples older than the window from the
    /// front, then appends the new figures.
    pub fn record_sample(&mut self, cpu: u32, mem: u32, now: i64)
        requires
            hist_wf(old(self)@),
        ensures
            hist_wf(final(self)@),
            final(self)@ == record_spec(old(self)@, cpu, mem, now),
    {
        let ghost orig = self@;
        let ghost d: int = 0;
        #[verifier::loop_isolation(false)]
        while self.timestamp.len() > 0 && is_stale(now, self.timestamp[0])
            invariant
                0 <= d <= orig.ts.len(),
                self@.ts == orig.ts.skip(d),
                self@.cpu == orig.cpu.skip(d),
                self@.mem == orig.mem.skip(d),
                stale_prefix(orig.ts, now) == d + stale_prefix(self@.ts, now),
            decreases self@.ts.len(),
        {
            proof {
                assert(self@.ts[0] == orig.ts.skip(d)[0]);
                assert(stale_prefix(self@.ts, now) == 1 + stale_prefix(self@.ts.drop_first(), now));
                assert(self@.ts.drop_first() =~= orig.ts.skip(d + 1));
                assert(self@.cpu.drop_first() =~= orig.cpu.skip(d + 1));
                assert(self@.mem.drop_first() =~= orig.mem.skip(d + 1));
            }
            self.timestamp.remove(0);
            self.cpu_usage.remove(0);
            self.memory_usage.remove(0);
            proof {
                assert(self@.ts =~= orig.ts.skip(d + 1));
                assert(self@.cpu =~= orig.cpu.skip(d + 1));
                assert(self@.mem =~= orig.mem.skip(d + 1));
                d = d + 1;
            }
        }
        proof {
            assert(stale_prefix(self@.ts, now) == 0);
            assert(d == stale_prefix(orig.ts, now));
        }
        self.cpu_usage.push(cpu);
        self.memory_usage.push(mem);
        self.timestamp.push(now);
        proof {
            assert(final(self)@ =~= record_spec(orig, cpu, mem, now));
        }
    }
}

/// Whether a sample taken at `t` has fallen out of the window by `now`.
fn is_stale(now: i64, t: i64) -> (r: bool)
    ensures
        r == (now - t > HISTORY_WINDOW_SECS),
{
    (now as i128) - (t as i128) > HISTORY_WINDOW_SECS as i128
}

/// The history table as a map from pid to history content.
pub open spec fn hist_map_of(entries: Seq<(u32, ProcessHistory)>) -> Map<u32, ProcessHistoryView>
    decreases entries.len(),
{
    if entries.len() == 0 {
        Map::empty()
    } else {
        hist_map_of(entries.drop_last()).insert(entries.last().0, entries.last().1@)
    }
}

pub open spec fn distinct_hist_pids(entries: Seq<(u32, ProcessHistory)>) -> bool {
    forall|i: int, j: int|
        0 <= i < j < entries.len() ==> (#[trigger] entries[i]).0 != (#[trigger] entries[j]).0
}

proof fn lemma_hist_map_has(entries: Seq<(u32, ProcessHistory)>, pid: u32)
    ensures
        hist_map_of(entries).contains_key(pid) <==> exists|k: int|
            0 <= k < entries.len() && (#[trigger] entries[k]).0 == pid,
    decreases entries.len(),
{
    if entries.len() > 0 {
        lemma_hist_map_has(entries.drop_last(), pid);
        if entries.last().0 == pid {
            assert(entries[entries.len() - 1].0 == pid);
        } else if exists|k: int| 0 <= k < entries.len() && (#[trigger] entries[k]).0 == pid {
            let k = choose|k: int| 0 <= k < entries.len() && (#[trigger] entries[k]).0 == pid;
            assert(entries.drop_last()[k].0 == pid);
        }
    }
}

proof fn lemma_hist_map_at(entries: Seq<(u32, ProcessHistory)>, k: int)
    requires
        distinct_hist_pids(entries),
        0 <= k < entries.len(),
    ensures
        hist_map_of(entries).contains_key(entries[k].0),
        hist_map_of(entries)[entries[k].0] == entries[k].1@,
    decreases entries.len(),
{
    if k < entries.len() - 1 {
        assert(entries.drop_last()[k] == entries[k]);
        lemma_hist_map_at(entries.drop_last(), k);
        assert(entries.last().0 != entries[k].0);
    }
}

proof fn lemma_hist_map_remove(entries: Seq<(u32, ProcessHistory)>, k: int)
    requires
        distinct_hist_pids(entries),
        0 <= k < entries.len(),
    ensures
        hist_map_of(entries.remove(k)) == hist_map_of(entries).remove(entries[k].0),
        distinct_hist_pids(entries.remove(k)),
    decreases entries.len(),
{
    let removed = entries.remove(k);
    assert forall|a: int, b: int| 0 <= a < b < removed.len() implies (#[trigger] removed[a]).0 != (
    #[trigger] removed[b]).0 by {
        let a0 = if a < k {
            a
        } else {
            a + 1
        };
        let b0 = if b < k {
            b
        } else {
            b + 1
        };
        assert(removed[a] == entries[a0]);
        assert(removed[b] == entries[b0]);
    }
    if k == entries.len() - 1 {
        assert(removed =~= entries.drop_last());
        lemma_hist_map_at(entries, k);
        assert forall|p: u32| true implies hist_map_of(removed).contains_key(p) == hist_map_of(
            entries,
        ).remove(entries[k].0).contains_key(p) by {
            lemma_hist_map_has(removed, p);
            lemma_hist_map_has(entries, p);
            if p != entries[k].0 {
                if exists|j: int| 0 <= j < entries.len() && (#[trigger] entries[j]).0 == p {
                    let j = choose|j: int|
                        0 <= j < entries.len() && (#[trigger] entries[j]).0 == p;
                    assert(removed[j] == entries[j]);
                }
            } else {
                if exists|j: int| 0 <= j < removed.len() && (#[trigger] removed[j]).0 == p {
                    let j = choose|j: int| 0 <= j < removed.len() && (#[trigger] removed[j]).0 == p;
                    assert(entries[j] == removed[j]);
                    assert(false);
                }
            }
        }
        assert forall|p: u32| hist_map_of(removed).contains_key(p) implies hist_map_of(removed)[p]
            == hist_map_of(entries).remove(entries[k].0)[p] by {
            lemma_hist_map_has(removed, p);
            let j = choose|j: int| 0 <= j < removed.len() && (#[trigger] removed[j]).0 == p;
            lemma_hist_map_at(removed, j);
            assert(entries[j] == removed[j]);
            lemma_hist_map_at(entries, j);
        }
        assert(hist_map_of(removed) =~= hist_map_of(entries).remove(entries[k].0));
    } else {
        assert(removed.drop_last() =~= entries.drop_last().remove(k));
        assert(entries.drop_last()[k] == entries[k]);
        lemma_hist_map_remove(entries.drop_last(), k);
        assert(removed.last() == entries.last());
        assert(entries.last().0 != entries[k].0);
        assert(hist_map_of(removed) == hist_map_of(entries.drop_last()).remove(
            entries[k].0,
        ).insert(entries.last().0, entries.last().1@));
        assert(hist_map_of(entries.drop_last()).remove(entries[k].0).insert(
            entries.last().0,
            entries.last().1@,
        ) =~= hist_map_of(entries.drop_last()).insert(entries.last().0, entries.last().1@).remove(
            entries[k].0,
        ));
    }
}

/// The history table after one cycle's process table lands, process by
/// process in table order: each process's history loses its stale front and
/// gains that process's sample.
pub open spec fn updated_map(
    m: Map<u32, ProcessHistoryView>,
    ps: Seq<ProcessInfo>,
    now: i64,
) -> Map<u32, ProcessHistoryView>
    decreases ps.len(),
{
    if ps.len() == 0 {
        m
    } else {
        let m1 = updated_map(m, ps.drop_last(), now);
        let p = ps.last();
        let before = if m1.contains_key(p.pid) {
            m1[p.pid]
        } else {
            empty_hist()
        };
        m1.insert(p.pid, record_spec(before, p.cpu_usage, p.memory_usage, now))
    }
}

/// Cpu figures never increase along the sequence.
pub open spec fn processes_sorted_desc(s: Seq<ProcessInfo>) -> bool {
    forall|x: int, y: int|
        0 <= x < y < s.len() ==> (#[trigger] s[x]).cpu_usage >= (#[trigger] s[y]).cpu_usage
}

/// Sorts a process table by cpu usage, busiest first, keeping the
/// collection's contents.
pub fn sort_processes_by_cpu(input: Vec<ProcessInfo>) -> (r: Vec<ProcessInfo>)
    ensures
        processes_sorted_desc(r@),
        r@.to_multiset() == input@.to_multiset(),
{
    let mut pool = input;
    let ghost orig = pool@;
    let mut out: Vec<ProcessInfo> = Vec::new();
    #[verifier::loop_isolation(false)]
    while pool.len() > 0
        invariant
            out@.to_multiset().add(pool@.to_multiset()) =~= orig.to_multiset(),
            processes_sorted_desc(out@),
            forall|a: int, b: int|
                0 <= a < out@.len() && 0 <= b < pool@.len() ==> (#[trigger] out@[a]).cpu_usage >= (
                #[trigger] pool@[b]).cpu_usage,
        decreases pool.len(),
    {
        let mut mi: usize = 0;
        let mut k: usize = 1;
        while k < pool.len()
            invariant
                0 <= mi < k <= pool@.len(),
                forall|b: int|
                    0 <= b < k ==> pool@[mi as int].cpu_usage >= (#[trigger] pool@[b]).cpu_usage,
            decreases pool.len() - k,
        {
            if pool[k].cpu_usage > pool[mi].cpu_usage {
                mi = k;
            }
            k += 1;
        }
        let ghost pool_before = pool@;
        let x = pool.remove(mi);
        proof {
            assert(pool@.to_multiset() =~= pool_before.to_multiset().remove(x));
            assert(out@.push(x).to_multiset() =~= out@.to_multiset().insert(x));
            assert(out@.push(x).to_multiset().add(pool@.to_multiset()) =~= orig.to_multiset());
            assert(forall|b: int|
                0 <= b < pool@.len() ==> x.cpu_usage >= (#[trigger] pool@[b]).cpu_usage);
        }
        out.push(x);
    }
    proof {
        assert(pool@.to_multiset() =~= Multiset::<ProcessInfo>::empty());
        assert(out@.to_multiset() =~= orig.to_multiset());
    }
    out
}

/// The memory usage in tenths of a percent: used over total, capped at one
/// hundred percent, and zero when the total is zero.
pub fn memory_usage_tenths(used: u64, total: u64) -> (r: u32)
    ensures
        total == 0 ==> r == 0,
        total > 0 ==> r as int == if used * 1000 / (total as int) <= 1000 {
            used * 1000 / (total as int)
        } else {
            1000int
        },
{
    if total == 0 {
        return 0;
    }
    let t = (used as u128) * 1000 / (total as u128);
    if t > 1000 {
        1000
    } else {
        t as u32
    }
}

/// One disk's usage in tenths of a percent: space no longer available over
/// total space, capped at one hundred percent.
pub open spec fn disk_pct(total: u64, avail: u64) -> int {
    let used: int = if avail <= total {
        total - avail
    } else {
        0
    };
    if used * 1000 / (total as int) <= 1000 {
        used * 1000 / (total as int)
    } else {
        1000
    }
}

/// Sum and count of the per-disk usages, zero-sized disks skipped.
pub open spec fn disk_fold(disks: Seq<(u64, u64)>) -> (int, int)
    decreases disks.len(),
{
    if disks.len() == 0 {
        (0, 0)
    } else {
        let (s, c) = disk_fold(disks.drop_last());
        if disks.last().0 == 0 {
            (s, c)
        } else {
            (s + disk_pct(disks.last().0, disks.last().1), c + 1)
        }
    }
}

proof fn lemma_disk_pct_bounds(total: u64, avail: u64)
    requires
        total > 0,
    ensures
        0 <= disk_pct(total, avail) <= 1000,
{
    let used: int = if avail <= total {
        total - avail
    } else {
        0
    };
    assert(used * 1000 / (total as int) >= 0) by (nonlinear_arith)
        requires
            used >= 0,
            total > 0,
    ;
}

proof fn lemma_disk_avg_fits(count: int, sum: int)
    requires
        1 <= count,
        0 <= sum <= count * 1000,
    ensures
        0 <= sum / count <= 1000,
{
    assert(0 <= sum / count <= 1000) by (nonlinear_arith)
        requires
            1 <= count,
            0 <= sum <= count * 1000,
    ;
}

proof fn lemma_disk_sum_step(count: int, sum: int, x: int)
    requires
        0 <= count <= u64::MAX,
        0 <= sum <= count * 1000,
        0 <= x <= 1000,
    ensures
        sum + x <= (count + 1) * 1000,
        sum + x <= u128::MAX,
{
    assert(sum + x <= (count + 1) * 1000) by (nonlinear_arith)
        requires
            0 <= sum <= count * 1000,
            0 <= x <= 1000,
    ;
    assert((count + 1) * 1000 <= u128::MAX) by (nonlinear_arith)
        requires
            0 <= count <= u64::MAX,
    ;
}

/// The average disk usage in tenths of a percent over the disks with any
/// space at all, each given as a pair of total and available bytes; zero
/// when there is no such disk.
#[verifier::loop_isolation(false)]
pub fn disk_usage_tenths(disks: &Vec<(u64, u64)>) -> (r: u32)
    ensures
        ({
            let (s, c) = disk_fold(disks@);
            &&& (c == 0 ==> r == 0)
            &&& (c > 0 ==> r as int == s / c)
        }),
{
    let n = disks.len();
    let mut sum: u128 = 0;
    let mut count: u64 = 0;
    let mut i: usize = 0;
    proof {
        assert(usize::MAX <= u64::MAX);
    }
    while i < n
        invariant
            0 <= i <= n,
            count <= i,
            count as int == disk_fold(disks@.take(i as int)).1,
            sum as int == disk_fold(disks@.take(i as int)).0,
            sum <= count * 1000,
        decreases n - i,
    {
        proof {
            assert(disks@.take(i + 1).drop_last() =~= disks@.take(i as int));
            assert(disks@.take(i + 1).last() == disks@[i as int]);
        }
        let (total, avail) = disks[i];
        if total > 0 {
            let used = if avail <= total {
                total - avail
            } else {
                0
            };
            let t = (used as u128) * 1000 / (total as u128);
            let pct: u32 = if t > 1000 {
                1000
            } else {
                t as u32
            };
            proof {
                lemma_disk_pct_bounds(total, avail);
                assert(pct as int == disk_pct(total, avail));
                lemma_disk_sum_step(count as int, sum as int, pct as int);
            }
            sum = sum + pct as u128;
            count = count + 1;
        }
        i += 1;
    }
    proof {
        assert(disks@.take(n as int) =~= disks@);
    }
    if count == 0 {
        0
    } else {
        proof {
            lemma_disk_avg_fits(count as int, sum as int);
        }
        (sum / count as u128) as u32
    }
}

/// Bookkeeping over the telemetry source: per-process rolling histories
/// keyed by pid, and the time of the latest recording.
#[derive(Debug)]
pub struct SystemMonitor {
    process_history: Vec<(u32, ProcessHistory)>,
    last_update: TimeStamp,
}

impl SystemMonitor {
    /// Pids in the history table stay free of duplicates and every history
    /// is well formed. Constructors establish this and every method
    /// preserves it.
    pub closed spec fn wf(self) -> bool {
        &&& distinct_hist_pids(self.process_history@)
        &&& forall|i: int|
            0 <= i < self.process_history@.len() ==> hist_wf(
                (#[trigger] self.process_history@[i]).1@,
            )
    }

    /// The history table as a map from pid to history content.
    pub closed spec fn hist_map(self) -> Map<u32, ProcessHistoryView> {
        hist_map_of(self.process_history@)
    }

    /// The time of the latest recording.
    pub closed spec fn spec_last_update(self) -> TimeStamp {
        self.last_update
    }

    /// A monitor with no history, dated with the current time.
    pub fn new() -> (r: SystemMonitor)
        ensures
            r.wf(),
            r.hist_map() == Map::<u32, ProcessHistoryView>::empty(),
    {
        SystemMonitor { process_history: Vec::new(), last_update: TimeStamp::now() }
    }

    /// Records one cycle's process table, process by process in table
    /// order: each process's history drops its stale front and gains this
    /// cycle's sample; histories of other pids stay as they were.
    #[verifier::loop_isolation(false)]
    pub fn record_processes(&mut self, processes: &Vec<ProcessInfo>, now: TimeStamp)
        requires
            old(self).wf(),
        ensures
            final(self).wf(),
            final(self).spec_last_update() == now,
            final(self).hist_map() == updated_map(old(self).hist_map(), processes@, now.secs),
    {
        let n = processes.len();
        let mut i: usize = 0;
        while i < n
            invariant
                0 <= i <= n,
                self.wf(),
                self.last_update == old(self).last_update,
                self.hist_map() == updated_map(
                    old(self).hist_map(),
                    processes@.take(i as int),
                    now.secs,
                ),
            decreases n - i,
        {
            let p = &processes[i];
            let ghost m0 = self.hist_map();
            let ghost before = if m0.contains_key(p.pid) {
                m0[p.pid]
            } else {
                empty_hist()
            };
            let mut h = self.take_history(p.pid);
            h.record_sample(p.cpu_usage, p.memory_usage, now.secs);
            self.put_history(p.pid, h);
            proof {
                let rec = record_spec(before, p.cpu_usage, p.memory_usage, now.secs);
                assert(self.hist_map() == m0.remove(p.pid).insert(p.pid, rec));
                assert(m0.remove(p.pid).insert(p.pid, rec) =~= m0.insert(p.pid, rec));
                assert(processes@.take(i + 1).drop_last() =~= processes@.take(i as int));
                assert(processes@.take(i + 1).last() == processes@[i as int]);
                assert(self.hist_map() == updated_map(
                    old(self).hist_map(),
                    processes@.take(i + 1),
                    now.secs,
                ));
            }
            i += 1;
        }
        proof {
            assert(processes@.take(n as int) =~= processes@);
        }
        self.last_update = now;
    }

    /// Removes and returns the history recorded for `pid`, or a fresh one.
    #[verifier::loop_isolation(false)]
    fn take_history(&mut self, pid: u32) -> (r: ProcessHistory)
        requires
            old(self).wf(),
        ensures
            final(self).wf(),
            hist_wf(r@),
            old(self).hist_map().contains_key(pid) ==> r@ == old(self).hist_map()[pid],
            !old(self).hist_map().contains_key(pid) ==> r@ == empty_hist(),
            final(self).hist_map() == old(self).hist_map().remove(pid),
            !final(self).hist_map().contains_key(pid),
            final(self).last_update == old(self).last_update,
    {
        let n = self.process_history.len();
        let mut i: usize = 0;
        while i < n
            invariant
                *self == *old(self),
                n == self.process_history@.len(),
                0 <= i <= n,
                forall|k: int| 0 <= k < i ==> (#[trigger] self.process_history@[k]).0 != pid,
            decreases n - i,
        {
            if self.process_history[i].0 == pid {
                proof {
                    lemma_hist_map_at(self.process_history@, i as int);
                    lemma_hist_map_remove(self.process_history@, i as int);
                    lemma_hist_map_has(
                        self.process_history@.remove(i as int),
                        pid,
                    );
                    if exists|j: int|
                        0 <= j < self.process_history@.remove(i as int).len() && (
                        #[trigger] self.process_history@.remove(i as int)[j]).0 == pid {
                        let j = choose|j: int|
                            0 <= j < self.process_history@.remove(i as int).len() && (
                            #[trigger] self.process_history@.remove(i as int)[j]).0 == pid;
                        let j0 = if j < i {
                            j
                        } else {
                            j + 1
                        };
                        assert(self.process_history@.remove(i as int)[j]
                            == self.process_history@[j0]);
                        assert(false);
                    }
                }
                let (_, h) = self.process_history.remove(i);
                return h;
            }
            i += 1;
        }
        proof {
            lemma_hist_map_has(self.process_history@, pid);
            assert(self.hist_map() =~= self.hist_map().remove(pid));
        }
        ProcessHistory::new()
    }

    /// Appends a history for a pid the table does not hold.
    fn put_history(&mut self, pid: u32, h: ProcessHistory)
        requires
            old(self).wf(),
            !old(self).hist_map().contains_key(pid),
            hist_wf(h@),
        ensures
            final(self).wf(),
            final(self).hist_map() == old(self).hist_map().insert(pid, h@),
            final(self).last_update == old(self).last_update,
    {
        proof {
            lemma_hist_map_has(old(self).process_history@, pid);
        }
        self.process_history.push((pid, h));
        proof {
            assert(self.process_history@.drop_last() =~= old(self).process_history@);
            assert forall|a: int, b: int|
                0 <= a < b < self.process_history@.len() implies (
            #[trigger] self.process_history@[a]).0 != (#[trigger] self.process_history@[b]).0 by {
                if b < self.process_history@.len() - 1 {
                    assert(old(self).process_history@[a] == self.process_history@[a]);
                    assert(old(self).process_history@[b] == self.process_history@[b]);
                }
            }
        }
    }

    /// The history recorded for `pid`, if any.
    #[verifier::loop_isolation(false)]
    pub fn get_process_history(&self, pid: u32) -> (r: Option<ProcessHistory>)
        requires
            self.wf(),
        ensures
            match r {
                Some(h) => self.hist_map().contains_key(pid) && h@ == self.hist_map()[pid],
                None => !self.hist_map().contains_key(pid),
            },
    {
        let n = self.process_history.len();
        let mut i: usize = 0;
        while i < n
            invariant
                n == self.process_history@.len(),
                0 <= i <= n,
                forall|k: int| 0 <= k < i ==> (#[trigger] self.process_history@[k]).0 != pid,
            decreases n - i,
        {
            if self.process_history[i].0 == pid {
                proof {
                    lemma_hist_map_at(self.process_history@, i as int);
                }
                return Some(self.process_history[i].1.clone());
            }
            i += 1;
        }
        proof {
            lemma_hist_map_has(self.process_history@, pid);
        }
        None
    }
}

} // verus!
