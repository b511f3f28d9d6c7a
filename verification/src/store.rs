//! The audit store: an in-memory append-only log of published snapshots and
//! raised alerts, queryable by time range. Queries order by timestamp,
//! newest first; among equal timestamps no order is promised.

use vstd::multiset::Multiset;
use vstd::prelude::*;
use vstd::seq_lib::group_to_multiset_ensures;

use crate::time::TimeStamp;
use crate::SecurityAlert;
use crate::SystemState;
use crate::SystemStateView;

verus! {

broadcast use group_to_multiset_ensures;

/// The views of a sequence of snapshots, in order.
pub open spec fn views_of(s: Seq<SystemState>) -> Seq<SystemStateView> {
    s.map_values(|x: SystemState| x@)
}

/// The alerts of `s` whose timestamp is strictly after `since`, in order.
pub open spec fn alerts_after(s: Seq<SecurityAlert>, since: TimeStamp) -> Seq<SecurityAlert>
    decreases s.len(),
{
    if s.len() == 0 {
        Seq::empty()
    } else {
        alerts_after(s.drop_last(), since) + if s.last().timestamp.secs > since.secs {
            seq![s.last()]
        } else {
            Seq::empty()
        }
    }
}

/// The snapshots of `s` whose timestamp is strictly after `since`, in order.
pub open spec fn states_after(s: Seq<SystemState>, since: TimeStamp) -> Seq<SystemState>
    decreases s.len(),
{
    if s.len() == 0 {
        Seq::empty()
    } else {
        states_after(s.drop_last(), since) + if s.last().timestamp.secs > since.secs {
            seq![s.last()]
        } else {
            Seq::empty()
        }
    }
}

/// The snapshots of `s` whose timestamp is at or after `cutoff`, in order.
pub open spec fn states_kept(s: Seq<SystemState>, cutoff: TimeStamp) -> Seq<SystemState>
    decreases s.len(),
{
    if s.len() == 0 {
        Seq::empty()
    } else {
        states_kept(s.drop_last(), cutoff) + if s.last().timestamp.secs >= cutoff.secs {
            seq![s.last()]
        } else {
            Seq::empty()
        }
    }
}

/// The alerts of `s` whose timestamp is at or after `cutoff`, in order.
pub open spec fn alerts_kept(s: Seq<SecurityAlert>, cutoff: TimeStamp) -> Seq<SecurityAlert>
    decreases s.len(),
{
    if s.len() == 0 {
        Seq::empty()
    } else {
        alerts_kept(s.drop_last(), cutoff) + if s.last().timestamp.secs >= cutoff.secs {
            seq![s.last()]
        } else {
            Seq::empty()
        }
    }
}

/// Alert timestamps never increase along the sequence.
pub open spec fn alerts_sorted_desc(s: Seq<SecurityAlert>) -> bool {
    forall|x: int, y: int|
        0 <= x < y < s.len() ==> (#[trigger] s[x]).timestamp.secs >= (#[trigger] s[y]).timestamp.secs
}

/// Snapshot timestamps never increase along the sequence.
pub open spec fn states_sorted_desc(s: Seq<SystemState>) -> bool {
    forall|x: int, y: int|
        0 <= x < y < s.len() ==> (#[trigger] s[x]).timestamp.secs >= (#[trigger] s[y]).timestamp.secs
}

/// Sum of the cpu usage figures of the snapshots.
pub open spec fn cpu_sum(s: Seq<SystemState>) -> int
    decreases s.len(),
{
    if s.len() == 0 {
        0
    } else {
        cpu_sum(s.drop_last()) + s.last().cpu_usage
    }
}

/// Sum of the memory usage figures of the snapshots.
pub open spec fn memory_sum(s: Seq<SystemState>) -> int
    decreases s.len(),
{
    if s.len() == 0 {
        0
    } else {
        memory_sum(s.drop_last()) + s.last().memory_usage
    }
}

/// Sum of the disk usage figures of the snapshots.
pub open spec fn disk_sum(s: Seq<SystemState>) -> int
    decreases s.len(),
{
    if s.len() == 0 {
        0
    } else {
        disk_sum(s.drop_last()) + s.last().disk_usage
    }
}

/// Aggregates over a time range: truncated means of the usage figures, in
/// tenths of a percent, with the record and alert counts.
#[derive(Debug, Clone, Copy, PartialEq, Eq, Structural)]
pub struct SystemStatistics {
    pub avg_cpu_usage: u32,
    pub avg_memory_usage: u32,
    pub avg_disk_usage: u32,
    pub total_records: u64,
    pub alert_count: u64,
}

/// The store: snapshots and alerts in insertion order.
#[derive(Debug)]
pub struct Database {
    states: Vec<SystemState>,
    alerts: Vec<SecurityAlert>,
}

impl Database {
    /// The stored snapshots, in insertion order.
    pub closed spec fn spec_states(self) -> Seq<SystemState> {
        self.states@
    }

    /// The stored alerts, in insertion order.
    pub closed spec fn spec_alerts(self) -> Seq<SecurityAlert> {
        self.alerts@
    }

    /// An empty store.
    pub fn new() -> (r: Database)
        ensures
            r.spec_states() == Seq::<SystemState>::empty(),
            r.spec_alerts() == Seq::<SecurityAlert>::empty(),
    {
        Database { states: Vec::new(), alerts: Vec::new() }
    }

    /// Appends one snapshot, and each alert the snapshot carries, to the
    /// log.
    pub fn store_state(&mut self, state: &SystemState)
        ensures
            final(self).spec_states().len() == old(self).spec_states().len() + 1,
            final(self).spec_states().take(old(self).spec_states().len() as int) == old(
                self,
            ).spec_states(),
            final(self).spec_states().last()@ == state@,
            final(self).spec_alerts() == old(self).spec_alerts() + state.security_alerts@,
    {
        self.states.push(state.clone());
        proof {
            assert(self.states@.take(old(self).states@.len() as int) =~= old(self).states@);
        }
        let ghost pushed = self.states@;
        let n = state.security_alerts.len();
        proof {
            assert(old(self).alerts@ + state.security_alerts@.take(0) =~= old(self).alerts@);
        }
        let mut i: usize = 0;
        while i < n
            invariant
                n == state.security_alerts@.len(),
                0 <= i <= n,
                self.states@ == pushed,
                pushed.take(old(self).states@.len() as int) == old(self).states@,
                pushed.len() == old(self).states@.len() + 1,
                pushed.last()@ == state@,
                self.alerts@ == old(self).alerts@ + state.security_alerts@.take(i as int),
            decreases n - i,
        {
            self.alerts.push(state.security_alerts[i].clone());
            proof {
                assert(self.alerts@ =~= old(self).alerts@ + state.security_alerts@.take(i + 1));
            }
            i += 1;
        }
        proof {
            assert(state.security_alerts@.take(n as int) =~= state.security_alerts@);
        }
    }

    /// The alerts recorded strictly after `since`, newest first. Among
    /// equal timestamps no order is promised.
    pub fn get_alerts_since(&self, since: TimeStamp) -> (r: Vec<SecurityAlert>)
        ensures
            alerts_sorted_desc(r@),
            r@.to_multiset() == alerts_after(self.spec_alerts(), since).to_multiset(),
    {
        let n = self.alerts.len();
        let mut pool: Vec<SecurityAlert> = Vec::new();
        let mut i: usize = 0;
        while i < n
            invariant
                n == self.alerts@.len(),
                0 <= i <= n,
                pool@ == alerts_after(self.alerts@.take(i as int), since),
            decreases n - i,
        {
            if self.alerts[i].timestamp.secs > since.secs {
                pool.push(self.alerts[i].clone());
            }
            proof {
                assert(self.alerts@.take(i + 1).drop_last() =~= self.alerts@.take(i as int));
                assert(pool@ =~= alerts_after(self.alerts@.take(i + 1), since));
            }
            i += 1;
        }
        proof {
            assert(self.alerts@.take(n as int) =~= self.alerts@);
        }
        sort_alerts_desc(pool)
    }

    /// Up to `limit` stored snapshots, newest first. Every returned
    /// snapshot is a stored one; when the limit does not bind, every stored
    /// snapshot is returned; and no stored snapshot is newer than the last
    /// returned one unless it was returned.
    pub fn get_system_states(&self, limit: usize) -> (r: Vec<SystemState>)
        ensures
            r@.len() == if limit <= self.spec_states().len() {
                limit as int
            } else {
                self.spec_states().len() as int
            },
            states_sorted_desc(r@),
            views_of(r@).to_multiset().subset_of(views_of(self.spec_states()).to_multiset()),
            r@.len() == self.spec_states().len() ==> views_of(r@).to_multiset() == views_of(
                self.spec_states(),
            ).to_multiset(),
            forall|j: int|
                0 <= j < self.spec_states().len() && r@.len() > 0 ==> ((
                #[trigger] self.spec_states()[j])@.timestamp.secs
                    <= r@[r@.len() - 1].timestamp.secs || views_of(r@).contains(
                    self.spec_states()[j]@,
                )),
    {
        let n = self.states.len();
        let mut pool: Vec<SystemState> = Vec::new();
        let mut i: usize = 0;
        while i < n
            invariant
                n == self.states@.len(),
                0 <= i <= n,
                pool@.len() == i,
                views_of(pool@) == views_of(self.states@).take(i as int),
            decreases n - i,
        {
            let c = self.states[i].clone();
            pool.push(c);
            proof {
                assert forall|k: int| 0 <= k < i + 1 implies views_of(pool@)[k] == views_of(
                    self.states@,
                ).take(i + 1)[k] by {
                    if k < i {
                        assert(views_of(pool@)[k] == views_of(pool@.drop_last())[k]);
                    }
                }
                assert(views_of(pool@) =~= views_of(self.states@).take(i + 1));
            }
            i += 1;
        }
        proof {
            assert(views_of(self.states@).take(n as int) =~= views_of(self.states@));
            assert(views_of(pool@) == views_of(self.states@));
        }
        let sorted = sort_states_desc(pool);
        let ghost full = sorted@;
        let mut out = sorted;
        if limit < out.len() {
            out.truncate(limit);
            proof {
                assert(views_of(out@) =~= views_of(full).take(limit as int));
            }
        }
        proof {
            lemma_take_multiset_subset(views_of(full), out@.len() as int);
            assert(views_of(out@) =~= views_of(full).take(out@.len() as int));
            assert(views_of(out@).to_multiset().subset_of(views_of(full).to_multiset()));
            if out@.len() == self.spec_states().len() {
                assert(views_of(out@) =~= views_of(full));
            }
            assert forall|j: int| 0 <= j < self.spec_states().len() && out@.len() > 0 implies ((
            #[trigger] self.spec_states()[j])@.timestamp.secs <= out@[out@.len()
                - 1].timestamp.secs || views_of(out@).contains(self.spec_states()[j]@)) by {
                let v = self.spec_states()[j]@;
                assert(views_of(self.spec_states())[j] == v);
                assert(views_of(self.spec_states()).to_multiset().count(v) > 0);
                assert(views_of(full).to_multiset().count(v) > 0);
                assert(views_of(full).contains(v));
                let k = choose|k: int| 0 <= k < full.len() && views_of(full)[k] == v;
                if k < out@.len() {
                    assert(views_of(out@)[k] == v);
                } else {
                    assert(full[k]@.timestamp.secs <= full[out@.len() - 1].timestamp.secs);
                    assert(out@[out@.len() - 1] == full[out@.len() - 1]);
                }
            }
        }
        out
    }

    /// Removes every snapshot and alert recorded before `older_than`.
    pub fn cleanup_old_records(&mut self, older_than: TimeStamp)
        ensures
            final(self).spec_states() == states_kept(old(self).spec_states(), older_than),
            final(self).spec_alerts() == alerts_kept(old(self).spec_alerts(), older_than),
    {
        let ghost orig_states = self.states@;
        let mut i: usize = 0;
        let ghost seen: int = 0;
        #[verifier::loop_isolation(false)]
        while i < self.states.len()
            invariant
                0 <= seen <= orig_states.len(),
                i == states_kept(orig_states.take(seen), older_than).len(),
                self.states@ =~= states_kept(orig_states.take(seen), older_than)
                    + orig_states.skip(seen),
                self.alerts@ == old(self).alerts@,
            decreases orig_states.len() - seen,
        {
            proof {
                assert(orig_states.skip(seen)[0] == orig_states[seen]);
                assert(orig_states.take(seen + 1).drop_last() =~= orig_states.take(seen));
                assert(orig_states.skip(seen).drop_first() =~= orig_states.skip(seen + 1));
            }
            if self.states[i].timestamp.secs < older_than.secs {
                self.states.remove(i);
                proof {
                    assert(self.states@ =~= states_kept(orig_states.take(seen + 1), older_than)
                        + orig_states.skip(seen + 1));
                }
            } else {
                i += 1;
                proof {
                    assert(self.states@ =~= states_kept(orig_states.take(seen + 1), older_than)
                        + orig_states.skip(seen + 1));
                }
            }
            proof {
                seen = seen + 1;
            }
        }
        proof {
            assert(orig_states.take(orig_states.len() as int) =~= orig_states);
            assert(orig_states.skip(orig_states.len() as int)
                =~= Seq::<SystemState>::empty());
            assert(self.states@ =~= states_kept(orig_states, older_than));
        }
        let ghost orig_alerts = self.alerts@;
        let mut j: usize = 0;
        let ghost seen_a: int = 0;
        #[verifier::loop_isolation(false)]
        while j < self.alerts.len()
            invariant
                0 <= seen_a <= orig_alerts.len(),
                j == alerts_kept(orig_alerts.take(seen_a), older_than).len(),
                self.alerts@ =~= alerts_kept(orig_alerts.take(seen_a), older_than)
                    + orig_alerts.skip(seen_a),
                self.states@ == states_kept(old(self).states@, older_than),
            decreases orig_alerts.len() - seen_a,
        {
            proof {
                assert(orig_alerts.skip(seen_a)[0] == orig_alerts[seen_a]);
                assert(orig_alerts.take(seen_a + 1).drop_last() =~= orig_alerts.take(seen_a));
                assert(orig_alerts.skip(seen_a).drop_first() =~= orig_alerts.skip(seen_a + 1));
            }
            if self.alerts[j].timestamp.secs < older_than.secs {
                self.alerts.remove(j);
                proof {
                    assert(self.alerts@ =~= alerts_kept(orig_alerts.take(seen_a + 1), older_than)
                        + orig_alerts.skip(seen_a + 1));
                }
            } else {
                j += 1;
                proof {
                    assert(self.alerts@ =~= alerts_kept(orig_alerts.take(seen_a + 1), older_than)
                        + orig_alerts.skip(seen_a + 1));
                }
            }
            proof {
                seen_a = seen_a + 1;
            }
        }
        proof {
            assert(orig_alerts.take(orig_alerts.len() as int) =~= orig_alerts);
            assert(orig_alerts.skip(orig_alerts.len() as int)
                =~= Seq::<SecurityAlert>::empty());
            assert(self.alerts@ =~= alerts_kept(orig_alerts, older_than));
        }
    }

    /// Aggregates over the snapshots and alerts recorded strictly after
    /// `since`: the truncated mean of each usage figure (zero when there is
    /// no record) and the record and alert counts.
    pub fn get_statistics(&self, since: TimeStamp) -> (r: SystemStatistics)
        ensures
            ({
                let m = states_after(self.spec_states(), since);
                &&& r.total_records == m.len()
                &&& r.alert_count == alerts_after(self.spec_alerts(), since).len()
                &&& (m.len() == 0 ==> r.avg_cpu_usage == 0 && r.avg_memory_usage == 0
                    && r.avg_disk_usage == 0)
                &&& (m.len() > 0 ==> r.avg_cpu_usage == cpu_sum(m) / m.len() as int
                    && r.avg_memory_usage == memory_sum(m) / m.len() as int && r.avg_disk_usage
                    == disk_sum(m) / m.len() as int)
            }),
    {
        let n = self.states.len();
        let mut count: u64 = 0;
        let mut cs: u128 = 0;
        let mut ms: u128 = 0;
        let mut ds: u128 = 0;
        let mut i: usize = 0;
        proof {
            lemma_u64_max_holds_usize();
        }
        #[verifier::loop_isolation(false)]
        while i < n
            invariant
                0 <= i <= n,
                count == states_after(self.states@.take(i as int), since).len(),
                count <= i,
                cs == cpu_sum(states_after(self.states@.take(i as int), since)),
                ms == memory_sum(states_after(self.states@.take(i as int), since)),
                ds == disk_sum(states_after(self.states@.take(i as int), since)),
                cs <= count * (u32::MAX as int),
                ms <= count * (u32::MAX as int),
                ds <= count * (u32::MAX as int),
            decreases n - i,
        {
            proof {
                assert(self.states@.take(i + 1).drop_last() =~= self.states@.take(i as int));
                assert(self.states@.take(i + 1).last() == self.states@[i as int]);
            }
            let ghost a0 = states_after(self.states@.take(i as int), since);
            let ghost a1 = states_after(self.states@.take(i + 1), since);
            let s = &self.states[i];
            if s.timestamp.secs > since.secs {
                proof {
                    assert(a1 == a0 + seq![self.states@[i as int]]);
                    assert(a1.drop_last() =~= a0);
                    assert(a1.last() == self.states@[i as int]);
                    assert(a1.len() == a0.len() + 1);
                    lemma_sum_bound_step(count as int, cs as int, s.cpu_usage as int);
                    lemma_sum_bound_step(count as int, ms as int, s.memory_usage as int);
                    lemma_sum_bound_step(count as int, ds as int, s.disk_usage as int);
                }
                count = count + 1;
                cs = cs + s.cpu_usage as u128;
                ms = ms + s.memory_usage as u128;
                ds = ds + s.disk_usage as u128;
            } else {
                proof {
                    assert(a1 =~= a0 + Seq::<SystemState>::empty());
                    assert(a1 =~= a0);
                }
            }
            i += 1;
        }
        proof {
            assert(self.states@.take(n as int) =~= self.states@);
        }
        let na = self.alerts.len();
        let mut acount: u64 = 0;
        let mut j: usize = 0;
        #[verifier::loop_isolation(false)]
        while j < na
            invariant
                0 <= j <= na,
                acount == alerts_after(self.alerts@.take(j as int), since).len(),
                acount <= j,
            decreases na - j,
        {
            proof {
                assert(self.alerts@.take(j + 1).drop_last() =~= self.alerts@.take(j as int));
            }
            if self.alerts[j].timestamp.secs > since.secs {
                acount = acount + 1;
            }
            j += 1;
        }
        proof {
            assert(self.alerts@.take(na as int) =~= self.alerts@);
        }
        if count == 0 {
            SystemStatistics {
                avg_cpu_usage: 0,
                avg_memory_usage: 0,
                avg_disk_usage: 0,
                total_records: 0,
                alert_count: acount,
            }
        } else {
            proof {
                lemma_avg_fits(count as int, cs as int);
                lemma_avg_fits(count as int, ms as int);
                lemma_avg_fits(count as int, ds as int);
            }
            SystemStatistics {
                avg_cpu_usage: (cs / count as u128) as u32,
                avg_memory_usage: (ms / count as u128) as u32,
                avg_disk_usage: (ds / count as u128) as u32,
                total_records: count,
                alert_count: acount,
            }
        }
    }
}

proof fn lemma_u64_max_holds_usize()
    ensures
        usize::MAX <= u64::MAX,
{
}

proof fn lemma_sum_bound_step(count: int, sum: int, x: int)
    requires
        0 <= count <= u64::MAX,
        0 <= sum <= count * (u32::MAX as int),
        0 <= x <= u32::MAX as int,
    ensures
        sum + x <= (count + 1) * (u32::MAX as int),
        sum + x <= u128::MAX,
{
    assert(sum + x <= (count + 1) * (u32::MAX as int)) by (nonlinear_arith)
        requires
            0 <= sum <= count * (u32::MAX as int),
            0 <= x <= u32::MAX as int,
    ;
    assert((count + 1) * (u32::MAX as int) <= u128::MAX) by (nonlinear_arith)
        requires
            0 <= count <= u64::MAX,
    ;
}

proof fn lemma_avg_fits(count: int, sum: int)
    requires
        1 <= count,
        0 <= sum <= count * (u32::MAX as int),
    ensures
        0 <= sum / count <= u32::MAX as int,
{
    assert(0 <= sum / count <= u32::MAX as int) by (nonlinear_arith)
        requires
            1 <= count,
            0 <= sum <= count * (u32::MAX as int),
    ;
}

proof fn lemma_take_multiset_subset<T>(s: Seq<T>, k: int)
    requires
        0 <= k <= s.len(),
    ensures
        s.take(k).to_multiset().subset_of(s.to_multiset()),
    decreases s.len() - k,
{
    if k < s.len() {
        lemma_take_multiset_subset(s, k + 1);
        assert(s.take(k + 1).drop_last() =~= s.take(k));
        assert(s.take(k + 1) =~= s.take(k).push(s[k]));
        assert(s.take(k).push(s[k]).to_multiset() =~= s.take(k).to_multiset().insert(s[k]));
        assert(s.take(k).to_multiset().subset_of(s.take(k + 1).to_multiset()));
    } else {
        assert(s.take(k) =~= s);
    }
}

/// Sorts alerts by timestamp, newest first, keeping the collection's
/// contents.
fn sort_alerts_desc(input: Vec<SecurityAlert>) -> (r: Vec<SecurityAlert>)
    ensures
        alerts_sorted_desc(r@),
        r@.to_multiset() == input@.to_multiset(),
{
    let mut pool = input;
    let ghost orig = pool@;
    let mut out: Vec<SecurityAlert> = Vec::new();
    #[verifier::loop_isolation(false)]
    while pool.len() > 0
        invariant
            out@.to_multiset().add(pool@.to_multiset()) =~= orig.to_multiset(),
            alerts_sorted_desc(out@),
            forall|a: int, b: int|
                0 <= a < out@.len() && 0 <= b < pool@.len() ==> (
                #[trigger] out@[a]).timestamp.secs >= (#[trigger] pool@[b]).timestamp.secs,
        decreases pool.len(),
    {
        let mut mi: usize = 0;
        let mut k: usize = 1;
        while k < pool.len()
            invariant
                0 <= mi < k <= pool@.len(),
                forall|b: int|
                    0 <= b < k ==> pool@[mi as int].timestamp.secs >= (
                    #[trigger] pool@[b]).timestamp.secs,
            decreases pool.len() - k,
        {
            if pool[k].timestamp.secs > pool[mi].timestamp.secs {
                mi = k;
            }
            k += 1;
        }
        let ghost pool_before = pool@;
        let x = pool.remove(mi);
        proof {
            assert(pool@.to_multiset() =~= pool_before.to_multiset().remove(x));
            assert(out@.push(x).to_multiset() =~= out@.to_multiset().insert(x));
            assert(out@.push(x).to_multiset().add(pool@.to_multiset()) =~= orig.to_multiset());
            assert(forall|b: int|
                0 <= b < pool@.len() ==> x.timestamp.secs >= (#[trigger] pool@[b]).timestamp.secs);
        }
        out.push(x);
    }
    proof {
        assert(pool@.to_multiset() =~= Multiset::<SecurityAlert>::empty());
        assert(out@.to_multiset() =~= orig.to_multiset());
    }
    out
}

/// Sorts snapshots by timestamp, newest first, keeping the collection's
/// contents by view.
fn sort_states_desc(input: Vec<SystemState>) -> (r: Vec<SystemState>)
    ensures
        states_sorted_desc(r@),
        views_of(r@).to_multiset() == views_of(input@).to_multiset(),
        r@.len() == input@.len(),
{
    let mut pool = input;
    let ghost orig = views_of(pool@);
    let ghost orig_len = pool@.len();
    let mut out: Vec<SystemState> = Vec::new();
    #[verifier::loop_isolation(false)]
    while pool.len() > 0
        invariant
            out@.len() + pool@.len() == orig_len,
            views_of(out@).to_multiset().add(views_of(pool@).to_multiset()) =~= orig.to_multiset(),
            states_sorted_desc(out@),
            forall|a: int, b: int|
                0 <= a < out@.len() && 0 <= b < pool@.len() ==> (
                #[trigger] out@[a]).timestamp.secs >= (#[trigger] pool@[b]).timestamp.secs,
        decreases pool.len(),
    {
        let mut mi: usize = 0;
        let mut k: usize = 1;
        while k < pool.len()
            invariant
                0 <= mi < k <= pool@.len(),
                forall|b: int|
                    0 <= b < k ==> pool@[mi as int].timestamp.secs >= (
                    #[trigger] pool@[b]).timestamp.secs,
            decreases pool.len() - k,
        {
            if pool[k].timestamp.secs > pool[mi].timestamp.secs {
                mi = k;
            }
            k += 1;
        }
        let ghost pool_before = pool@;
        let x = pool.remove(mi);
        proof {
            assert(views_of(pool@) =~= views_of(pool_before).remove(mi as int));
            assert(views_of(pool@).to_multiset() =~= views_of(pool_before).to_multiset().remove(
                x@,
            ));
            assert(views_of(out@.push(x)) =~= views_of(out@).push(x@));
            assert(views_of(out@).push(x@).to_multiset() =~= views_of(out@).to_multiset().insert(
                x@,
            ));
            assert(views_of(out@.push(x)).to_multiset().add(views_of(pool@).to_multiset())
                =~= orig.to_multiset());
            assert(forall|b: int|
                0 <= b < pool@.len() ==> x.timestamp.secs >= (#[trigger] pool@[b]).timestamp.secs);
        }
        out.push(x);
    }
    proof {
        assert(views_of(pool@) =~= Seq::<SystemStateView>::empty());
        assert(views_of(pool@).to_multiset() =~= Multiset::<SystemStateView>::empty());
        assert(views_of(out@).to_multiset() =~= orig.to_multiset());
    }
    out
}

} // verus!
