//! The policy engine: evaluates a snapshot against the configured security
//! policy and reports the violations found. Resource thresholds, suspicious
//! process names, code-signing verdicts (cached by executable path),
//! trust-on-first-use binary integrity, and network allowlists are all
//! checked; the results are concatenated, never short-circuited.

use vstd::pervasive::VecAdditionalExecFns;
use vstd::prelude::*;

use crate::network::ConnectionInfo;
use crate::text::format_tenths;
use crate::text::join_all;
use crate::text::parse_port;
use crate::text::spec_contains;
use crate::text::spec_dec;
use crate::text::spec_ends_with;
use crate::text::spec_join;
use crate::text::spec_parse_port;
use crate::text::spec_starts_with;
use crate::text::spec_tenths;
use crate::text::str_contains;
use crate::text::str_ends_with;
use crate::text::str_starts_with;
use crate::text::u64_string;
use crate::ProcessInfo;
use crate::SystemState;
use crate::SystemStateView;

verus! {

/// The configured security policy. Usage limits are tenths of a percent;
/// the lists are allowlists except for `suspicious_processes`, whose
/// entries are substrings that mark a process name as suspicious.
#[derive(Debug)]
pub struct SecurityPolicies {
    pub max_cpu_usage: u32,
    pub max_memory_usage: u32,
    pub suspicious_processes: Vec<String>,
    pub allowed_ports: Vec<u16>,
    pub allowed_domains: Vec<String>,
    pub allowed_signing_authorities: Vec<String>,
    pub allowed_paths: Vec<String>,
}

impl Default for SecurityPolicies {
    /// The default policy: ninety-percent resource limits, common
    /// packet-sniffing and remote-access tool names, common service and
    /// database ports, a small domain allowlist, the platform signing
    /// authorities, and the standard binary directories.
    fn default() -> (r: SecurityPolicies)
        ensures
            r.max_cpu_usage == 900,
            r.max_memory_usage == 900,
            r.suspicious_processes.deep_view() == seq![
                "nc"@,
                "netcat"@,
                "nmap"@,
                "wireshark"@,
                "tcpdump"@,
            ],
            r.allowed_ports@ == seq![80u16, 443u16, 53u16, 22u16, 5432u16, 3306u16, 8080u16],
            r.allowed_domains.deep_view() == seq![
                "github.com"@,
                "api.github.com"@,
                "registry.npmjs.org"@,
                "pypi.org"@,
                "localhost"@,
                "127.0.0.1"@,
            ],
            r.allowed_signing_authorities.deep_view() == seq![
                "Apple"@,
                "Apple Development"@,
                "Developer ID Application"@,
            ],
            r.allowed_paths.deep_view() == seq!["/usr/bin"@, "/bin"@, "/sbin"@],
    {
        let r = SecurityPolicies {
            max_cpu_usage: 900,
            max_memory_usage: 900,
            suspicious_processes: vec![
                String::from_str("nc"),
                String::from_str("netcat"),
                String::from_str("nmap"),
                String::from_str("wireshark"),
                String::from_str("tcpdump"),
            ],
            allowed_ports: vec![80u16, 443u16, 53u16, 22u16, 5432u16, 3306u16, 8080u16],
            allowed_domains: vec![
                String::from_str("github.com"),
                String::from_str("api.github.com"),
                String::from_str("registry.npmjs.org"),
                String::from_str("pypi.org"),
                String::from_str("localhost"),
                String::from_str("127.0.0.1"),
            ],
            allowed_signing_authorities: vec![
                String::from_str("Apple"),
                String::from_str("Apple Development"),
                String::from_str("Developer ID Application"),
            ],
            allowed_paths: vec![
                String::from_str("/usr/bin"),
                String::from_str("/bin"),
                String::from_str("/sbin"),
            ],
        };
        proof {
            assert(r.suspicious_processes.deep_view() =~= seq![
                "nc"@,
                "netcat"@,
                "nmap"@,
                "wireshark"@,
                "tcpdump"@,
            ]);
            assert(r.allowed_ports@ =~= seq![
                80u16,
                443u16,
                53u16,
                22u16,
                5432u16,
                3306u16,
                8080u16,
            ]);
            assert(r.allowed_domains.deep_view() =~= seq![
                "github.com"@,
                "api.github.com"@,
                "registry.npmjs.org"@,
                "pypi.org"@,
                "localhost"@,
                "127.0.0.1"@,
            ]);
            assert(r.allowed_signing_authorities.deep_view() =~= seq![
                "Apple"@,
                "Apple Development"@,
                "Developer ID Application"@,
            ]);
            assert(r.allowed_paths.deep_view() =~= seq!["/usr/bin"@, "/bin"@, "/sbin"@]);
        }
        r
    }
}

/// What the platform hands the policy engine about one process: the
/// executable path when the process and its signature could still be
/// inspected, the signing authority the platform verifier reported for that
/// executable, and the current content hash of the executable when it could
/// be read. A process that vanished before it could be inspected has no
/// fact at all, or a fact without a path or hash; such a process passes the
/// corresponding checks.
#[derive(Debug)]
pub struct ProcessFact {
    pub pid: u32,
    pub exe_path: Option<String>,
    pub signing_authority: Option<String>,
    pub hash: Option<String>,
}

impl Clone for ProcessFact {
    fn clone(&self) -> (r: Self)
        ensures
            r == *self,
    {
        ProcessFact {
            pid: self.pid,
            exe_path: match &self.exe_path {
                Some(p) => Some(p.clone()),
                None => None,
            },
            signing_authority: match &self.signing_authority {
                Some(a) => Some(a.clone()),
                None => None,
            },
            hash: match &self.hash {
                Some(h) => Some(h.clone()),
                None => None,
            },
        }
    }
}

/// The first fact recorded for `pid`, if any.
pub open spec fn fact_for(facts: Seq<ProcessFact>, pid: u32) -> Option<ProcessFact>
    decreases facts.len(),
{
    if facts.len() == 0 {
        None
    } else if facts[0].pid == pid {
        Some(facts[0])
    } else {
        fact_for(facts.drop_first(), pid)
    }
}

/// The code-signing cache as a map from executable path to verdict.
pub open spec fn cache_map(entries: Seq<(String, bool)>) -> Map<Seq<char>, bool>
    decreases entries.len(),
{
    if entries.len() == 0 {
        Map::empty()
    } else {
        cache_map(entries.drop_last()).insert(entries.last().0@, entries.last().1)
    }
}

/// The recorded baselines as a map from pid to content hash.
pub open spec fn hash_map_of(entries: Seq<(u32, String)>) -> Map<u32, Seq<char>>
    decreases entries.len(),
{
    if entries.len() == 0 {
        Map::empty()
    } else {
        hash_map_of(entries.drop_last()).insert(entries.last().0, entries.last().1@)
    }
}

pub open spec fn distinct_paths(entries: Seq<(String, bool)>) -> bool {
    forall|i: int, j: int|
        0 <= i < j < entries.len() ==> (#[trigger] entries[i]).0@ != (#[trigger] entries[j]).0@
}

pub open spec fn distinct_pids(entries: Seq<(u32, String)>) -> bool {
    forall|i: int, j: int|
        0 <= i < j < entries.len() ==> (#[trigger] entries[i]).0 != (#[trigger] entries[j]).0
}

proof fn lemma_cache_map_has(entries: Seq<(String, bool)>, path: Seq<char>)
    ensures
        cache_map(entries).contains_key(path) <==> exists|k: int|
            0 <= k < entries.len() && (#[trigger] entries[k]).0@ == path,
    decreases entries.len(),
{
    if entries.len() > 0 {
        lemma_cache_map_has(entries.drop_last(), path);
        if entries.last().0@ == path {
            assert(entries[entries.len() - 1].0@ == path);
        } else if exists|k: int| 0 <= k < entries.len() && (#[trigger] entries[k]).0@ == path {
            let k = choose|k: int| 0 <= k < entries.len() && (#[trigger] entries[k]).0@ == path;
            assert(entries.drop_last()[k].0@ == path);
        }
    }
}

proof fn lemma_cache_map_at(entries: Seq<(String, bool)>, k: int)
    requires
        distinct_paths(entries),
        0 <= k < entries.len(),
    ensures
        cache_map(entries).contains_key(entries[k].0@),
        cache_map(entries)[entries[k].0@] == entries[k].1,
    decreases entries.len(),
{
    if k < entries.len() - 1 {
        assert(entries.drop_last()[k] == entries[k]);
        lemma_cache_map_at(entries.drop_last(), k);
        assert(entries.last().0@ != entries[k].0@);
    }
}

proof fn lemma_hash_map_has(entries: Seq<(u32, String)>, pid: u32)
    ensures
        hash_map_of(entries).contains_key(pid) <==> exists|k: int|
            0 <= k < entries.len() && (#[trigger] entries[k]).0 == pid,
    decreases entries.len(),
{
    if entries.len() > 0 {
        lemma_hash_map_has(entries.drop_last(), pid);
        if entries.last().0 == pid {
            assert(entries[entries.len() - 1].0 == pid);
        } else if exists|k: int| 0 <= k < entries.len() && (#[trigger] entries[k]).0 == pid {
            let k = choose|k: int| 0 <= k < entries.len() && (#[trigger] entries[k]).0 == pid;
            assert(entries.drop_last()[k].0 == pid);
        }
    }
}

proof fn lemma_hash_map_at(entries: Seq<(u32, String)>, k: int)
    requires
        distinct_pids(entries),
        0 <= k < entries.len(),
    ensures
        hash_map_of(entries).contains_key(entries[k].0),
        hash_map_of(entries)[entries[k].0] == entries[k].1@,
    decreases entries.len(),
{
    if k < entries.len() - 1 {
        assert(entries.drop_last()[k] == entries[k]);
        lemma_hash_map_at(entries.drop_last(), k);
        assert(entries.last().0 != entries[k].0);
    }
}

proof fn lemma_hash_map_update(entries: Seq<(u32, String)>, k: int, v: String)
    requires
        distinct_pids(entries),
        0 <= k < entries.len(),
    ensures
        hash_map_of(entries.update(k, (entries[k].0, v))) == hash_map_of(entries).insert(
            entries[k].0,
            v@,
        ),
        distinct_pids(entries.update(k, (entries[k].0, v))),
    decreases entries.len(),
{
    let updated = entries.update(k, (entries[k].0, v));
    assert forall|i: int, j: int| 0 <= i < j < updated.len() implies (#[trigger] updated[i]).0 != (
    #[trigger] updated[j]).0 by {
        assert(updated[i].0 == entries[i].0);
        assert(updated[j].0 == entries[j].0);
    }
    if k == entries.len() - 1 {
        assert(updated.drop_last() =~= entries.drop_last());
        assert(hash_map_of(updated) == hash_map_of(entries.drop_last()).insert(entries[k].0, v@));
        assert(hash_map_of(entries).insert(entries[k].0, v@) =~= hash_map_of(
            entries.drop_last(),
        ).insert(entries[k].0, v@));
    } else {
        assert(updated.drop_last() =~= entries.drop_last().update(k, (entries[k].0, v)));
        assert(entries.drop_last()[k] == entries[k]);
        lemma_hash_map_update(entries.drop_last(), k, v);
        assert(updated.last() == entries.last());
        assert(entries.last().0 != entries[k].0);
        assert(hash_map_of(updated) == hash_map_of(entries.drop_last()).insert(
            entries[k].0,
            v@,
        ).insert(entries.last().0, entries.last().1@));
        assert(hash_map_of(entries.drop_last()).insert(entries[k].0, v@).insert(
            entries.last().0,
            entries.last().1@,
        ) =~= hash_map_of(entries.drop_last()).insert(entries.last().0, entries.last().1@).insert(
            entries[k].0,
            v@,
        ));
    }
}

/// The text contains one of the patterns as a substring.
pub open spec fn matches_any(text: Seq<char>, patterns: Seq<String>) -> bool {
    exists|i: int| 0 <= i < patterns.len() && spec_contains(text, (#[trigger] patterns[i])@)
}

/// A fresh code-signing judgement. The reported signing authority must
/// match one of the allowed authorities; an executable whose authority the
/// verifier could not determine is unsigned.
pub open spec fn fresh_verdict(f: ProcessFact, pol: SecurityPolicies) -> bool {
    match f.signing_authority {
        Some(a) => matches_any(a@, pol.allowed_signing_authorities@),
        None => false,
    }
}

/// The code-signing verdict for a process: a vanished process passes; a
/// path seen before keeps its cached verdict; a new path is judged by its
/// signing authority.
pub open spec fn sign_verdict(
    cache: Map<Seq<char>, bool>,
    fact: Option<ProcessFact>,
    pol: SecurityPolicies,
) -> bool {
    match fact {
        None => true,
        Some(f) => match f.exe_path {
            None => true,
            Some(path) => if cache.contains_key(path@) {
                cache[path@]
            } else {
                fresh_verdict(f, pol)
            },
        },
    }
}

/// The code-signing cache after checking a process: a verdict for a path
/// not seen before is recorded.
pub open spec fn sign_cache_after(
    cache: Map<Seq<char>, bool>,
    fact: Option<ProcessFact>,
    pol: SecurityPolicies,
) -> Map<Seq<char>, bool> {
    match fact {
        None => cache,
        Some(f) => match f.exe_path {
            None => cache,
            Some(path) => if cache.contains_key(path@) {
                cache
            } else {
                cache.insert(path@, fresh_verdict(f, pol))
            },
        },
    }
}

/// The integrity verdict for a process: no readable hash passes; a pid seen
/// for the first time passes and its hash becomes the baseline; a hash
/// matching the baseline passes; anything else is a violation.
pub open spec fn integrity_ok(
    baselines: Map<u32, Seq<char>>,
    pid: u32,
    fact: Option<ProcessFact>,
) -> bool {
    match fact {
        None => true,
        Some(f) => match f.hash {
            None => true,
            Some(h) => !baselines.contains_key(pid) || baselines[pid] == h@,
        },
    }
}

/// The recorded baselines after checking a process: a first observation or
/// a mismatch records the current hash as the new baseline.
pub open spec fn baselines_after(
    baselines: Map<u32, Seq<char>>,
    pid: u32,
    fact: Option<ProcessFact>,
) -> Map<u32, Seq<char>> {
    match fact {
        None => baselines,
        Some(f) => match f.hash {
            None => baselines,
            Some(h) => baselines.insert(pid, h@),
        },
    }
}

/// The violation raised when cpu usage exceeds its limit.
pub open spec fn cpu_msg(cpu: u32, max: u32) -> Seq<char> {
    "CPU usage too high: "@ + spec_tenths(cpu as nat) + "% (max: "@ + spec_tenths(max as nat)
        + "%)"@
}

/// The violation raised when memory usage exceeds its limit.
pub open spec fn memory_msg(memory: u32, max: u32) -> Seq<char> {
    "Memory usage too high: "@ + spec_tenths(memory as nat) + "% (max: "@ + spec_tenths(max as nat)
        + "%)"@
}

/// The violation raised for a suspicious process name.
pub open spec fn suspicious_msg(name: Seq<char>, pid: u32) -> Seq<char> {
    "Suspicious process detected: "@ + name + " (PID: "@ + spec_dec(pid as nat) + ")"@
}

/// The violation raised for a failed code-signing check.
pub open spec fn codesign_msg(name: Seq<char>, pid: u32) -> Seq<char> {
    "Code signing verification failed for "@ + name + " (PID: "@ + spec_dec(pid as nat)
        + "): Invalid code signature"@
}

/// The violation raised for a failed integrity check.
pub open spec fn integrity_msg(name: Seq<char>, pid: u32) -> Seq<char> {
    "Process integrity check failed for "@ + name + " (PID: "@ + spec_dec(pid as nat)
        + "): Process binary has been modified"@
}

/// The violation raised for a connection to a port outside the allowlist.
pub open spec fn port_msg(port: u16, remote: Seq<char>) -> Seq<char> {
    "Unauthorized network connection to port "@ + spec_dec(port as nat) + " ("@ + remote + ")"@
}

/// The violation raised for a connection to a domain outside the allowlist.
pub open spec fn domain_msg(domain: Seq<char>) -> Seq<char> {
    "Connection to unauthorized domain: "@ + domain
}

/// The resource-threshold violations of a snapshot, cpu first.
pub open spec fn resource_msgs(s: SystemStateView, pol: SecurityPolicies) -> Seq<Seq<char>> {
    (if s.cpu_usage > pol.max_cpu_usage {
        seq![cpu_msg(s.cpu_usage, pol.max_cpu_usage)]
    } else {
        Seq::empty()
    }) + (if s.memory_usage > pol.max_memory_usage {
        seq![memory_msg(s.memory_usage, pol.max_memory_usage)]
    } else {
        Seq::empty()
    })
}

/// The violations one process contributes, given the caches as they stand
/// when it is checked: name, then code signing, then integrity.
pub open spec fn proc_msgs(
    p: ProcessInfo,
    fact: Option<ProcessFact>,
    pol: SecurityPolicies,
    cache: Map<Seq<char>, bool>,
    baselines: Map<u32, Seq<char>>,
) -> Seq<Seq<char>> {
    (if matches_any(p.name@, pol.suspicious_processes@) {
        seq![suspicious_msg(p.name@, p.pid)]
    } else {
        Seq::empty()
    }) + (if !sign_verdict(cache, fact, pol) {
        seq![codesign_msg(p.name@, p.pid)]
    } else {
        Seq::empty()
    }) + (if !integrity_ok(baselines, p.pid, fact) {
        seq![integrity_msg(p.name@, p.pid)]
    } else {
        Seq::empty()
    })
}

/// The per-process checks folded over a snapshot's process list in order:
/// the violations raised, and the caches after all of them.
pub open spec fn procs_fold(
    ps: Seq<ProcessInfo>,
    facts: Seq<ProcessFact>,
    pol: SecurityPolicies,
    cache: Map<Seq<char>, bool>,
    baselines: Map<u32, Seq<char>>,
) -> (Seq<Seq<char>>, Map<Seq<char>, bool>, Map<u32, Seq<char>>)
    decreases ps.len(),
{
    if ps.len() == 0 {
        (Seq::empty(), cache, baselines)
    } else {
        let (msgs, c, b) = procs_fold(ps.drop_last(), facts, pol, cache, baselines);
        let p = ps.last();
        let fact = fact_for(facts, p.pid);
        (
            msgs + proc_msgs(p, fact, pol, c, b),
            sign_cache_after(c, fact, pol),
            baselines_after(b, p.pid, fact),
        )
    }
}

/// A remote port is allowed when it appears in the allowlist.
pub open spec fn port_allowed(port: u16, pol: SecurityPolicies) -> bool {
    exists|i: int| 0 <= i < pol.allowed_ports@.len() && (#[trigger] pol.allowed_ports@[i]) == port
}

/// A domain is allowed when it ends with one of the allowed suffixes.
pub open spec fn domain_allowed(domain: Seq<char>, pol: SecurityPolicies) -> bool {
    exists|i: int|
        0 <= i < pol.allowed_domains@.len() && spec_ends_with(
            domain,
            (#[trigger] pol.allowed_domains@[i])@,
        )
}

/// The violations one connection contributes: port, then domain.
pub open spec fn conn_msgs(c: ConnectionInfo, pol: SecurityPolicies) -> Seq<Seq<char>> {
    (if !port_allowed(spec_parse_port(c.remote_addr@), pol) {
        seq![port_msg(spec_parse_port(c.remote_addr@), c.remote_addr@)]
    } else {
        Seq::empty()
    }) + (match c.dns_name {
        Some(d) => if !domain_allowed(d@, pol) {
            seq![domain_msg(d@)]
        } else {
            Seq::empty()
        },
        None => Seq::empty(),
    })
}

/// The per-connection checks folded over a snapshot's connections in order.
pub open spec fn conns_fold(cs: Seq<ConnectionInfo>, pol: SecurityPolicies) -> Seq<Seq<char>>
    decreases cs.len(),
{
    if cs.len() == 0 {
        Seq::empty()
    } else {
        conns_fold(cs.drop_last(), pol) + conn_msgs(cs.last(), pol)
    }
}

/// Every violation a snapshot raises against a policy, in evaluation order,
/// together with the caches as they stand afterwards.
pub open spec fn all_violations(
    s: SystemStateView,
    facts: Seq<ProcessFact>,
    pol: SecurityPolicies,
    cache: Map<Seq<char>, bool>,
    baselines: Map<u32, Seq<char>>,
) -> Seq<Seq<char>> {
    resource_msgs(s, pol) + procs_fold(s.active_processes, facts, pol, cache, baselines).0
        + conns_fold(s.network_stats.connections, pol)
}

/// The policy engine: the configured policy, the code-signing cache keyed
/// by executable path, and the trust-on-first-use integrity baselines keyed
/// by pid.
#[derive(Debug)]
pub struct SecurityManager {
    policies: SecurityPolicies,
    codesign_cache: Vec<(String, bool)>,
    process_hashes: Vec<(u32, String)>,
}

impl SecurityManager {
    /// Cache and baseline keys stay free of duplicates, so lookups are
    /// unambiguous. Constructors establish this and every method preserves
    /// it.
    pub closed spec fn wf(self) -> bool {
        distinct_paths(self.codesign_cache@) && distinct_pids(self.process_hashes@)
    }

    /// The configured policy.
    pub closed spec fn spec_policies(self) -> SecurityPolicies {
        self.policies
    }

    /// The code-signing cache, as a map from executable path to verdict.
    pub closed spec fn sign_cache(self) -> Map<Seq<char>, bool> {
        cache_map(self.codesign_cache@)
    }

    /// The integrity baselines, as a map from pid to content hash.
    pub closed spec fn baselines(self) -> Map<u32, Seq<char>> {
        hash_map_of(self.process_hashes@)
    }

    /// An engine with the default policy and empty caches.
    pub fn new() -> (r: SecurityManager)
        ensures
            r.wf(),
            is_default_policy(r.spec_policies()),
            r.sign_cache() == Map::<Seq<char>, bool>::empty(),
            r.baselines() == Map::<u32, Seq<char>>::empty(),
    {
        SecurityManager {
            policies: SecurityPolicies::default(),
            codesign_cache: Vec::new(),
            process_hashes: Vec::new(),
        }
    }

    /// An engine with the given policy and empty caches.
    pub fn with_policies(policies: SecurityPolicies) -> (r: SecurityManager)
        ensures
            r.wf(),
            r.spec_policies() == policies,
            r.sign_cache() == Map::<Seq<char>, bool>::empty(),
            r.baselines() == Map::<u32, Seq<char>>::empty(),
    {
        SecurityManager { policies, codesign_cache: Vec::new(), process_hashes: Vec::new() }
    }

    /// The configured policy.
    pub fn policies(&self) -> (r: &SecurityPolicies)
        ensures
            *r == self.spec_policies(),
    {
        &self.policies
    }

    /// Looks up the first fact recorded for `pid`.
    #[verifier::loop_isolation(false)]
    fn find_fact(facts: &Vec<ProcessFact>, pid: u32) -> (r: Option<ProcessFact>)
        ensures
            r == fact_for(facts@, pid),
    {
        let n = facts.len();
        proof {
            assert(facts@.skip(0) =~= facts@);
        }
        let mut i: usize = 0;
        while i < n
            invariant
                n == facts@.len(),
                0 <= i <= n,
                fact_for(facts@, pid) == fact_for(facts@.skip(i as int), pid),
            decreases n - i,
        {
            proof {
                assert(facts@.skip(i as int)[0] == facts@[i as int]);
                assert(facts@.skip(i as int).drop_first() =~= facts@.skip(i + 1));
            }
            if facts[i].pid == pid {
                return Some(facts[i].clone());
            }
            i += 1;
        }
        proof {
            assert(facts@.skip(n as int) =~= Seq::<ProcessFact>::empty());
        }
        None
    }

    /// Whether the text contains one of the patterns as a substring.
    #[verifier::loop_isolation(false)]
    fn contains_any(patterns: &Vec<String>, text: &String) -> (r: bool)
        ensures
            r == matches_any(text@, patterns@),
    {
        let n = patterns.len();
        let mut i: usize = 0;
        while i < n
            invariant
                n == patterns@.len(),
                0 <= i <= n,
                forall|k: int| 0 <= k < i ==> !spec_contains(text@, (#[trigger] patterns@[k])@),
            decreases n - i,
        {
            if str_contains(text.as_str(), patterns[i].as_str()) {
                return true;
            }
            i += 1;
        }
        false
    }

    /// Applies the code-signing check for one process, updating the cache.
    #[verifier::loop_isolation(false)]
    fn sign_check(&mut self, fact: &Option<ProcessFact>) -> (r: bool)
        requires
            old(self).wf(),
        ensures
            final(self).wf(),
            r == sign_verdict(old(self).sign_cache(), *fact, old(self).spec_policies()),
            final(self).sign_cache() == sign_cache_after(
                old(self).sign_cache(),
                *fact,
                old(self).spec_policies(),
            ),
            final(self).baselines() == old(self).baselines(),
            final(self).spec_policies() == old(self).spec_policies(),
    {
        let f = match fact {
            None => {
                return true;
            },
            Some(f) => f,
        };
        let path = match &f.exe_path {
            None => {
                return true;
            },
            Some(p) => p,
        };
        let n = self.codesign_cache.len();
        let mut i: usize = 0;
        while i < n
            invariant
                n == self.codesign_cache@.len(),
                0 <= i <= n,
                distinct_paths(self.codesign_cache@),
                forall|k: int| 0 <= k < i ==> (#[trigger] self.codesign_cache@[k]).0@ != path@,
            decreases n - i,
        {
            if self.codesign_cache[i].0 == *path {
                proof {
                    lemma_cache_map_at(self.codesign_cache@, i as int);
                }
                return self.codesign_cache[i].1;
            }
            i += 1;
        }
        proof {
            lemma_cache_map_has(self.codesign_cache@, path@);
        }
        let verdict = match &f.signing_authority {
            Some(a) => Self::contains_any(&self.policies.allowed_signing_authorities, a),
            None => false,
        };
        self.codesign_cache.push((path.clone(), verdict));
        proof {
            assert(self.codesign_cache@.drop_last() =~= old(self).codesign_cache@);
            assert forall|a: int, b: int|
                0 <= a < b < self.codesign_cache@.len() implies (
            #[trigger] self.codesign_cache@[a]).0@ != (#[trigger] self.codesign_cache@[b]).0@ by {
                if b < self.codesign_cache@.len() - 1 {
                    assert(old(self).codesign_cache@[a] == self.codesign_cache@[a]);
                    assert(old(self).codesign_cache@[b] == self.codesign_cache@[b]);
                }
            }
        }
        verdict
    }

    /// Applies the integrity check for one process, updating the baselines.
    #[verifier::loop_isolation(false)]
    fn integrity_check(&mut self, pid: u32, fact: &Option<ProcessFact>) -> (r: bool)
        requires
            old(self).wf(),
        ensures
            final(self).wf(),
            r == integrity_ok(old(self).baselines(), pid, *fact),
            final(self).baselines() == baselines_after(old(self).baselines(), pid, *fact),
            final(self).sign_cache() == old(self).sign_cache(),
            final(self).spec_policies() == old(self).spec_policies(),
    {
        let f = match fact {
            None => {
                return true;
            },
            Some(f) => f,
        };
        let h = match &f.hash {
            None => {
                return true;
            },
            Some(h) => h,
        };
        let n = self.process_hashes.len();
        let mut i: usize = 0;
        while i < n
            invariant
                *self == *old(self),
                n == self.process_hashes@.len(),
                0 <= i <= n,
                distinct_pids(self.process_hashes@),
                forall|k: int| 0 <= k < i ==> (#[trigger] self.process_hashes@[k]).0 != pid,
            decreases n - i,
        {
            if self.process_hashes[i].0 == pid {
                proof {
                    lemma_hash_map_at(self.process_hashes@, i as int);
                }
                if self.process_hashes[i].1 == *h {
                    return true;
                }
                proof {
                    lemma_hash_map_update(self.process_hashes@, i as int, *h);
                }
                self.process_hashes.set(i, (pid, h.clone()));
                return false;
            }
            i += 1;
        }
        proof {
            lemma_hash_map_has(self.process_hashes@, pid);
        }
        self.process_hashes.push((pid, h.clone()));
        proof {
            assert(self.process_hashes@.drop_last() =~= old(self).process_hashes@);
            assert forall|a: int, b: int|
                0 <= a < b < self.process_hashes@.len() implies (
            #[trigger] self.process_hashes@[a]).0 != (#[trigger] self.process_hashes@[b]).0 by {
                if b < self.process_hashes@.len() - 1 {
                    assert(old(self).process_hashes@[a] == self.process_hashes@[a]);
                    assert(old(self).process_hashes@[b] == self.process_hashes@[b]);
                }
            }
        }
        true
    }

    /// Whether the port appears in the allowlist.
    #[verifier::loop_isolation(false)]
    fn port_check(&self, port: u16) -> (r: bool)
        ensures
            r == port_allowed(port, self.spec_policies()),
    {
        let n = self.policies.allowed_ports.len();
        let mut i: usize = 0;
        while i < n
            invariant
                n == self.policies.allowed_ports@.len(),
                0 <= i <= n,
                forall|k: int| 0 <= k < i ==> (#[trigger] self.policies.allowed_ports@[k]) != port,
            decreases n - i,
        {
            if self.policies.allowed_ports[i] == port {
                return true;
            }
            i += 1;
        }
        false
    }

    /// Whether the domain ends with an allowed suffix.
    #[verifier::loop_isolation(false)]
    fn domain_check(&self, domain: &String) -> (r: bool)
        ensures
            r == domain_allowed(domain@, self.spec_policies()),
    {
        let n = self.policies.allowed_domains.len();
        let mut i: usize = 0;
        while i < n
            invariant
                n == self.policies.allowed_domains@.len(),
                0 <= i <= n,
                forall|k: int|
                    0 <= k < i ==> !spec_ends_with(
                        domain@,
                        (#[trigger] self.policies.allowed_domains@[k])@,
                    ),
            decreases n - i,
        {
            if str_ends_with(domain.as_str(), self.policies.allowed_domains[i].as_str()) {
                return true;
            }
            i += 1;
        }
        false
    }

    /// Evaluates the snapshot against the policy. All checks run; nothing
    /// short-circuits. The result is `None` when no check found a
    /// violation, and otherwise the violations joined by `"; "` in
    /// evaluation order: resource thresholds, then the three per-process
    /// checks for each process in order, then the two per-connection checks
    /// for each connection in order. The code-signing cache and the
    /// integrity baselines advance as each process is checked.
    #[verifier::loop_isolation(false)]
    #[verifier::rlimit(100)]
    pub fn check_policies(&mut self, state: &SystemState, facts: &Vec<ProcessFact>) -> (r: Option<
        String,
    >)
        requires
            old(self).wf(),
        ensures
            final(self).wf(),
            ({
                let pol = old(self).spec_policies();
                let msgs = all_violations(
                    state@,
                    facts@,
                    pol,
                    old(self).sign_cache(),
                    old(self).baselines(),
                );
                let after = procs_fold(
                    state@.active_processes,
                    facts@,
                    pol,
                    old(self).sign_cache(),
                    old(self).baselines(),
                );
                &&& final(self).spec_policies() == pol
                &&& final(self).sign_cache() == after.1
                &&& final(self).baselines() == after.2
                &&& (msgs.len() == 0 ==> r is None)
                &&& (msgs.len() > 0 ==> (r matches Some(s) && s@ == spec_join(msgs, "; "@)))
            }),
    {
        let ghost pol = self.spec_policies();
        let ghost cache0 = self.sign_cache();
        let ghost base0 = self.baselines();
        let mut violations: Vec<String> = Vec::new();

        if state.cpu_usage > self.policies.max_cpu_usage {
            let mut m = String::from_str("CPU usage too high: ");
            let t = format_tenths(state.cpu_usage);
            m.append(t.as_str());
            m.append("% (max: ");
            let t2 = format_tenths(self.policies.max_cpu_usage);
            m.append(t2.as_str());
            m.append("%)");
            proof {
                assert(m@ =~= cpu_msg(state.cpu_usage, pol.max_cpu_usage));
            }
            violations.push(m);
        }
        if state.memory_usage > self.policies.max_memory_usage {
            let mut m = String::from_str("Memory usage too high: ");
            let t = format_tenths(state.memory_usage);
            m.append(t.as_str());
            m.append("% (max: ");
            let t2 = format_tenths(self.policies.max_memory_usage);
            m.append(t2.as_str());
            m.append("%)");
            proof {
                assert(m@ =~= memory_msg(state.memory_usage, pol.max_memory_usage));
            }
            violations.push(m);
        }
        proof {
            assert(violations.deep_view() =~= resource_msgs(state@, pol));
        }

        let np = state.active_processes.len();
        let mut i: usize = 0;
        while i < np
            invariant
                np == state.active_processes@.len(),
                0 <= i <= np,
                self.wf(),
                self.spec_policies() == pol,
                pol == old(self).spec_policies(),
                cache0 == old(self).sign_cache(),
                base0 == old(self).baselines(),
                state.active_processes@ == state@.active_processes,
                ({
                    let ff = procs_fold(
                        state@.active_processes.take(i as int),
                        facts@,
                        pol,
                        cache0,
                        base0,
                    );
                    &&& violations.deep_view() == resource_msgs(state@, pol) + ff.0
                    &&& self.sign_cache() == ff.1
                    &&& self.baselines() == ff.2
                }),
            decreases np - i,
        {
            let ghost pre = procs_fold(
                state@.active_processes.take(i as int),
                facts@,
                pol,
                cache0,
                base0,
            );
            let ghost v0 = violations.deep_view();
            let p = &state.active_processes[i];
            let fact = Self::find_fact(facts, p.pid);

            if Self::contains_any(&self.policies.suspicious_processes, &p.name) {
                let mut m = String::from_str("Suspicious process detected: ");
                m.append(p.name.as_str());
                m.append(" (PID: ");
                let t = u64_string(p.pid as u64);
                m.append(t.as_str());
                m.append(")");
                proof {
                    assert(m@ =~= suspicious_msg(p.name@, p.pid));
                }
                violations.push(m);
            }
            let ghost name_part = if matches_any(p.name@, pol.suspicious_processes@) {
                seq![suspicious_msg(p.name@, p.pid)]
            } else {
                Seq::<Seq<char>>::empty()
            };
            proof {
                assert(violations.deep_view() =~= v0 + name_part);
            }

            let signed = self.sign_check(&fact);
            if !signed {
                let mut m = String::from_str("Code signing verification failed for ");
                m.append(p.name.as_str());
                m.append(" (PID: ");
                let t = u64_string(p.pid as u64);
                m.append(t.as_str());
                m.append("): Invalid code signature");
                proof {
                    assert(m@ =~= codesign_msg(p.name@, p.pid));
                }
                violations.push(m);
            }
            let ghost sign_part = if !sign_verdict(pre.1, fact_for(facts@, p.pid), pol) {
                seq![codesign_msg(p.name@, p.pid)]
            } else {
                Seq::<Seq<char>>::empty()
            };
            proof {
                assert(violations.deep_view() =~= v0 + name_part + sign_part);
            }

            let intact = self.integrity_check(p.pid, &fact);
            if !intact {
                let mut m = String::from_str("Process integrity check failed for ");
                m.append(p.name.as_str());
                m.append(" (PID: ");
                let t = u64_string(p.pid as u64);
                m.append(t.as_str());
                m.append("): Process binary has been modified");
                proof {
                    assert(m@ =~= integrity_msg(p.name@, p.pid));
                }
                violations.push(m);
            }
            let ghost integ_part = if !integrity_ok(pre.2, p.pid, fact_for(facts@, p.pid)) {
                seq![integrity_msg(p.name@, p.pid)]
            } else {
                Seq::<Seq<char>>::empty()
            };
            proof {
                assert(violations.deep_view() =~= v0 + name_part + sign_part + integ_part);
            }

            proof {
                let p_s = state@.active_processes[i as int];
                let f_s = fact_for(facts@, p_s.pid);
                assert(name_part + sign_part + integ_part =~= proc_msgs(p_s, f_s, pol, pre.1, pre.2));
                let taken = state@.active_processes.take(i + 1);
                assert(taken.drop_last() =~= state@.active_processes.take(i as int));
                assert(taken.last() == p_s);
                assert(procs_fold(taken, facts@, pol, cache0, base0).0 == pre.0 + proc_msgs(
                    p_s,
                    f_s,
                    pol,
                    pre.1,
                    pre.2,
                ));
                assert(violations.deep_view() =~= resource_msgs(state@, pol) + procs_fold(
                    taken,
                    facts@,
                    pol,
                    cache0,
                    base0,
                ).0);
            }
            i += 1;
        }
        proof {
            assert(state@.active_processes.take(np as int) =~= state@.active_processes);
        }

        let nc = state.network_stats.connections.len();
        let mut j: usize = 0;
        while j < nc
            invariant
                nc == state.network_stats.connections@.len(),
                0 <= j <= nc,
                self.wf(),
                self.spec_policies() == pol,
                pol == old(self).spec_policies(),
                state.network_stats.connections@ == state@.network_stats.connections,
                self.sign_cache() == procs_fold(
                    state@.active_processes,
                    facts@,
                    pol,
                    cache0,
                    base0,
                ).1,
                self.baselines() == procs_fold(
                    state@.active_processes,
                    facts@,
                    pol,
                    cache0,
                    base0,
                ).2,
                cache0 == old(self).sign_cache(),
                base0 == old(self).baselines(),
                violations.deep_view() == resource_msgs(state@, pol) + procs_fold(
                    state@.active_processes,
                    facts@,
                    pol,
                    cache0,
                    base0,
                ).0 + conns_fold(state@.network_stats.connections.take(j as int), pol),
            decreases nc - j,
        {
            let ghost w0 = violations.deep_view();
            let c = &state.network_stats.connections[j];
            let port = parse_port(c.remote_addr.as_str());
            if !self.port_check(port) {
                let mut m = String::from_str("Unauthorized network connection to port ");
                let t = u64_string(port as u64);
                m.append(t.as_str());
                m.append(" (");
                m.append(c.remote_addr.as_str());
                m.append(")");
                proof {
                    assert(m@ =~= port_msg(spec_parse_port(c.remote_addr@), c.remote_addr@));
                }
                violations.push(m);
            }
            let ghost port_part = if !port_allowed(spec_parse_port(c.remote_addr@), pol) {
                seq![port_msg(spec_parse_port(c.remote_addr@), c.remote_addr@)]
            } else {
                Seq::<Seq<char>>::empty()
            };
            proof {
                assert(violations.deep_view() =~= w0 + port_part);
            }
            match &c.dns_name {
                Some(d) => {
                    if !self.domain_check(d) {
                        let mut m = String::from_str("Connection to unauthorized domain: ");
                        m.append(d.as_str());
                        proof {
                            assert(m@ =~= domain_msg(d@));
                        }
                        violations.push(m);
                    }
                },
                None => {},
            }
            proof {
                let c_s = state@.network_stats.connections[j as int];
                let domain_part: Seq<Seq<char>> = match c_s.dns_name {
                    Some(d) => if !domain_allowed(d@, pol) {
                        seq![domain_msg(d@)]
                    } else {
                        Seq::empty()
                    },
                    None => Seq::empty(),
                };
                assert(violations.deep_view() =~= w0 + port_part + domain_part);
                assert(port_part + domain_part =~= conn_msgs(c_s, pol));
                let taken = state@.network_stats.connections.take(j + 1);
                assert(taken.drop_last() =~= state@.network_stats.connections.take(j as int));
                assert(taken.last() == c_s);
                assert(conns_fold(taken, pol) == conns_fold(
                    state@.network_stats.connections.take(j as int),
                    pol,
                ) + conn_msgs(c_s, pol));
                assert(violations.deep_view() =~= resource_msgs(state@, pol) + procs_fold(
                    state@.active_processes,
                    facts@,
                    pol,
                    cache0,
                    base0,
                ).0 + conns_fold(taken, pol));
            }
            j += 1;
        }
        proof {
            assert(state@.network_stats.connections.take(nc as int)
                =~= state@.network_stats.connections);
        }

        if violations.len() == 0 {
            None
        } else {
            Some(join_all(&violations, "; "))
        }
    }

    /// Whether a process is trusted: its executable lies under an allowed
    /// path and the platform verifier found a valid signature.
    pub fn check_process_signature(&self, process_path: &String, signed: bool) -> (r: bool)
        ensures
            r == (path_allowed(process_path@, self.spec_policies()) && signed),
    {
        if !self.path_check(process_path) {
            return false;
        }
        signed
    }

    /// Whether a connection to the domain and port is allowed by policy.
    pub fn check_network_connection(&self, domain: &String, port: u16) -> (r: bool)
        ensures
            r == (domain_allowed(domain@, self.spec_policies()) && port_allowed(
                port,
                self.spec_policies(),
            )),
    {
        if !self.domain_check(domain) {
            return false;
        }
        if !self.port_check(port) {
            return false;
        }
        true
    }

    /// Whether a process may touch a file: both the process's executable
    /// and the file must lie under allowed paths.
    pub fn check_file_access(&self, path: &String, process_path: &String) -> (r: bool)
        ensures
            r == (path_allowed(process_path@, self.spec_policies()) && path_allowed(
                path@,
                self.spec_policies(),
            )),
    {
        if !self.path_check(process_path) {
            return false;
        }
        if !self.path_check(path) {
            return false;
        }
        true
    }

    /// Whether the path starts with an allowed prefix.
    #[verifier::loop_isolation(false)]
    fn path_check(&self, path: &String) -> (r: bool)
        ensures
            r == path_allowed(path@, self.spec_policies()),
    {
        let n = self.policies.allowed_paths.len();
        let mut i: usize = 0;
        while i < n
            invariant
                n == self.policies.allowed_paths@.len(),
                0 <= i <= n,
                forall|k: int|
                    0 <= k < i ==> !spec_starts_with(
                        path@,
                        (#[trigger] self.policies.allowed_paths@[k])@,
                    ),
            decreases n - i,
        {
            if str_starts_with(path.as_str(), self.policies.allowed_paths[i].as_str()) {
                return true;
            }
            i += 1;
        }
        false
    }
}

/// A path lies under one of the allowed prefixes.
pub open spec fn path_allowed(path: Seq<char>, pol: SecurityPolicies) -> bool {
    exists|i: int|
        0 <= i < pol.allowed_paths@.len() && spec_starts_with(
            path,
            (#[trigger] pol.allowed_paths@[i])@,
        )
}

/// The default policy, field by field; `Default::default` establishes it.
pub open spec fn is_default_policy(p: SecurityPolicies) -> bool {
    &&& p.max_cpu_usage == 900
    &&& p.max_memory_usage == 900
    &&& p.suspicious_processes.deep_view() == seq![
        "nc"@,
        "netcat"@,
        "nmap"@,
        "wireshark"@,
        "tcpdump"@,
    ]
    &&& p.allowed_ports@ == seq![80u16, 443u16, 53u16, 22u16, 5432u16, 3306u16, 8080u16]
    &&& p.allowed_domains.deep_view() == seq![
        "github.com"@,
        "api.github.com"@,
        "registry.npmjs.org"@,
        "pypi.org"@,
        "localhost"@,
        "127.0.0.1"@,
    ]
    &&& p.allowed_signing_authorities.deep_view() == seq![
        "Apple"@,
        "Apple Development"@,
        "Developer ID Application"@,
    ]
    &&& p.allowed_paths.deep_view() == seq!["/usr/bin"@, "/bin"@, "/sbin"@]
}

/// What an outside SHA-256 digest of the bytes returns; a function of the
/// input alone.
pub uninterp spec fn sha256_of(data: Seq<u8>) -> Seq<u8>;

/// Relies on ring's SHA-256 digest: the result is a function of the input
/// bytes alone and is thirty-two bytes long.
#[verifier::external_body]
fn sha256(data: &[u8]) -> (r: Vec<u8>)
    ensures
        r@ == sha256_of(data@),
        r@.len() == 32,
{
    ring::digest::digest(&ring::digest::SHA256, data).as_ref().to_vec()
}

/// What an outside standard-alphabet base64 encoding of the bytes returns;
/// a function of the input alone.
pub uninterp spec fn base64_of(data: Seq<u8>) -> Seq<char>;

/// Relies on base64's standard engine: the encoding is a function of the
/// input bytes alone, four characters for every three bytes begun.
#[verifier::external_body]
fn base64_encode(data: &Vec<u8>) -> (r: String)
    ensures
        r@ == base64_of(data@),
        r@.len() == 4 * ((data@.len() + 2) / 3),
{
    base64::Engine::encode(&base64::engine::general_purpose::STANDARD, data)
}

/// The base64-encoded SHA-256 digest of the bytes, as recorded in the
/// integrity baselines.
pub fn content_hash(data: &[u8]) -> (r: String)
    ensures
        r@ == base64_of(sha256_of(data@)),
        r@.len() == 44,
{
    let digest = sha256(data);
    base64_encode(&digest)
}

} // verus!
