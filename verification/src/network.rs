//! Network observation: aggregate traffic counters, the connection table
//! keyed by the 4-tuple of addresses and ports, the packet classifier that
//! feeds it, and the suspicious-activity checks.

use vstd::prelude::*;

use crate::text::parse_port;
use crate::text::spec_contains;
use crate::text::spec_dec;
use crate::text::spec_parse_port;
use crate::text::str_contains;
use crate::text::u64_string;

verus! {

/// Transport protocol of an observed connection.
#[derive(Debug, Clone, Copy, PartialEq, Eq, Structural)]
pub enum Protocol {
    TCP,
    UDP,
    ICMP,
    Other(u8),
}

/// Lifecycle state of an observed connection.
#[derive(Debug, Clone, Copy, PartialEq, Eq, Structural)]
pub enum ConnectionState {
    Established,
    Listen,
    Closed,
    Unknown,
}

/// One observed connection. Addresses are `ip:port` strings; `dns_name` is
/// the reverse-resolved name of the remote address when one is known.
#[derive(Debug)]
pub struct ConnectionInfo {
    pub local_addr: String,
    pub remote_addr: String,
    pub protocol: Protocol,
    pub state: ConnectionState,
    pub process_id: Option<u32>,
    pub dns_name: Option<String>,
}

impl Clone for ConnectionInfo {
    fn clone(&self) -> (r: Self)
        ensures
            r == *self,
    {
        ConnectionInfo {
            local_addr: self.local_addr.clone(),
            remote_addr: self.remote_addr.clone(),
            protocol: self.protocol,
            state: self.state,
            process_id: self.process_id,
            dns_name: match &self.dns_name {
                Some(n) => Some(n.clone()),
                None => None,
            },
        }
    }
}

/// Aggregate traffic counters with the connections and suspicious-activity
/// notes gathered this cycle. The byte counters are cumulative and reset
/// only on process restart.
#[derive(Debug)]
pub struct NetworkStats {
    pub bytes_sent: u64,
    pub bytes_received: u64,
    pub connections: Vec<ConnectionInfo>,
    pub suspicious_activity: Vec<String>,
}

/// The mathematical content of a `NetworkStats`.
#[verifier::ext_equal]
pub struct NetworkStatsView {
    pub bytes_sent: u64,
    pub bytes_received: u64,
    pub connections: Seq<ConnectionInfo>,
    pub suspicious_activity: Seq<String>,
}

impl View for NetworkStats {
    type V = NetworkStatsView;

    open spec fn view(&self) -> NetworkStatsView {
        NetworkStatsView {
            bytes_sent: self.bytes_sent,
            bytes_received: self.bytes_received,
            connections: self.connections@,
            suspicious_activity: self.suspicious_activity@,
        }
    }
}

impl Clone for NetworkStats {
    fn clone(&self) -> (r: Self)
        ensures
            r@ == self@,
    {
        let r = NetworkStats {
            bytes_sent: self.bytes_sent,
            bytes_received: self.bytes_received,
            connections: self.connections.clone(),
            suspicious_activity: self.suspicious_activity.clone(),
        };
        proof {
            assert(r.connections@ =~= self.connections@);
            assert(r.suspicious_activity@ =~= self.suspicious_activity@);
            assert(r@ =~= self@);
        }
        r
    }
}

impl Default for NetworkStats {
    /// Zero counters and no observations.
    fn default() -> (r: Self)
        ensures
            r.bytes_sent == 0,
            r.bytes_received == 0,
            r.connections@ == Seq::<ConnectionInfo>::empty(),
            r.suspicious_activity@ == Seq::<String>::empty(),
    {
        NetworkStats {
            bytes_sent: 0,
            bytes_received: 0,
            connections: Vec::new(),
            suspicious_activity: Vec::new(),
        }
    }
}

/// The 4-tuple that keys a connection: source and destination IPv4 address
/// and port.
#[derive(Debug, Clone, Copy, PartialEq, Eq, Structural)]
pub struct ConnKey {
    pub src_ip: u32,
    pub src_port: u16,
    pub dst_ip: u32,
    pub dst_port: u16,
}

/// What one captured frame contributes to the connection table.
#[derive(Debug, Clone, Copy, PartialEq, Eq, Structural)]
pub struct ParsedPacket {
    pub key: ConnKey,
    pub protocol: Protocol,
    pub state: ConnectionState,
}

/// The big-endian sixteen-bit value at position `i`.
pub open spec fn be16(b: Seq<u8>, i: int) -> int {
    b[i] * 256 + b[i + 1]
}

/// The big-endian thirty-two-bit value at position `i`.
pub open spec fn be32(b: Seq<u8>, i: int) -> int {
    b[i] * 0x1000000 + b[i + 1] * 0x10000 + b[i + 2] * 0x100 + b[i + 3]
}

/// The connection described by one Ethernet frame: an IPv4 frame carrying
/// TCP or UDP, with the IPv4 header length and total length respected. A
/// frame of any other shape contributes nothing. A TCP connection counts as
/// established when the frame carries the SYN flag, as the capture layer
/// reports new connections from their opening packet.
pub open spec fn spec_parse_packet(b: Seq<u8>) -> Option<ParsedPacket> {
    if b.len() < 14 {
        None
    } else if be16(b, 12) != 0x0800 {
        None
    } else {
        let ip = b.skip(14);
        if ip.len() < 20 {
            None
        } else {
            let hlen = (ip[0] & 0x0f) * 4;
            if hlen < 20 || hlen > ip.len() {
                None
            } else {
                let tl = be16(ip, 2);
                let payload_end = if tl < hlen {
                    hlen as int
                } else if tl > ip.len() {
                    ip.len() as int
                } else {
                    tl
                };
                let tp = ip.subrange(hlen as int, payload_end);
                let key = |sp: int, dp: int| ConnKey {
                    src_ip: be32(ip, 12) as u32,
                    src_port: sp as u16,
                    dst_ip: be32(ip, 16) as u32,
                    dst_port: dp as u16,
                };
                if ip[9] == 6 {
                    if tp.len() < 20 {
                        None
                    } else {
                        Some(
                            ParsedPacket {
                                key: key(be16(tp, 0), be16(tp, 2)),
                                protocol: Protocol::TCP,
                                state: if tp[13] & 2 != 0 {
                                    ConnectionState::Established
                                } else {
                                    ConnectionState::Unknown
                                },
                            },
                        )
                    }
                } else if ip[9] == 17 {
                    if tp.len() < 8 {
                        None
                    } else {
                        Some(
                            ParsedPacket {
                                key: key(be16(tp, 0), be16(tp, 2)),
                                protocol: Protocol::UDP,
                                state: ConnectionState::Unknown,
                            },
                        )
                    }
                } else {
                    None
                }
            }
        }
    }
}

/// Reads one captured Ethernet frame, yielding the connection it describes
/// when it is an IPv4 frame carrying TCP or UDP.
pub fn parse_packet(b: &Vec<u8>) -> (r: Option<ParsedPacket>)
    ensures
        r == spec_parse_packet(b@),
{
    let n = b.len();
    if n < 14 {
        return None;
    }
    let ethertype: u32 = (b[12] as u32) * 256 + (b[13] as u32);
    proof {
        assert(ethertype == be16(b@, 12));
    }
    if ethertype != 0x0800 {
        return None;
    }
    let ghost ip = b@.skip(14);
    proof {
        assert(ip.len() == n - 14);
        assert(forall|k: int| 0 <= k < ip.len() ==> ip[k] == b@[14 + k]);
    }
    if n - 14 < 20 {
        return None;
    }
    let hlen: usize = ((b[14] & 0x0f) as usize) * 4;
    proof {
        assert(hlen == (ip[0] & 0x0f) * 4);
    }
    if hlen < 20 || hlen > n - 14 {
        return None;
    }
    let tl: usize = (b[16] as usize) * 256 + (b[17] as usize);
    proof {
        assert(tl == be16(ip, 2));
    }
    let payload_end: usize = if tl < hlen {
        hlen
    } else if tl > n - 14 {
        n - 14
    } else {
        tl
    };
    let ghost tp = ip.subrange(hlen as int, payload_end as int);
    proof {
        assert(tp.len() == payload_end - hlen);
        assert(forall|k: int| 0 <= k < tp.len() ==> tp[k] == b@[14 + hlen + k]);
    }
    let proto = b[14 + 9];
    proof {
        assert(proto == ip[9]);
    }
    if proto != 6 && proto != 17 {
        return None;
    }
    let min_len: usize = if proto == 6 {
        20
    } else {
        8
    };
    if payload_end - hlen < min_len {
        return None;
    }
    let base = 14 + hlen;
    let src_ip: u32 = (b[26] as u32) * 0x1000000 + (b[27] as u32) * 0x10000 + (b[28] as u32)
        * 0x100 + (b[29] as u32);
    let dst_ip: u32 = (b[30] as u32) * 0x1000000 + (b[31] as u32) * 0x10000 + (b[32] as u32)
        * 0x100 + (b[33] as u32);
    let src_port: u16 = (b[base] as u16) * 256 + (b[base + 1] as u16);
    let dst_port: u16 = (b[base + 2] as u16) * 256 + (b[base + 3] as u16);
    proof {
        assert(src_ip == be32(ip, 12));
        assert(dst_ip == be32(ip, 16));
        assert(src_port == be16(tp, 0));
        assert(dst_port == be16(tp, 2));
    }
    let key = ConnKey { src_ip, src_port, dst_ip, dst_port };
    if proto == 6 {
        let established = b[base + 13] & 2 != 0;
        proof {
            assert(b@[base + 13] == tp[13]);
        }
        Some(
            ParsedPacket {
                key,
                protocol: Protocol::TCP,
                state: if established {
                    ConnectionState::Established
                } else {
                    ConnectionState::Unknown
                },
            },
        )
    } else {
        Some(ParsedPacket { key, protocol: Protocol::UDP, state: ConnectionState::Unknown })
    }
}

/// The `a.b.c.d:port` rendering of an address.
pub open spec fn spec_ip_port(ip: u32, port: u16) -> Seq<char> {
    spec_dec((ip / 0x1000000) as nat) + "."@ + spec_dec(((ip / 0x10000) % 256) as nat) + "."@
        + spec_dec(((ip / 0x100) % 256) as nat) + "."@ + spec_dec((ip % 256) as nat) + ":"@
        + spec_dec(port as nat)
}

/// Renders an address as `a.b.c.d:port`.
pub fn format_ip_port(ip: u32, port: u16) -> (r: String)
    ensures
        r@ == spec_ip_port(ip, port),
{
    let mut s = u64_string((ip / 0x1000000) as u64);
    s.append(".");
    let t1 = u64_string(((ip / 0x10000) % 256) as u64);
    s.append(t1.as_str());
    s.append(".");
    let t2 = u64_string(((ip / 0x100) % 256) as u64);
    s.append(t2.as_str());
    s.append(".");
    let t3 = u64_string((ip % 256) as u64);
    s.append(t3.as_str());
    s.append(":");
    let t4 = u64_string(port as u64);
    s.append(t4.as_str());
    proof {
        assert(s@ =~= spec_ip_port(ip, port));
    }
    s
}

/// The entry created for a newly observed connection.
pub open spec fn is_new_conn(c: ConnectionInfo, pp: ParsedPacket) -> bool {
    &&& c.local_addr@ == spec_ip_port(pp.key.src_ip, pp.key.src_port)
    &&& c.remote_addr@ == spec_ip_port(pp.key.dst_ip, pp.key.dst_port)
    &&& c.protocol == pp.protocol
    &&& c.state == pp.state
    &&& c.process_id is None
    &&& c.dns_name is None
}

/// A key already appears in the connection table.
pub open spec fn has_conn(conns: Seq<(ConnKey, ConnectionInfo)>, key: ConnKey) -> bool {
    exists|i: int| 0 <= i < conns.len() && (#[trigger] conns[i]).0 == key
}

/// One suspicious-activity note: a connection to a known-bad port.
pub open spec fn susp_port_msg(port: u16, remote: Seq<char>) -> Seq<char> {
    "Suspicious connection to port "@ + spec_dec(port as nat) + " from "@ + remote
}

/// One suspicious-activity note: a connection to a suspicious domain.
pub open spec fn susp_domain_msg(domain: Seq<char>) -> Seq<char> {
    "Connection to suspicious domain: "@ + domain
}

/// A port commonly used for remote access, lateral movement or malware
/// control.
pub open spec fn spec_suspicious_port(port: u16) -> bool {
    port == 22 || port == 23 || port == 445 || port == 3389 || port == 4444 || port == 5900
}

/// A domain matching one of the suspicious patterns.
pub open spec fn spec_suspicious_domain(domain: Seq<char>) -> bool {
    spec_contains(domain, ".xyz"@) || spec_contains(domain, ".top"@) || spec_contains(
        domain,
        "pastebin.com"@,
    ) || spec_contains(domain, "ngrok.io"@)
}

/// The suspicious-activity notes one connection contributes: port first,
/// then domain.
pub open spec fn conn_susp_msgs(c: ConnectionInfo) -> Seq<Seq<char>> {
    (if spec_suspicious_port(spec_parse_port(c.remote_addr@)) {
        seq![susp_port_msg(spec_parse_port(c.remote_addr@), c.remote_addr@)]
    } else {
        Seq::empty()
    }) + (match c.dns_name {
        Some(d) => if spec_suspicious_domain(d@) {
            seq![susp_domain_msg(d@)]
        } else {
            Seq::empty()
        },
        None => Seq::empty(),
    })
}

/// The suspicious-activity notes of a connection table, in table order.
pub open spec fn susp_fold(conns: Seq<(ConnKey, ConnectionInfo)>) -> Seq<Seq<char>>
    decreases conns.len(),
{
    if conns.len() == 0 {
        Seq::empty()
    } else {
        susp_fold(conns.drop_last()) + conn_susp_msgs(conns.last().1)
    }
}

/// The network observer: aggregate counters and the connection table keyed
/// by the address 4-tuple. First sight of a key creates its entry; no entry
/// is ever evicted.
#[derive(Debug)]
pub struct NetworkMonitor {
    stats: NetworkStats,
    connections: Vec<(ConnKey, ConnectionInfo)>,
}

impl NetworkMonitor {
    /// Keys in the connection table stay free of duplicates. Constructors
    /// establish this and every method preserves it.
    pub closed spec fn wf(self) -> bool {
        forall|i: int, j: int|
            0 <= i < j < self.connections@.len() ==> (#[trigger] self.connections@[i]).0 != (
            #[trigger] self.connections@[j]).0
    }

    /// The aggregate counters.
    pub closed spec fn spec_stats(self) -> NetworkStatsView {
        self.stats@
    }

    /// The connection table, in first-seen order.
    pub closed spec fn spec_connections(self) -> Seq<(ConnKey, ConnectionInfo)> {
        self.connections@
    }

    /// An observer with zero counters and an empty table.
    pub fn new() -> (r: NetworkMonitor)
        ensures
            r.wf(),
            r.spec_stats().bytes_sent == 0,
            r.spec_stats().bytes_received == 0,
            r.spec_stats().connections == Seq::<ConnectionInfo>::empty(),
            r.spec_stats().suspicious_activity == Seq::<String>::empty(),
            r.spec_connections() == Seq::<(ConnKey, ConnectionInfo)>::empty(),
    {
        NetworkMonitor { stats: NetworkStats::default(), connections: Vec::new() }
    }

    /// Accounts one captured frame: the received-byte counter grows by the
    /// frame's length (capped at the counter's range), and a frame that
    /// describes a connection not yet in the table adds it and returns its
    /// key, so the caller may resolve the remote address.
    #[verifier::loop_isolation(false)]
    pub fn process_packet(&mut self, packet: &Vec<u8>) -> (newly: Option<ConnKey>)
        requires
            old(self).wf(),
        ensures
            final(self).wf(),
            final(self).spec_stats().bytes_received == if old(self).spec_stats().bytes_received
                + packet@.len() <= u64::MAX {
                old(self).spec_stats().bytes_received + packet@.len()
            } else {
                u64::MAX as int
            },
            final(self).spec_stats().bytes_sent == old(self).spec_stats().bytes_sent,
            final(self).spec_stats().connections == old(self).spec_stats().connections,
            final(self).spec_stats().suspicious_activity == old(
                self,
            ).spec_stats().suspicious_activity,
            ({
                match spec_parse_packet(packet@) {
                    None => final(self).spec_connections() == old(self).spec_connections()
                        && newly is None,
                    Some(pp) => {
                        if has_conn(old(self).spec_connections(), pp.key) {
                            final(self).spec_connections() == old(self).spec_connections()
                                && newly is None
                        } else {
                            &&& newly == Some(pp.key)
                            &&& final(self).spec_connections().len() == old(
                                self,
                            ).spec_connections().len() + 1
                            &&& final(self).spec_connections().drop_last() == old(
                                self,
                            ).spec_connections()
                            &&& final(self).spec_connections().last().0 == pp.key
                            &&& is_new_conn(final(self).spec_connections().last().1, pp)
                        }
                    },
                }
            }),
    {
        self.stats.bytes_received = self.stats.bytes_received.saturating_add(packet.len() as u64);
        let pp = match parse_packet(packet) {
            None => {
                return None;
            },
            Some(pp) => pp,
        };
        let n = self.connections.len();
        let mut i: usize = 0;
        while i < n
            invariant
                n == self.connections@.len(),
                0 <= i <= n,
                forall|k: int| 0 <= k < i ==> (#[trigger] self.connections@[k]).0 != pp.key,
            decreases n - i,
        {
            if self.connections[i].0 == pp.key {
                return None;
            }
            i += 1;
        }
        let entry = ConnectionInfo {
            local_addr: format_ip_port(pp.key.src_ip, pp.key.src_port),
            remote_addr: format_ip_port(pp.key.dst_ip, pp.key.dst_port),
            protocol: pp.protocol,
            state: pp.state,
            process_id: None,
            dns_name: None,
        };
        self.connections.push((pp.key, entry));
        proof {
            assert(self.connections@.drop_last() =~= old(self).connections@);
            assert forall|a: int, b: int|
                0 <= a < b < self.connections@.len() implies (
            #[trigger] self.connections@[a]).0 != (#[trigger] self.connections@[b]).0 by {
                if b < self.connections@.len() - 1 {
                    assert(old(self).connections@[a] == self.connections@[a]);
                    assert(old(self).connections@[b] == self.connections@[b]);
                }
            }
        }
        Some(pp.key)
    }

    /// Records the resolved name of a connection's remote address. The
    /// entry with the key, if one exists, gains the name; everything else
    /// stays as it was.
    #[verifier::loop_isolation(false)]
    pub fn set_dns_name(&mut self, key: ConnKey, name: String)
        requires
            old(self).wf(),
        ensures
            final(self).wf(),
            final(self).spec_stats() == old(self).spec_stats(),
            !has_conn(old(self).spec_connections(), key) ==> final(self).spec_connections() == old(
                self,
            ).spec_connections(),
            has_conn(old(self).spec_connections(), key) ==> exists|i: int|
                {
                    &&& 0 <= i < old(self).spec_connections().len()
                    &&& old(self).spec_connections()[i].0 == key
                    &&& final(self).spec_connections() == old(self).spec_connections().update(
                        i,
                        (key, (#[trigger] final(self).spec_connections()[i]).1),
                    )
                    &&& dns_recorded(
                        old(self).spec_connections()[i].1,
                        final(self).spec_connections()[i].1,
                        name,
                    )
                },
    {
        let n = self.connections.len();
        let mut i: usize = 0;
        while i < n
            invariant
                *self == *old(self),
                n == self.connections@.len(),
                0 <= i <= n,
                forall|k: int| 0 <= k < i ==> (#[trigger] self.connections@[k]).0 != key,
            decreases n - i,
        {
            if self.connections[i].0 == key {
                let (k, c) = self.connections.remove(i);
                let updated = ConnectionInfo {
                    local_addr: c.local_addr,
                    remote_addr: c.remote_addr,
                    protocol: c.protocol,
                    state: c.state,
                    process_id: c.process_id,
                    dns_name: Some(name),
                };
                self.connections.insert(i, (k, updated));
                proof {
                    assert(self.connections@ =~= old(self).connections@.update(
                        i as int,
                        (key, self.connections@[i as int].1),
                    ));
                    assert forall|a: int, b: int|
                        0 <= a < b < self.connections@.len() implies (
                    #[trigger] self.connections@[a]).0 != (#[trigger] self.connections@[b]).0 by {
                        assert(self.connections@[a].0 == old(self).connections@[a].0);
                        assert(self.connections@[b].0 == old(self).connections@[b].0);
                    }
                    assert({
                        &&& 0 <= (i as int) && (i as int) < old(self).spec_connections().len()
                        &&& old(self).spec_connections()[i as int].0 == key
                        &&& self.spec_connections() == old(self).spec_connections().update(
                            i as int,
                            (key, (#[trigger] self.spec_connections()[i as int]).1),
                        )
                        &&& dns_recorded(
                            old(self).spec_connections()[i as int].1,
                            self.spec_connections()[i as int].1,
                            name,
                        )
                    });
                }
                return ;
            }
            i += 1;
        }
    }

    /// A copy of the aggregate counters.
    pub fn get_stats(&self) -> (r: NetworkStats)
        ensures
            r@ == self.spec_stats(),
    {
        self.stats.clone()
    }

    /// The connections observed so far, in first-seen order.
    #[verifier::loop_isolation(false)]
    pub fn get_active_connections(&self) -> (r: Vec<ConnectionInfo>)
        ensures
            r@.len() == self.spec_connections().len(),
            forall|i: int|
                0 <= i < r@.len() ==> #[trigger] r@[i] == self.spec_connections()[i].1,
    {
        let n = self.connections.len();
        let mut r: Vec<ConnectionInfo> = Vec::new();
        let mut i: usize = 0;
        while i < n
            invariant
                0 <= i <= n,
                r@.len() == i,
                forall|k: int| 0 <= k < i ==> #[trigger] r@[k] == self.connections@[k].1,
            decreases n - i,
        {
            r.push(self.connections[i].1.clone());
            i += 1;
        }
        r
    }

    /// The suspicious-activity notes of the current table, in table order:
    /// for each connection a note for a known-bad remote port and a note
    /// for a suspicious resolved domain.
    #[verifier::loop_isolation(false)]
    pub fn check_suspicious_activity(&self) -> (r: Vec<String>)
        ensures
            r.deep_view() == susp_fold(self.spec_connections()),
    {
        let n = self.connections.len();
        let mut r: Vec<String> = Vec::new();
        proof {
            assert(r.deep_view() =~= susp_fold(self.connections@.take(0)));
        }
        let mut i: usize = 0;
        while i < n
            invariant
                0 <= i <= n,
                r.deep_view() == susp_fold(self.connections@.take(i as int)),
            decreases n - i,
        {
            let ghost v0 = r.deep_view();
            let c = &self.connections[i].1;
            let port = parse_port(c.remote_addr.as_str());
            if Self::is_suspicious_port(port) {
                let mut m = String::from_str("Suspicious connection to port ");
                let t = u64_string(port as u64);
                m.append(t.as_str());
                m.append(" from ");
                m.append(c.remote_addr.as_str());
                proof {
                    assert(m@ =~= susp_port_msg(spec_parse_port(c.remote_addr@), c.remote_addr@));
                }
                r.push(m);
            }
            let ghost port_part = if spec_suspicious_port(spec_parse_port(c.remote_addr@)) {
                seq![susp_port_msg(spec_parse_port(c.remote_addr@), c.remote_addr@)]
            } else {
                Seq::<Seq<char>>::empty()
            };
            proof {
                assert(r.deep_view() =~= v0 + port_part);
            }
            match &c.dns_name {
                Some(d) => {
                    if Self::is_suspicious_domain(d.as_str()) {
                        let mut m = String::from_str("Connection to suspicious domain: ");
                        m.append(d.as_str());
                        proof {
                            assert(m@ =~= susp_domain_msg(d@));
                        }
                        r.push(m);
                    }
                },
                None => {},
            }
            proof {
                let c_s = self.connections@[i as int].1;
                let domain_part: Seq<Seq<char>> = match c_s.dns_name {
                    Some(d) => if spec_suspicious_domain(d@) {
                        seq![susp_domain_msg(d@)]
                    } else {
                        Seq::empty()
                    },
                    None => Seq::empty(),
                };
                assert(r.deep_view() =~= v0 + port_part + domain_part);
                assert(port_part + domain_part =~= conn_susp_msgs(c_s));
                let taken = self.connections@.take(i + 1);
                assert(taken.drop_last() =~= self.connections@.take(i as int));
                assert(taken.last().1 == c_s);
                assert(r.deep_view() =~= susp_fold(taken));
            }
            i += 1;
        }
        proof {
            assert(self.connections@.take(n as int) =~= self.connections@);
        }
        r
    }

    /// Whether the port is one of the known-bad remote ports.
    fn is_suspicious_port(port: u16) -> (r: bool)
        ensures
            r == spec_suspicious_port(port),
    {
        port == 22 || port == 23 || port == 445 || port == 3389 || port == 4444 || port == 5900
    }

    /// Whether the domain matches one of the suspicious patterns.
    fn is_suspicious_domain(domain: &str) -> (r: bool)
        ensures
            r == spec_suspicious_domain(domain@),
    {
        str_contains(domain, ".xyz") || str_contains(domain, ".top") || str_contains(
            domain,
            "pastebin.com",
        ) || str_contains(domain, "ngrok.io")
    }
}

/// The updated entry keeps every field and gains the resolved name.
pub open spec fn dns_recorded(c0: ConnectionInfo, c1: ConnectionInfo, name: String) -> bool {
    &&& c1.local_addr == c0.local_addr
    &&& c1.remote_addr == c0.remote_addr
    &&& c1.protocol == c0.protocol
    &&& c1.state == c0.state
    &&& c1.process_id == c0.process_id
    &&& c1.dns_name == Some(name)
}

} // verus!
