use ange_gardien::network::ConnectionState;
use ange_gardien::network::NetworkMonitor;
use ange_gardien::network::Protocol;

/// One Ethernet frame carrying an IPv4 TCP segment from 10.0.0.1:5555 to
/// 1.2.3.4 on the given port, with the given TCP flags byte.
fn tcp_frame(dst_port: u16, flags: u8) -> Vec<u8> {
    let mut b = vec![0u8; 54];
    // Ethernet: ethertype IPv4.
    b[12] = 0x08;
    b[13] = 0x00;
    // IPv4: version 4, header length 5 words, total length 40, protocol TCP.
    b[14] = 0x45;
    b[16] = 0;
    b[17] = 40;
    b[23] = 6;
    // Source 10.0.0.1, destination 1.2.3.4.
    b[26] = 10;
    b[27] = 0;
    b[28] = 0;
    b[29] = 1;
    b[30] = 1;
    b[31] = 2;
    b[32] = 3;
    b[33] = 4;
    // TCP: source port 5555, destination port, flags.
    b[34] = (5555u16 >> 8) as u8;
    b[35] = (5555u16 & 0xff) as u8;
    b[36] = (dst_port >> 8) as u8;
    b[37] = (dst_port & 0xff) as u8;
    b[47] = flags;
    b
}

#[test]
fn test_network_monitor_creation() {
    let monitor = NetworkMonitor::new();
    assert!(monitor.get_active_connections().is_empty());
}

#[test]
fn test_get_stats() {
    let monitor = NetworkMonitor::new();
    let stats = monitor.get_stats();
    assert_eq!(stats.bytes_sent, 0);
    assert_eq!(stats.bytes_received, 0);
}

#[test]
fn syn_packet_creates_an_established_connection() {
    let mut monitor = NetworkMonitor::new();
    let frame = tcp_frame(6667, 0x02);
    let newly = monitor.process_packet(&frame);
    assert!(newly.is_some());

    let conns = monitor.get_active_connections();
    assert_eq!(conns.len(), 1);
    assert_eq!(conns[0].local_addr, "10.0.0.1:5555");
    assert_eq!(conns[0].remote_addr, "1.2.3.4:6667");
    assert_eq!(conns[0].protocol, Protocol::TCP);
    assert_eq!(conns[0].state, ConnectionState::Established);
    assert_eq!(conns[0].dns_name, None);

    assert_eq!(monitor.get_stats().bytes_received, 54);
}

#[test]
fn repeated_packets_keep_one_entry() {
    let mut monitor = NetworkMonitor::new();
    let frame = tcp_frame(6667, 0x02);
    assert!(monitor.process_packet(&frame).is_some());
    assert!(monitor.process_packet(&frame).is_none());
    assert_eq!(monitor.get_active_connections().len(), 1);
    assert_eq!(monitor.get_stats().bytes_received, 108);
}

#[test]
fn short_or_foreign_frames_are_ignored() {
    let mut monitor = NetworkMonitor::new();
    let mut arp = tcp_frame(80, 0);
    arp[12] = 0x08;
    arp[13] = 0x06;
    assert!(monitor.process_packet(&arp).is_none());
    assert!(monitor.process_packet(&vec![0u8; 10]).is_none());
    assert!(monitor.get_active_connections().is_empty());
    // Every frame still counts toward the byte counter.
    assert_eq!(monitor.get_stats().bytes_received, 64);
}

#[test]
fn resolved_name_lands_on_the_connection() {
    let mut monitor = NetworkMonitor::new();
    let key = monitor.process_packet(&tcp_frame(443, 0x02)).unwrap();
    monitor.set_dns_name(key, "files.ngrok.io".to_string());
    let conns = monitor.get_active_connections();
    assert_eq!(conns[0].dns_name.as_deref(), Some("files.ngrok.io"));
}

#[test]
fn suspicious_port_and_domain_are_noted() {
    let mut monitor = NetworkMonitor::new();
    let key = monitor.process_packet(&tcp_frame(4444, 0x02)).unwrap();
    monitor.set_dns_name(key, "files.ngrok.io".to_string());

    let notes = monitor.check_suspicious_activity();
    assert_eq!(notes.len(), 2);
    assert_eq!(notes[0], "Suspicious connection to port 4444 from 1.2.3.4:4444");
    assert_eq!(notes[1], "Connection to suspicious domain: files.ngrok.io");
}

#[test]
fn benign_connections_raise_no_notes() {
    let mut monitor = NetworkMonitor::new();
    let key = monitor.process_packet(&tcp_frame(80, 0x02)).unwrap();
    monitor.set_dns_name(key, "api.github.com".to_string());
    assert!(monitor.check_suspicious_activity().is_empty());
}
