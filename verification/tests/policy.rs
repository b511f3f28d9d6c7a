use ange_gardien::network::ConnectionInfo;
use ange_gardien::network::ConnectionState;
use ange_gardien::network::Protocol;
use ange_gardien::security::content_hash;
use ange_gardien::security::ProcessFact;
use ange_gardien::time::TimeStamp;
use ange_gardien::NetworkStats;
use ange_gardien::ProcessInfo;
use ange_gardien::SecurityManager;
use ange_gardien::SystemState;

fn state_with(
    cpu: u32,
    mem: u32,
    disk: u32,
    processes: Vec<ProcessInfo>,
    connections: Vec<ConnectionInfo>,
) -> SystemState {
    let network_stats = NetworkStats {
        bytes_sent: 0,
        bytes_received: 0,
        connections,
        suspicious_activity: Vec::new(),
    };
    SystemState::new(
        TimeStamp::new(1),
        cpu,
        mem,
        disk,
        network_stats,
        processes,
        Vec::new(),
        None,
    )
}

#[test]
fn test_security_manager_creation() {
    let manager = SecurityManager::new();
    assert!(manager.policies().max_cpu_usage > 0);
}

#[test]
fn test_policy_violation_detection() {
    let mut manager = SecurityManager::new();
    let state = state_with(950, 500, 700, Vec::new(), Vec::new());
    let violation = manager.check_policies(&state, &Vec::new());
    assert!(violation.is_some());
}

#[test]
fn cpu_violation_message_is_exact() {
    let mut manager = SecurityManager::new();
    let state = state_with(950, 500, 700, Vec::new(), Vec::new());
    let violation = manager.check_policies(&state, &Vec::new()).unwrap();
    assert!(violation.contains("CPU usage too high: 95.0% (max: 90.0%)"));
}

#[test]
fn memory_violation_message_is_exact() {
    let mut manager = SecurityManager::new();
    let state = state_with(100, 905, 700, Vec::new(), Vec::new());
    let violation = manager.check_policies(&state, &Vec::new()).unwrap();
    assert!(violation.contains("Memory usage too high: 90.5% (max: 90.0%)"));
}

#[test]
fn quiet_state_raises_no_violation() {
    let mut manager = SecurityManager::new();
    let state = state_with(100, 200, 300, Vec::new(), Vec::new());
    assert!(manager.check_policies(&state, &Vec::new()).is_none());
}

#[test]
fn unauthorized_port_is_reported() {
    let mut manager = SecurityManager::new();
    let conn = ConnectionInfo {
        local_addr: "10.0.0.1:5555".to_string(),
        remote_addr: "1.2.3.4:6667".to_string(),
        protocol: Protocol::TCP,
        state: ConnectionState::Established,
        process_id: None,
        dns_name: None,
    };
    let state = state_with(100, 200, 300, Vec::new(), vec![conn]);
    let violation = manager.check_policies(&state, &Vec::new()).unwrap();
    assert!(violation.contains("Unauthorized network connection to port 6667"));
    assert!(violation.contains("(1.2.3.4:6667)"));
}

#[test]
fn allowed_port_is_not_reported() {
    let mut manager = SecurityManager::new();
    let conn = ConnectionInfo {
        local_addr: "10.0.0.1:5555".to_string(),
        remote_addr: "1.2.3.4:443".to_string(),
        protocol: Protocol::TCP,
        state: ConnectionState::Established,
        process_id: None,
        dns_name: None,
    };
    let state = state_with(100, 200, 300, Vec::new(), vec![conn]);
    assert!(manager.check_policies(&state, &Vec::new()).is_none());
}

#[test]
fn unauthorized_domain_is_reported() {
    let mut manager = SecurityManager::new();
    let conn = ConnectionInfo {
        local_addr: "10.0.0.1:5555".to_string(),
        remote_addr: "1.2.3.4:443".to_string(),
        protocol: Protocol::TCP,
        state: ConnectionState::Established,
        process_id: None,
        dns_name: Some("evil.example".to_string()),
    };
    let state = state_with(100, 200, 300, Vec::new(), vec![conn]);
    let violation = manager.check_policies(&state, &Vec::new()).unwrap();
    assert!(violation.contains("Connection to unauthorized domain: evil.example"));
}

#[test]
fn suspicious_process_name_is_reported() {
    let mut manager = SecurityManager::new();
    let p = ProcessInfo::new(42, "tcpdump".to_string(), 10, 10, 1);
    let state = state_with(100, 200, 300, vec![p], Vec::new());
    let violation = manager.check_policies(&state, &Vec::new()).unwrap();
    assert!(violation.contains("Suspicious process detected: tcpdump (PID: 42)"));
}

#[test]
fn integrity_baseline_then_mismatch_then_new_baseline() {
    let mut manager = SecurityManager::new();
    let p = ProcessInfo::new(100, "daemon".to_string(), 10, 10, 1);
    let state = state_with(100, 200, 300, vec![p], Vec::new());

    let fact = |hash: &str| {
        vec![ProcessFact {
            pid: 100,
            exe_path: None,
            signing_authority: None,
            hash: Some(hash.to_string()),
        }]
    };

    // First observation: the hash becomes the baseline, no violation.
    assert!(manager.check_policies(&state, &fact("H1")).is_none());
    // A different hash against the recorded baseline is a violation.
    let violation = manager.check_policies(&state, &fact("H2")).unwrap();
    assert!(violation.contains("Process binary has been modified"));
    assert!(violation.contains("daemon (PID: 100)"));
    // The new hash became the baseline, so seeing it again is clean.
    assert!(manager.check_policies(&state, &fact("H2")).is_none());
}

#[test]
fn codesign_verdict_is_cached_by_path() {
    let mut manager = SecurityManager::new();
    let p = ProcessInfo::new(7, "daemon".to_string(), 10, 10, 1);
    let state = state_with(100, 200, 300, vec![p], Vec::new());

    let fact = |authority: Option<&str>| {
        vec![ProcessFact {
            pid: 7,
            exe_path: Some("/opt/daemon".to_string()),
            signing_authority: authority.map(str::to_string),
            hash: None,
        }]
    };

    // First sight of the path records an untrusted verdict, since the
    // authority matches no allowed one.
    let violation = manager
        .check_policies(&state, &fact(Some("Homebrew")))
        .unwrap();
    assert!(violation.contains("Code signing verification failed for daemon (PID: 7)"));
    assert!(violation.contains("Invalid code signature"));
    // The cached verdict wins even when a fresh verdict would pass.
    let violation = manager
        .check_policies(&state, &fact(Some("Developer ID Application: Xyz")))
        .unwrap();
    assert!(violation.contains("Code signing verification failed for daemon (PID: 7)"));
}

#[test]
fn allowed_signing_authority_passes() {
    let mut manager = SecurityManager::new();
    let p = ProcessInfo::new(8, "daemon".to_string(), 10, 10, 1);
    let state = state_with(100, 200, 300, vec![p], Vec::new());
    let facts = vec![ProcessFact {
        pid: 8,
        exe_path: Some("/opt/daemon".to_string()),
        signing_authority: Some("Developer ID Application: Xyz".to_string()),
        hash: None,
    }];
    assert!(manager.check_policies(&state, &facts).is_none());
}

#[test]
fn vanished_process_passes_both_checks() {
    let mut manager = SecurityManager::new();
    let p = ProcessInfo::new(9, "daemon".to_string(), 10, 10, 1);
    let state = state_with(100, 200, 300, vec![p], Vec::new());
    // No fact recorded for pid 9 at all: both trust checks pass.
    assert!(manager.check_policies(&state, &Vec::new()).is_none());
}

#[test]
fn violations_are_joined_in_order() {
    let mut manager = SecurityManager::new();
    let p = ProcessInfo::new(42, "nmap".to_string(), 10, 10, 1);
    let state = state_with(950, 200, 300, vec![p], Vec::new());
    let violation = manager.check_policies(&state, &Vec::new()).unwrap();
    let cpu_at = violation.find("CPU usage too high").unwrap();
    let name_at = violation.find("Suspicious process detected").unwrap();
    assert!(cpu_at < name_at);
    assert!(violation.contains("; "));
}

#[test]
fn check_network_connection_requires_domain_and_port() {
    let manager = SecurityManager::new();
    assert!(manager.check_network_connection(&"api.github.com".to_string(), 443));
    assert!(!manager.check_network_connection(&"evil.example".to_string(), 443));
    assert!(!manager.check_network_connection(&"api.github.com".to_string(), 6667));
}

#[test]
fn check_process_signature_requires_allowed_path() {
    let manager = SecurityManager::new();
    assert!(manager.check_process_signature(&"/usr/bin/true".to_string(), true));
    assert!(!manager.check_process_signature(&"/usr/bin/true".to_string(), false));
    assert!(!manager.check_process_signature(&"/home/user/x".to_string(), true));
}

#[test]
fn check_file_access_requires_both_paths_allowed() {
    let manager = SecurityManager::new();
    assert!(manager.check_file_access(&"/bin/ls".to_string(), &"/usr/bin/sh".to_string()));
    assert!(!manager.check_file_access(&"/tmp/x".to_string(), &"/usr/bin/sh".to_string()));
    assert!(!manager.check_file_access(&"/bin/ls".to_string(), &"/tmp/sh".to_string()));
}

#[test]
fn content_hash_matches_known_digest() {
    assert_eq!(
        content_hash(b"hello"),
        "LPJNul+wow4m6DsqxbninhsWHlwfp0JecwQzYpOLmCQ="
    );
    assert_eq!(
        content_hash(b""),
        "47DEQpj8HBSa+/TImW+5JCeuQeRkm5NMpJWZG3hSuFU="
    );
}
