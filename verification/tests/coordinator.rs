use ange_gardien::time::TimeStamp;
use ange_gardien::AlertSeverity;
use ange_gardien::AngeGardien;
use ange_gardien::NetworkStats;
use ange_gardien::SystemState;
use ange_gardien::TelemetryReading;

fn reading(cpu: u32, mem: u32, disk: u32) -> TelemetryReading {
    TelemetryReading {
        cpu_usage: cpu,
        memory_usage: mem,
        disk_usage: disk,
        processes: Vec::new(),
        metrics: None,
    }
}

fn same_snapshot(a: &SystemState, b: &SystemState) -> bool {
    a.timestamp == b.timestamp
        && a.cpu_usage == b.cpu_usage
        && a.memory_usage == b.memory_usage
        && a.disk_usage == b.disk_usage
        && a.active_processes.len() == b.active_processes.len()
        && a.security_alerts.len() == b.security_alerts.len()
}

#[test]
fn test_ange_gardien_creation() {
    let guardian = AngeGardien::new();
    assert_eq!(guardian.get_current_state().cpu_usage, 0);
}

#[test]
fn test_system_state_update() {
    let guardian = AngeGardien::new();
    let initial_state = guardian.get_current_state();
    assert_eq!(initial_state.active_processes.len(), 0);
}

#[test]
fn reads_between_cycles_are_identical() {
    let mut guardian = AngeGardien::new();
    guardian.update_system_state(
        TimeStamp::new(5),
        reading(300, 400, 500),
        NetworkStats::default(),
        &Vec::new(),
    );
    let first = guardian.get_current_state();
    let second = guardian.get_current_state();
    assert!(same_snapshot(&first, &second));
}

#[test]
fn published_usage_figures_are_capped() {
    let mut guardian = AngeGardien::new();
    guardian.update_system_state(
        TimeStamp::new(5),
        reading(2000, 1500, 999),
        NetworkStats::default(),
        &Vec::new(),
    );
    let state = guardian.get_current_state();
    assert_eq!(state.timestamp.secs, 5);
    assert_eq!(state.cpu_usage, 1000);
    assert_eq!(state.memory_usage, 1000);
    assert_eq!(state.disk_usage, 999);
}

#[test]
fn policy_violation_becomes_one_high_alert() {
    let mut guardian = AngeGardien::new();
    guardian.update_system_state(
        TimeStamp::new(5),
        reading(950, 100, 100),
        NetworkStats::default(),
        &Vec::new(),
    );
    let state = guardian.get_current_state();
    assert_eq!(state.security_alerts.len(), 1);
    let alert = &state.security_alerts[0];
    assert_eq!(alert.severity, AlertSeverity::High);
    assert_eq!(alert.source, "Security Policy Check");
    assert!(alert.description.contains("CPU usage too high: 95.0% (max: 90.0%)"));
    assert_eq!(alert.recommendation, None);
}

#[test]
fn alerts_are_persisted_and_queryable() {
    let mut guardian = AngeGardien::new();
    for i in 0..3 {
        guardian.update_system_state(
            TimeStamp::new(10 + i),
            reading(950, 100, 100),
            NetworkStats::default(),
            &Vec::new(),
        );
    }
    let alerts = guardian.get_alerts(TimeStamp::new(10));
    assert_eq!(alerts.len(), 2);
    assert_eq!(alerts[0].timestamp.secs, 12);
    assert_eq!(alerts[1].timestamp.secs, 11);
}

#[test]
fn quiet_cycles_raise_no_alerts() {
    let mut guardian = AngeGardien::new();
    guardian.update_system_state(
        TimeStamp::new(5),
        reading(300, 400, 500),
        NetworkStats::default(),
        &Vec::new(),
    );
    assert!(guardian.get_current_state().security_alerts.is_empty());
    assert!(guardian.get_alerts(TimeStamp::new(0)).is_empty());
}
