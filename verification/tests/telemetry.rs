use ange_gardien::monitor::disk_usage_tenths;
use ange_gardien::monitor::memory_usage_tenths;
use ange_gardien::monitor::sort_processes_by_cpu;
use ange_gardien::text::format_tenths;
use ange_gardien::text::parse_port;
use ange_gardien::text::u64_string;
use ange_gardien::time::seconds_between;
use ange_gardien::time::TimeStamp;
use ange_gardien::AlertSeverity;
use ange_gardien::ProcessInfo;
use ange_gardien::SystemMonitor;
use ange_gardien::SystemState;
use ange_gardien::NetworkStats;

#[test]
fn constructed_states_stay_in_range() {
    let s = SystemState::new(
        TimeStamp::new(1),
        5000,
        1000,
        3,
        NetworkStats::default(),
        Vec::new(),
        Vec::new(),
        None,
    );
    assert_eq!(s.cpu_usage, 1000);
    assert_eq!(s.memory_usage, 1000);
    assert_eq!(s.disk_usage, 3);
}

#[test]
fn process_records_are_normalised() {
    let p = ProcessInfo::new(1, "x".to_string(), 4000, 200, 0);
    assert_eq!(p.cpu_usage, 1000);
    assert_eq!(p.memory_usage, 200);
    assert_eq!(p.threads, 1);
}

#[test]
fn memory_usage_is_a_capped_ratio() {
    assert_eq!(memory_usage_tenths(0, 0), 0);
    assert_eq!(memory_usage_tenths(1, 4), 250);
    assert_eq!(memory_usage_tenths(8, 4), 1000);
    assert_eq!(memory_usage_tenths(1, 3), 333);
}

#[test]
fn disk_usage_averages_nonempty_disks() {
    // A half-full disk and a quarter-full disk average to 37.5 percent,
    // truncated to 37.5 tenths-of-a-percent units.
    let disks = vec![(100u64, 50u64), (100u64, 75u64)];
    assert_eq!(disk_usage_tenths(&disks), 375);
    // Zero-sized disks are skipped.
    let with_empty = vec![(0u64, 0u64), (100u64, 50u64)];
    assert_eq!(disk_usage_tenths(&with_empty), 500);
    assert_eq!(disk_usage_tenths(&Vec::new()), 0);
}

#[test]
fn processes_sort_busiest_first() {
    let ps = vec![
        ProcessInfo::new(1, "a".to_string(), 100, 0, 1),
        ProcessInfo::new(2, "b".to_string(), 900, 0, 1),
        ProcessInfo::new(3, "c".to_string(), 500, 0, 1),
    ];
    let sorted = sort_processes_by_cpu(ps);
    let pids: Vec<u32> = sorted.iter().map(|p| p.pid).collect();
    assert_eq!(pids, vec![2, 3, 1]);
}

#[test]
fn process_history_keeps_one_hour_of_samples() {
    let mut monitor = SystemMonitor::new();
    let p = vec![ProcessInfo::new(1, "a".to_string(), 100, 200, 1)];
    monitor.record_processes(&p, TimeStamp::new(1000));
    monitor.record_processes(&p, TimeStamp::new(2000));
    // The first sample is now 4000 seconds old and falls out of the window.
    monitor.record_processes(&p, TimeStamp::new(5000));

    let history = monitor.get_process_history(1).unwrap();
    assert_eq!(history.timestamp, vec![2000, 5000]);
    assert_eq!(history.cpu_usage, vec![100, 100]);
    assert!(monitor.get_process_history(2).is_none());
}

#[test]
fn decimal_renderings_are_exact() {
    assert_eq!(u64_string(0), "0");
    assert_eq!(u64_string(6667), "6667");
    assert_eq!(u64_string(18446744073709551615), "18446744073709551615");
    assert_eq!(format_tenths(950), "95.0");
    assert_eq!(format_tenths(905), "90.5");
    assert_eq!(format_tenths(7), "0.7");
}

#[test]
fn ports_parse_from_address_strings() {
    assert_eq!(parse_port("1.2.3.4:6667"), 6667);
    assert_eq!(parse_port("1.2.3.4:6667:9"), 6667);
    assert_eq!(parse_port("1.2.3.4"), 0);
    assert_eq!(parse_port("1.2.3.4:"), 0);
    assert_eq!(parse_port("1.2.3.4:port"), 0);
    assert_eq!(parse_port("1.2.3.4:70000"), 0);
}

#[test]
fn severities_escalate_in_order() {
    assert!(AlertSeverity::Low.le(&AlertSeverity::Medium));
    assert!(AlertSeverity::Medium.le(&AlertSeverity::High));
    assert!(AlertSeverity::High.le(&AlertSeverity::Critical));
    assert!(!AlertSeverity::Critical.le(&AlertSeverity::High));
    assert_eq!(AlertSeverity::Low.rank(), 0);
    assert_eq!(AlertSeverity::Critical.rank(), 3);
}

#[test]
fn elapsed_seconds_never_go_negative() {
    assert_eq!(seconds_between(TimeStamp::new(10), TimeStamp::new(4)), 6);
    assert_eq!(seconds_between(TimeStamp::new(4), TimeStamp::new(10)), 0);
    assert_eq!(
        seconds_between(TimeStamp::new(i64::MAX), TimeStamp::new(i64::MIN)),
        i64::MAX
    );
}
