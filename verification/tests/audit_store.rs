use ange_gardien::time::TimeStamp;
use ange_gardien::AlertSeverity;
use ange_gardien::Database;
use ange_gardien::NetworkStats;
use ange_gardien::SecurityAlert;
use ange_gardien::SystemState;

fn alert_at(secs: i64, text: &str) -> SecurityAlert {
    SecurityAlert {
        timestamp: TimeStamp::new(secs),
        severity: AlertSeverity::Low,
        description: text.to_string(),
        source: "test".to_string(),
        recommendation: None,
    }
}

fn state_at(secs: i64, cpu: u32, mem: u32, disk: u32, alerts: Vec<SecurityAlert>) -> SystemState {
    SystemState::new(
        TimeStamp::new(secs),
        cpu,
        mem,
        disk,
        NetworkStats::default(),
        Vec::new(),
        alerts,
        None,
    )
}

#[test]
fn test_database_creation() {
    let db = Database::new();
    assert!(db.get_system_states(1).is_empty());
}

#[test]
fn test_store_and_retrieve_state() {
    let mut db = Database::new();
    let state = state_at(1, 500, 600, 700, Vec::new());
    db.store_state(&state);
    let states = db.get_system_states(1);
    assert_eq!(states.len(), 1);
}

#[test]
fn alerts_since_returns_newer_alerts_newest_first() {
    let mut db = Database::new();
    let t1: i64 = 100;
    let t2: i64 = 200;
    let t3: i64 = 300;
    let state = state_at(
        t3,
        100,
        100,
        100,
        vec![alert_at(t1, "a1"), alert_at(t2, "a2"), alert_at(t3, "a3")],
    );
    db.store_state(&state);

    let alerts = db.get_alerts_since(TimeStamp::new(t1));
    assert_eq!(alerts.len(), 2);
    assert_eq!(alerts[0].timestamp.secs, t3);
    assert_eq!(alerts[0].description, "a3");
    assert_eq!(alerts[1].timestamp.secs, t2);
    assert_eq!(alerts[1].description, "a2");
}

#[test]
fn states_come_back_newest_first_up_to_the_limit() {
    let mut db = Database::new();
    db.store_state(&state_at(10, 100, 100, 100, Vec::new()));
    db.store_state(&state_at(30, 300, 300, 300, Vec::new()));
    db.store_state(&state_at(20, 200, 200, 200, Vec::new()));

    let states = db.get_system_states(2);
    assert_eq!(states.len(), 2);
    assert_eq!(states[0].timestamp.secs, 30);
    assert_eq!(states[1].timestamp.secs, 20);

    let all = db.get_system_states(10);
    assert_eq!(all.len(), 3);
    assert_eq!(all[2].timestamp.secs, 10);
}

#[test]
fn cleanup_drops_only_older_records() {
    let mut db = Database::new();
    db.store_state(&state_at(10, 100, 100, 100, vec![alert_at(10, "old")]));
    db.store_state(&state_at(20, 200, 200, 200, vec![alert_at(20, "new")]));
    db.cleanup_old_records(TimeStamp::new(20));

    let states = db.get_system_states(10);
    assert_eq!(states.len(), 1);
    assert_eq!(states[0].timestamp.secs, 20);

    let alerts = db.get_alerts_since(TimeStamp::new(0));
    assert_eq!(alerts.len(), 1);
    assert_eq!(alerts[0].description, "new");
}

#[test]
fn statistics_average_the_matching_records() {
    let mut db = Database::new();
    db.store_state(&state_at(10, 500, 400, 300, vec![alert_at(10, "x")]));
    db.store_state(&state_at(20, 700, 600, 500, Vec::new()));

    let stats = db.get_statistics(TimeStamp::new(5));
    assert_eq!(stats.total_records, 2);
    assert_eq!(stats.avg_cpu_usage, 600);
    assert_eq!(stats.avg_memory_usage, 500);
    assert_eq!(stats.avg_disk_usage, 400);
    assert_eq!(stats.alert_count, 1);

    let later = db.get_statistics(TimeStamp::new(15));
    assert_eq!(later.total_records, 1);
    assert_eq!(later.avg_cpu_usage, 700);
    assert_eq!(later.alert_count, 0);

    let none = db.get_statistics(TimeStamp::new(100));
    assert_eq!(none.total_records, 0);
    assert_eq!(none.avg_cpu_usage, 0);
}
