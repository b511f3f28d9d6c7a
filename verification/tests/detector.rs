use ange_gardien::time::TimeStamp;
use ange_gardien::AnomalyDetector;
use ange_gardien::AlertSeverity;
use ange_gardien::NetworkStats;
use ange_gardien::SystemState;

fn plain_state(secs: i64, cpu: u32, mem: u32, disk: u32) -> SystemState {
    SystemState::new(
        TimeStamp::new(secs),
        cpu,
        mem,
        disk,
        NetworkStats::default(),
        Vec::new(),
        Vec::new(),
        None,
    )
}

#[test]
fn test_anomaly_detector() {
    let mut detector = AnomalyDetector::new();

    for _ in 0..10 {
        detector.add_state(plain_state(1, 300, 400, 500));
    }
    detector.add_state(plain_state(2, 950, 900, 950));

    let alerts = detector.detect_anomalies(TimeStamp::new(3));
    assert!(!alerts.is_empty());
}

#[test]
fn anomalous_state_raises_one_medium_alert() {
    let mut detector = AnomalyDetector::new();
    for _ in 0..10 {
        detector.add_state(plain_state(1, 300, 400, 500));
    }
    detector.add_state(plain_state(2, 950, 900, 950));

    let alerts = detector.detect_anomalies(TimeStamp::new(7));
    assert_eq!(alerts.len(), 1);
    assert_eq!(alerts[0].severity, AlertSeverity::Medium);
    assert_eq!(alerts[0].description, "Anomalous system behavior detected");
    assert_eq!(alerts[0].source, "AnomalyDetector");
    assert_eq!(
        alerts[0].recommendation.as_deref(),
        Some("Investigate unusual system activity")
    );
    assert_eq!(alerts[0].timestamp.secs, 7);
}

#[test]
fn normal_state_raises_no_alert() {
    let mut detector = AnomalyDetector::new();
    for _ in 0..10 {
        detector.add_state(plain_state(1, 300, 400, 500));
    }
    detector.add_state(plain_state(2, 300, 400, 500));

    let alerts = detector.detect_anomalies(TimeStamp::new(3));
    assert!(alerts.is_empty());
}

#[test]
fn fewer_than_ten_states_detect_nothing() {
    let mut detector = AnomalyDetector::new();
    for _ in 0..9 {
        detector.add_state(plain_state(1, 950, 900, 950));
    }
    assert!(detector.detect_anomalies(TimeStamp::new(2)).is_empty());
}

#[test]
fn history_is_capped_at_one_thousand() {
    let mut detector = AnomalyDetector::new();
    for i in 0..1001 {
        detector.add_state(plain_state(i, 300, 400, 500));
    }
    assert_eq!(detector.history_len(), 1000);
    detector.add_state(plain_state(1001, 300, 400, 500));
    assert_eq!(detector.history_len(), 1000);
}

#[test]
fn model_trains_once_and_is_not_refreshed() {
    let mut detector = AnomalyDetector::new();
    for _ in 0..10 {
        detector.add_state(plain_state(1, 300, 400, 500));
    }
    // First detection trains the model on the ten quiet samples.
    assert!(detector.detect_anomalies(TimeStamp::new(2)).is_empty());

    // A long run of busy samples would dominate a retrained model, but the
    // model keeps its first baseline, so the busy samples still score as
    // anomalous.
    for i in 0..100 {
        detector.add_state(plain_state(3 + i, 950, 900, 950));
    }
    let alerts = detector.detect_anomalies(TimeStamp::new(200));
    assert_eq!(alerts.len(), 1);
}
