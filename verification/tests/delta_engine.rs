use singularity_monitor::delta::{compute_counter_delta, DeltaEngine};
use singularity_monitor::poller::InterfaceSnapshot;

fn snapshot(guid: &str, sent: u64, recv: u64) -> InterfaceSnapshot {
    InterfaceSnapshot {
        interface_guid: guid.to_string(),
        interface_name: "Ethernet".to_string(),
        bytes_sent: sent,
        bytes_recv: recv,
        interface_type: 6,
        is_metered: Some(false),
    }
}

#[test]
fn first_observation_has_no_delta() {
    let mut engine = DeltaEngine::new(10_000);
    let deltas = engine.compute(&[snapshot("{if0}", 100, 200)], 1000, 60, 60);
    assert!(deltas.is_empty());
}

#[test]
fn normal_growth_emits_delta() {
    let mut engine = DeltaEngine::new(10_000);
    engine.compute(&[snapshot("{if0}", 100, 200)], 1000, 60, 60);

    let deltas = engine.compute(&[snapshot("{if0}", 180, 260)], 1060, 60, 60);
    assert_eq!(deltas.len(), 1);
    assert_eq!(deltas[0].bytes_sent, 80);
    assert_eq!(deltas[0].bytes_recv, 60);
}

#[test]
fn long_observed_interval_scales_anomaly_budget() {
    let mut engine = DeltaEngine::new(100);
    engine.compute(&[snapshot("{if0}", 100, 100)], 1000, 10, 10);

    let deltas = engine.compute(&[snapshot("{if0}", 400, 400)], 1060, 60, 10);
    assert_eq!(deltas.len(), 1);
    assert_eq!(deltas[0].bytes_sent, 300);
    assert_eq!(deltas[0].bytes_recv, 300);
}

#[test]
fn short_observed_interval_tightens_anomaly_budget() {
    let mut engine = DeltaEngine::new(1_000);
    engine.compute(&[snapshot("{if0}", 100, 100)], 1000, 60, 60);

    let deltas = engine.compute(&[snapshot("{if0}", 400, 400)], 1015, 15, 60);
    assert!(deltas.is_empty());
}

#[test]
fn large_regression_is_suppressed() {
    let mut engine = DeltaEngine::new(1_000);
    engine.compute(&[snapshot("{if0}", 4_000, 4_000)], 1000, 60, 60);

    let deltas = engine.compute(&[snapshot("{if0}", 3_000, 3_100)], 1060, 60, 60);
    assert!(deltas.is_empty());
}

#[test]
fn small_regression_is_treated_as_reset() {
    let mut engine = DeltaEngine::new(1_000);
    engine.compute(&[snapshot("{if0}", 4_000, 4_000)], 1000, 60, 60);

    let deltas = engine.compute(&[snapshot("{if0}", 100, 120)], 1060, 60, 60);
    assert_eq!(deltas.len(), 1);
    assert_eq!(deltas[0].bytes_sent, 100);
    assert_eq!(deltas[0].bytes_recv, 120);
}

#[test]
fn counter_delta_growth_reset_and_budget() {
    assert_eq!(compute_counter_delta(100, 180, 1_000), 80);
    assert_eq!(compute_counter_delta(100, 100, 1_000), 0);
    assert_eq!(compute_counter_delta(100, 2_000, 1_000), 1_900);
    assert_eq!(compute_counter_delta(4_000, 120, 1_000), 120);
    assert_eq!(compute_counter_delta(4_000, 3_000, 1_000), 0);
}

#[test]
fn each_interface_keeps_its_own_counters() {
    let mut engine = DeltaEngine::new(10_000);
    engine.compute(&[snapshot("{a}", 10, 10), snapshot("{b}", 100, 100)], 1000, 60, 60);
    let deltas = engine.compute(&[snapshot("{b}", 150, 170), snapshot("{a}", 15, 30)], 1060, 60, 60);
    assert_eq!(deltas.len(), 2);
    assert_eq!(deltas[0].interface_guid, "{b}");
    assert_eq!((deltas[0].bytes_sent, deltas[0].bytes_recv), (50, 70));
    assert_eq!(deltas[1].interface_guid, "{a}");
    assert_eq!((deltas[1].bytes_sent, deltas[1].bytes_recv), (5, 20));
    assert_eq!(deltas[1].ts, 1060);
    assert_eq!(deltas[1].interval_secs, 60);
}

#[test]
fn idle_interface_emits_nothing() {
    let mut engine = DeltaEngine::new(10_000);
    engine.compute(&[snapshot("{a}", 10, 10)], 1000, 60, 60);
    let deltas = engine.compute(&[snapshot("{a}", 10, 10)], 1060, 60, 60);
    assert!(deltas.is_empty());
}
