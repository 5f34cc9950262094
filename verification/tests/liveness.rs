use mesh_ai_node::liveness::LivenessEvent;
use mesh_ai_node::liveness::LivenessMonitor;
use mesh_ai_node::liveness::ProbeState;
use mesh_ai_node::liveness::PROBE_INTERVAL_MS;
use mesh_ai_node::liveness::PROBE_TIMEOUT_MS;

#[test]
fn probe_times_are_fixed() {
    assert_eq!(PROBE_INTERVAL_MS, 15_000);
    assert_eq!(PROBE_TIMEOUT_MS, 20_000);
}

#[test]
fn first_probe_is_due_one_interval_after_the_start() {
    let mut monitor = LivenessMonitor::started(1_000);
    assert_eq!(monitor.state, ProbeState::Resting { next_probe_at: 16_000 });
    assert_eq!(monitor.poll(15_999, 7), None);
    assert_eq!(monitor.poll(16_000, 7), Some(LivenessEvent::SendProbe(7)));
    assert_eq!(monitor.state, ProbeState::Awaiting { nonce: 7, sent_at: 16_000 });
}

#[test]
fn echo_of_the_nonce_gives_the_round_trip() {
    let mut monitor = LivenessMonitor::started(0);
    assert_eq!(monitor.poll(15_000, 42), Some(LivenessEvent::SendProbe(42)));
    assert_eq!(monitor.echo(41, 15_010), None);
    assert_eq!(monitor.echo(42, 15_035), Some(LivenessEvent::RoundTrip(35)));
    assert_eq!(monitor.state, ProbeState::Resting { next_probe_at: 30_035 });
    assert_eq!(monitor.failures_in_a_row, 0);
    assert_eq!(monitor.echo(42, 15_040), None);
}

#[test]
fn missed_echo_is_a_failure_and_the_monitor_goes_on() {
    let mut monitor = LivenessMonitor::started(0);
    assert_eq!(monitor.poll(15_000, 1), Some(LivenessEvent::SendProbe(1)));
    assert_eq!(monitor.poll(34_999, 2), None);
    assert_eq!(monitor.poll(35_000, 2), Some(LivenessEvent::Failure));
    assert_eq!(monitor.failures_in_a_row, 1);
    assert_eq!(monitor.state, ProbeState::Resting { next_probe_at: 50_000 });
    assert_eq!(monitor.echo(1, 35_001), None);
    assert_eq!(monitor.poll(50_000, 3), Some(LivenessEvent::SendProbe(3)));
    assert_eq!(monitor.poll(70_000, 4), Some(LivenessEvent::Failure));
    assert_eq!(monitor.failures_in_a_row, 2);
    assert_eq!(monitor.poll(85_000, 5), Some(LivenessEvent::SendProbe(5)));
    assert_eq!(monitor.echo(5, 85_001), Some(LivenessEvent::RoundTrip(1)));
    assert_eq!(monitor.failures_in_a_row, 0);
}

#[test]
fn late_echo_is_not_a_round_trip() {
    let mut monitor = LivenessMonitor::started(0);
    monitor.poll(15_000, 9);
    assert_eq!(monitor.echo(9, 35_000), None);
    assert_eq!(monitor.echo(9, 34_999), Some(LivenessEvent::RoundTrip(19_999)));
}

#[test]
fn times_stop_at_the_largest_time() {
    let mut monitor = LivenessMonitor::started(u64::MAX - 5);
    assert_eq!(monitor.state, ProbeState::Resting { next_probe_at: u64::MAX });
    assert_eq!(monitor.poll(u64::MAX, 1), Some(LivenessEvent::SendProbe(1)));
    assert_eq!(monitor.echo(1, u64::MAX), Some(LivenessEvent::RoundTrip(0)));
    assert_eq!(monitor.state, ProbeState::Resting { next_probe_at: u64::MAX });
}
