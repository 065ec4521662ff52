use failover::monitor::GAP_OFFSET;
use failover::monitor::Liveness;
use failover::monitor::Monitor;
use failover::producer::Producer;
use failover::signal::Signal;

#[test]
fn success_signal_resets_liveness() {
    // From the armed state, a success heartbeat returns the monitor to
    // healthy and adopts the reported count.
    let mut m = Monitor::new();
    assert_eq!(m.state, Liveness::Healthy);
    assert_eq!(m.count, 0);

    assert_eq!(m.on_sweep(), None);
    assert_eq!(m.state, Liveness::Armed);

    assert_eq!(m.on_message(b"success:9"), None);
    assert_eq!(m.state, Liveness::Healthy);
    assert_eq!(m.count, 9);
}

#[test]
fn fail_signal_promotes_at_once() {
    // An explicit failure report promotes synchronously, without any
    // sweep having run first.
    let mut m = Monitor::new();
    assert_eq!(m.on_signal(Signal::Fail(3)), Some(3));
    assert_eq!(m.count, 3);
}

#[test]
fn deadman_switch_takes_two_silent_sweeps() {
    // Freshly healthy: the first sweep arms, the second detects death
    // and seeds the promotion with the count advanced by the gap offset.
    let mut m = Monitor::new();
    assert_eq!(m.on_message(b"success:10"), None);
    assert_eq!(m.on_sweep(), None);
    assert_eq!(m.state, Liveness::Armed);
    assert_eq!(m.on_sweep(), Some(10 + GAP_OFFSET));
    assert_eq!(m.count, 10 + GAP_OFFSET);
}

#[test]
fn malformed_messages_change_nothing() {
    let mut m = Monitor::new();
    assert_eq!(m.on_message(b"success:4"), None);
    assert_eq!(m.on_sweep(), None);
    let before = m;
    // Zero colons, two colons, non-numeric counts.
    assert_eq!(m.on_message(b"success"), None);
    assert_eq!(m.on_message(b"success:4:4"), None);
    assert_eq!(m.on_message(b"success:four"), None);
    assert_eq!(m.on_message(b""), None);
    assert_eq!(m, before);
    assert_eq!(m.state, Liveness::Armed);
    assert_eq!(m.count, 4);
}

#[test]
fn promotion_counter_wraps_like_the_machine_word() {
    let mut m = Monitor::new();
    assert_eq!(m.on_signal(Signal::Success(u64::MAX)), None);
    assert_eq!(m.on_sweep(), None);
    assert_eq!(m.on_sweep(), Some(1));
    assert_eq!(m.count, 1);
}

#[test]
fn healthy_stream_then_silence() {
    // Start the monitor, hear success:0, success:1, success:2 at one
    // time unit spacing while the sweep fires every two units, then go
    // silent: promotion comes within two sweep intervals of the last
    // signal, and the promoted producer's first record resumes at least
    // at 2 plus the gap offset.
    let mut m = Monitor::new();
    assert_eq!(m.on_message(b"success:0"), None);
    assert_eq!(m.on_message(b"success:1"), None);
    assert_eq!(m.on_sweep(), None); // arms between the heartbeats
    assert_eq!(m.on_message(b"success:2"), None); // clears suspicion again
    assert_eq!(m.state, Liveness::Healthy);

    // Silence from here on.
    assert_eq!(m.on_sweep(), None); // first silent sweep arms
    let promoted = m.on_sweep(); // second silent sweep detects death
    assert_eq!(promoted, Some(2 + GAP_OFFSET));

    let mut standby = Producer::new(promoted.unwrap(), "Slave".to_owned());
    let (record, _beat) = standby.cycle();
    assert!(record.count >= 2 + GAP_OFFSET);
    assert_eq!(record.node_id, "Slave".to_owned());
}

#[test]
fn fail_as_the_very_first_signal() {
    // fail:5 before any sweep has run: promotion is immediate and the
    // standby's first record carries at least count 5.
    let mut m = Monitor::new();
    let promoted = m.on_message(b"fail:5");
    assert_eq!(promoted, Some(5));

    let mut standby = Producer::new(promoted.unwrap(), "Slave".to_owned());
    let (record, _beat) = standby.cycle();
    assert!(record.count >= 5);
}
