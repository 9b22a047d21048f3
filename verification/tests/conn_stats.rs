use connection::conn_stats::{ConnectionStatTracker, ConnectionStats};
use connection::time::{Duration, Instant};
use connection::utils::rtt::PacketLoss;

fn at(millis: u64) -> Instant {
    Instant { nanos: 77 }.plus(Duration::from_millis(millis))
}

fn ratio(loss: PacketLoss) -> f32 {
    if loss.total == 0 {
        0.0
    } else {
        loss.lost as f32 / loss.total as f32
    }
}

#[test]
fn conn_stats_empty_history_default() {
    let tracker = ConnectionStatTracker::new(10, 10);
    assert_eq!(tracker.get(), ConnectionStats::default());
}

#[test]
fn conn_stats_typical_usage() {
    let mut tracker = ConnectionStatTracker::new(100, 5);

    for i in 0..10u64 {
        tracker.sent(i as u32, at(i * 10));
        tracker.received(i as u32, at(i * 10 + 5 + (i % 3)));
    }

    let stats = tracker.get();
    assert_eq!(ratio(stats.round_trip_packet_loss), 0.0);
    assert!(stats.rtt_avg >= Duration::from_millis(5));
    assert!(stats.rtt_avg <= Duration::from_millis(7));
}

#[test]
fn conn_stats_percentiles() {
    let mut tracker = ConnectionStatTracker::new(100, 5);

    // Send 100 packets with increasing RTTs from 0ms to 99ms. i=rtt
    for i in 0..100u32 {
        tracker.sent(i, at(i as u64));
        tracker.received(i, at(2 * i as u64));
    }

    let stats = tracker.get();
    assert_eq!(ratio(stats.round_trip_packet_loss), 0.0);
    assert_eq!(
        stats,
        ConnectionStats {
            round_trip_packet_loss: PacketLoss { lost: 0, total: 100 },
            rtt_avg: Duration { nanos: 49500 * 1000 }, // 49.5ms (Not 50 because 0 is included but 100 is not)
            rtt_stddev: Duration::from_millis(25),
            rtt_p99: Duration::from_millis(99),
            rtt_p90: Duration::from_millis(90),
            rtt_p75: Duration::from_millis(75),
        }
    );
}

#[test]
fn conn_stats_out_of_order_receive() {
    let mut tracker = ConnectionStatTracker::new(16, 16);

    tracker.sent(1, at(0));
    tracker.sent(2, at(5));
    tracker.sent(3, at(10));

    tracker.received(2, at(15)); // RTT 10
    tracker.received(3, at(30)); // RTT 20
    tracker.received(1, at(30)); // RTT 30

    let stats = tracker.get();
    assert_eq!(ratio(stats.round_trip_packet_loss), 0.0);
    assert_eq!(stats.rtt_avg, Duration::from_millis(20));
}

#[test]
fn conn_stats_lost_packet() {
    let mut tracker = ConnectionStatTracker::new(16, 3);

    // Send 4 packets but max_pending is 3
    tracker.sent(1, at(0));
    tracker.sent(2, at(5));
    tracker.sent(3, at(10));
    tracker.sent(4, at(15)); // This causes packet 1 to be evicted as lost

    tracker.received(3, at(20));
    tracker.received(4, at(25));

    let stats = tracker.get();
    // One loss (packet 1), two successful samples (3 and 4), one still pending (2)
    assert_eq!(ratio(stats.round_trip_packet_loss), 1.0 / 3.0);
    assert_eq!(stats.round_trip_packet_loss, PacketLoss { lost: 1, total: 3 });
}

#[test]
fn conn_stats_receive_unknown_counter() {
    let mut tracker = ConnectionStatTracker::new(16, 16);

    tracker.sent(1, at(0));
    tracker.received(1, at(10));

    // Receive a packet we never sent - should be silently ignored
    tracker.received(999, at(123));

    let stats = tracker.get();
    assert_eq!(ratio(stats.round_trip_packet_loss), 0.0);
    assert_eq!(stats.rtt_avg, Duration::from_millis(10)); // Still the rtt from packet 1
}

#[test]
fn conn_stats_counter_wrapping() {
    let mut tracker = ConnectionStatTracker::new(16, 16);

    let counter1 = u32::MAX;
    let counter2 = 0u32;

    tracker.sent(counter1, at(0));
    tracker.sent(counter2, at(5));

    tracker.received(counter1, at(4));
    tracker.received(counter2, at(11));

    let stats = tracker.get();
    assert_eq!(ratio(stats.round_trip_packet_loss), 0.0);
    assert_eq!(stats.rtt_avg, Duration::from_millis(5));
}

#[test]
fn conn_stats_history_is_bounded() {
    let mut tracker = ConnectionStatTracker::new(2, 16);
    for i in 0..5u32 {
        tracker.sent(i, at(i as u64));
        tracker.received(i, at(3 * i as u64));
    }
    let stats = tracker.get();
    assert_eq!(stats.round_trip_packet_loss.total, 2);
    // The last two round trips took 6 ms and 8 ms
    assert_eq!(stats.rtt_avg, Duration::from_millis(7));
    assert_eq!(stats.rtt_stddev, Duration::from_millis(1));
}

#[test]
fn conn_stats_history_is_a_window() {
    let outcomes = [Some(9), None, Some(4), None, Some(6), Some(2), None, Some(8)];
    let record = |outcomes: &[Option<u64>]| {
        let mut tracker = ConnectionStatTracker::new(3, 1);
        for (i, rtt) in outcomes.iter().enumerate() {
            let sent = 100 * i as u64;
            tracker.sent(i as u32, at(sent));
            if let Some(rtt) = rtt {
                tracker.received(i as u32, at(sent + rtt));
            }
        }
        // The next packet gives up on a lost one
        tracker.sent(1000, at(10_000));
        tracker.get()
    };
    for n in 3..=outcomes.len() {
        assert_eq!(record(&outcomes[..n]), record(&outcomes[n - 3..n]));
    }
    assert_ne!(record(&outcomes[..7]), record(&outcomes[..8]));
}

#[test]
fn conn_stats_forget_the_oldest_outcome() {
    let outcomes: Vec<Option<Duration>> =
        (0..20u64).map(|i| (i % 3 != 0).then_some(Duration::from_millis(i * i))).collect();
    let mut tracker = ConnectionStatTracker::new(6, 2);
    for (i, outcome) in outcomes.iter().enumerate() {
        tracker.push_sample(*outcome);
        let mut fresh = ConnectionStatTracker::new(6, 2);
        for recent in &outcomes[(i + 1).saturating_sub(6)..=i] {
            fresh.push_sample(*recent);
        }
        assert_eq!(tracker.get(), fresh.get());
    }
}
