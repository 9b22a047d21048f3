use connection::time::{Duration, Instant};
use connection::transceivers::address::RobotTransceiverAddress;
use connection::utils::metrics_analyzer::{ConnectionMetrics, MetricsAnalyzer};
use connection::utils::metrics_tracker::{MetricsSample, MetricsTracker};
use connection::utils::rtt::{index_of_percentile, PacketLoss, P75, P90, P99};
use connection::ConnectionDriverEvent;

// Shorthand to avoid the useless generics
type DriverEvent = ConnectionDriverEvent<(), ()>;

const START: Instant = Instant { nanos: 1_000 };

fn after(millis: u64) -> Instant {
    START.plus(Duration::from_millis(millis))
}

fn sample(sent_millis: u64, received_millis: u64) -> Option<MetricsSample> {
    assert!(received_millis >= sent_millis);
    Some(MetricsSample {
        sent_time: after(sent_millis),
        rtt: Some(Duration::from_millis(received_millis - sent_millis)),
    })
}

fn loss(sent_millis: u64) -> Option<MetricsSample> {
    Some(MetricsSample { sent_time: after(sent_millis), rtt: None })
}

// ======== Analyzer ========

#[test]
fn unknown_id_none() {
    let analyzer = MetricsAnalyzer::new(10);
    assert_eq!(analyzer.get(0), None);
}

#[test]
fn metrics_analyzer_empty_history_default() {
    let mut analyzer = MetricsAnalyzer::new(10);
    analyzer.update(&DriverEvent::Connected(0, RobotTransceiverAddress::Test(0)));
    assert_eq!(analyzer.get(0), Some(ConnectionMetrics::default()));
}

#[test]
fn metrics_analyzer_percentiles() {
    let mut analyzer = MetricsAnalyzer::new(100);

    analyzer.update(&DriverEvent::Connected(0, RobotTransceiverAddress::Test(0)));

    // Send 100 packets with increasing RTTs from 0ms to 99ms. i=rtt
    for i in 0..100u64 {
        analyzer.update(&DriverEvent::MetricsSample(
            0,
            MetricsSample { sent_time: after(i), rtt: Some(Duration::from_millis(i)) },
        ));
    }

    assert_eq!(
        analyzer.get(0),
        Some(ConnectionMetrics {
            round_trip_packet_loss: PacketLoss { lost: 0, total: 100 },
            rtt_avg: Duration { nanos: 49500 * 1000 }, // 49.5ms (Not 50 because 0 is included but 100 is not)
            rtt_stddev: Duration::from_millis(25),
            rtt_p99: Duration::from_millis(99),
            rtt_p90: Duration::from_millis(90),
            rtt_p75: Duration::from_millis(75),
        })
    );
}

#[test]
fn metrics_analyzer_counts_losses() {
    let mut analyzer = MetricsAnalyzer::new(3);
    analyzer.update(&DriverEvent::Connected(2, RobotTransceiverAddress::Test(2)));
    for rtt in [Some(1), None, Some(4), Some(6), None] {
        analyzer.update(&DriverEvent::MetricsSample(
            2,
            MetricsSample { sent_time: START, rtt: rtt.map(Duration::from_millis) },
        ));
    }
    // Only the last three samples count: 4 ms, 6 ms, lost
    let metrics = analyzer.get(2).unwrap();
    assert_eq!(metrics.round_trip_packet_loss, PacketLoss { lost: 1, total: 3 });
    assert_eq!(metrics.rtt_avg, Duration::from_millis(5));
    assert_eq!(metrics.rtt_stddev, Duration::from_millis(1));
    assert_eq!(analyzer.iter(), vec![(2, metrics)]);

    analyzer.update(&DriverEvent::Disconnected(2));
    assert_eq!(analyzer.get(2), None);
    assert!(analyzer.iter().is_empty());
}

#[test]
fn metrics_analyzer_reconnect_resets() {
    let mut analyzer = MetricsAnalyzer::new(3);
    let connected = DriverEvent::Connected(2, RobotTransceiverAddress::Test(2));
    analyzer.update(&connected);
    analyzer.update(&DriverEvent::MetricsSample(2, loss(0).unwrap()));
    assert_eq!(analyzer.get(2).unwrap().round_trip_packet_loss.lost, 1);
    analyzer.update(&connected);
    assert_eq!(analyzer.get(2), Some(ConnectionMetrics::default()));
}

#[test]
fn percentile_indices_are_those_of_single_precision() {
    for (factor, f) in [(P99, 0.99f32), (P90, 0.90f32), (P75, 0.75f32)] {
        for len in (1..5000usize).chain([16_777_216, 16_777_217, 33_554_433, 4_294_967_295]) {
            assert_eq!(
                index_of_percentile(len, factor),
                (len as f32 * f) as usize,
                "length {len}"
            );
        }
    }
}

#[test]
fn lost_only_has_no_round_trips() {
    let mut analyzer = MetricsAnalyzer::new(5);
    analyzer.update(&DriverEvent::Connected(0, RobotTransceiverAddress::Test(0)));
    analyzer.update(&DriverEvent::MetricsSample(0, loss(3).unwrap()));
    let metrics = analyzer.get(0).unwrap();
    assert_eq!(metrics.round_trip_packet_loss, PacketLoss { lost: 1, total: 1 });
    assert_eq!(metrics.rtt_avg, Duration::default());
    assert_eq!(metrics.rtt_p75, Duration::default());
}

#[test]
fn summaries_are_ordered() {
    let mut analyzer = MetricsAnalyzer::new(50);
    analyzer.update(&DriverEvent::Connected(0, RobotTransceiverAddress::Test(0)));
    let mut x = 12345u64;
    for _ in 0..80 {
        x = x.wrapping_mul(6364136223846793005).wrapping_add(1442695040888963407);
        let rtt = if x % 7 == 0 { None } else { Some(Duration { nanos: x >> 40 }) };
        let sample = MetricsSample { sent_time: START, rtt };
        analyzer.update(&DriverEvent::MetricsSample(0, sample));
        let m = analyzer.get(0).unwrap();
        assert!(m.rtt_p75 <= m.rtt_p90 && m.rtt_p90 <= m.rtt_p99);
        assert!(m.round_trip_packet_loss.lost <= m.round_trip_packet_loss.total);
        assert!(m.round_trip_packet_loss.total <= 50);
    }
}

// ======== Tracker ========

/// Collects the samples in the order in which they come.
struct Collected {
    tracker: MetricsTracker,
    samples: Vec<MetricsSample>,
}

impl Collected {
    fn new(max_pending: usize) -> Self {
        Collected { tracker: MetricsTracker::new(max_pending), samples: Vec::new() }
    }

    fn sent(&mut self, counter: u32, time: Instant) {
        self.samples.extend(self.tracker.sent(counter, time));
    }

    fn received(&mut self, counter: u32, time: Instant) {
        self.samples.extend(self.tracker.received(counter, time));
    }

    fn next(&mut self) -> Option<MetricsSample> {
        if self.samples.is_empty() {
            None
        } else {
            Some(self.samples.remove(0))
        }
    }
}

#[test]
fn metrics_tracker_typical_usage() {
    let mut t = Collected::new(5);

    for i in 0..10u64 {
        t.sent(i as u32, after(i * 10));
        t.received(i as u32, after(i * 10 + 5 + (i % 3)));
    }

    for i in 0..10u64 {
        assert_eq!(t.next(), sample(i * 10, (i * 10) + (5 + (i % 3))));
    }
    assert!(t.samples.is_empty());
}

#[test]
fn metrics_tracker_out_of_order_receive() {
    let mut t = Collected::new(5);

    t.sent(1, START);
    t.sent(2, after(5));
    t.sent(3, after(10));

    t.received(2, after(15));
    t.received(3, after(30));
    t.received(1, after(30));

    assert_eq!(t.next(), sample(5, 15)); // 2
    assert_eq!(t.next(), sample(10, 30)); // 3
    assert_eq!(t.next(), sample(0, 30)); // 1
    assert!(t.samples.is_empty());
}

#[test]
fn metrics_tracker_lost_packet() {
    let mut t = Collected::new(3);

    // Send 4 packets but max_pending is 3
    t.sent(1, START);
    t.sent(2, after(5));
    t.sent(3, after(10));
    t.sent(4, after(15)); // This causes packet 1 to be evicted as lost

    t.received(3, after(20));
    t.received(4, after(25));

    assert_eq!(t.next(), loss(0)); // 1
    assert_eq!(t.next(), sample(10, 20)); // 3
    assert_eq!(t.next(), sample(15, 25)); // 4
    assert!(t.samples.is_empty()) // 2 is still pending
}

#[test]
fn metrics_tracker_receive_unknown_counter() {
    let mut t = Collected::new(5);

    t.sent(1, START);

    // Receive a packet we never sent - should be silently ignored
    t.received(999, after(5));
    assert!(t.samples.is_empty());

    t.received(1, after(10));
    assert_eq!(t.next(), sample(0, 10));

    assert!(t.samples.is_empty());
}

// Counter-wrapping doesn't affect the current hashmap-based implementation, but that could change in the future.
#[test]
fn metrics_tracker_counter_wrapping() {
    let mut t = Collected::new(5);

    let counter1 = u32::MAX;
    let counter2 = 0u32;

    t.sent(counter1, START);
    t.sent(counter2, after(5));

    t.received(counter1, after(10));
    t.received(counter2, after(20));

    assert_eq!(t.next(), sample(0, 10));
    assert_eq!(t.next(), sample(5, 20));
    assert!(t.samples.is_empty());
}

#[test]
fn non_monotonic_timestamps() {
    let mut t = Collected::new(5);

    t.sent(1, START);
    t.sent(2, after(15));
    t.sent(3, after(5));

    t.received(1, after(20));
    t.received(2, after(15));
    t.received(3, after(10));

    assert_eq!(t.next(), sample(0, 20));
    assert_eq!(t.next(), sample(15, 15));
    assert_eq!(t.next(), sample(5, 10));
    assert!(t.samples.is_empty());
}

#[test]
fn metrics_analyzer_lists_every_robot_once() {
    let mut analyzer = MetricsAnalyzer::new(4);
    for id in [7u8, 3, 250, 0] {
        analyzer.update(&DriverEvent::Connected(id, RobotTransceiverAddress::Test(id)));
    }
    analyzer.update(&DriverEvent::MetricsSample(3, sample(0, 2).unwrap()));
    // A sample makes a robot known
    analyzer.update(&DriverEvent::MetricsSample(9, loss(1).unwrap()));
    analyzer.update(&DriverEvent::Disconnected(250));
    let mut all = analyzer.iter();
    all.sort_by_key(|entry| entry.0);
    let ids: Vec<u8> = all.iter().map(|entry| entry.0).collect();
    assert_eq!(ids, vec![0, 3, 7, 9]);
    for (id, metrics) in all {
        assert_eq!(analyzer.get(id), Some(metrics));
    }
}

#[test]
fn metrics_tracker_samples_each_packet_once() {
    let limit = 3;
    let mut tracker = MetricsTracker::new(limit);
    let mut sampled = Vec::new();
    for i in 0..40u32 {
        if let Some(lost) = tracker.sent(i, after(i as u64)) {
            assert_eq!(lost.rtt, None);
            sampled.push(lost.sent_time);
        }
        // Answer some packets late, some twice, some never
        for counter in [i / 2, i.wrapping_sub(i % 5)] {
            if let Some(answered) = tracker.received(counter, after(100)) {
                assert_eq!(answered.sent_time, after(counter as u64));
                assert_eq!(answered.rtt, Some(Duration::from_millis(100 - counter as u64)));
                sampled.push(answered.sent_time);
            }
        }
        let waiting = i as usize + 1 - sampled.len();
        assert!(waiting <= limit);
    }
    let mut distinct = sampled.clone();
    distinct.sort_by_key(|time| time.nanos);
    distinct.dedup();
    assert_eq!(distinct.len(), sampled.len());
}
