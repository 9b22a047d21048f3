use connection::time::{Duration, Instant};
use connection::transceivers::address::RobotTransceiverAddress;
use connection::utils::metrics_logger::{
    format_file_name, format_heading, format_sample, highest_lognum, next_lognum, parse_lognum,
    LogAction, MetricsLogger,
};
use connection::utils::metrics_tracker::MetricsSample;
use connection::utils::text::{format_unsigned, parse_unsigned};
use connection::ConnectionDriverEvent;

type DriverEvent = ConnectionDriverEvent<(), ()>;

#[test]
fn numbers_are_formatted_and_parsed() {
    for n in [0u64, 9, 10, 255, 1234567890, u64::MAX] {
        assert_eq!(format_unsigned(n), n.to_string().into_bytes());
        assert_eq!(parse_unsigned(&format_unsigned(n), u64::MAX), Some(n));
    }
    for text in ["", "+", "+5", "-5", "05", "1a", " 1", "4294967295", "4294967296", "++1"] {
        assert_eq!(
            parse_unsigned(text.as_bytes(), u32::MAX as u64),
            text.parse::<u32>().ok().map(|n| n as u64),
            "{text:?}"
        );
    }
    assert_eq!(parse_unsigned(b"99999999999999999999999999", u64::MAX), None);
}

#[test]
fn file_names() {
    assert_eq!(format_file_name(7, 12), b"robot_7_metrics_12.csv".to_vec());
    assert_eq!(parse_lognum(b"robot_7_metrics_12.csv", 7), Some(12));
    assert_eq!(parse_lognum(b"robot_7_metrics_12.csv", 8), None);
    assert_eq!(parse_lognum(b"robot_7_metrics_.csv", 7), None);
    assert_eq!(parse_lognum(b"robot_7_metrics_4294967296.csv", 7), None);
    assert_eq!(parse_lognum(b"robot_7_metrics_1.csv.bak", 7), None);
    assert_eq!(parse_lognum(b"robot_7_metrics_.cs", 7), None);
}

#[test]
fn next_file_number() {
    let names: Vec<Vec<u8>> =
        vec![b"x".to_vec(), format_file_name(7, 3), format_file_name(7, 10), format_file_name(8, 99)];
    assert_eq!(highest_lognum(&names, 7), Some(10));
    assert_eq!(next_lognum(Some(10)), 11);
    assert_eq!(highest_lognum(&names, 1), None);
    assert_eq!(next_lognum(None), 0);
    assert!(!names.contains(&format_file_name(7, 11)));
}

#[test]
fn lines() {
    assert_eq!(format_heading(), b"sent_time_us,rtt_us".to_vec());
    let start = Instant { nanos: 1000 };
    let sample = |rtt| MetricsSample { sent_time: start.plus(Duration { nanos: 2_500_999 }), rtt };
    assert_eq!(format_sample(start, &sample(None)), b"2500,0".to_vec());
    let rtt = Some(Duration { nanos: 1_999 });
    assert_eq!(format_sample(start, &sample(rtt)), b"2500,1".to_vec());
}

#[test]
fn logger_opens_and_closes_files() {
    let start = Instant { nanos: 0 };
    let sample = MetricsSample { sent_time: start, rtt: None };
    let mut logger = MetricsLogger::new(start);
    let connected = DriverEvent::Connected(3, RobotTransceiverAddress::Test(3));
    assert!(matches!(logger.update(&connected), LogAction::Create(3)));
    // No file was created
    assert!(matches!(
        logger.update(&DriverEvent::MetricsSample(3, sample)),
        LogAction::Unknown(3)
    ));
    logger.file_created(3);
    match logger.update(&DriverEvent::MetricsSample(3, sample)) {
        LogAction::Write(3, line) => assert_eq!(line, b"0,0".to_vec()),
        _ => panic!("nothing written"),
    }
    assert!(matches!(logger.update(&DriverEvent::Disconnected(3)), LogAction::Close(3)));
    assert!(matches!(
        logger.update(&DriverEvent::MetricsSample(3, sample)),
        LogAction::Unknown(3)
    ));
    let other = DriverEvent::PacketReceived(3, (), start);
    assert!(matches!(logger.update(&other), LogAction::Nothing));
}
