use connection::bridge::{
    forwarded, packet_message, robot_id_request, robot_id_response, timed_out, Arbitration,
    CommandSource, FrameError, FrameReader, GroupAction, GroupMembership, ReadError, ReadOutcome,
    ReadStep, RttMonitor, PACKET_SIZE,
};
use connection::framing::frame;
use connection::mock::{fallback_id, hostname_id, loss_byte, response, LossHistory};
use connection::time::{Duration, Instant};
use connection::transceivers::address::SocketAddr;

fn at(millis: u64) -> Instant {
    Instant { nanos: 0 }.plus(Duration::from_millis(millis))
}

const HOST: SocketAddr = SocketAddr::V4 { ip: 1, port: 1 };
const OTHER: SocketAddr = SocketAddr::V4 { ip: 1, port: 2 };

// ======== Bridge ========

#[test]
fn hosts_take_turns() {
    let mut source = CommandSource::new(at(0));
    // Nobody can connect before the timeout has passed once
    assert_eq!(source.accept(HOST, at(1000)), Arbitration::Ignored);
    assert_eq!(source.accept(HOST, at(1001)), Arbitration::NewConnection);
    assert_eq!(source.accept(OTHER, at(1500)), Arbitration::Ignored);
    assert_eq!(source.accept(HOST, at(1900)), Arbitration::Continued);
    assert_eq!(source.accept(OTHER, at(2900)), Arbitration::Ignored);
    assert!(!source.idle(at(2900)));
    assert!(source.idle(at(2901)));
    assert_eq!(source.accept(OTHER, at(2901)), Arbitration::NewConnection);
    assert_eq!(source.addr, Some(OTHER));
    assert_eq!(source.last_received, at(2901));
}

#[test]
fn messages_have_a_number() {
    assert_eq!(packet_message(&[4, 5]), vec![0, 4, 5]);
    assert_eq!(forwarded(&[0, 4, 5]), vec![4, 5]);
    let request = robot_id_request();
    assert_eq!(request.len(), 1 + PACKET_SIZE);
    assert_eq!(request[0], 1);
    assert!(request[1..].iter().all(|&b| b == 0));
    assert_eq!(robot_id_response(&[1, 9]), Ok(9));
    assert_eq!(robot_id_response(&[0, 9]), Err(0));
}

fn read(reader: &mut FrameReader, bytes: &[u8]) {
    for &b in bytes {
        assert!(!reader.is_complete());
        reader.push(b);
    }
}

#[test]
fn frames_are_read_after_a_delimiter() {
    let packet: Vec<u8> = (0..29).collect();
    let msg = packet_message(&packet);
    let bytes = frame(&msg);
    let mut reader = FrameReader::new();
    // The rest of another frame
    read(&mut reader, &[5, 6, 7, 0]);
    read(&mut reader, &bytes[..32]);
    assert!(reader.is_complete());
    assert_eq!(reader.decode().unwrap(), msg);
}

#[test]
fn commands_arrive() {
    let packet: Vec<u8> = (100..129).collect();
    let mut source = CommandSource::new(at(0));
    assert_eq!(source.command(HOST, &packet, at(500)), (Arbitration::Ignored, None));
    assert_eq!(source.response(&[0, 1]), None);
    let (accepted, bytes) = source.command(HOST, &packet, at(2000));
    assert_eq!(accepted, Arbitration::NewConnection);
    let bytes = bytes.unwrap();
    assert_eq!(bytes, frame(&packet_message(&packet)));
    let mut reader = FrameReader::new();
    read(&mut reader, &[7, 0]);
    read(&mut reader, &bytes[..32]);
    let msg = reader.decode().unwrap();
    assert_eq!(source.response(&msg), Some((HOST, packet)));
}

#[test]
fn bad_frames_are_reported() {
    let mut reader = FrameReader::new();
    read(&mut reader, &[40; 32]);
    assert!(matches!(reader.decode(), Err(FrameError::Malformed(_))));

    let mut bytes = frame(&[3; 30]);
    bytes[4] ^= 0x40;
    let mut reader = FrameReader::new();
    read(&mut reader, &bytes[..32]);
    assert!(matches!(reader.decode(), Err(FrameError::ChecksumMismatch)));
}

#[test]
fn deadlines() {
    assert!(!timed_out(None, at(5)));
    assert!(!timed_out(Some(at(5)), at(5)));
    assert!(timed_out(Some(at(5)), at(6)));
}

#[test]
fn response_times_are_averaged() {
    let mut rtt = RttMonitor::new(at(0));
    assert_eq!(rtt.response(Duration { nanos: 2000 }, at(1)), None);
    assert_eq!(rtt.average, Duration { nanos: 100 });
    assert_eq!(rtt.response(Duration { nanos: 139 }, at(1000)), None);
    // (19 * 100 + 139) / 20
    assert_eq!(rtt.average, Duration { nanos: 101 });
    assert_eq!(
        rtt.response(Duration { nanos: 101 }, at(1001)),
        Some((Duration { nanos: 101 }, 3))
    );
    assert_eq!(rtt.count, 0);
    assert_eq!(rtt.last_report, at(1001));
}

#[test]
fn multicast_groups_are_left_once() {
    let mut groups = GroupMembership { joined: true };
    assert_eq!(groups.update(false), GroupAction::Leave);
    assert_eq!(groups.update(false), GroupAction::Keep);
    assert_eq!(groups.update(true), GroupAction::Join);
    assert_eq!(groups.update(true), GroupAction::Join);
    assert_eq!(groups.update(false), GroupAction::Leave);
}

// ======== Mock ========

#[test]
fn host_names_end_with_the_id() {
    assert_eq!(hostname_id(b"pi10"), Some(10));
    assert_eq!(hostname_id(b"7"), Some(7));
    assert_eq!(hostname_id(b"a1b02"), Some(2));
    assert_eq!(hostname_id(b"pi"), None);
    assert_eq!(hostname_id(b""), None);
    assert_eq!(hostname_id(b"pi256"), None);
    assert_eq!(hostname_id(b"pi+5"), Some(5));
    assert_eq!(fallback_id(35), 3);
}

#[test]
fn loss_is_measured_by_gaps() {
    let mut history = LossHistory::new();
    assert_eq!(history.missing(), 100);
    for i in 1..=100u8 {
        history.record(i & 63);
    }
    assert_eq!(history.missing(), 0);
    // 100 & 63 == 36; the packets 37 and 38 are lost
    history.record(39);
    assert_eq!(history.missing(), 2);
    // The upper bits are no part of the counter
    history.record(0xc0 | 40);
    assert_eq!(history.missing(), 2);
    // The same packet again
    history.record(40);
    assert_eq!(history.missing(), 2);
    // Wraps around: 41..64 and 0 are lost
    history.record(1);
    assert_eq!(history.missing(), 2 + 24);
    for i in 2..=101u8 {
        history.record(i & 63);
    }
    assert_eq!(history.missing(), 0);
}

#[test]
fn loss_is_scaled_as_in_single_precision() {
    for missing in 0..=100u8 {
        let ratio = missing as f32 / 100.0;
        assert_eq!(loss_byte(missing), (ratio * u8::MAX as f32) as u8, "{missing}");
    }
}

#[test]
fn mock_response_bytes() {
    let packet = response(0xc5, 50);
    assert_eq!(packet.len(), 29);
    assert_eq!(packet[..3], [5, 0, 127]);
    assert!(packet[3..].iter().all(|&b| b == 0));
}

// ======== Whole messages ========

/// Reads a message, with one millisecond for each read. Returns the number of reads as well.
fn read_message(
    outcomes: Vec<ReadOutcome<&'static str>>,
    deadline: Option<Instant>,
) -> (Option<Result<Vec<u8>, ReadError<&'static str>>>, usize) {
    let mut reader = FrameReader::new();
    let mut step = reader.next_step(deadline, at(0));
    for (i, outcome) in outcomes.into_iter().enumerate() {
        match step {
            ReadStep::Done(result) => return (Some(result), i),
            ReadStep::Read => step = reader.after_read(outcome, deadline, at(i as u64 + 1)),
        }
    }
    match step {
        ReadStep::Done(result) => (Some(result), usize::MAX),
        ReadStep::Read => (None, usize::MAX),
    }
}

fn available(bytes: &[u8]) -> Vec<ReadOutcome<&'static str>> {
    let mut outcomes = Vec::new();
    for byte in bytes {
        // Every byte has to be waited for
        outcomes.push(ReadOutcome::TimedOut);
        outcomes.push(ReadOutcome::Byte(*byte));
    }
    outcomes
}

#[test]
fn messages_are_read_to_the_end() {
    let msg: Vec<u8> = (10..40).collect();
    let bytes = frame(&msg);
    assert_eq!(bytes.len(), 33);
    // Garbage, a delimiter, and a frame without its delimiter
    let mut outcomes = available(&[9, 9, 9, 0]);
    outcomes.extend(available(&bytes[..32]));
    outcomes.push(ReadOutcome::Failed("not read"));
    let (result, reads) = read_message(outcomes, None);
    match result {
        Some(Ok(read)) => assert_eq!(read, msg),
        _ => panic!("no message"),
    }
    assert_eq!(reads, 2 * 36);

    let mut wrong = bytes.clone();
    wrong[5] ^= 64;
    match read_message(available(&wrong[..32]), None).0 {
        Some(Err(ReadError::Frame(FrameError::ChecksumMismatch))) => {}
        _ => panic!("no checksum error"),
    }
    match read_message(available(&[255; 32]), None).0 {
        Some(Err(ReadError::Frame(FrameError::Malformed(_)))) => {}
        _ => panic!("no decoding error"),
    }
    assert!(read_message(available(&bytes[..31]), None).0.is_none());
}

#[test]
fn reads_end_with_a_failure_or_the_deadline() {
    let mut outcomes = available(&[1, 2, 3]);
    outcomes.push(ReadOutcome::Failed("unplugged"));
    outcomes.push(ReadOutcome::Byte(4));
    match read_message(outcomes, None) {
        (Some(Err(ReadError::Failed("unplugged"))), 7) => {}
        _ => panic!("no failure"),
    }
    match read_message(available(&[1; 31]), Some(at(10))) {
        // The deadline itself is not late
        (Some(Err(ReadError::TimedOut)), 11) => {}
        _ => panic!("no timeout"),
    }
}

#[test]
fn complete_messages_are_not_late() {
    let msg: Vec<u8> = (10..40).collect();
    let bytes = frame(&msg);
    match read_message(available(&bytes[..32]), Some(at(63))).0 {
        Some(Ok(read)) => assert_eq!(read, msg),
        _ => panic!("no message"),
    }
    match read_message(available(&bytes[..32]), Some(at(62))).0 {
        Some(Err(ReadError::TimedOut)) => {}
        _ => panic!("no timeout"),
    }
}
