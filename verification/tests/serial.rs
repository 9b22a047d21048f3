use connection::framing::frame;
use connection::id_filter::RobotIdFilter;
use connection::time::{Duration, Instant};
use connection::transceivers::address::{
    RobotTransceiverAddress, SerialPortInfo, SerialPortType, SocketAddr, UsbPortInfo,
};
use connection::transceivers::discovery::{contains_lower, is_plausible, parse_response, Response};
use connection::transceivers::serial::{
    DiscoveryResult, DiscoveryStep, SerialTransceiver, SerialTransceiverConfig,
};
use connection::transceivers::{Transceiver, TransceiverEvent};

fn at(millis: u64) -> Instant {
    Instant { nanos: 0 }.plus(Duration::from_millis(millis))
}

fn port(name: &str) -> SerialPortInfo {
    SerialPortInfo { port_name: name.to_string(), port_type: SerialPortType::PciPort }
}

fn usb_port(product: Option<&str>) -> SerialPortInfo {
    SerialPortInfo {
        port_name: "usb".to_string(),
        port_type: SerialPortType::UsbPort(UsbPortInfo {
            vid: 1,
            pid: 2,
            serial_number: None,
            manufacturer: None,
            product: product.map(|p| p.to_string()),
        }),
    }
}

fn transceiver() -> SerialTransceiver {
    SerialTransceiver::start(
        3,
        SerialTransceiverConfig { probe_period: Duration::from_millis(2000) },
        at(0),
    )
}

fn connected(t: &mut SerialTransceiver, token: usize, name: &str, response: &[u8]) -> bool {
    match t.end_discovery(token, port(name), Ok(response), at(100)) {
        DiscoveryResult::Connected(TransceiverEvent::Connected(addr, _)) => {
            assert_eq!(addr, RobotTransceiverAddress::Serial(port(name)));
            true
        }
        _ => false,
    }
}

#[test]
fn ports_are_chosen_by_their_kind() {
    assert!(is_plausible(&port("pci")));
    assert!(is_plausible(&usb_port(Some("CP2102 USB to UART Bridge"))));
    assert!(is_plausible(&usb_port(Some("USB-Serial Controller"))));
    assert!(!is_plausible(&usb_port(Some("Keyboard"))));
    assert!(!is_plausible(&usb_port(None)));
    let mut other = port("bt");
    other.port_type = SerialPortType::BluetoothPort;
    assert!(!is_plausible(&other));
    other.port_type = SerialPortType::Unknown;
    assert!(!is_plausible(&other));
}

#[test]
fn lower_case_search() {
    assert!(contains_lower("abcUaRtx", "uart"));
    assert!(contains_lower("é UART", "uart"));
    assert!(!contains_lower("uar", "uart"));
    assert!(!contains_lower("uaart", "uart"));
    assert!(contains_lower("x", ""));
    assert!(contains_lower("uart", "uart"));
}

#[test]
fn responses_are_parsed() {
    assert_eq!(parse_response(b"robot_id 7"), Response::Robot(7));
    assert_eq!(parse_response(b"hello\r\nrobot_id 12\r\nbye\r\n"), Response::Robot(12));
    assert_eq!(parse_response(b"robot_id +3\n"), Response::Robot(3));
    // The last line with an id counts, even if it is not a number
    assert_eq!(parse_response(b"robot_id 1\nrobot_id 2\n"), Response::Robot(2));
    assert_eq!(parse_response(b"robot_id 1\nrobot_id x\n"), Response::Unrelated);
    assert_eq!(parse_response(b"robot_id 256\n"), Response::Unrelated);
    assert_eq!(parse_response(b"robot_id"), Response::Unrelated);
    assert_eq!(parse_response(b" robot_id 5"), Response::Unrelated);
    // A carriage return only belongs to a line end in front of a line feed
    assert_eq!(parse_response(b"robot_id 5\r"), Response::Unrelated);
    assert_eq!(parse_response(b""), Response::Unrelated);
    assert_eq!(parse_response(&[b'r', 0xff]), Response::Garbled);
}

#[test]
fn parsing_agrees_with_std() {
    let texts = [
        "robot_id 5\r\nx", "a\n\nrobot_id 9", "robot_id  9", "robot_id 9 ", "\r\nrobot_id 4\r\r\n",
        "robot_id 4\n\r\n", "robot_id 09", "robot_id -1", "robot_id +", "xrobot_id 3\nrobot_id 2",
    ];
    for text in texts {
        let mut robot_id = None;
        for line in text.lines() {
            if let Some(("robot_id", value)) = line.split_once(' ') {
                robot_id = value.parse::<u8>().ok();
            }
        }
        let expected = match robot_id {
            Some(id) => Response::Robot(id),
            None => Response::Unrelated,
        };
        assert_eq!(parse_response(text.as_bytes()), expected, "{text:?}");
    }
}

#[test]
fn discovery_alternates() {
    let mut t = transceiver();
    assert_eq!(t.next_timeout(), at(0));
    assert_eq!(t.discovery_step(at(0)), None);
    assert_eq!(t.discovery_step(at(1)), Some(DiscoveryStep::Start));
    assert_eq!(t.next_timeout(), at(500));
    assert_eq!(t.discovery_step(at(400)), None);
    assert_eq!(t.discovery_step(at(501)), Some(DiscoveryStep::End));
    assert_eq!(t.next_timeout(), at(2000));
}

#[test]
fn short_probe_periods_do_not_run_backwards() {
    let mut t = SerialTransceiver::start(
        3,
        SerialTransceiverConfig { probe_period: Duration::from_millis(100) },
        at(0),
    );
    assert_eq!(t.discovery_step(at(1)), Some(DiscoveryStep::Start));
    assert_eq!(t.discovery_step(at(501)), Some(DiscoveryStep::End));
    assert_eq!(t.next_timeout(), at(500));
}

#[test]
fn robots_connect_and_receive() {
    let mut t = transceiver();
    assert!(t.is_candidate(&port("a")));
    assert!(connected(&mut t, 4, "a", b"robot_id 3\r\n"));
    assert!(!t.is_candidate(&port("a")));
    assert!(t.is_candidate(&port("b")));
    assert!(t.is_active(4));
    assert!(!t.is_active(5));
    assert_eq!(t.room(5), None);
    assert_eq!(t.room(4), Some(5));

    // Packets go to the port with the same name
    let addr = RobotTransceiverAddress::from(port("a"));
    assert_eq!(t.send_packet(&addr, &[1, 2, 3]), Some((4, frame(&[1, 2, 3]))));
    assert_eq!(t.send_packet(&RobotTransceiverAddress::Serial(port("b")), &[1]), None);
    let udp = RobotTransceiverAddress::Udp(SocketAddr::V4 { ip: 1, port: 2 });
    assert_eq!(t.send_packet(&udp, &[1]), None);
    assert_eq!(t.send_packet(&RobotTransceiverAddress::Test(0), &[1]), None);

    // A packet comes back
    let bytes = frame(&[7, 8, 9]);
    assert!(t.receive(4, &bytes[..2], at(200)).is_none());
    assert_eq!(t.room(4), Some(3));
    match t.receive(4, &bytes[2..5], at(300)) {
        Some(TransceiverEvent::PacketReceived(from, packet, time)) => {
            assert_eq!(from, addr);
            assert_eq!(packet, vec![7, 8, 9]);
            assert_eq!(time, at(300));
        }
        _ => panic!("no packet"),
    }
    t.end_receive(4);
    assert!(t.receive(5, &bytes[..2], at(300)).is_none());
}

#[test]
fn unwanted_robots_are_rejected() {
    let mut t = transceiver();
    t.set_id_filter(RobotIdFilter::new().with_blacklist(vec![3]));
    assert!(matches!(
        t.end_discovery(4, port("a"), Ok(b"robot_id 3"), at(1)),
        DiscoveryResult::Rejected
    ));
    assert!(matches!(
        t.end_discovery(4, port("a"), Ok(b"nothing"), at(1)),
        DiscoveryResult::Rejected
    ));
    assert!(matches!(
        t.end_discovery(4, port("a"), Ok(&[0xff, 0xfe]), at(1)),
        DiscoveryResult::Garbled
    ));
    assert!(!t.is_active(4));
    assert!(connected(&mut t, 4, "a", b"robot_id 2"));
}

#[test]
fn every_port_is_heard() {
    let mut t = transceiver();
    assert!(connected(&mut t, 1, "a", b"robot_id 1"));
    // An answer that cannot be read is reported, and the next port is heard
    match t.end_discovery(2, port("b"), Err("broken pipe".to_string()), at(100)) {
        DiscoveryResult::Unreadable(TransceiverEvent::Error(e)) => assert_eq!(
            e.message(),
            "Unexpected serial read error on port b: broken pipe"
        ),
        _ => panic!("no error"),
    }
    assert!(!t.is_active(2));
    assert!(connected(&mut t, 3, "c", b"robot_id 3"));
    assert!(t.is_active(1));
    assert!(t.is_active(3));
}

#[test]
fn read_failures_name_the_port() {
    let mut t = transceiver();
    assert!(connected(&mut t, 1, "a", b"robot_id 1"));
    assert!(t.read_failed(2, "gone".to_string()).is_none());
    match t.read_failed(1, "gone".to_string()) {
        Some(TransceiverEvent::Error(e)) => {
            assert_eq!(e.message(), "Unexpected serial read error on port a: gone")
        }
        _ => panic!("no error"),
    }
    assert!(t.is_active(1));
}

#[test]
fn one_connection_per_port() {
    let mut t = transceiver();
    assert!(connected(&mut t, 1, "a", b"robot_id 1"));
    assert!(connected(&mut t, 2, "a", b"robot_id 2"));
    assert!(!t.is_active(1));
    assert!(t.is_active(2));
}

#[test]
fn silent_robots_expire() {
    let mut t = transceiver();
    // Both time out at 1100 ms
    assert!(connected(&mut t, 1, "a", b"robot_id 1"));
    assert!(connected(&mut t, 2, "b", b"robot_id 2"));
    // One of them is heard, and lasts until 1600 ms
    let bytes = frame(&[0, 0, 0]);
    assert!(t.receive(2, &bytes[..5], at(600)).is_some());
    t.end_receive(2);
    assert!(t.expire(at(1100)).is_empty());
    let events = t.expire(at(1101));
    assert_eq!(events.len(), 1);
    match &events[0] {
        TransceiverEvent::Disconnected(addr) => {
            assert_eq!(*addr, RobotTransceiverAddress::Serial(port("a")))
        }
        _ => panic!("no disconnection"),
    }
    assert!(!t.is_active(1));
    assert!(t.is_active(2));
    // Only the other robot still gets packets, and the port can be asked again
    assert_eq!(t.send_packet(&RobotTransceiverAddress::Serial(port("a")), &[1]), None);
    assert!(t.send_packet(&RobotTransceiverAddress::Serial(port("b")), &[1]).is_some());
    assert!(t.is_candidate(&port("a")));
    assert_eq!(t.expire(at(1601)).len(), 1);
    assert!(t.expire(at(5000)).is_empty());
}

#[test]
fn timeouts_can_be_configured() {
    let mut t = transceiver();
    t.set_timeout(Duration::from_millis(10));
    assert!(connected(&mut t, 1, "a", b"robot_id 1"));
    assert!(t.expire(at(110)).is_empty());
    assert_eq!(t.expire(at(111)).len(), 1);
}

#[test]
fn a_shorter_timeout_is_noticed() {
    let mut t = transceiver();
    assert!(connected(&mut t, 1, "a", b"robot_id 1"));
    t.set_timeout(Duration::from_millis(10));
    let bytes = frame(&[0, 0, 0]);
    assert!(t.receive(1, &bytes[..5], at(200)).is_some());
    t.end_receive(1);
    assert_eq!(t.expire(at(211)).len(), 1);
}
