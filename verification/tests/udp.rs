use connection::driver::TokenAllocator;
use connection::id_filter::RobotIdFilter;
use connection::time::{Duration, Instant};
use connection::transceivers::address::{RobotTransceiverAddress, SocketAddr};
use connection::transceivers::group::{TransceiverGroup, TransceiverGroupConfig};
use connection::transceivers::serial::SerialTransceiverConfig;
use connection::transceivers::udp::{
    after_bind_failure, after_ipv4, after_ipv6, multicast_interface, start_binding, BindError,
    BindStep, InterfaceAddr, MulticastInterface, UdpSocket, UdpTokens, UdpTransceiver,
    UdpTransceiverConfig, BEACON_IP_V4, BEACON_IP_V6, BEACON_PORT, BIND_COUNT, DATA_PORT,
    DISCOVERY_BIND_FIRST,
};
use connection::transceivers::{Transceiver, TransceiverEvent};

fn at(millis: u64) -> Instant {
    Instant { nanos: 0 }.plus(Duration::from_millis(millis))
}

fn transceiver() -> UdpTransceiver {
    let mut tokens = TokenAllocator::starting_at(1);
    UdpTransceiver::start(UdpTokens::allocate(&mut tokens), at(0))
}

const SRC: SocketAddr = SocketAddr::V4 { ip: 0x0a00_0001, port: 5555 };
const DATA: SocketAddr = SocketAddr::V4 { ip: 0x0a00_0001, port: 11001 };

#[test]
fn addresses_are_those_of_the_protocol() {
    assert_eq!(BEACON_IP_V4.to_be_bytes(), [239, 0, 0, 1]);
    assert_eq!(&BEACON_IP_V6.to_be_bytes()[7..14], b"ERForce");
    assert_eq!(BEACON_PORT, 11000);
    assert_eq!(DATA_PORT, 11001);
}

type Step = BindStep<u16, u16, String>;

/// Binds to a range where the given ports are taken, and returns the ports of both sockets.
fn bind(
    first: u16,
    end: u16,
    taken_v4: &[u16],
    taken_v6: &[u16],
) -> (Result<(u16, u16), BindError<String>>, usize) {
    let outcome = |family: &str, taken: &[u16], port: u16| {
        if taken.contains(&port) {
            Err(format!("{family} {port}"))
        } else {
            Ok(port)
        }
    };
    let mut attempts = 0;
    let mut step: Step = start_binding(first, end);
    loop {
        step = match step {
            BindStep::BindV4(port) => after_ipv4(end, port, outcome("v4", taken_v4, port)),
            BindStep::BindV6(port, v4) => after_ipv6(end, port, v4, outcome("v6", taken_v6, port)),
            BindStep::Bound(port, v4, v6) => {
                assert_eq!((port, port), (v4, v6));
                return (Ok((v4, v6)), attempts);
            }
            BindStep::Failed(e) => return (Err(e), attempts),
        };
        attempts += 1;
    }
}

#[test]
fn first_free_port_is_bound() {
    let end = DISCOVERY_BIND_FIRST + BIND_COUNT;
    assert_eq!(end, 12010);
    assert!(matches!(bind(12000, end, &[], &[]), (Ok((12000, 12000)), 2)));
    // The first port where both sockets can be bound
    let (result, attempts) = bind(12000, end, &[12000, 12002], &[12001]);
    assert!(matches!(result, Ok((12003, 12003))));
    assert_eq!(attempts, 6);
    assert!(matches!(bind(65534, 65535, &[], &[]).0, Ok((65534, 65534))));
}

#[test]
fn last_bind_error_is_reported() {
    let all: Vec<u16> = (5..8).collect();
    match bind(5, 8, &all, &[]).0 {
        Err(BindError::Failed(e)) => assert_eq!(e, "v4 7"),
        _ => panic!("no error"),
    }
    match bind(5, 8, &[5, 6], &all).0 {
        Err(BindError::Failed(e)) => assert_eq!(e, "v6 7"),
        _ => panic!("no error"),
    }
    assert_eq!(after_bind_failure(8, 6, "e"), Ok(7));
    assert_eq!(after_bind_failure(8, 7, "e"), Err("e"));
}

#[test]
fn empty_port_range_is_invalid() {
    assert!(matches!(bind(5, 5, &[], &[]), (Err(BindError::InvalidInput), 0)));
    assert!(matches!(bind(6, 5, &[], &[]), (Err(BindError::InvalidInput), 0)));
}

#[test]
fn interfaces_prefer_ipv4() {
    assert_eq!(multicast_interface(&vec![]), None);
    assert_eq!(
        multicast_interface(&vec![InterfaceAddr::V6(1), InterfaceAddr::V4(2), InterfaceAddr::V4(3)]),
        Some(MulticastInterface::V4(2))
    );
    assert_eq!(
        multicast_interface(&vec![InterfaceAddr::V6(1)]),
        Some(MulticastInterface::V6)
    );
}

#[test]
fn tokens_tell_sockets_apart() {
    let t = transceiver();
    assert_eq!(t.socket(0), None);
    assert_eq!(t.socket(1), Some(UdpSocket::DiscoveryV4));
    assert_eq!(t.socket(2), Some(UdpSocket::DiscoveryV6));
    assert_eq!(t.socket(3), Some(UdpSocket::DataV4));
    assert_eq!(t.socket(4), Some(UdpSocket::DataV6));
    assert_eq!(t.socket(5), None);
}

#[test]
fn discovery_connects_once() {
    let mut t = transceiver();
    match t.receive_discovery(6, SRC, at(10)) {
        Some(TransceiverEvent::Connected(addr, id)) => {
            assert_eq!(addr, RobotTransceiverAddress::Udp(DATA));
            assert_eq!(id, 6);
        }
        _ => panic!("not connected"),
    }
    assert!(t.receive_discovery(6, SRC, at(20)).is_none());
    t.end_receive();
    assert_eq!(t.connected_robots(), vec![DATA]);
    assert_eq!(t.next_timeout(), at(1000));
}

#[test]
fn discovery_keeps_the_scope() {
    let mut t = transceiver();
    let src = SocketAddr::V6 { ip: 7, port: 1, flowinfo: 9, scope_id: 3 };
    assert!(t.receive_discovery(1, src, at(0)).is_some());
    assert_eq!(
        t.connected_robots(),
        vec![SocketAddr::V6 { ip: 7, port: 11001, flowinfo: 0, scope_id: 3 }]
    );
}

#[test]
fn unwanted_udp_robots_are_ignored() {
    let mut t = transceiver();
    t.set_id_filter(RobotIdFilter::new().with_blacklist(vec![6]));
    assert!(t.receive_discovery(6, SRC, at(10)).is_none());
    assert!(t.connected_robots().is_empty());
}

#[test]
fn packets_of_known_robots_are_reported() {
    let mut t = transceiver();
    assert!(t.receive_data(DATA, vec![1], at(5)).is_none());
    assert!(t.receive_discovery(6, SRC, at(10)).is_some());
    match t.receive_data(DATA, vec![1, 2], at(20)) {
        Some(TransceiverEvent::PacketReceived(addr, bytes, time)) => {
            assert_eq!(addr, RobotTransceiverAddress::Udp(DATA));
            assert_eq!(bytes, vec![1, 2]);
            assert_eq!(time, at(20));
        }
        _ => panic!("no packet"),
    }
    assert!(t.receive_data(SRC, vec![1], at(30)).is_none());
}

#[test]
fn udp_packets_are_sent_to_known_robots() {
    let mut t = transceiver();
    let addr = RobotTransceiverAddress::from(DATA);
    assert_eq!(t.send_packet(&addr), None);
    assert!(t.receive_discovery(6, SRC, at(10)).is_some());
    assert_eq!(t.send_packet(&addr), Some((UdpSocket::DataV4, DATA)));
    assert_eq!(t.send_packet(&RobotTransceiverAddress::Test(1)), None);
    let src6 = SocketAddr::V6 { ip: 7, port: 11001, flowinfo: 0, scope_id: 0 };
    assert!(t.receive_discovery(1, src6, at(0)).is_some());
    assert_eq!(
        t.send_packet(&RobotTransceiverAddress::Udp(src6)),
        Some((UdpSocket::DataV6, src6))
    );
}

#[test]
fn silent_udp_robots_expire() {
    let mut t = transceiver();
    let other = SocketAddr::V4 { ip: 9, port: 11001 };
    assert!(t.receive_discovery(1, SRC, at(0)).is_some());
    assert!(t.receive_discovery(2, other, at(0)).is_some());
    assert!(t.receive_data(other, vec![], at(500)).is_some());
    t.end_receive();
    assert!(t.expire(at(1000)).is_empty());
    let events = t.expire(at(1001));
    assert_eq!(events.len(), 1);
    match &events[0] {
        TransceiverEvent::Disconnected(addr) => {
            assert_eq!(*addr, RobotTransceiverAddress::Udp(DATA))
        }
        _ => panic!("no disconnection"),
    }
    assert_eq!(t.connected_robots(), vec![other]);
    // Only the other robot still gets packets
    assert_eq!(t.send_packet(&RobotTransceiverAddress::Udp(DATA)), None);
    assert!(t.send_packet(&RobotTransceiverAddress::Udp(other)).is_some());
    assert_eq!(t.expire(at(1501)).len(), 1);
    assert!(t.connected_robots().is_empty());
}

#[test]
fn udp_timeouts_can_be_configured() {
    let mut t = transceiver();
    t.set_timeout(Duration::from_millis(10));
    assert!(t.receive_discovery(1, SRC, at(0)).is_some());
    t.end_receive();
    assert_eq!(t.next_timeout(), at(10));
    assert_eq!(t.expire(at(11)).len(), 1);
}

#[test]
fn beacons_are_sent_once_a_second() {
    let mut t = transceiver();
    assert!(!t.beacon_due(at(999)));
    assert!(t.beacon_due(at(1000)));
    assert!(!t.beacon_due(at(1500)));
    assert_eq!(t.next_timeout(), at(2000));
    assert!(t.beacon_due(at(2001)));
}

#[test]
fn group_asks_all_transceivers() {
    let config = TransceiverGroupConfig {
        serial: SerialTransceiverConfig { probe_period: Duration::from_millis(2000) },
        udp: UdpTransceiverConfig {},
    };
    let mut tokens = TokenAllocator::starting_at(1);
    let udp_tokens = UdpTokens::allocate(&mut tokens);
    assert_eq!(tokens.new_token(), 5);
    let mut group = TransceiverGroup::init_all(29, config, Some(udp_tokens), at(7));
    assert_eq!(group.next_timeout(), Some(at(7)));
    group.set_id_filter(&RobotIdFilter::new().with_blacklist(vec![6]));
    let udp = group.udp.as_mut().unwrap();
    assert!(udp.receive_discovery(6, SRC, at(10)).is_none());
    assert!(udp.receive_discovery(5, SRC, at(10)).is_some());
    udp.end_receive();
    // Robots are lost after a second of silence
    assert!(udp.expire(at(1010)).is_empty());
    assert_eq!(udp.expire(at(1011)).len(), 1);

    group.serial = None;
    assert_eq!(group.next_timeout(), Some(at(1007)));
    let group = TransceiverGroup::init_all(29, config, None, at(7));
    assert!(group.udp.is_none());
    let none = TransceiverGroup { serial: None, udp: None };
    assert_eq!(none.next_timeout(), None);
}
