use connection::cache::ConnectionStateCache;
use connection::time::Instant;
use connection::transceivers::address::RobotTransceiverAddress;
use connection::ConnectionDriverEvent;

fn conn_event(robot_id: u8) -> ConnectionDriverEvent<u32, ()> {
    ConnectionDriverEvent::Connected(robot_id, RobotTransceiverAddress::Test(robot_id))
}

fn recv_event(robot_id: u8, value: u32) -> ConnectionDriverEvent<u32, ()> {
    ConnectionDriverEvent::PacketReceived(robot_id, value, Instant { nanos: 0 })
}

#[test]
fn connect() {
    let mut cache = ConnectionStateCache::<()>::default();
    let robot_id = 3;
    let addr = RobotTransceiverAddress::Test(0);

    cache.update::<()>(ConnectionDriverEvent::Connected(robot_id, addr.clone()));

    assert_eq!(cache.connected_robots(), vec![robot_id]);
    assert_eq!(cache.transceiver_address(robot_id), Some(&addr));
    assert_eq!(cache.latest_response(robot_id), None);
}

#[test]
fn receive() {
    let mut cache = ConnectionStateCache::<u32>::default();
    let robot_id = 7;

    cache.update::<()>(conn_event(robot_id));
    cache.update::<()>(recv_event(robot_id, 42));
    cache.update::<()>(recv_event(robot_id, 43));

    assert_eq!(cache.latest_response(robot_id), Some(&43u32));
}

#[test]
fn ignore_unknown_receive() {
    let mut cache = ConnectionStateCache::<u32>::default();
    let robot_id = 9;

    cache.update::<()>(recv_event(robot_id, 11));

    assert!(cache.connected_robots().is_empty());
    assert_eq!(cache.latest_response(robot_id), None);
}

#[test]
fn disconnect() {
    let mut cache = ConnectionStateCache::<u32>::default();
    let robot_id = 5;

    cache.update::<()>(conn_event(robot_id));
    cache.update::<()>(recv_event(robot_id, 99));
    cache.update::<()>(ConnectionDriverEvent::Disconnected(robot_id));

    assert!(cache.connected_robots().is_empty());
    assert_eq!(cache.transceiver_address(robot_id), None);
    assert_eq!(cache.latest_response(robot_id), None);
}

#[test]
fn multiple_robots() {
    let mut cache = ConnectionStateCache::<u32>::default();
    let robot_id1 = 1;
    let robot_id2 = 2;

    cache.update::<()>(conn_event(robot_id1));
    cache.update::<()>(conn_event(robot_id2));
    cache.update::<()>(recv_event(robot_id1, 42));
    cache.update::<()>(recv_event(robot_id2, 43));

    let mut connected_robots = cache.connected_robots();
    connected_robots.sort_unstable();
    assert_eq!(connected_robots, vec![robot_id1, robot_id2]);
    assert_eq!(cache.latest_response(robot_id1), Some(&42u32));
    assert_eq!(cache.latest_response(robot_id2), Some(&43u32));
}

#[test]
fn reconnect_forgets_the_response() {
    let mut cache = ConnectionStateCache::<u32>::default();
    cache.update::<()>(conn_event(4));
    cache.update::<()>(recv_event(4, 5));
    cache.update::<()>(conn_event(4));
    assert_eq!(cache.latest_response(4), None);
    assert_eq!(cache.connected_robots(), vec![4]);
}

#[test]
fn other_robots_are_unchanged() {
    let mut cache = ConnectionStateCache::<u32>::default();
    cache.update::<()>(conn_event(1));
    cache.update::<()>(recv_event(1, 5));
    cache.update::<()>(conn_event(2));
    cache.update::<()>(ConnectionDriverEvent::Disconnected(2));
    cache.update::<()>(recv_event(2, 6));
    assert_eq!(cache.latest_response(1), Some(&5));
    assert_eq!(cache.connected_robots(), vec![1]);
}
