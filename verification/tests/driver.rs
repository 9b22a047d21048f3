use connection::cache::ConnectionStateCache;
use connection::driver::{
    after_poll_failure, next_timeout, poll_timeout, timeout_due, ConnectionDriver, Delivery,
    PollFailure, PollReaction, TokenAllocator, WAKER_TOKEN,
};
use connection::periodic::{
    send_all, PeriodicConnectionDriver, PeriodicControlMessage, RegularPackets, SendTimer,
};
use connection::pool;
use connection::protocol::deku_helpers::PacketPacking;
use connection::protocol::proto2025::datagrams::{
    CommandDatagram, ResponseDatagram, ResponseDatagramType,
};
use connection::protocol::proto2025::packet::{DatagramPayload, PacketHeader};
use connection::protocol::proto2025::RadioProtocol2025;
use connection::time::{Duration, Instant};
use connection::transceivers::address::RobotTransceiverAddress;
use connection::transceivers::{TransceiverError, TransceiverEvent};
use connection::utils::rtt::PacketLoss;
use connection::ConnectionDriverEvent;

type R = [u8; 28];
type Driver = ConnectionDriver<R, R, CommandDatagram, ResponseDatagram, RadioProtocol2025>;
type Pool = pool::ConnectionDriver<R, R, CommandDatagram, ResponseDatagram, RadioProtocol2025>;

const NOW: Instant = Instant { nanos: 50_000_000 };

fn addr(n: u8) -> RobotTransceiverAddress {
    RobotTransceiverAddress::Test(n)
}

fn packet(counter: u8, acknum: u8, payload: &[u8]) -> Vec<u8> {
    let header = PacketHeader { counter, acknum, datagram: false };
    let mut bytes = header.pack_to_vec();
    bytes.extend_from_slice(payload);
    bytes
}

fn robot_id_chunk(id: u8) -> Vec<u8> {
    let header = PacketHeader { counter: 0, acknum: 1, datagram: true };
    let mut data = [0u8; 27];
    data[0] = id;
    let chunk = DatagramPayload::<ResponseDatagramType> {
        seqnum: 0,
        datagram_type: ResponseDatagramType::RobotId,
        data,
    };
    let mut bytes = header.pack_to_vec();
    bytes.extend_from_slice(&chunk.pack_to_vec());
    bytes
}

// ======== Polling ========

#[test]
fn tokens_are_unique() {
    let mut tokens = TokenAllocator::starting_at(1);
    assert_eq!(tokens.new_token(), 1);
    assert_eq!(tokens.new_token(), 2);
    assert_eq!(WAKER_TOKEN, 0);
}

#[test]
fn closest_timeout() {
    let t = |nanos| Instant { nanos };
    assert_eq!(next_timeout(&vec![]), None);
    assert_eq!(next_timeout(&vec![t(5), t(3), t(9)]), Some(t(3)));
    assert_eq!(poll_timeout(None, t(1)), None);
    assert_eq!(poll_timeout(Some(t(9)), t(4)), Some(Duration { nanos: 5 }));
    assert_eq!(poll_timeout(Some(t(3)), t(4)), Some(Duration { nanos: 0 }));
    assert!(timeout_due(Some(t(3)), t(3)));
    assert!(!timeout_due(Some(t(4)), t(3)));
    assert!(!timeout_due(None, t(3)));
}

#[test]
fn poll_failures() {
    assert_eq!(after_poll_failure(PollFailure::Interrupted), PollReaction::Retry);
    assert_eq!(after_poll_failure(PollFailure::TimedOut), PollReaction::Proceed);
    assert_eq!(after_poll_failure(PollFailure::Other), PollReaction::Report);
}

// ======== Driver ========

#[test]
fn driver_follows_connections() {
    let mut driver = Driver::new();
    assert!(driver.id_filter().apply(4));

    let reaction = driver.handle_event(TransceiverEvent::Connected(addr(1), 4));
    assert!(reaction.update_id_filter);
    let message = reaction.message.unwrap();
    assert_eq!(message.delivery, Delivery::Block);
    assert!(matches!(message.event, ConnectionDriverEvent::Connected(4, a) if a == addr(1)));
    assert!(driver.has_robot(4));
    assert!(!driver.id_filter().apply(4));
    assert!(driver.id_filter().apply(5));
    assert_eq!(driver.connected_robots(), vec![4]);
    assert_eq!(driver.transceiver_addr(4), Some(addr(1)));
    assert!(driver.has_address(&addr(1)));

    // A robot is announced only once
    let reaction = driver.handle_event(TransceiverEvent::Connected(addr(2), 4));
    assert!(reaction.message.is_none());
    assert!(reaction.update_id_filter);
    assert_eq!(driver.transceiver_addr(4), Some(addr(1)));

    let reaction = driver.handle_event(TransceiverEvent::Disconnected(addr(2)));
    assert!(reaction.message.is_none());
    let reaction = driver.handle_event(TransceiverEvent::Disconnected(addr(1)));
    assert!(matches!(
        reaction.message.unwrap().event,
        ConnectionDriverEvent::Disconnected(4)
    ));
    assert!(!driver.has_robot(4));
    assert!(!driver.has_address(&addr(1)));
    assert_eq!(driver.transceiver_addr(4), None);
    assert!(driver.connection_stats(4).is_none());
}

#[test]
fn driver_sends_packets() {
    let mut driver = Driver::new();
    assert!(driver.send_packet(4, [7; 28], NOW).is_none());
    driver.handle_event(TransceiverEvent::Connected(addr(1), 4));
    let (to, bytes) = driver.send_packet(4, [7; 28], NOW).unwrap();
    assert_eq!(to, addr(1));
    assert_eq!(bytes, packet(0, 1, &[7; 28]));
    let (_, bytes) = driver.send_packet(4, [8; 28], NOW).unwrap();
    assert_eq!(bytes, packet(1, 1, &[8; 28]));
}

#[test]
fn driver_receives_packets() {
    let mut driver = Driver::new();
    driver.handle_event(TransceiverEvent::Connected(addr(1), 4));
    driver.send_packet(4, [7; 28], NOW).unwrap();

    let later = NOW.plus(Duration::from_millis(3));
    let bytes = packet(0, 1, &[9; 28]);
    let event = TransceiverEvent::PacketReceived(addr(1), bytes.clone(), later);
    let reaction = driver.handle_event(event);
    assert!(!reaction.update_id_filter);
    let message = reaction.message.unwrap();
    assert_eq!(message.delivery, Delivery::DropIfFull);
    match message.event {
        ConnectionDriverEvent::PacketReceived(4, data, time) => {
            assert_eq!(data, [9; 28]);
            assert_eq!(time, later);
        }
        _ => panic!("wrong message"),
    }
    let stats = driver.connection_stats(4).unwrap();
    assert_eq!(stats.rtt_avg, Duration::from_millis(3));
    assert_eq!(stats.round_trip_packet_loss, PacketLoss { lost: 0, total: 1 });

    // Packets of unknown origin are ignored
    let event = TransceiverEvent::PacketReceived(addr(2), bytes, later);
    assert!(driver.handle_event(event).message.is_none());
}

#[test]
fn driver_delivers_datagrams() {
    let mut driver = Driver::new();
    driver.handle_event(TransceiverEvent::Connected(addr(1), 4));
    let event = TransceiverEvent::PacketReceived(addr(1), robot_id_chunk(4), NOW);
    let message = driver.handle_event(event).message.unwrap();
    assert_eq!(message.delivery, Delivery::Block);
    assert!(matches!(
        message.event,
        ConnectionDriverEvent::DatagramReceived(4, ResponseDatagram::RobotId(4), NOW)
    ));

    driver.queue_datagram(4, CommandDatagram::ReadRobotId);
    driver.queue_datagram(9, CommandDatagram::ReadRobotId);
    let (_, bytes) = driver.send_packet(4, [7; 28], NOW).unwrap();
    assert_eq!(bytes[0] & 0x80, 0x80);
}

#[test]
fn driver_forwards_errors() {
    let mut driver = Driver::new();
    let error = TransceiverError { msg: "no".to_string(), source: Some("way".to_string()) };
    let reaction = driver.handle_event(error.into());
    let message = reaction.message.unwrap();
    assert_eq!(message.delivery, Delivery::Block);
    match message.event {
        ConnectionDriverEvent::TransceiverError(e) => assert_eq!(e.message(), "no: way"),
        _ => panic!("wrong message"),
    }
    let error = TransceiverError { msg: "no".to_string(), source: None };
    assert_eq!(error.message(), "no");
}

#[test]
fn messages_follow_connections() {
    let mut driver = Driver::new();
    let mut cache = ConnectionStateCache::<R>::default();
    let events = vec![
        TransceiverEvent::Connected(addr(1), 4),
        TransceiverEvent::Connected(addr(2), 5),
        TransceiverEvent::Connected(addr(3), 5),
        TransceiverEvent::PacketReceived(addr(2), packet(0, 1, &[9; 28]), NOW),
        TransceiverEvent::Disconnected(addr(1)),
        TransceiverEvent::Disconnected(addr(3)),
        TransceiverEvent::Connected(addr(1), 6),
    ];
    for event in events {
        if let Some(message) = driver.handle_event(event).message {
            cache.update(message.event);
        }
        let mut known = cache.connected_robots();
        let mut connected = driver.connected_robots();
        known.sort_unstable();
        connected.sort_unstable();
        assert_eq!(known, connected);
    }
    assert_eq!(cache.latest_response(5), Some(&[9; 28]));
}

#[test]
fn announcements_alternate() {
    let mut driver = Driver::new();
    let mut announced = [false; 4];
    let events = [
        TransceiverEvent::Disconnected(addr(1)),
        TransceiverEvent::Connected(addr(1), 2),
        TransceiverEvent::Connected(addr(2), 2),
        TransceiverEvent::PacketReceived(addr(2), packet(0, 1, &[5; 28]), NOW),
        TransceiverEvent::Disconnected(addr(2)),
        TransceiverEvent::Connected(addr(2), 3),
        TransceiverEvent::Disconnected(addr(1)),
        TransceiverEvent::Disconnected(addr(1)),
        TransceiverEvent::Connected(addr(1), 2),
        TransceiverEvent::Disconnected(addr(2)),
        TransceiverEvent::Disconnected(addr(1)),
    ];
    let mut messages = 0;
    for event in events {
        let Some(message) = driver.handle_event(event).message else {
            continue;
        };
        messages += 1;
        assert_eq!(message.delivery, Delivery::Block);
        match message.event {
            ConnectionDriverEvent::Connected(id, _) => {
                assert!(!announced[id as usize]);
                announced[id as usize] = true;
            }
            ConnectionDriverEvent::Disconnected(id) => {
                assert!(announced[id as usize]);
                announced[id as usize] = false;
            }
            _ => panic!("wrong message"),
        }
        for id in 0..4u8 {
            assert_eq!(driver.has_robot(id), announced[id as usize]);
        }
    }
    assert_eq!(messages, 6);
}

#[test]
fn pool_takes_silence_for_a_timeout() {
    assert!(pool::timeout_elapsed(0));
    assert!(!pool::timeout_elapsed(1));
}

#[test]
fn addresses_are_unique() {
    let mut driver = Driver::new();
    driver.handle_event(TransceiverEvent::Connected(addr(1), 4));
    driver.handle_event(TransceiverEvent::Connected(addr(1), 5));
    assert_eq!(driver.connected_robots(), vec![5]);
}

// ======== Pool ========

#[test]
fn pool_follows_connections() {
    let mut pool = Pool::new();
    let (events, update) = pool.handle_event(TransceiverEvent::Connected(addr(1), 4));
    assert!(update);
    assert_eq!(events.len(), 1);
    assert!(matches!(&events[0], ConnectionDriverEvent::Connected(4, a) if *a == addr(1)));
    assert!(pool.handle_event(TransceiverEvent::Connected(addr(2), 4)).0.is_empty());
    // Two robots can share an address
    assert_eq!(pool.handle_event(TransceiverEvent::Connected(addr(1), 6)).0.len(), 1);
    assert_eq!(pool.handle_event(TransceiverEvent::Connected(addr(3), 7)).0.len(), 1);
    assert!(pool.has_robot(4) && pool.has_robot(6));
    assert!(!pool.id_filter().apply(6));

    let (events, update) = pool.handle_event(TransceiverEvent::Disconnected(addr(1)));
    assert!(update);
    let mut ids: Vec<u8> = events
        .iter()
        .map(|e| match e {
            ConnectionDriverEvent::Disconnected(id) => *id,
            _ => panic!("wrong message"),
        })
        .collect();
    ids.sort_unstable();
    assert_eq!(ids, vec![4, 6]);
    assert_eq!(pool.connected_robots(), vec![7]);
    assert_eq!(pool.transceiver_addr(7), Some(addr(3)));
    assert_eq!(pool.transceiver_addr(4), None);
}

#[test]
fn pool_exchanges_packets() {
    let mut pool = Pool::new();
    assert!(pool.send_packet(4, [7; 28], NOW).is_none());
    pool.handle_event(TransceiverEvent::Connected(addr(1), 4));
    assert_eq!(
        pool.send_packet(4, [7; 28], NOW),
        Some((addr(1), packet(0, 1, &[7; 28])))
    );
    let event = TransceiverEvent::PacketReceived(addr(1), packet(0, 1, &[9; 28]), NOW);
    let (events, update) = pool.handle_event(event);
    assert!(!update);
    assert!(matches!(
        &events[..],
        [ConnectionDriverEvent::PacketReceived(4, data, NOW)] if *data == [9; 28]
    ));
    assert_eq!(pool.connection_stats(4).unwrap().rtt_avg, Duration { nanos: 0 });
    let event = TransceiverEvent::PacketReceived(addr(2), packet(0, 1, &[9; 28]), NOW);
    assert!(pool.handle_event(event).0.is_empty());
    pool.queue_datagram(4, CommandDatagram::ReadRobotId);
    let (_, bytes) = pool.send_packet(4, [7; 28], NOW).unwrap();
    assert_eq!(bytes[0] & 0x80, 0x80);
}

// ======== Periodic sending ========

#[test]
fn default_period_is_ten_milliseconds() {
    let timer = SendTimer::new(NOW);
    assert_eq!(timer.send_period, Duration::from_millis(10));
    assert_eq!(timer.next_send_time, NOW);
}

#[test]
fn cycles_do_not_drift() {
    let mut timer = SendTimer::new(Instant { nanos: 0 });
    let ms = |m| Instant { nanos: 0 }.plus(Duration::from_millis(m));
    assert_eq!(timer.finish_cycle(ms(3)), Some(Duration::from_millis(7)));
    assert_eq!(timer.finish_cycle(ms(11)), Some(Duration::from_millis(9)));
    assert_eq!(timer.next_send_time, ms(20));
    // Too late: the timer is reset
    assert_eq!(timer.finish_cycle(ms(35)), None);
    assert_eq!(timer.next_send_time, ms(35));
    assert_eq!(timer.finish_cycle(ms(45)), None);
}

#[test]
fn control_messages() {
    let mut timer = SendTimer::new(NOW);
    let period = Duration::from_millis(3);
    assert!(!timer.control(PeriodicControlMessage::SetSendPeriod(period)));
    assert_eq!(timer.send_period, period);
    assert!(timer.control(PeriodicControlMessage::Stop));
    assert_eq!(timer.send_period, period);
}

#[test]
fn packets_have_a_default() {
    let mut packets = RegularPackets::<u16>::new();
    assert_eq!(packets.packet_for(3), 0);
    packets.set_regular_packet(3, 2);
    assert_eq!(packets.packet_for(3), 2);
    assert_eq!(packets.packet_for(4), 0);
}

#[test]
fn every_robot_gets_a_packet() {
    let mut driver = Driver::new();
    driver.handle_event(TransceiverEvent::Connected(addr(1), 4));
    driver.handle_event(TransceiverEvent::Connected(addr(2), 5));
    let mut packets = RegularPackets::<R>::new();
    packets.set_regular_packet(5, [6; 28]);
    let mut messages = send_all(&mut driver, &packets, NOW);
    messages.sort_by_key(|m| m.1.clone());
    let expected =
        vec![(addr(1), packet(0, 1, &[0; 28])), (addr(2), packet(0, 1, &[6; 28]))];
    assert_eq!(messages, expected);
}

#[test]
fn periodic_driver() {
    let mut driver = Driver::new();
    driver.handle_event(TransceiverEvent::Connected(addr(1), 4));
    let mut periodic = PeriodicConnectionDriver::new(driver, NOW);
    assert_eq!(periodic.send_period(), Duration::from_millis(10));
    periodic.set_regular_packet(4, [7; 28]);
    assert_eq!(periodic.send_packets(NOW), vec![(addr(1), packet(0, 1, &[7; 28]))]);
    periodic.queue_datagram(4, CommandDatagram::ReadRobotId);
    assert_eq!(periodic.send_packets(NOW)[0].1[0], 0x80 | 0x40 | 1);
    assert_eq!(periodic.finish_cycle(NOW), Some(Duration::from_millis(10)));
    periodic.set_send_period(Duration::from_millis(4));
    assert_eq!(periodic.finish_cycle(NOW), Some(Duration::from_millis(14)));
    // The getter does not follow
    assert_eq!(periodic.send_period(), Duration::from_millis(10));
    assert!(periodic.has_robot(4));
    assert_eq!(periodic.connected_robots(), vec![4]);
    assert_eq!(periodic.transceiver_addr(4), Some(addr(1)));
    assert!(periodic.connection_stats(4).is_some());
    assert!(periodic.connection_stats(5).is_none());
}

#[test]
fn periodic_pool() {
    let mut inner = Pool::new();
    inner.handle_event(TransceiverEvent::Connected(addr(1), 4));
    inner.handle_event(TransceiverEvent::Connected(addr(1), 5));
    let mut periodic = pool::PeriodicConnectionPool::new(inner, NOW);
    assert_eq!(periodic.send_period(), Duration::from_millis(10));
    periodic.set_regular_packet(4, [7; 28]);
    let mut messages = periodic.send_packets(NOW);
    messages.sort_by_key(|m| m.1.clone());
    let expected =
        vec![(addr(1), packet(0, 1, &[0; 28])), (addr(1), packet(0, 1, &[7; 28]))];
    assert_eq!(messages, expected);
    periodic.queue_datagram(4, CommandDatagram::ReadRobotId);
    periodic.queue_datagram(5, CommandDatagram::ReadRobotId);
    assert_eq!(periodic.send_packets(NOW)[0].1[0], 0x80 | 0x40 | 1);
    periodic.set_send_period(Duration::from_millis(4));
    assert_eq!(periodic.finish_cycle(NOW), Some(Duration::from_millis(4)));
    assert!(periodic.has_robot(5));
    assert!(!periodic.has_robot(6));
    assert_eq!(periodic.connected_robots().len(), 2);
    assert_eq!(periodic.transceiver_addr(5), Some(addr(1)));
    assert!(periodic.connection_stats(4).is_some());
}
