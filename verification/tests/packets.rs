use connection::conn_core;
use connection::conn_core::ConnectionCore;
use connection::packet::deku_helpers::FixedSizePacking;
use connection::packet::radio::{
    RadioCommandPacket, RadioPacket, RadioPacketPayload, RadioResponsePacket,
};
use connection::packet::response::{MotorStatus, RegularResponseData, SdStatus};
use connection::packet::{RegularCommandData, Spline, Trajectory, TrajectoryPath};
use connection::protocol::bits::UnpackError;
use connection::protocol::datagram_link::DatagramLink;
use connection::protocol::deku_helpers::{
    int_from_field, int_to_field, uint_to_field, PackBytes, PacketPacking, PacketUnpacking,
    UnpackBytes,
};
use connection::protocol::proto2025::datagrams::{
    BoardIdsResponseDatagram, CommandDatagram, CommandDatagramType, DatagramTag, EchoDatagram,
    ResponseDatagram, ResponseDatagramType, WriteKickCalibrationCommandDatagram,
};
use connection::protocol::proto2025::packet::{DatagramPayload, PacketHeader};
use connection::protocol::proto2025::RadioProtocol2025;
use connection::protocol::{PacketRxResult, RadioProtocol};
use connection::time::{Duration, Instant};

/// Writes bit fields, lowest bit first.
struct BitWriter {
    bits: Vec<bool>,
}

impl BitWriter {
    fn of(fields: &[(i64, usize)]) -> Vec<u8> {
        let mut w = BitWriter { bits: Vec::new() };
        for &(value, width) in fields {
            for k in 0..width {
                w.bits.push((value >> k) & 1 == 1);
            }
        }
        let mut bytes = Vec::new();
        for byte in w.bits.chunks(8) {
            let mut b = 0u8;
            for (k, &bit) in byte.iter().enumerate() {
                b |= (bit as u8) << k;
            }
            bytes.push(b);
        }
        bytes
    }
}

fn command(trajectory: Trajectory) -> RegularCommandData {
    RegularCommandData {
        time_offset: -3,
        dribbler: -128,
        shot_power: 200,
        chip: true,
        charge: false,
        force_kick: true,
        standby: false,
        eject_sdcard: false,
        has_detection: true,
        detection_pos_x: 1023,
        detection_pos_y: -1024,
        detection_phi: -1,
        unused: 0x55,
        trajectory,
    }
}

const COMMAND_FIELDS: [(i64, usize); 13] = [
    (-3, 8), (-128, 8), (200, 8), (1, 1), (0, 1), (1, 1), (0, 1), (0, 1), (1, 1), (1023, 11),
    (-1024, 11), (-1, 9), (0x55, 7),
];

fn spline() -> Spline {
    Spline {
        x_pos: 1, x_vel: -2, x_acc: 3, x_jerk: -4, y_pos: 5, y_vel: -6, y_acc: 7, y_jerk: -8,
        phi_pos: 9, phi_vel: -10, phi_acc: 11, phi_jerk: -12,
    }
}

const SPLINE_FIELDS: [(i64, usize); 12] = [
    (1, 11), (-2, 12), (3, 13), (-4, 15), (5, 11), (-6, 12), (7, 13), (-8, 15), (9, 9), (-10, 10),
    (11, 14), (-12, 17),
];

fn path() -> TrajectoryPath {
    TrajectoryPath {
        start_pos_x: 1, start_pos_y: -2, start_phi: 3, start_vel_x: -4, start_vel_y: 5,
        end_phi: -6, end_vel_x: 7, end_vel_y: 8, alpha: -9, t: 10, acceleration: 11, v_max: 12,
        slow_down_time: 13, is_fast_endspeed: true,
    }
}

#[test]
fn command_bits() {
    let mut fields = COMMAND_FIELDS.to_vec();
    fields.push((0, 4));
    assert_eq!(command(Trajectory::Halt).to_bytes(), BitWriter::of(&fields));

    let mut fields = COMMAND_FIELDS.to_vec();
    fields.push((2, 4));
    fields.extend_from_slice(&SPLINE_FIELDS);
    assert_eq!(command(Trajectory::GlobalSpline(spline())).to_bytes(), BitWriter::of(&fields));
    fields[13] = (3, 4);
    assert_eq!(command(Trajectory::LocalSpline(spline())).to_bytes(), BitWriter::of(&fields));

    let mut fields = COMMAND_FIELDS.to_vec();
    fields.push((1, 4));
    fields.extend_from_slice(&[
        (1, 11), (-2, 11), (3, 9), (-4, 12), (5, 12), (-6, 9), (7, 12),
        (7, 12), // The place of end_vel_y carries end_vel_x
        (-9, 15), (10, 15), (11, 12), (12, 12), (13, 9), (1, 1),
    ]);
    assert_eq!(command(Trajectory::Path(path())).to_bytes(), BitWriter::of(&fields));
}

#[test]
fn command_round_trip() {
    let mut sent_path = path();
    sent_path.end_vel_y = sent_path.end_vel_x;
    for trajectory in [
        Trajectory::Halt,
        Trajectory::Path(sent_path),
        Trajectory::GlobalSpline(spline()),
        Trajectory::LocalSpline(spline()),
    ] {
        let data = command(trajectory);
        let bytes = data.pack_to_vec();
        assert_eq!(bytes.len(), 28);
        assert_eq!(RegularCommandData::unpack(&bytes), Ok(data));
    }
}

#[test]
fn out_of_range_numbers_are_clamped() {
    let mut data = command(Trajectory::Halt);
    data.dribbler = 1000;
    data.detection_pos_x = -5000;
    let read = RegularCommandData::unpack(&data.pack_to_vec()).unwrap();
    assert_eq!(read.dribbler, 127);
    assert_eq!(read.detection_pos_x, -1024);
    assert_eq!(int_to_field(-1, 5), 31);
    assert_eq!(int_from_field(31, 5), -1);
    assert_eq!(int_from_field(15, 5), 15);
    assert_eq!(uint_to_field(99, 5), 31);
}

#[test]
fn unknown_trajectories_are_refused() {
    let mut bytes = command(Trajectory::Halt).pack_to_vec();
    // The tag is in the bits 68..72
    bytes[8] |= 0x70;
    assert_eq!(RegularCommandData::unpack(&bytes), Err(UnpackError::UnknownTag { tag: 7 }));
    assert!(matches!(
        RegularCommandData::unpack(&bytes[..3]),
        Err(UnpackError::Incomplete { .. })
    ));
}

fn response() -> RegularResponseData {
    let mut data = RegularResponseData::default();
    data.battery = 255;
    data.packet_loss = 1;
    data.motor1_status = MotorStatus { error: true, overheated: false, encoder_error: true, unused: 3 };
    data.sd_status = SdStatus { error: false, mounted: true, full: false, unused: 31 };
    data.motor0_load_torque = -1;
    data.measured_pos_x = -8192;
    data.measured_phi = 8191;
    data.measured_vel_y = -1;
    data.power_enabled = true;
    data.unused = 0x1234;
    data
}

#[test]
fn response_bits() {
    let bytes = BitWriter::of(&[
        (255, 8), (1, 8), (0, 8), (0b0001_1101, 8), (0, 8), (0, 8), (0, 8), (0, 8), (0, 8),
        (0b1111_1010, 8), (-1, 8), (0, 8), (0, 8), (0, 8), (0, 8), (-8192, 14), (0, 14), (8191, 14),
        (0, 15), (-1, 15), (0, 14), (1, 1), (0, 1), (0x1234, 16),
    ]);
    assert_eq!(response().to_bytes(), bytes);
    assert_eq!(bytes.len(), 28);
}

#[test]
fn response_round_trip() {
    let bytes = response().pack_to_vec();
    assert_eq!(RegularResponseData::unpack(&bytes), Ok(response()));
    assert!(RegularResponseData::unpack(&bytes[..27]).is_err());
}

#[test]
fn header_bits() {
    let header = PacketHeader { counter: 5, acknum: 1, datagram: true };
    assert_eq!(header.pack_to_vec(), vec![0b1100_0101]);
    assert_eq!(PacketHeader::unpack(&[0b1100_0101, 7]), Ok(header));
    assert_eq!(PacketHeader::unpack(&[]), Err(UnpackError::Incomplete { bits: 6 }));
}

#[test]
fn chunk_bits() {
    let mut data = [0u8; 27];
    data[26] = 9;
    let chunk = DatagramPayload { seqnum: 1, datagram_type: CommandDatagramType::ReadBoardIds, data };
    let bytes = chunk.pack_to_vec();
    assert_eq!(bytes[0], 1 | (2 << 1));
    assert_eq!(bytes[27], 9);
    assert_eq!(DatagramPayload::<CommandDatagramType>::unpack(&bytes), Ok(chunk));
    let mut unknown = bytes.clone();
    unknown[0] = 100 << 1;
    assert_eq!(
        DatagramPayload::<CommandDatagramType>::unpack(&unknown),
        Err(UnpackError::UnknownTag { tag: 100 })
    );
}

#[test]
fn radio_packets_round_trip() {
    let sent: RadioCommandPacket = RadioPacket {
        counter: 63,
        acknum: 0,
        payload: RadioPacketPayload::Regular(command(Trajectory::Halt)),
    };
    let bytes = sent.pack_padded();
    assert_eq!(bytes.len(), 29);
    assert_eq!(bytes[0], 63);
    assert_eq!(RadioCommandPacket::from_bytes(&bytes), Ok(sent));

    let sent: RadioResponsePacket = RadioPacket {
        counter: 1,
        acknum: 1,
        payload: RadioPacketPayload::Datagram {
            seqnum: 1,
            datagram_type: ResponseDatagramType::BoardIds,
            data: [7; 27],
        },
    };
    let bytes = sent.pack_padded();
    assert_eq!(bytes[..3], [0b1100_0001, 0b101, 7]);
    assert_eq!(RadioResponsePacket::from_bytes(&bytes), Ok(sent));
}

#[test]
fn datagram_sizes() {
    assert_eq!(CommandDatagramType::Echo.get_datagram_size(), 100);
    assert_eq!(CommandDatagramType::ReadRobotId.get_datagram_size(), 0);
    assert_eq!(CommandDatagramType::ReadBoardIds.get_datagram_size(), 0);
    assert_eq!(CommandDatagramType::ToggleKickCalibration.get_datagram_size(), 1);
    assert_eq!(CommandDatagramType::WriteKickCalibration.get_datagram_size(), 55);
    assert_eq!(ResponseDatagramType::Echo.get_datagram_size(), 100);
    assert_eq!(ResponseDatagramType::RobotId.get_datagram_size(), 1);
    assert_eq!(ResponseDatagramType::BoardIds.get_datagram_size(), 84);
    for id in 0..=127u8 {
        if let Some(tag) = CommandDatagramType::from_id(id) {
            assert_eq!(tag.to_id(), id);
        }
        if let Some(tag) = ResponseDatagramType::from_id(id) {
            assert_eq!(tag.to_id(), id);
        }
    }
}

#[test]
fn command_datagrams_are_taken_apart() {
    let echo = EchoDatagram { data: [4; 100] };
    let parts = CommandDatagram::Echo(echo).into_parts();
    assert_eq!(parts, (CommandDatagramType::Echo, vec![4; 100]));
    let parts = CommandDatagram::ToggleKickCalibration(true).into_parts();
    assert_eq!(parts, (CommandDatagramType::ToggleKickCalibration, vec![1]));
    let calibration = WriteKickCalibrationCommandDatagram {
        datetime_str: *b"1979-05-27T07:32:00",
        kicker_id: [1, 2, 0x0403_0201],
        linear: [1.5f32.to_bits(), 0, 0],
        chip: [0, 0, (-2.0f32).to_bits()],
    };
    let (tag, bytes) = CommandDatagram::WriteKickCalibration(calibration).into_parts();
    assert_eq!(tag, CommandDatagramType::WriteKickCalibration);
    assert_eq!(bytes.len(), 55);
    assert_eq!(&bytes[..19], b"1979-05-27T07:32:00");
    assert_eq!(bytes[27..31], [1, 2, 3, 4]);
    assert_eq!(bytes[31..35], 1.5f32.to_le_bytes());
    assert_eq!(bytes[51..], (-2.0f32).to_le_bytes());
}

#[test]
fn response_datagrams_are_put_together() {
    assert!(matches!(
        ResponseDatagram::from_parts(ResponseDatagramType::RobotId, &[12, 0]),
        Ok(ResponseDatagram::RobotId(12))
    ));
    let mut bytes = vec![0u8; 84];
    bytes[4] = 1;
    bytes[83] = 2;
    match ResponseDatagram::from_parts(ResponseDatagramType::BoardIds, &bytes) {
        Ok(ResponseDatagram::BoardIds(ids)) => {
            assert_eq!(ids.main, [0, 1, 0]);
            assert_eq!(ids.motor_br, [0, 0, 2 << 24]);
            assert_eq!(ids.pack_to_vec(), bytes);
        }
        _ => panic!("no board ids"),
    }
    assert!(BoardIdsResponseDatagram::unpack(&bytes[..83]).is_err());
    assert!(ResponseDatagram::from_parts(ResponseDatagramType::Echo, &[0; 99]).is_err());
}

// ======== Connection core ========

const START: Instant = Instant { nanos: 1_000_000 };

#[test]
fn core_counts_packets() {
    let mut core = ConnectionCore::new();
    for i in 1..=130u32 {
        let bytes = core.next_packet(RegularCommandData::default(), START);
        assert_eq!(bytes.len(), 29);
        assert_eq!(bytes[0] as u32 & 63, i % 64);
    }
}

#[test]
fn core_exchanges_packets() {
    let mut core = ConnectionCore::new();
    let bytes = core.next_packet(command(Trajectory::Halt), START);
    match RadioCommandPacket::from_bytes(&bytes) {
        Ok(packet) => {
            assert_eq!(packet.payload, RadioPacketPayload::Regular(command(Trajectory::Halt)))
        }
        Err(_) => panic!("unreadable packet"),
    }
    let answer: RadioResponsePacket = RadioPacket {
        counter: 1,
        acknum: 1,
        payload: RadioPacketPayload::Regular(response()),
    };
    let answer = answer.pack_padded();
    assert!(ConnectionCore::can_read(&answer));
    assert!(!ConnectionCore::can_read(&answer[..4]));
    let later = START.plus(Duration::from_millis(2));
    match core.packet_received(&answer, later) {
        conn_core::PacketRxResult::Regular(data) => assert_eq!(data, response()),
        _ => panic!("no regular packet"),
    }
    assert_eq!(core.stats().rtt_avg, Duration::from_millis(2));
}

#[test]
fn core_sends_datagrams() {
    let mut core = ConnectionCore::new();
    core.queue_datagram(CommandDatagram::ToggleKickCalibration(true));
    let bytes = core.next_packet(RegularCommandData::default(), START);
    match RadioCommandPacket::from_bytes(&bytes).map(|p| p.payload) {
        Ok(RadioPacketPayload::Datagram { datagram_type, data, .. }) => {
            assert_eq!(datagram_type, CommandDatagramType::ToggleKickCalibration);
            assert_eq!(data[0], 1);
        }
        _ => panic!("no datagram"),
    }
}

#[test]
fn core_assembles_datagrams() {
    let mut core = ConnectionCore::new();
    let ids: Vec<u8> = (0..108).collect();
    for (i, chunk) in ids.chunks(27).enumerate() {
        let mut data = [0u8; 27];
        data.copy_from_slice(chunk);
        let packet: RadioResponsePacket = RadioPacket {
            counter: 1,
            acknum: 1,
            payload: RadioPacketPayload::Datagram {
                seqnum: (i % 2) as u8,
                datagram_type: ResponseDatagramType::Echo,
                data,
            },
        };
        match core.packet_received(&packet.pack_padded(), START) {
            conn_core::PacketRxResult::IncompleteDatagram => assert!(i < 3),
            conn_core::PacketRxResult::Datagram(ResponseDatagram::Echo(echo)) => {
                assert_eq!(i, 3);
                assert_eq!(echo.data[..], ids[..100]);
            }
            _ => panic!("wrong packet"),
        }
    }
}

fn echo_chunk(i: u8) -> [u8; 27] {
    std::array::from_fn(|k| 27 * i + k as u8)
}

#[test]
fn core_ignores_repeated_chunks() {
    let mut core = ConnectionCore::new();
    for (call, i) in [0u8, 0, 1, 2, 3].into_iter().enumerate() {
        let packet: RadioResponsePacket = RadioPacket {
            counter: 1,
            acknum: 1,
            payload: RadioPacketPayload::Datagram {
                seqnum: i % 2,
                datagram_type: ResponseDatagramType::Echo,
                data: echo_chunk(i),
            },
        };
        match core.packet_received(&packet.pack_padded(), START) {
            conn_core::PacketRxResult::IncompleteDatagram => assert!(call < 4),
            conn_core::PacketRxResult::Datagram(ResponseDatagram::Echo(echo)) => {
                assert_eq!(call, 4);
                assert_eq!(echo.data, std::array::from_fn(|k| k as u8));
            }
            _ => panic!("wrong packet"),
        }
    }
}

// ======== Protocol ========

type C = RegularCommandData;
type A = RegularResponseData;

#[test]
fn core_takes_any_first_chunk() {
    let mut core = ConnectionCore::new();
    let mut ids = Vec::new();
    for (seqnum, id) in [(1u8, 4u8), (1, 5), (0, 6), (1, 7)] {
        let mut data = [0u8; 27];
        data[0] = id;
        let packet: RadioResponsePacket = RadioPacket {
            counter: 1,
            acknum: 1,
            payload: RadioPacketPayload::Datagram {
                seqnum,
                datagram_type: ResponseDatagramType::RobotId,
                data,
            },
        };
        match core.packet_received(&packet.pack_padded(), START) {
            conn_core::PacketRxResult::Datagram(ResponseDatagram::RobotId(id)) => ids.push(id),
            conn_core::PacketRxResult::IncompleteDatagram => assert_eq!(id, 5),
            _ => panic!("wrong packet"),
        }
    }
    assert_eq!(ids, vec![4, 6, 7]);
}

fn send(proto: &mut RadioProtocol2025) -> (PacketHeader, Vec<u8>) {
    let bytes = RadioProtocol::<C, A, CommandDatagram, ResponseDatagram>::next_packet(
        proto,
        C::default(),
        START,
    );
    assert_eq!(bytes.len(), 29);
    (PacketHeader::unpack(&bytes).unwrap(), bytes[1..].to_vec())
}

fn receive(
    proto: &mut RadioProtocol2025,
    header: PacketHeader,
    payload: Vec<u8>,
) -> PacketRxResult<A, ResponseDatagram> {
    let mut bytes = header.pack_to_vec();
    bytes.extend_from_slice(&payload);
    RadioProtocol::<C, A, CommandDatagram, ResponseDatagram>::packet_received(proto, &bytes, START)
}

#[test]
fn protocol_appends_every_chunk() {
    let mut proto = RadioProtocol2025::new();
    // The first chunk may have any sequence number, and one that comes again is appended again
    let mut echoes = 0;
    for (call, (seqnum, i)) in [(1u8, 0u8), (1, 0), (0, 1), (0, 2)].into_iter().enumerate() {
        let chunk = DatagramPayload {
            seqnum,
            datagram_type: ResponseDatagramType::Echo,
            data: echo_chunk(i),
        };
        let header = PacketHeader { counter: 0, acknum: 1, datagram: true };
        match receive(&mut proto, header, chunk.pack_to_vec()) {
            PacketRxResult::Datagram(ResponseDatagram::Echo(echo)) => {
                assert_eq!(call, 3);
                assert_eq!(echo.data[..27], echo_chunk(0));
                assert_eq!(echo.data[27..54], echo_chunk(0));
                assert_eq!(echo.data[54..81], echo_chunk(1));
                assert_eq!(echo.data[81..], echo_chunk(2)[..19]);
                echoes += 1;
            }
            PacketRxResult::IncompleteDatagram => {}
            _ => panic!("wrong packet"),
        }
        assert_eq!(send(&mut proto).0.acknum, seqnum);
    }
    assert_eq!(echoes, 1);
}

#[test]
fn every_packet_follows_from_the_calls_before() {
    let mut proto = RadioProtocol2025::new();
    let regular = C::default().pack_to_vec();
    for i in 0..70u8 {
        let (header, payload) = send(&mut proto);
        let expected = PacketHeader { counter: i % 64, acknum: 1, datagram: false };
        assert_eq!(header, expected);
        assert_eq!(payload, regular);
    }

    // Three chunks of one byte or none each, in the order of the queue
    for datagram in [
        CommandDatagram::ToggleKickCalibration(true),
        CommandDatagram::ReadRobotId,
        CommandDatagram::ToggleKickCalibration(false),
    ] {
        RadioProtocol::<C, A, CommandDatagram, ResponseDatagram>::queue_datagram(
            &mut proto,
            datagram,
        );
    }
    let kinds = [
        (CommandDatagramType::ToggleKickCalibration, 1),
        (CommandDatagramType::ReadRobotId, 0),
        (CommandDatagramType::ToggleKickCalibration, 0),
    ];
    for (n, (datagram_type, first)) in kinds.into_iter().enumerate() {
        let mut data = [0u8; 27];
        data[0] = first;
        let seqnum = n as u8 % 2;
        let expected = DatagramPayload { seqnum, datagram_type, data }.pack_to_vec();
        let (header, payload) = send(&mut proto);
        assert!(header.datagram);
        assert_eq!(payload, expected);
        // Without the right acknowledgement it is repeated, and nothing else is sent
        let wrong = PacketHeader { counter: 0, acknum: 1 - seqnum, datagram: false };
        receive(&mut proto, wrong, response().pack_to_vec());
        let (header, payload) = send(&mut proto);
        assert!(!header.datagram);
        assert_eq!(payload, regular);
        let (header, payload) = send(&mut proto);
        assert!(header.datagram);
        assert_eq!(payload, expected);
        let right = PacketHeader { counter: 0, acknum: seqnum, datagram: false };
        receive(&mut proto, right, response().pack_to_vec());
    }
    assert_eq!(send(&mut proto).1, regular);
}

#[test]
fn sequence_numbers_alternate() {
    let mut proto = RadioProtocol2025::default();
    let echo = CommandDatagram::Echo(EchoDatagram { data: [1; 100] });
    RadioProtocol::<C, A, CommandDatagram, ResponseDatagram>::queue_datagram(&mut proto, echo);
    let mut seqnums = Vec::new();
    for _ in 0..4 {
        let bytes = RadioProtocol::<C, A, CommandDatagram, ResponseDatagram>::next_packet(
            &mut proto,
            C::default(),
            START,
        );
        let chunk = DatagramPayload::<CommandDatagramType>::unpack(&bytes[1..]).unwrap();
        seqnums.push(chunk.seqnum);
        let ack = PacketHeader { counter: 0, acknum: chunk.seqnum, datagram: false };
        let mut answer = ack.pack_to_vec();
        answer.extend_from_slice(&response().pack_to_vec());
        let result = RadioProtocol::<C, A, CommandDatagram, ResponseDatagram>::packet_received(
            &mut proto,
            &answer,
            START,
        );
        assert!(matches!(result, PacketRxResult::Regular(data) if data == response()));
    }
    assert_eq!(seqnums, vec![0, 1, 0, 1]);
}

#[test]
fn response_size_is_fixed() {
    assert_eq!(
        <RadioProtocol2025 as RadioProtocol<C, A, CommandDatagram, ResponseDatagram>>::response_packet_size(),
        29
    );
    assert!(<RadioProtocol2025 as RadioProtocol<C, A, CommandDatagram, ResponseDatagram>>::can_read(
        &[0; 29]
    ));
    assert!(!<RadioProtocol2025 as RadioProtocol<C, A, CommandDatagram, ResponseDatagram>>::can_read(
        &[]
    ));
}

#[test]
fn queued_datagrams_are_cut_in_order() {
    let mut link = DatagramLink::new();
    let echo = EchoDatagram { data: std::array::from_fn(|i| i as u8) };
    link.queue_datagram(CommandDatagram::ReadRobotId);
    link.queue_datagram(CommandDatagram::Echo(echo));
    link.queue_datagram(CommandDatagram::ToggleKickCalibration(true));
    let mut chunks = Vec::new();
    while let Some(chunk) = link.get_next_datagram_chunk() {
        chunks.push(chunk);
    }
    let kinds: Vec<CommandDatagramType> = chunks.iter().map(|chunk| chunk.0).collect();
    assert_eq!(kinds[0], CommandDatagramType::ReadRobotId);
    assert_eq!(kinds[1..5], [CommandDatagramType::Echo; 4]);
    assert_eq!(kinds[5..], [CommandDatagramType::ToggleKickCalibration]);
    assert_eq!(chunks[0].1, [0; 27]);
    let joined: Vec<u8> = chunks[1..5].iter().flat_map(|chunk| chunk.1).collect();
    assert_eq!(joined[..100], echo.data);
    assert_eq!(joined[100..], [0; 8]);
    assert_eq!(chunks[5].1[0], 1);
    assert!(link.get_next_datagram_chunk().is_none());
}
