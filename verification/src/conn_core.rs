//! Protocol state for robots whose commands and responses are whole radio packets.

use crate::conn_stats::{tracked_received, tracked_sent, ConnectionStatTracker, ConnectionStats};
use crate::packet::deku_helpers::FixedSizePacking;
use crate::packet::radio::{
    law_command_packet_size, law_packet_places, law_packet_read_places, RadioCommandPacket,
    RadioCommandPayload, RadioPacket, RadioPacketPayload, RadioResponsePacket,
};
use crate::packet::response::RegularResponseData;
use crate::packet::RegularCommandData;
use crate::protocol::datagram_link::{chunks_of, Chunk, DatagramLink};
use crate::protocol::deku_helpers::{padded, PackBytes, UnpackBytes};
use crate::protocol::proto2025::answers::{recorded, round_trip};
use crate::protocol::proto2025::datagrams::{
    CommandDatagram, CommandDatagramType, DatagramTag, ResponseDatagram, ResponseDatagramType,
};
use crate::protocol::proto2025::packet::{DatagramPayload, PACKET_SIZE};
use crate::time::{Duration, Instant};
use crate::utils::pending::is_oldest;
use vstd::prelude::*;

verus! {

/// The state of the connection to one robot.
#[derive(Debug)]
pub struct ConnectionCore {
    counter: u8,
    stat_tracker: ConnectionStatTracker,
    link: DatagramLink,
}

/// What a received packet contained.
#[derive(Debug)]
pub enum PacketRxResult {
    Regular(RegularResponseData),
    Datagram(ResponseDatagram),
    IncompleteDatagram,
}

/// The payload of the next packet: the chunk, if one is due, or else the regular data.
pub open spec fn payload_of(
    chunk: Option<DatagramPayload<CommandDatagramType>>,
    data: RegularCommandData,
) -> RadioCommandPayload {
    match chunk {
        Some(p) => RadioPacketPayload::Datagram {
            seqnum: p.seqnum,
            datagram_type: p.datagram_type,
            data: p.data,
        },
        None => RadioPacketPayload::Regular(data),
    }
}

impl ConnectionCore {
    /// The counter of the last packet.
    pub closed spec fn last_counter(&self) -> u8 {
        self.counter
    }

    /// The statistics of the packets.
    pub closed spec fn tracker(&self) -> ConnectionStatTracker {
        self.stat_tracker
    }

    /// The state of the datagrams.
    pub closed spec fn datagrams(&self) -> DatagramLink {
        self.link
    }

    pub open spec fn wf(&self) -> bool {
        &&& self.last_counter() < 64
        &&& self.tracker().wf()
        &&& self.tracker().length() == 100
        &&& self.tracker().max_pending() == 5
        &&& self.datagrams().wf()
    }

    /// Nothing was sent, received or queued yet.
    pub open spec fn fresh(&self) -> bool {
        &&& self.last_counter() == 0
        &&& self.tracker().history() == Seq::<Option<Duration>>::empty()
        &&& self.tracker().pending() == Map::<u32, Instant>::empty()
        &&& self.datagrams().fresh()
    }

    pub fn new() -> (c: ConnectionCore)
        ensures
            c.wf(),
            c.fresh(),
    {
        ConnectionCore {
            counter: 0,
            stat_tracker: ConnectionStatTracker::new(100, 5),
            link: DatagramLink::new(),
        }
    }

    pub fn stats(&self) -> (stats: ConnectionStats)
        requires
            self.wf(),
        ensures
            stats.summary().summarizes(self.tracker().history()),
    {
        proof {
            self.stat_tracker.law_bounds();
        }
        self.stat_tracker.get()
    }

    /// Tests whether `bytes` start with a response packet.
    pub fn can_read(bytes: &[u8]) -> (b: bool)
        ensures
            b == (RadioResponsePacket::unpack_error(bytes@) is None),
    {
        match RadioResponsePacket::from_bytes(bytes) {
            Ok(_) => true,
            Err(_) => false,
        }
    }

    /// The effect of a received packet.
    pub open spec fn on_received(
        before: ConnectionCore,
        packet: RadioResponsePacket,
        timestamp: Instant,
        result: PacketRxResult,
        after: ConnectionCore,
    ) -> bool {
        &&& after.last_counter() == before.last_counter()
        &&& tracked_received(before.tracker(), packet.counter as u32, timestamp, after.tracker())
        &&& exists|mid: DatagramLink| #[trigger]
            DatagramLink::acked(before.datagrams(), packet.acknum, mid) && match packet.payload {
                RadioPacketPayload::Regular(data) => mid == after.datagrams() && result
                    == PacketRxResult::Regular(data),
                RadioPacketPayload::Datagram { .. } => match result {
                    PacketRxResult::Regular(_) => false,
                    PacketRxResult::Datagram(d) => DatagramLink::collected_new_chunk(
                        mid,
                        packet.payload.chunk(),
                        Some(d),
                        after.datagrams(),
                    ),
                    PacketRxResult::IncompleteDatagram => DatagramLink::collected_new_chunk(
                        mid,
                        packet.payload.chunk(),
                        None,
                        after.datagrams(),
                    ),
                },
            }
    }

    /// This method has to be called for every received packet to update datagram seqnums
    pub fn packet_received(&mut self, bytes: &[u8], timestamp: Instant) -> (result: PacketRxResult)
        requires
            old(self).wf(),
            RadioResponsePacket::unpack_error(bytes@) is None,
        ensures
            final(self).wf(),
            exists|packet: RadioResponsePacket| #[trigger]
                packet.unpacked(bytes@) && Self::on_received(
                    *old(self),
                    packet,
                    timestamp,
                    result,
                    *final(self),
                ),
    {
        match RadioResponsePacket::from_bytes(bytes) {
            Ok(packet) => {
                // Update the stat tracker
                self.stat_tracker.received(packet.counter as u32, timestamp);

                // Handle ack
                self.link.acknowledged(packet.acknum);
                let ghost mid = self.link;
                proof {
                    assert(packet.unpacked(bytes@));
                    assert(DatagramLink::acked(old(self).datagrams(), packet.acknum, mid));
                }

                match packet.payload {
                    RadioPacketPayload::Regular(data) => PacketRxResult::Regular(data),
                    RadioPacketPayload::Datagram { seqnum, datagram_type, data } => {
                        let chunk = DatagramPayload { seqnum, datagram_type, data };
                        match self.link.receive_new_chunk(&chunk) {
                            Some(full_datagram) => PacketRxResult::Datagram(full_datagram),
                            None => PacketRxResult::IncompleteDatagram,
                        }
                    },
                }
            },
            Err(_) => PacketRxResult::IncompleteDatagram,
        }
    }

    /// The effect of queueing a datagram.
    pub open spec fn on_queued(
        before: ConnectionCore,
        datagram: CommandDatagram,
        after: ConnectionCore,
    ) -> bool {
        &&& after.last_counter() == before.last_counter()
        &&& after.tracker() == before.tracker()
        &&& DatagramLink::queued(before.datagrams(), datagram, after.datagrams())
        &&& after.datagrams().outstanding() == before.datagrams().outstanding() + chunks_of(datagram)
    }

    pub fn queue_datagram(&mut self, datagram: CommandDatagram)
        requires
            old(self).wf(),
        ensures
            final(self).wf(),
            Self::on_queued(*old(self), datagram, *final(self)),
    {
        self.link.queue_datagram(datagram);
    }

    /// The effect of sending a packet.
    pub open spec fn on_sent(
        before: ConnectionCore,
        regular_data: RegularCommandData,
        now: Instant,
        bytes: Seq<u8>,
        after: ConnectionCore,
    ) -> bool {
        &&& after.last_counter() == (before.last_counter() + 1) % 64
        &&& tracked_sent(before.tracker(), after.last_counter() as u32, now, after.tracker())
        &&& bytes.len() == PACKET_SIZE
        &&& exists|chunk: Option<DatagramPayload<CommandDatagramType>>| #[trigger]
            DatagramLink::advanced(before.datagrams(), chunk, after.datagrams()) && bytes == padded(
                (RadioPacket {
                    counter: after.last_counter(),
                    acknum: before.datagrams().last_received(),
                    payload: payload_of(chunk, regular_data),
                }).bytes(),
                PACKET_SIZE as nat,
            )
    }

    /// Prepares a packet for sending. If a datagram packet is available, it will be used instead.
    pub fn next_packet(&mut self, regular_data: RegularCommandData, now: Instant) -> (bytes: Vec<u8>)
        requires
            old(self).wf(),
            regular_data.packable(),
        ensures
            final(self).wf(),
            final(self).datagrams().outstanding() == old(self).datagrams().outstanding(),
            Self::on_sent(*old(self), regular_data, now, bytes@, *final(self)),
    {
        let chunk: Option<DatagramPayload<CommandDatagramType>> = self.link.next_chunk();
        let payload: RadioCommandPayload = match chunk {
            Some(p) => RadioPacketPayload::Datagram {
                seqnum: p.seqnum,
                datagram_type: p.datagram_type,
                data: p.data,
            },
            None => RadioPacketPayload::Regular(regular_data),
        };
        self.counter = (self.counter + 1) % 64;
        self.stat_tracker.sent(self.counter as u32, now);
        let packet: RadioCommandPacket = RadioPacket {
            counter: self.counter,
            acknum: self.link.acknum(),
            payload,
        };
        proof {
            assert(DatagramLink::advanced(old(self).datagrams(), chunk, self.datagrams()));
            law_command_packet_size(packet);
        }
        packet.pack_padded()
    }
}

// ======== Laws ========

/// Whatever a received packet carries, it answers the packet with the counter in the lowest 6 bits of
/// its first byte: if that packet waits, the time since it was sent is recorded, and it waits no
/// more. Else nothing is recorded.
pub proof fn law_every_answer_is_counted(
    before: ConnectionCore,
    bytes: Seq<u8>,
    packet: RadioResponsePacket,
    received: Instant,
    result: PacketRxResult,
    after: ConnectionCore,
)
    requires
        before.wf(),
        RadioResponsePacket::unpack_error(bytes) is None,
        packet.unpacked(bytes),
        ConnectionCore::on_received(before, packet, received, result, after),
    ensures
        ({
            let counter = (bytes[0] % 64) as u32;
            let waiting = before.tracker().pending();
            if waiting.contains_key(counter) {
                &&& exists|rtt: Duration| #[trigger]
                    round_trip(waiting[counter], received, rtt) && recorded(
                        before.tracker().history(),
                        Some(rtt),
                        after.tracker().history(),
                    )
                &&& after.tracker().pending() == waiting.remove(counter)
            } else {
                &&& after.tracker().history() == before.tracker().history()
                &&& after.tracker().pending() == waiting
            }
        }),
{
    before.tracker().law_bounds();
    law_packet_read_places(packet, bytes);
    let counter = (bytes[0] % 64) as u32;
    let waiting = before.tracker().pending();
    if waiting.contains_key(counter) {
        assert(round_trip(
            waiting[counter],
            received,
            Instant::spec_since(received, waiting[counter]),
        ));
    } else {
        assert(waiting.remove(counter) =~= waiting);
    }
}

/// What is made of the bytes of a received packet. The highest bit of the first byte tells a chunk
/// from regular data, and the bit below it acknowledges the chunk that was sent. A chunk has its
/// sequence number in the lowest bit of the second byte, and one that repeats the last number
/// changes nothing.
pub proof fn law_received_packet(
    before: ConnectionCore,
    bytes: Seq<u8>,
    packet: RadioResponsePacket,
    received: Instant,
    result: PacketRxResult,
    after: ConnectionCore,
)
    requires
        before.wf(),
        RadioResponsePacket::unpack_error(bytes) is None,
        packet.unpacked(bytes),
        ConnectionCore::on_received(before, packet, received, result, after),
    ensures
        ({
            let link = before.datagrams();
            let now = after.datagrams();
            &&& after.last_counter() == before.last_counter()
            &&& now.queue() == link.queue() && now.chunks() == link.chunks()
            &&& now.last_sent() == link.last_sent() && now.cycles() == link.cycles()
            &&& link.waiting() is None ==> now.waiting() is None
            &&& link.waiting() is Some && link.waiting()->0.seqnum == (bytes[0] / 64) % 2
                ==> now.waiting() is None
            &&& link.waiting() is Some && link.waiting()->0.seqnum != (bytes[0] / 64) % 2
                ==> now.waiting() == link.waiting()
            &&& bytes[0] < 128 ==> {
                &&& result is Regular && result->Regular_0.unpacked(bytes.skip(1))
                &&& now.last_received() == link.last_received()
                &&& now.has_received() == link.has_received()
                &&& now.rx_type() == link.rx_type()
                &&& now.rx_data() == link.rx_data()
            }
            &&& bytes[0] >= 128 ==> {
                &&& result !is Regular
                &&& now.last_received() == bytes[1] % 2
                &&& now.has_received()
                &&& link.has_received() && link.last_received() == bytes[1] % 2 ==> {
                    &&& result is IncompleteDatagram
                    &&& now.rx_type() == link.rx_type()
                    &&& now.rx_data() == link.rx_data()
                }
            }
        }),
{
    law_packet_read_places(packet, bytes);
}

/// The data of a chunk that does not repeat the last one are appended to those of the same kind, and
/// replace those of another kind. The datagram is complete, and handed out, as soon as there are as
/// many bytes as its kind has.
pub proof fn law_received_chunk(
    before: ConnectionCore,
    bytes: Seq<u8>,
    packet: RadioResponsePacket,
    received: Instant,
    result: PacketRxResult,
    after: ConnectionCore,
)
    requires
        before.wf(),
        after.wf(),
        RadioResponsePacket::unpack_error(bytes) is None,
        packet.unpacked(bytes),
        ConnectionCore::on_received(before, packet, received, result, after),
        bytes[0] >= 128,
        !(before.datagrams().has_received() && before.datagrams().last_received() == bytes[1] % 2),
    ensures
        bytes.len() >= 29,
        ResponseDatagramType::of_id(bytes[1] / 2) is Some,
        ({
            let tag = ResponseDatagramType::of_id(bytes[1] / 2)->0;
            let link = before.datagrams();
            let now = after.datagrams();
            let data = if link.rx_type() == Some(tag) {
                link.rx_data() + bytes.subrange(2, 29)
            } else {
                bytes.subrange(2, 29)
            };
            &&& data.len() >= tag.size() ==> {
                &&& result is Datagram && result->Datagram_0.assembled(tag, data)
                &&& now.rx_type() is None && now.rx_data().len() == 0
            }
            &&& data.len() < tag.size() ==> {
                &&& result is IncompleteDatagram
                &&& now.rx_type() == Some(tag)
                &&& now.rx_data() == data
            }
        }),
{
    law_packet_read_places(packet, bytes);
}

/// The bytes of the next packet. It has the next counter and the number of the last received chunk
/// in its first byte. An unacknowledged chunk is sent in it, unless it was sent in the packet
/// before; else the next chunk in line, with the other sequence number; else the regular data. The
/// rest is filled up with zeros.
pub proof fn law_next_packet(
    before: ConnectionCore,
    data: RegularCommandData,
    now: Instant,
    bytes: Seq<u8>,
    after: ConnectionCore,
)
    requires
        before.wf(),
        data.packable(),
        ConnectionCore::on_sent(before, data, now, bytes, after),
    ensures
        ({
            let link = before.datagrams();
            let repeat = link.waiting() is Some && link.cycles() >= 1;
            let next = link.waiting() is None && link.backlog().len() > 0;
            &&& bytes.len() == 29
            &&& bytes[0] % 64 == (before.last_counter() + 1) % 64
            &&& bytes[0] % 64 == after.last_counter()
            &&& (bytes[0] / 64) % 2 == link.last_received()
            &&& bytes[0] >= 128 <==> repeat || next
            &&& repeat ==> {
                &&& bytes[1] % 2 == link.waiting()->0.seqnum
                &&& bytes[1] / 2 == link.waiting()->0.datagram_type.id()
                &&& bytes.skip(2) == link.waiting()->0.data@
            }
            &&& next ==> {
                &&& bytes[1] % 2 == 1 - link.last_sent()
                &&& bytes[1] / 2 == link.backlog()[0].0.id()
                &&& bytes.skip(2) == link.backlog()[0].1
                &&& after.datagrams().backlog() == link.backlog().skip(1)
            }
            &&& !repeat && !next ==> {
                &&& data.bytes().len() <= 28
                &&& bytes.subrange(1, 1 + data.bytes().len() as int) == data.bytes()
                &&& forall|i: int| 1 + data.bytes().len() <= i < 29 ==> #[trigger] bytes[i] == 0
            }
        }),
{
    let link = before.datagrams();
    let chunk = choose|chunk: Option<DatagramPayload<CommandDatagramType>>| #[trigger]
        DatagramLink::advanced(link, chunk, after.datagrams()) && bytes == padded(
            (RadioPacket {
                counter: after.last_counter(),
                acknum: link.last_received(),
                payload: payload_of(chunk, data),
            }).bytes(),
            PACKET_SIZE as nat,
        );
    let packet: RadioCommandPacket = RadioPacket {
        counter: after.last_counter(),
        acknum: link.last_received(),
        payload: payload_of(chunk, data),
    };
    law_command_packet_size(packet);
    law_packet_places(packet);
    assert(bytes[0] == packet.bytes()[0]);
    if chunk is Some {
        assert(bytes =~= packet.bytes());
    } else {
        assert(bytes.subrange(1, 1 + data.bytes().len() as int) =~= data.bytes()) by {
            assert forall|i: int| 0 <= i < data.bytes().len() implies bytes[1 + i]
                == data.bytes()[i] by {
                assert(packet.bytes().skip(1)[i] == data.bytes()[i]);
            }
        }
    }
}

/// The packet with the counter in the lowest 6 bits of its first byte waits for its answer from the
/// time on at which it is sent. If 5 packets wait already, one that was sent first is given up, and
/// its loss is recorded.
pub proof fn law_every_packet_waits(
    before: ConnectionCore,
    data: RegularCommandData,
    now: Instant,
    bytes: Seq<u8>,
    after: ConnectionCore,
)
    requires
        before.wf(),
        data.packable(),
        ConnectionCore::on_sent(before, data, now, bytes, after),
    ensures
        ({
            let counter = (bytes[0] % 64) as u32;
            let waiting = before.tracker().pending();
            &&& after.tracker().pending().contains_key(counter)
            &&& after.tracker().pending()[counter] == now
            &&& waiting.len() < 5 ==> {
                &&& after.tracker().history() == before.tracker().history()
                &&& after.tracker().pending() == waiting.insert(counter, now)
            }
            &&& waiting.len() >= 5 ==> {
                &&& recorded(before.tracker().history(), None, after.tracker().history())
                &&& exists|lost: u32| #[trigger]
                    waiting.contains_key(lost) && (forall|other: u32| #[trigger]
                        waiting.contains_key(other) ==> waiting[lost].nanos
                            <= waiting[other].nanos) && after.tracker().pending() == waiting.remove(
                        lost,
                    ).insert(counter, now)
            }
        }),
{
    before.tracker().law_bounds();
    law_next_packet(before, data, now, bytes, after);
    let counter = (bytes[0] % 64) as u32;
    let waiting = before.tracker().pending();
    if waiting.len() >= 5 {
        let lost = choose|k: u32| #[trigger]
            is_oldest(waiting, k) && after.tracker().pending() == waiting.remove(k).insert(
                counter,
                now,
            );
        assert(waiting.contains_key(lost));
    }
}

/// A queued datagram is sent after all that was queued before: the first 27 bytes of its data stand
/// behind everything that is left to send. Nothing else changes.
pub proof fn law_datagram_is_queued(
    before: ConnectionCore,
    datagram: CommandDatagram,
    after: ConnectionCore,
)
    requires
        ConnectionCore::on_queued(before, datagram, after),
    ensures
        after.last_counter() == before.last_counter(),
        after.tracker() == before.tracker(),
        ({
            let link = before.datagrams();
            let now = after.datagrams();
            let n = link.backlog().len() as int;
            &&& now.waiting() == link.waiting() && now.cycles() == link.cycles()
            &&& now.last_sent() == link.last_sent()
            &&& now.last_received() == link.last_received()
            &&& now.rx_type() == link.rx_type() && now.rx_data() == link.rx_data()
            &&& now.backlog().take(n) == link.backlog()
            &&& now.backlog().len() > n
            &&& now.backlog()[n].0 == datagram.tag()
            &&& now.backlog()[n].1.len() == 27
            &&& forall|i: int|
                0 <= i < 27 ==> #[trigger] now.backlog()[n].1[i] == (if i < datagram.payload().len() {
                    datagram.payload()[i]
                } else {
                    0
                })
            &&& datagram.payload().len() <= 27 <==> now.backlog().len() == n + 1
        }),
{
    let link = before.datagrams();
    let now = after.datagrams();
    let n = link.backlog().len() as int;
    assert(now.backlog() =~= link.backlog() + chunks_of(datagram)) by {
        if let Some(p) = link.waiting() {
            assert(now.outstanding().skip(1) =~= now.backlog());
            assert((link.outstanding() + chunks_of(datagram)).skip(1) =~= link.backlog()
                + chunks_of(datagram));
        }
    }
    assert(now.backlog().take(n) =~= link.backlog());
    assert(now.backlog()[n] == chunks_of(datagram)[0]);
}

} // verus!
