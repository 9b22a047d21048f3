//! The radio protocol of 2025.

use crate::conn_stats::{tracked_received, tracked_sent, ConnectionStatTracker, ConnectionStats};
use crate::protocol::datagram_link::{chunks_of, Chunk, DatagramLink};
use crate::protocol::deku_helpers::{PackBytes, PacketPacking, PacketUnpacking, UnpackBytes};
use crate::protocol::proto2025::datagrams::{
    CommandDatagram, CommandDatagramType, DatagramTag, ResponseDatagram, ResponseDatagramType,
};
use crate::protocol::proto2025::packet::{
    DatagramPayload, PacketHeader, RegularCommandPayload, RegularResponsePayload, PACKET_SIZE,
    PAYLOAD_SIZE,
};
use crate::protocol::{PacketRxResult, RadioProtocol};
use crate::time::{Duration, Instant};
use vstd::prelude::*;

pub mod answers;
pub mod datagrams;
pub mod exchange;
pub mod packet;

verus! {

/// Marker trait for all valid proto2025 input/output types. Used as a more accurate restriction on top of the packed size.
pub trait RadioProtocol2025Payload {

}

impl RadioProtocol2025Payload for RegularCommandPayload {

}

impl RadioProtocol2025Payload for RegularResponsePayload {

}

impl RadioProtocol2025Payload for [u8; 28] {

}

impl RadioProtocol2025Payload for Box<[u8; 28]> {

}

/// The state of the connection to one robot.
#[derive(Debug)]
pub struct RadioProtocol2025 {
    counter: u8,
    stat_tracker: ConnectionStatTracker,
    link: DatagramLink,
}

impl RadioProtocol2025 {
    /// The counter of the next packet.
    pub closed spec fn next_counter(&self) -> u8 {
        self.counter
    }

    /// The statistics of the packets.
    pub closed spec fn tracker(&self) -> ConnectionStatTracker {
        self.stat_tracker
    }

    /// The state of the datagrams.
    pub closed spec fn datagrams(&self) -> DatagramLink {
        self.link
    }

    pub open spec fn wf(&self) -> bool {
        &&& self.next_counter() < 64
        &&& self.tracker().wf()
        &&& self.tracker().length() == 100
        &&& self.tracker().max_pending() == 5
        &&& self.datagrams().wf()
    }

    /// Nothing was sent, received or queued yet.
    pub open spec fn fresh(&self) -> bool {
        &&& self.next_counter() == 0
        &&& self.tracker().history() == Seq::<Option<Duration>>::empty()
        &&& self.tracker().pending() == Map::<u32, Instant>::empty()
        &&& self.datagrams().fresh()
    }

    pub fn new() -> (p: RadioProtocol2025)
        ensures
            p.wf(),
            p.fresh(),
    {
        RadioProtocol2025 {
            counter: 0,
            stat_tracker: ConnectionStatTracker::new(100, 5),
            link: DatagramLink::new(),
        }
    }

    /// Whether `bytes` are a packet.
    pub open spec fn accepted<RR: PacketUnpacking<28>>(bytes: Seq<u8>) -> bool {
        &&& bytes.len() > 0
        &&& if PacketHeader::of_byte(bytes[0]).datagram {
            DatagramPayload::<ResponseDatagramType>::unpack_error(bytes.skip(1)) is None
        } else {
            RR::refused(bytes.skip(1)) is None
        }
    }

    /// The effect of a received packet.
    pub open spec fn received<RR: PacketUnpacking<28>>(
        before: Self,
        bytes: Seq<u8>,
        timestamp: Instant,
        result: PacketRxResult<RR, ResponseDatagram>,
        after: Self,
    ) -> bool {
        let header = PacketHeader::of_byte(bytes[0]);
        &&& after.next_counter() == before.next_counter()
        &&& tracked_received(before.tracker(), header.counter as u32, timestamp, after.tracker())
        &&& exists|mid: DatagramLink| #[trigger]
            DatagramLink::acked(before.datagrams(), header.acknum, mid) && if header.datagram {
                exists|payload: DatagramPayload<ResponseDatagramType>| #[trigger]
                    payload.unpacked(bytes.skip(1)) && match result {
                        PacketRxResult::Regular(_) => false,
                        PacketRxResult::Datagram(d) => DatagramLink::collected_chunk(
                            mid,
                            payload,
                            Some(d),
                            after.datagrams(),
                        ),
                        PacketRxResult::IncompleteDatagram => DatagramLink::collected_chunk(
                            mid,
                            payload,
                            None,
                            after.datagrams(),
                        ),
                    }
            } else {
                &&& mid == after.datagrams()
                &&& result matches PacketRxResult::Regular(data) && data.read_from(bytes.skip(1))
            }
    }

    /// The effect of queueing a datagram.
    pub open spec fn queued(before: Self, datagram: CommandDatagram, after: Self) -> bool {
        &&& after.next_counter() == before.next_counter()
        &&& after.tracker() == before.tracker()
        &&& DatagramLink::queued(before.datagrams(), datagram, after.datagrams())
        &&& after.datagrams().outstanding() == before.datagrams().outstanding() + chunks_of(datagram)
    }

    /// The effect of packing a packet.
    pub open spec fn sent<RC: PacketPacking<28>>(
        before: Self,
        data: RC,
        now: Instant,
        packet: Seq<u8>,
        after: Self,
    ) -> bool {
        &&& after.next_counter() == (before.next_counter() + 1) % 64
        &&& tracked_sent(before.tracker(), before.next_counter() as u32, now, after.tracker())
        &&& after.datagrams().outstanding() == before.datagrams().outstanding()
        &&& packet.len() == PACKET_SIZE
        &&& exists|chunk: Option<DatagramPayload<CommandDatagramType>>| #[trigger]
            DatagramLink::advanced(before.datagrams(), chunk, after.datagrams()) && packet == (
            PacketHeader {
                counter: before.next_counter(),
                acknum: before.datagrams().last_received(),
                datagram: chunk is Some,
            }).bytes() + (match chunk {
                Some(p) => p.bytes(),
                None => data.packed(),
            })
    }

    /// The number of datagrams of which no part was sent yet.
    pub fn queued_datagrams(&self) -> (n: usize)
        ensures
            n == self.datagrams().queue().len(),
    {
        self.link.queued_datagrams()
    }
}

impl Default for RadioProtocol2025 {
    fn default() -> (p: RadioProtocol2025)
        ensures
            p.wf(),
            p.fresh(),
    {
        RadioProtocol2025::new()
    }
}

impl<
    RC: PacketPacking<28> + RadioProtocol2025Payload,
    RR: PacketUnpacking<28> + RadioProtocol2025Payload,
> RadioProtocol<RC, RR, CommandDatagram, ResponseDatagram> for RadioProtocol2025 {
    open spec fn proto_wf(&self) -> bool {
        self.wf()
    }

    open spec fn sendable(data: RC) -> bool {
        data.can_pack()
    }

    /// A header, and behind it a chunk of a datagram or regular data.
    open spec fn readable(bytes: Seq<u8>) -> bool {
        RadioProtocol2025::accepted::<RR>(bytes)
    }

    open spec fn has_stats(&self, stats: ConnectionStats) -> bool {
        stats.summary().summarizes(self.tracker().history())
    }

    open spec fn on_received(
        before: Self,
        bytes: Seq<u8>,
        timestamp: Instant,
        result: PacketRxResult<RR, ResponseDatagram>,
        after: Self,
    ) -> bool {
        RadioProtocol2025::received(before, bytes, timestamp, result, after)
    }

    open spec fn on_queued(before: Self, datagram: CommandDatagram, after: Self) -> bool {
        RadioProtocol2025::queued(before, datagram, after)
    }

    open spec fn on_sent(
        before: Self,
        data: RC,
        now: Instant,
        packet: Seq<u8>,
        after: Self,
    ) -> bool {
        RadioProtocol2025::sent(before, data, now, packet, after)
    }

    open spec fn response_size() -> usize {
        PACKET_SIZE
    }

    fn response_packet_size() -> (size: usize) {
        // +1 for header
        PAYLOAD_SIZE + 1
    }

    fn stats(&self) -> (stats: ConnectionStats) {
        proof {
            self.stat_tracker.law_bounds();
        }
        self.stat_tracker.get()
    }

    fn can_read(bytes: &[u8]) -> (b: bool) {
        match PacketHeader::from_bytes(bytes) {
            Ok(header) => {
                let rest: &[u8] = vstd::slice::slice_subrange(bytes, 1, bytes.len());
                proof {
                    assert(rest@ =~= bytes@.skip(1));
                }
                if header.datagram {
                    match DatagramPayload::<ResponseDatagramType>::from_bytes(rest) {
                        Ok(_) => true,
                        Err(_) => false,
                    }
                } else {
                    match RR::unpack(rest) {
                        Ok(_) => true,
                        Err(_) => false,
                    }
                }
            },
            Err(_) => false,
        }
    }

    /// Unpacks a packet and updates internal connection state
    fn packet_received(&mut self, bytes: &[u8], timestamp: Instant) -> (result: PacketRxResult<
        RR,
        ResponseDatagram,
    >) {
        let header = match PacketHeader::from_bytes(bytes) {
            Ok(header) => header,
            Err(_) => PacketHeader { counter: 0, acknum: 0, datagram: false },
        };
        let rest: &[u8] = vstd::slice::slice_subrange(bytes, 1, bytes.len());
        proof {
            assert(rest@ =~= bytes@.skip(1));
        }

        // Update the stat tracker
        self.stat_tracker.received(header.counter as u32, timestamp);

        // Handle ack
        self.link.acknowledged(header.acknum);
        let ghost mid = self.link;
        proof {
            assert(DatagramLink::acked(old(self).datagrams(), header.acknum, mid));
        }

        if header.datagram {
            match DatagramPayload::<ResponseDatagramType>::from_bytes(rest) {
                Ok(datagram_payload) => {
                    proof {
                        assert(datagram_payload.unpacked(bytes@.skip(1)));
                    }
                    match self.link.receive_chunk(&datagram_payload) {
                        Some(full_datagram) => PacketRxResult::Datagram(full_datagram),
                        None => PacketRxResult::IncompleteDatagram,
                    }
                },
                Err(_) => PacketRxResult::IncompleteDatagram,
            }
        } else {
            match RR::unpack(rest) {
                Ok(regular_payload) => PacketRxResult::Regular(regular_payload),
                Err(_) => PacketRxResult::IncompleteDatagram,
            }
        }
    }

    fn queue_datagram(&mut self, datagram: CommandDatagram) {
        self.link.queue_datagram(datagram);
    }

    /// Prepares a packet for sending. If a datagram packet is available, it will be used instead.
    fn next_packet(&mut self, regular_data: RC, now: Instant) -> (packet: Vec<u8>) {
        let counter: u8 = self.counter;
        let acknum: u8 = self.link.acknum();
        self.counter = (self.counter + 1) % 64;

        let chunk: Option<DatagramPayload<CommandDatagramType>> = self.link.next_chunk();
        let header = PacketHeader { counter, acknum, datagram: chunk.is_some() };
        let mut packet: Vec<u8> = header.to_bytes();
        let mut payload: Vec<u8> = match chunk {
            Some(p) => p.to_bytes(),
            None => regular_data.pack_to_vec(),
        };
        packet.append(&mut payload);

        self.stat_tracker.sent(counter as u32, now);
        packet
    }
}

} // verus!
