//! The packet formats and the per-robot protocol state.

use crate::conn_stats::ConnectionStats;
use crate::time::Instant;
use vstd::prelude::*;

pub mod bits;
pub mod datagram_link;
pub mod deku_helpers;
pub mod proto2025;
pub mod wire;

verus! {

/// What a received packet contained.
#[derive(Debug)]
pub enum PacketRxResult<RR, DR> {
    Regular(RR),
    Datagram(DR),
    IncompleteDatagram,
}

/// Protocol/Connection state for a single robot.
/// Generics: RegularCommand, RegularResponse, DatagramCommand, DatagramResponse
///
/// Each operation comes with the relation between the states around it, so that the users of a
/// protocol can speak of what it does.
pub trait RadioProtocol<RC, RR, DC, DR>: Sized {
    /// The states that a protocol can reach.
    spec fn proto_wf(&self) -> bool;

    /// Whether a packet can be sent with this regular data.
    spec fn sendable(data: RC) -> bool;

    /// Whether `bytes` are a packet of this protocol.
    spec fn readable(bytes: Seq<u8>) -> bool;

    /// Whether these are the statistics of the connection.
    spec fn has_stats(&self, stats: ConnectionStats) -> bool;

    /// The effect of a received packet.
    spec fn on_received(
        before: Self,
        bytes: Seq<u8>,
        timestamp: Instant,
        result: PacketRxResult<RR, DR>,
        after: Self,
    ) -> bool;

    /// The effect of queueing a datagram.
    spec fn on_queued(before: Self, datagram: DC, after: Self) -> bool;

    /// The effect of packing a packet.
    spec fn on_sent(before: Self, data: RC, now: Instant, packet: Seq<u8>, after: Self) -> bool;

    /// The size of the packets that robots respond with.
    spec fn response_size() -> usize;

    fn response_packet_size() -> (size: usize)
        ensures
            size == Self::response_size(),
    ;

    /// Returns some basic performance statistics about the connection.
    fn stats(&self) -> (stats: ConnectionStats)
        requires
            self.proto_wf(),
        ensures
            self.has_stats(stats),
    ;

    /// Tests whether `bytes` are a packet of this protocol.
    fn can_read(bytes: &[u8]) -> (b: bool)
        ensures
            b == Self::readable(bytes@),
    ;

    /// Unpacks a packet and updates internal connection state.
    fn packet_received(&mut self, bytes: &[u8], timestamp: Instant) -> (result: PacketRxResult<
        RR,
        DR,
    >)
        requires
            old(self).proto_wf(),
            Self::readable(bytes@),
        ensures
            final(self).proto_wf(),
            Self::on_received(*old(self), bytes@, timestamp, result, *final(self)),
    ;

    /// Queues a datagram for sending. It will be gradually transmitted over the next calls to
    /// `next_packet`.
    fn queue_datagram(&mut self, datagram: DC)
        requires
            old(self).proto_wf(),
        ensures
            final(self).proto_wf(),
            Self::on_queued(*old(self), datagram, *final(self)),
    ;

    /// Packs a packet for sending. If a datagram is available, it will be used instead.
    fn next_packet(&mut self, regular_data: RC, now: Instant) -> (packet: Vec<u8>)
        requires
            old(self).proto_wf(),
            Self::sendable(regular_data),
        ensures
            final(self).proto_wf(),
            Self::on_sent(*old(self), regular_data, now, packet@, *final(self)),
    ;
}

} // verus!
