//! What the packets of a connection hold, from its start on.

use crate::protocol::datagram_link::{
    all_chunks, chunk_of, chunks_of, lemma_all_chunks_push, Chunk, DatagramLink,
};
use crate::protocol::deku_helpers::{PackBytes, PacketPacking, PacketUnpacking, UnpackBytes};
use crate::protocol::proto2025::datagrams::{
    CommandDatagram, CommandDatagramType, DatagramTag, ResponseDatagram, ResponseDatagramType,
};
use crate::protocol::proto2025::packet::{DatagramPayload, PacketHeader, PACKET_SIZE};
use crate::protocol::proto2025::RadioProtocol2025;
use crate::protocol::PacketRxResult;
use crate::time::Instant;
use vstd::prelude::*;

verus! {

/// A call that changes the state of a connection, with what it returned.
pub ghost enum ProtocolCall<RC, RR> {
    Queued(CommandDatagram),
    Received(Seq<u8>, Instant, PacketRxResult<RR, ResponseDatagram>),
    Sent(RC, Instant, Seq<u8>),
}

/// The effect of a call.
pub open spec fn on_call<RC: PacketPacking<28>, RR: PacketUnpacking<28>>(
    before: RadioProtocol2025,
    call: ProtocolCall<RC, RR>,
    after: RadioProtocol2025,
) -> bool {
    match call {
        ProtocolCall::Queued(datagram) => RadioProtocol2025::queued(before, datagram, after),
        ProtocolCall::Received(bytes, timestamp, result) => RadioProtocol2025::received(
            before,
            bytes,
            timestamp,
            result,
            after,
        ),
        ProtocolCall::Sent(data, now, packet) => RadioProtocol2025::sent(
            before,
            data,
            now,
            packet,
            after,
        ),
    }
}

/// What can be told from the calls alone.
pub ghost struct Exchange {
    /// The number of packets that were sent.
    pub packets: nat,
    /// All datagrams that were queued.
    pub queued: Seq<CommandDatagram>,
    /// The number of chunks that were sent, repetitions not counted.
    pub chunks: nat,
    /// The payload of the chunk that is not acknowledged yet.
    pub waiting: Option<Seq<u8>>,
    /// The sequence number of the chunk that was received last.
    pub received: u8,
}

impl Exchange {
    pub open spec fn start() -> Exchange {
        Exchange { packets: 0, queued: Seq::empty(), chunks: 0, waiting: None, received: 1 }
    }

    pub open spec fn next<RC, RR>(self, call: ProtocolCall<RC, RR>) -> Exchange {
        match call {
            ProtocolCall::Queued(datagram) => Exchange {
                queued: self.queued.push(datagram),
                ..self
            },
            ProtocolCall::Received(bytes, _, _) => {
                let header = PacketHeader::of_byte(bytes[0]);
                Exchange {
                    waiting: match self.waiting {
                        Some(payload) => if payload[0] % 2 == header.acknum {
                            None
                        } else {
                            Some(payload)
                        },
                        None => None,
                    },
                    received: if header.datagram {
                        bytes.skip(1)[0] % 2
                    } else {
                        self.received
                    },
                    ..self
                }
            },
            ProtocolCall::Sent(_, _, packet) => if PacketHeader::of_byte(packet[0]).datagram {
                Exchange {
                    packets: self.packets + 1,
                    chunks: if self.waiting is None {
                        self.chunks + 1
                    } else {
                        self.chunks
                    },
                    waiting: Some(packet.skip(1)),
                    ..self
                }
            } else {
                Exchange { packets: self.packets + 1, ..self }
            },
        }
    }
}

/// The exchange after some calls.
pub open spec fn exchanged<RC, RR>(calls: Seq<ProtocolCall<RC, RR>>) -> Exchange
    decreases calls.len(),
{
    if calls.len() == 0 {
        Exchange::start()
    } else {
        exchanged(calls.drop_last()).next(calls.last())
    }
}

/// The payload that carries a chunk.
pub open spec fn chunk_bytes(c: Chunk, seqnum: int) -> Seq<u8> {
    seq![(seqnum + 2 * c.0.id()) as u8] + c.1
}

/// The packet that goes out after an exchange:
/// - its counter is the number of packets before it, modulo 64,
/// - it acknowledges the chunk that was received last,
/// - an unacknowledged chunk is repeated as it was, and no other chunk is sent,
/// - else the next chunk of the queued datagrams is sent, with sequence numbers 0, 1, 0, ...,
/// - without a chunk it carries the regular data.
pub open spec fn expected_packet<RC: PacketPacking<28>>(e: Exchange, data: RC, packet: Seq<u8>) -> bool {
    let header = PacketHeader::of_byte(packet[0]);
    let all = all_chunks(e.queued);
    &&& packet.len() == PACKET_SIZE
    &&& header.counter == e.packets % 64
    &&& header.acknum == e.received
    &&& e.chunks <= all.len()
    &&& if header.datagram {
        match e.waiting {
            Some(payload) => packet.skip(1) == payload,
            None => {
                &&& e.chunks < all.len()
                &&& packet.skip(1) == chunk_bytes(all[e.chunks as int], (e.chunks % 2) as int)
            },
        }
    } else {
        &&& e.waiting is None ==> e.chunks == all.len()
        &&& packet.skip(1) == data.packed()
    }
}

/// The state of a connection agrees with an exchange.
pub open spec fn agrees(p: RadioProtocol2025, e: Exchange) -> bool {
    &&& p.next_counter() == e.packets % 64
    &&& p.datagrams().last_received() == e.received
    &&& e.received < 2
    &&& e.chunks <= all_chunks(e.queued).len()
    &&& p.datagrams().backlog() == all_chunks(e.queued).skip(e.chunks as int)
    &&& p.datagrams().last_sent() == (e.chunks + 1) % 2
    &&& match p.datagrams().waiting() {
        Some(payload) => e.waiting == Some(payload.bytes()) && payload.seqnum
            == p.datagrams().last_sent(),
        None => e.waiting is None,
    }
}

proof fn lemma_step<RC: PacketPacking<28>, RR: PacketUnpacking<28>>(
    before: RadioProtocol2025,
    e: Exchange,
    call: ProtocolCall<RC, RR>,
    after: RadioProtocol2025,
)
    requires
        agrees(before, e),
        on_call(before, call, after),
    ensures
        agrees(after, e.next(call)),
        call matches ProtocolCall::Sent(data, _, packet) ==> expected_packet(e, data, packet),
{
    let all = all_chunks(e.queued);
    match call {
        ProtocolCall::Queued(datagram) => {
            lemma_all_chunks_push(e.queued, datagram);
            lemma_all_chunks_push(before.datagrams().queue(), datagram);
            assert(after.datagrams().backlog() =~= all_chunks(e.queued.push(datagram)).skip(
                e.chunks as int,
            )) by {
                assert(after.datagrams().chunks() + (all_chunks(before.datagrams().queue())
                    + chunks_of(datagram))
                    =~= before.datagrams().backlog()
                    + chunks_of(datagram));
            }
        },
        ProtocolCall::Received(bytes, _, _) => {
            let header = PacketHeader::of_byte(bytes[0]);
            let mid = choose|mid: DatagramLink| #[trigger]
                DatagramLink::acked(before.datagrams(), header.acknum, mid) && if header.datagram {
                    exists|payload: DatagramPayload<ResponseDatagramType>| #[trigger]
                        payload.unpacked(bytes.skip(1)) && mid.backlog()
                            == after.datagrams().backlog() && mid.waiting()
                            == after.datagrams().waiting() && mid.last_sent()
                            == after.datagrams().last_sent()
                            && after.datagrams().last_received() == payload.seqnum
                } else {
                    mid == after.datagrams()
                };
            assert(mid.backlog() == before.datagrams().backlog());
            if let Some(payload) = before.datagrams().waiting() {
                lemma_payload_seqnum(payload);
            }
        },
        ProtocolCall::Sent(data, _, packet) => {
            let chunk = choose|chunk: Option<DatagramPayload<CommandDatagramType>>| #[trigger]
                DatagramLink::advanced(before.datagrams(), chunk, after.datagrams()) && packet == (
                PacketHeader {
                    counter: before.next_counter(),
                    acknum: before.datagrams().last_received(),
                    datagram: chunk is Some,
                }).bytes() + (match chunk {
                    Some(p) => p.bytes(),
                    None => data.packed(),
                });
            let header = PacketHeader {
                counter: before.next_counter(),
                acknum: before.datagrams().last_received(),
                datagram: chunk is Some,
            };
            assert(packet[0] == header.byte());
            assert(PacketHeader::of_byte(packet[0]) == header);
            let payload = match chunk {
                Some(p) => p.bytes(),
                None => data.packed(),
            };
            assert(packet.skip(1) =~= payload);
            if before.datagrams().waiting() is None && before.datagrams().backlog().len() > 0 {
                let c = chunk->0;
                assert(chunk_of(c) == all[e.chunks as int]);
                assert(c.seqnum == e.chunks % 2);
                assert(c.bytes() == chunk_bytes(all[e.chunks as int], (e.chunks % 2) as int));
                assert(all.skip(e.chunks as int).skip(1) =~= all.skip((e.chunks + 1) as int));
            }
        },
    }
}

proof fn lemma_payload_seqnum(p: DatagramPayload<CommandDatagramType>)
    requires
        p.seqnum < 2,
    ensures
        p.bytes()[0] % 2 == p.seqnum,
{
    p.datagram_type.law_id();
}

/// From the start of a connection on, every packet is the one that the calls before it ask for.
pub proof fn law_packets<RC: PacketPacking<28>, RR: PacketUnpacking<28>>(
    states: Seq<RadioProtocol2025>,
    calls: Seq<ProtocolCall<RC, RR>>,
    i: int,
)
    requires
        states.len() == calls.len() + 1,
        states[0].fresh(),
        forall|k: int|
            0 <= k < calls.len() ==> on_call(states[k], #[trigger] calls[k], states[k + 1]),
        0 <= i < calls.len(),
    ensures
        agrees(states[i], exchanged(calls.take(i))),
        calls[i] matches ProtocolCall::Sent(data, _, packet) ==> expected_packet(
            exchanged(calls.take(i)),
            data,
            packet,
        ),
    decreases i,
{
    if i == 0 {
        assert(calls.take(0) =~= Seq::empty());
        assert(states[0].datagrams().backlog() =~= all_chunks(Seq::empty()).skip(0));
    } else {
        law_packets(states, calls, i - 1);
        assert(on_call(states[i - 1], calls[i - 1], states[i - 1 + 1]));
        lemma_step(states[i - 1], exchanged(calls.take(i - 1)), calls[i - 1], states[i]);
        assert(calls.take(i).drop_last() =~= calls.take(i - 1));
        assert(calls.take(i).last() == calls[i - 1]);
    }
    assert(on_call(states[i], calls[i], states[i + 1]));
    lemma_step(states[i], exchanged(calls.take(i)), calls[i], states[i + 1]);
}

} // verus!
