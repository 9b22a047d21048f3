//! How answers are matched with the packets that they answer.

use crate::protocol::deku_helpers::{PackBytes, PacketPacking, PacketUnpacking, UnpackBytes};
use crate::protocol::datagram_link::DatagramLink;
use crate::protocol::proto2025::datagrams::{
    CommandDatagramType, DatagramTag, ResponseDatagram, ResponseDatagramType,
};
use crate::protocol::proto2025::exchange::{on_call, ProtocolCall};
use crate::protocol::proto2025::packet::{
    law_chunk_places, law_header_places, law_response_kinds, DatagramPayload, PacketHeader,
};
use crate::protocol::proto2025::RadioProtocol2025;
use crate::protocol::PacketRxResult;
use crate::time::{Duration, Instant};
use crate::utils::pending::is_oldest;
use vstd::prelude::*;

verus! {

/// One more outcome, of which the last 100 are kept.
pub open spec fn recorded(
    before: Seq<Option<Duration>>,
    outcome: Option<Duration>,
    after: Seq<Option<Duration>>,
) -> bool {
    &&& before.len() < 100 ==> after == before.push(outcome)
    &&& before.len() >= 100 ==> after == before.skip(before.len() - 99).push(outcome)
}

/// The time between sending and receiving. A clock that ran backwards gives no time.
pub open spec fn round_trip(sent: Instant, received: Instant, rtt: Duration) -> bool {
    &&& received.nanos >= sent.nanos ==> rtt.nanos == received.nanos - sent.nanos
    &&& received.nanos < sent.nanos ==> rtt.nanos == 0
}

/// The outcome of an answered packet is recorded, and the packet does not wait any more.
pub open spec fn answered(
    before: RadioProtocol2025,
    counter: u32,
    received: Instant,
    after: RadioProtocol2025,
) -> bool {
    let waiting = before.tracker().pending();
    &&& exists|rtt: Duration| #[trigger]
        round_trip(waiting[counter], received, rtt) && recorded(
            before.tracker().history(),
            Some(rtt),
            after.tracker().history(),
        )
    &&& after.tracker().pending() == waiting.remove(counter)
}

/// Whatever a received packet carries, it answers the packet with the counter in the lowest 6 bits of
/// its first byte: if that packet waits, the time since it was sent is recorded, and it waits no
/// more. Else nothing is recorded.
pub proof fn law_every_answer_is_counted<RR: PacketUnpacking<28>>(
    before: RadioProtocol2025,
    bytes: Seq<u8>,
    received: Instant,
    result: PacketRxResult<RR, ResponseDatagram>,
    after: RadioProtocol2025,
)
    requires
        before.wf(),
        RadioProtocol2025::received(before, bytes, received, result, after),
    ensures
        ({
            let counter = (bytes[0] % 64) as u32;
            if before.tracker().pending().contains_key(counter) {
                answered(before, counter, received, after)
            } else {
                &&& after.tracker().history() == before.tracker().history()
                &&& after.tracker().pending() == before.tracker().pending()
            }
        }),
{
    before.tracker().law_bounds();
    let counter = (bytes[0] % 64) as u32;
    let waiting = before.tracker().pending();
    if waiting.contains_key(counter) {
        let rtt = Instant::spec_since(received, waiting[counter]);
        assert(round_trip(waiting[counter], received, rtt));
    } else {
        assert(waiting.remove(counter) =~= waiting);
    }
}

/// The packet with the counter in the lowest 6 bits of its first byte waits for its answer from the
/// time on at which it is sent. If 5 packets wait already, one that was sent first is given up, and
/// its loss is recorded.
pub proof fn law_every_packet_waits<RC: PacketPacking<28>>(
    before: RadioProtocol2025,
    data: RC,
    now: Instant,
    packet: Seq<u8>,
    after: RadioProtocol2025,
)
    requires
        before.wf(),
        RadioProtocol2025::sent(before, data, now, packet, after),
    ensures
        ({
            let counter = (packet[0] % 64) as u32;
            let waiting = before.tracker().pending();
            &&& after.tracker().pending().contains_key(counter)
            &&& after.tracker().pending()[counter] == now
            &&& waiting.len() < 5 ==> {
                &&& after.tracker().history() == before.tracker().history()
                &&& after.tracker().pending() == waiting.insert(counter, now)
            }
            &&& waiting.len() >= 5 ==> {
                &&& recorded(before.tracker().history(), None, after.tracker().history())
                &&& exists|lost: u32| #[trigger]
                    waiting.contains_key(lost) && (forall|other: u32| #[trigger]
                        waiting.contains_key(other) ==> waiting[lost].nanos
                            <= waiting[other].nanos) && after.tracker().pending() == waiting.remove(
                        lost,
                    ).insert(counter, now)
            }
        }),
{
    before.tracker().law_bounds();
    lemma_counter(before, data, now, packet, after);
    let waiting = before.tracker().pending();
    if waiting.len() >= 5 {
        let lost = choose|k: u32| #[trigger]
            is_oldest(waiting, k) && after.tracker().pending() == waiting.remove(k).insert(
                before.next_counter() as u32,
                now,
            );
        assert(waiting.contains_key(lost));
    }
}

proof fn lemma_counter<RC: PacketPacking<28>>(
    before: RadioProtocol2025,
    data: RC,
    now: Instant,
    packet: Seq<u8>,
    after: RadioProtocol2025,
)
    requires
        before.wf(),
        RadioProtocol2025::sent(before, data, now, packet, after),
    ensures
        packet[0] % 64 == before.next_counter(),
{
    let chunk = choose|chunk: Option<DatagramPayload<CommandDatagramType>>| #[trigger]
        DatagramLink::advanced(before.datagrams(), chunk, after.datagrams()) && packet == (
        PacketHeader {
            counter: before.next_counter(),
            acknum: before.datagrams().last_received(),
            datagram: chunk is Some,
        }).bytes() + (match chunk {
            Some(p) => p.bytes(),
            None => data.packed(),
        });
    let header = PacketHeader {
        counter: before.next_counter(),
        acknum: before.datagrams().last_received(),
        datagram: chunk is Some,
    };
    assert(packet[0] == header.byte());
}

// ======== Runs ========

/// The number of packets that some calls sent.
pub open spec fn packets_sent<RC, RR>(calls: Seq<ProtocolCall<RC, RR>>) -> nat
    decreases calls.len(),
{
    if calls.len() == 0 {
        0
    } else {
        packets_sent(calls.drop_last()) + if calls.last() is Sent {
            1nat
        } else {
            0
        }
    }
}

/// A new connection goes through some calls.
pub open spec fn protocol_run<RC: PacketPacking<28>, RR: PacketUnpacking<28>>(
    states: Seq<RadioProtocol2025>,
    calls: Seq<ProtocolCall<RC, RR>>,
) -> bool {
    &&& states.len() == calls.len() + 1
    &&& states[0].fresh()
    &&& forall|k: int| 0 <= k < states.len() ==> (#[trigger] states[k]).wf()
    &&& forall|k: int|
        0 <= k < calls.len() ==> on_call(states[k], #[trigger] calls[k], states[k + 1])
}

/// Packets are sent one after the other.
pub open spec fn times_increase<RC, RR>(calls: Seq<ProtocolCall<RC, RR>>) -> bool {
    forall|a: int, b: int|
        0 <= a < b < calls.len() && (#[trigger] calls[a]) is Sent && (#[trigger] calls[b]) is Sent
            ==> calls[a]->Sent_1.nanos < calls[b]->Sent_1.nanos
}

/// All packets that wait were sent before call `n`.
proof fn lemma_waiting_were_sent<RC: PacketPacking<28>, RR: PacketUnpacking<28>>(
    states: Seq<RadioProtocol2025>,
    calls: Seq<ProtocolCall<RC, RR>>,
    n: int,
)
    requires
        protocol_run(states, calls),
        0 <= n <= calls.len(),
    ensures
        forall|q: u32| #[trigger]
            states[n].tracker().pending().contains_key(q) ==> exists|a: int|
                0 <= a < n && (#[trigger] calls[a]) is Sent && calls[a]->Sent_1
                    == states[n].tracker().pending()[q],
    decreases n,
{
    if n > 0 {
        let m = n - 1;
        lemma_waiting_were_sent(states, calls, m);
        assert(on_call(states[m], calls[m], states[m + 1]));
        let before = states[m].tracker().pending();
        let after = states[n].tracker().pending();
        assert forall|q: u32| #[trigger] after.contains_key(q) implies exists|a: int|
            0 <= a < n && (#[trigger] calls[a]) is Sent && calls[a]->Sent_1 == after[q] by {
            match calls[m] {
                ProtocolCall::Queued(_) => {
                    assert(before.contains_key(q));
                },
                ProtocolCall::Received(bytes, t, result) => {
                    law_every_answer_is_counted(states[m], bytes, t, result, states[n]);
                    assert(before.contains_key(q));
                },
                ProtocolCall::Sent(data, now, packet) => {
                    law_every_packet_waits(states[m], data, now, packet, states[n]);
                    if q == (packet[0] % 64) as u32 {
                        assert(calls[m] is Sent);
                    } else {
                        assert(before.contains_key(q));
                    }
                },
            }
        }
    }
}

/// As long as no answer came and at most 4 packets were sent after it, a packet waits. Returns the
/// counters of the packets after it.
proof fn lemma_waits<RC: PacketPacking<28>, RR: PacketUnpacking<28>>(
    states: Seq<RadioProtocol2025>,
    calls: Seq<ProtocolCall<RC, RR>>,
    i: int,
    k: int,
) -> (later: Set<u32>)
    requires
        protocol_run(states, calls),
        times_increase(calls),
        0 <= i < k <= calls.len(),
        calls[i] is Sent,
        packets_sent(calls.subrange(i + 1, k)) <= 4,
        forall|m: int|
            i < m < k ==> ((#[trigger] calls[m]) matches ProtocolCall::Received(bytes, _, _)
                ==> bytes[0] % 64 != calls[i]->Sent_2[0] % 64),
    ensures
        ({
            let c = (calls[i]->Sent_2[0] % 64) as u32;
            let sent = calls[i]->Sent_1;
            let waiting = states[k].tracker().pending();
            &&& waiting.contains_key(c)
            &&& waiting[c] == sent
            &&& later.finite()
            &&& later.len() <= packets_sent(calls.subrange(i + 1, k))
            &&& forall|q: u32| #[trigger]
                waiting.contains_key(q) && q != c ==> waiting[q].nanos < sent.nanos
                    || later.contains(q)
            &&& states[k].next_counter() == (c + 1 + packets_sent(calls.subrange(i + 1, k))) % 64
        }),
    decreases k,
{
    let c = (calls[i]->Sent_2[0] % 64) as u32;
    let sent = calls[i]->Sent_1;
    if k == i + 1 {
        assert(calls.subrange(i + 1, k) =~= Seq::empty());
        lemma_waiting_were_sent(states, calls, i);
        assert(on_call(states[i], calls[i], states[i + 1]));
        let waiting = states[i].tracker().pending();
        assert forall|q: u32| #[trigger] waiting.contains_key(q) implies waiting[q].nanos
            < sent.nanos by {
            let a = choose|a: int|
                0 <= a < i && (#[trigger] calls[a]) is Sent && calls[a]->Sent_1 == waiting[q];
            assert(calls[a] is Sent && calls[i] is Sent);
        }
        if let ProtocolCall::Sent(data, now, packet) = calls[i] {
            law_every_packet_waits(states[i], data, now, packet, states[i + 1]);
            lemma_counter(states[i], data, now, packet, states[i + 1]);
        }
        Set::empty()
    } else {
        let m = k - 1;
        let part = calls.subrange(i + 1, k);
        assert(part.drop_last() =~= calls.subrange(i + 1, m));
        assert(part.last() == calls[m]);
        let later = lemma_waits(states, calls, i, m);
        assert(on_call(states[m], calls[m], states[m + 1]));
        let before = states[m].tracker().pending();
        match calls[m] {
            ProtocolCall::Queued(_) => later,
            ProtocolCall::Received(bytes, t, result) => {
                law_every_answer_is_counted(states[m], bytes, t, result, states[k]);
                later
            },
            ProtocolCall::Sent(data, now, packet) => {
                law_every_packet_waits(states[m], data, now, packet, states[k]);
                lemma_counter(states[m], data, now, packet, states[k]);
                let d = (packet[0] % 64) as u32;
                assert(d != c);
                if before.len() >= 5 {
                    let lost = choose|lost: u32| #[trigger]
                        before.contains_key(lost) && (forall|other: u32| #[trigger]
                            before.contains_key(other) ==> before[lost].nanos
                                <= before[other].nanos)
                            && states[k].tracker().pending() == before.remove(lost).insert(d, now);
                    if lost == c {
                        assert forall|q: u32| #[trigger]
                            before.dom().contains(q) implies later.insert(c).contains(q) by {
                            assert(before.contains_key(q));
                        }
                        vstd::set_lib::lemma_len_subset(before.dom(), later.insert(c));
                        assert(before.len() == before.dom().len());
                        assert(false);
                    }
                }
                later.insert(d)
            },
        }
    }
}

/// A packet that is answered before 5 more packets are sent is never counted as lost: it waits until
/// then, the first answer with its counter records the time since it was sent, and nothing else.
/// This holds of an answer with regular data as well as of one with a datagram.
pub proof fn law_answer_in_time<RC: PacketPacking<28>, RR: PacketUnpacking<28>>(
    states: Seq<RadioProtocol2025>,
    calls: Seq<ProtocolCall<RC, RR>>,
    i: int,
    j: int,
)
    requires
        protocol_run(states, calls),
        times_increase(calls),
        0 <= i < j < calls.len(),
        calls[i] is Sent,
        packets_sent(calls.subrange(i + 1, j)) <= 4,
        forall|m: int|
            i < m < j ==> ((#[trigger] calls[m]) matches ProtocolCall::Received(bytes, _, _)
                ==> bytes[0] % 64 != calls[i]->Sent_2[0] % 64),
        calls[j] matches ProtocolCall::Received(bytes, _, _) && bytes[0] % 64
            == calls[i]->Sent_2[0] % 64,
    ensures
        exists|rtt: Duration| #[trigger]
            round_trip(calls[i]->Sent_1, calls[j]->Received_1, rtt) && recorded(
                states[j].tracker().history(),
                Some(rtt),
                states[j + 1].tracker().history(),
            ),
        !states[j + 1].tracker().pending().contains_key((calls[i]->Sent_2[0] % 64) as u32),
{
    let later = lemma_waits(states, calls, i, j);
    assert(on_call(states[j], calls[j], states[j + 1]));
    if let ProtocolCall::Received(bytes, t, result) = calls[j] {
        law_every_answer_is_counted(states[j], bytes, t, result, states[j + 1]);
    }
}

// ======== Received packets ========

/// What is made of the bytes of a received packet. The highest bit of the first byte tells a chunk
/// from regular data, and the bit below it acknowledges the chunk that was sent. The sequence number
/// of a chunk is in the lowest bit of the second byte.
pub proof fn law_received_packet<RR: PacketUnpacking<28>>(
    before: RadioProtocol2025,
    bytes: Seq<u8>,
    received: Instant,
    result: PacketRxResult<RR, ResponseDatagram>,
    after: RadioProtocol2025,
)
    requires
        before.wf(),
        RadioProtocol2025::accepted::<RR>(bytes),
        RadioProtocol2025::received(before, bytes, received, result, after),
    ensures
        ({
            let link = before.datagrams();
            let now = after.datagrams();
            &&& after.next_counter() == before.next_counter()
            &&& now.queue() == link.queue() && now.chunks() == link.chunks()
            &&& now.last_sent() == link.last_sent() && now.cycles() == link.cycles()
            &&& link.waiting() is None ==> now.waiting() is None
            &&& link.waiting() is Some && link.waiting()->0.seqnum == (bytes[0] / 64) % 2
                ==> now.waiting() is None
            &&& link.waiting() is Some && link.waiting()->0.seqnum != (bytes[0] / 64) % 2
                ==> now.waiting() == link.waiting()
            &&& bytes[0] < 128 ==> {
                &&& result is Regular && result->Regular_0.read_from(bytes.skip(1))
                &&& now.last_received() == link.last_received()
                &&& now.rx_type() == link.rx_type()
                &&& now.rx_data() == link.rx_data()
            }
            &&& bytes[0] >= 128 ==> {
                &&& result !is Regular
                &&& now.last_received() == bytes[1] % 2
            }
        }),
{
    law_header_places(PacketHeader::of_byte(bytes[0]), bytes);
    if bytes[0] >= 128 {
        let payload = lemma_chunk(before, bytes, received, result, after);
    }
}

/// The data of every chunk are appended to those of the same kind, and replace those of another kind.
/// The datagram is complete, and handed out, as soon as there are as many bytes as its kind has.
pub proof fn law_received_chunk<RR: PacketUnpacking<28>>(
    before: RadioProtocol2025,
    bytes: Seq<u8>,
    received: Instant,
    result: PacketRxResult<RR, ResponseDatagram>,
    after: RadioProtocol2025,
)
    requires
        before.wf(),
        after.wf(),
        RadioProtocol2025::accepted::<RR>(bytes),
        RadioProtocol2025::received(before, bytes, received, result, after),
        bytes[0] >= 128,
    ensures
        bytes.len() >= 29,
        ResponseDatagramType::of_id(bytes[1] / 2) is Some,
        ({
            let tag = ResponseDatagramType::of_id(bytes[1] / 2)->0;
            let link = before.datagrams();
            let now = after.datagrams();
            let data = if link.rx_type() == Some(tag) {
                link.rx_data() + bytes.subrange(2, 29)
            } else {
                bytes.subrange(2, 29)
            };
            &&& data.len() >= tag.size() ==> {
                &&& result is Datagram && result->Datagram_0.assembled(tag, data)
                &&& now.rx_type() is None && now.rx_data().len() == 0
            }
            &&& data.len() < tag.size() ==> {
                &&& result is IncompleteDatagram
                &&& now.rx_type() == Some(tag)
                &&& now.rx_data() == data
            }
        }),
{
    law_header_places(PacketHeader::of_byte(bytes[0]), bytes);
    let payload = lemma_chunk(before, bytes, received, result, after);
}

/// The chunk in a received packet.
proof fn lemma_chunk<RR: PacketUnpacking<28>>(
    before: RadioProtocol2025,
    bytes: Seq<u8>,
    received: Instant,
    result: PacketRxResult<RR, ResponseDatagram>,
    after: RadioProtocol2025,
) -> (payload: DatagramPayload<ResponseDatagramType>)
    requires
        RadioProtocol2025::accepted::<RR>(bytes),
        RadioProtocol2025::received(before, bytes, received, result, after),
        bytes[0] >= 128,
    ensures
        bytes.len() >= 29,
        payload.seqnum == bytes[1] % 2,
        Some(payload.datagram_type) == ResponseDatagramType::of_id(bytes[1] / 2),
        payload.data@ == bytes.subrange(2, 29),
        result !is Regular,
        exists|mid: DatagramLink| #[trigger]
            DatagramLink::acked(before.datagrams(), (bytes[0] / 64) % 2, mid)
                && DatagramLink::collected_chunk(
                mid,
                payload,
                match result {
                    PacketRxResult::Datagram(d) => Some(d),
                    _ => None,
                },
                after.datagrams(),
            ),
{
    let header = PacketHeader::of_byte(bytes[0]);
    let rest = bytes.skip(1);
    law_header_places(header, bytes);
    let mid = choose|mid: DatagramLink| #[trigger]
        DatagramLink::acked(before.datagrams(), header.acknum, mid) && exists|
            payload: DatagramPayload<ResponseDatagramType>,
        | #[trigger]
            payload.unpacked(rest) && result !is Regular && DatagramLink::collected_chunk(
                mid,
                payload,
                match result {
                    PacketRxResult::Datagram(d) => Some(d),
                    _ => None,
                },
                after.datagrams(),
            );
    let payload = choose|payload: DatagramPayload<ResponseDatagramType>| #[trigger]
        payload.unpacked(rest) && result !is Regular && DatagramLink::collected_chunk(
            mid,
            payload,
            match result {
                PacketRxResult::Datagram(d) => Some(d),
                _ => None,
            },
            after.datagrams(),
        );
    law_chunk_places(payload, rest);
    assert(rest[0] == bytes[1]);
    assert(payload.data@ =~= bytes.subrange(2, 29)) by {
        assert forall|i: int| 0 <= i < 27 implies payload.data@[i] == bytes.subrange(2, 29)[i] by {
            assert(rest[1 + i] == bytes[2 + i]);
        }
    }
    payload
}

/// Which bytes are taken for a packet: a chunk of a known kind with all its data, or regular data.
pub proof fn law_accepted_packets<RR: PacketUnpacking<28>>(bytes: Seq<u8>)
    ensures
        bytes.len() == 0 ==> !RadioProtocol2025::accepted::<RR>(bytes),
        bytes.len() > 0 && bytes[0] < 128 ==> (RadioProtocol2025::accepted::<RR>(bytes)
            <==> RR::refused(bytes.skip(1)) is None),
        bytes.len() > 0 && bytes[0] >= 128 ==> (RadioProtocol2025::accepted::<RR>(bytes)
            <==> bytes.len() >= 29 && bytes[1] / 2 <= 2),
{
    if bytes.len() > 0 {
        law_header_places(PacketHeader::of_byte(bytes[0]), bytes);
        let any: DatagramPayload<ResponseDatagramType> = vstd::pervasive::arbitrary();
        law_chunk_places(any, bytes.skip(1));
        if bytes.len() > 1 {
            assert(bytes.skip(1)[0] == bytes[1]);
            law_response_kinds(ResponseDatagramType::Echo, bytes[1] / 2);
        }
    }
}

} // verus!
