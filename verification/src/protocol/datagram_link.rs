//! Transport of datagrams over regular packets.
//!
//! A datagram is cut into chunks, and each chunk is sent in a packet of its own. A chunk is repeated
//! until the other side acknowledges its sequence number, then the next chunk is sent.

use crate::protocol::deku_helpers::PackBytes;
use crate::protocol::proto2025::datagrams::{
    law_board_ids_complete, law_board_ids_round_trip, law_board_ids_size, law_command_size,
    law_echo_round_trip, BoardIdsResponseDatagram, CommandDatagram, CommandDatagramType,
    EchoDatagram, ResponseDatagram, ResponseDatagramType,
};
use crate::protocol::proto2025::packet::DatagramPayload;
use std::collections::VecDeque;
use vstd::prelude::*;

verus! {

/// A part of a datagram: its kind, and 27 bytes.
pub type Chunk = (CommandDatagramType, Seq<u8>);

/// The number of chunks of a datagram. One without data still has a chunk.
pub open spec fn chunk_count(len: nat) -> nat {
    if len == 0 {
        1
    } else {
        (len + 26) / 27
    }
}

/// Bytes `27 * i ..` of `data`, filled up with zeros.
pub open spec fn chunk_data(data: Seq<u8>, i: int) -> Seq<u8> {
    Seq::new(
        27,
        |k: int|
            if 27 * i + k < data.len() {
                data[27 * i + k]
            } else {
                0u8
            },
    )
}

/// The chunks of a datagram.
pub open spec fn chunks_of(d: CommandDatagram) -> Seq<Chunk> {
    Seq::new(chunk_count(d.payload().len()), |i: int| (d.tag(), chunk_data(d.payload(), i)))
}

/// The chunks of all datagrams of a queue.
pub open spec fn all_chunks(queue: Seq<CommandDatagram>) -> Seq<Chunk>
    decreases queue.len(),
{
    if queue.len() == 0 {
        Seq::empty()
    } else {
        chunks_of(queue[0]) + all_chunks(queue.skip(1))
    }
}

/// The chunk that a packet carries.
pub open spec fn chunk_of(p: DatagramPayload<CommandDatagramType>) -> Chunk {
    (p.datagram_type, p.data@)
}

/// The state of both directions.
#[derive(Debug)]
pub struct DatagramLink {
    datagram_queue: VecDeque<CommandDatagram>,
    datagram_chunk_queue: VecDeque<(CommandDatagramType, [u8; 27])>,
    sent_datagram_packet: Option<DatagramPayload<CommandDatagramType>>,
    cycles_since_datagram_send: u8,
    seqnum_last_sent: u8,
    seqnum_last_received: u8,
    chunk_received: bool,
    datagram_rx_type: Option<ResponseDatagramType>,
    datagram_rx_buf: Vec<u8>,
}

impl DatagramLink {
    /// The datagrams of which no chunk was sent yet.
    pub closed spec fn queue(&self) -> Seq<CommandDatagram> {
        self.datagram_queue@
    }

    /// The remaining chunks of the datagram that is being sent.
    pub closed spec fn chunks(&self) -> Seq<Chunk> {
        self.datagram_chunk_queue@.map_values(|c: (CommandDatagramType, [u8; 27])| (c.0, c.1@))
    }

    /// The chunks that were not sent yet.
    pub open spec fn backlog(&self) -> Seq<Chunk> {
        self.chunks() + all_chunks(self.queue())
    }

    /// The packet that was sent and not acknowledged.
    pub closed spec fn waiting(&self) -> Option<DatagramPayload<CommandDatagramType>> {
        self.sent_datagram_packet
    }

    /// The chunks that the other side has not acknowledged.
    pub open spec fn outstanding(&self) -> Seq<Chunk> {
        match self.waiting() {
            Some(p) => seq![chunk_of(p)] + self.backlog(),
            None => self.backlog(),
        }
    }

    /// The number of packets since a chunk was sent, up to 255.
    pub closed spec fn cycles(&self) -> u8 {
        self.cycles_since_datagram_send
    }

    /// The sequence number of the chunk that was sent last.
    pub closed spec fn last_sent(&self) -> u8 {
        self.seqnum_last_sent
    }

    /// The sequence number of the chunk that was received last, and 1 before the first one.
    pub closed spec fn last_received(&self) -> u8 {
        self.seqnum_last_received
    }

    /// Whether a chunk was received.
    pub closed spec fn has_received(&self) -> bool {
        self.chunk_received
    }

    /// Whether a chunk with this sequence number repeats the chunk that was received last.
    pub open spec fn repeats(&self, seqnum: u8) -> bool {
        self.has_received() && seqnum == self.last_received()
    }

    /// The kind of the datagram that is being received.
    pub closed spec fn rx_type(&self) -> Option<ResponseDatagramType> {
        self.datagram_rx_type
    }

    /// The data of the datagram that is being received.
    pub closed spec fn rx_data(&self) -> Seq<u8> {
        self.datagram_rx_buf@
    }

    pub open spec fn wf(&self) -> bool {
        &&& self.last_sent() < 2
        &&& self.last_received() < 2
        &&& self.waiting() matches Some(p) ==> p.seqnum == self.last_sent()
        &&& match self.rx_type() {
            Some(t) => self.rx_data().len() < t.size(),
            None => self.rx_data().len() == 0,
        }
    }

    /// The part of the state that sends is the same.
    pub open spec fn same_sender(&self, other: &DatagramLink) -> bool {
        &&& self.queue() == other.queue()
        &&& self.chunks() == other.chunks()
        &&& self.waiting() == other.waiting()
        &&& self.cycles() == other.cycles()
        &&& self.last_sent() == other.last_sent()
    }

    /// The part of the state that receives is the same.
    pub open spec fn same_receiver(&self, other: &DatagramLink) -> bool {
        &&& self.last_received() == other.last_received()
        &&& self.has_received() == other.has_received()
        &&& self.rx_type() == other.rx_type()
        &&& self.rx_data() == other.rx_data()
    }

    /// Nothing was sent, received or queued yet.
    pub open spec fn fresh(&self) -> bool {
        &&& self.queue() == Seq::<CommandDatagram>::empty()
        &&& self.chunks() == Seq::<Chunk>::empty()
        &&& self.waiting() is None
        &&& self.cycles() == 0
        &&& self.last_sent() == 1
        &&& self.last_received() == 1
        &&& !self.has_received()
        &&& self.rx_type() is None
    }

    pub fn new() -> (l: DatagramLink)
        ensures
            l.wf(),
            l.fresh(),
    {
        let l = DatagramLink {
            datagram_queue: VecDeque::new(),
            datagram_chunk_queue: VecDeque::new(),
            sent_datagram_packet: None,
            cycles_since_datagram_send: 0,
            seqnum_last_sent: 1,
            seqnum_last_received: 1,
            chunk_received: false,
            datagram_rx_type: None,
            datagram_rx_buf: Vec::new(),
        };
        proof {
            assert(l.chunks() =~= Seq::<Chunk>::empty());
        }
        l
    }

    /// The number of datagrams of which no chunk was sent yet.
    pub fn queued_datagrams(&self) -> (n: usize)
        ensures
            n == self.queue().len(),
    {
        self.datagram_queue.len()
    }

    /// The sequence number to acknowledge.
    pub fn acknum(&self) -> (n: u8)
        ensures
            n == self.last_received(),
    {
        self.seqnum_last_received
    }

    /// Queues a datagram for sending.
    pub fn queue_datagram(&mut self, datagram: CommandDatagram)
        requires
            old(self).wf(),
        ensures
            final(self).wf(),
            Self::queued(*old(self), datagram, *final(self)),
            final(self).outstanding() == old(self).outstanding() + chunks_of(datagram),
    {
        self.datagram_queue.push_back(datagram);
        proof {
            lemma_all_chunks_push(old(self).queue(), datagram);
            assert(self.outstanding() =~= old(self).outstanding() + chunks_of(datagram));
        }
    }

    /// The effect of queueing a datagram.
    pub open spec fn queued(
        before: DatagramLink,
        datagram: CommandDatagram,
        after: DatagramLink,
    ) -> bool {
        &&& after.same_receiver(&before)
        &&& after.queue() == before.queue().push(datagram)
        &&& after.chunks() == before.chunks()
        &&& after.waiting() == before.waiting()
        &&& after.cycles() == before.cycles()
        &&& after.last_sent() == before.last_sent()
    }

    /// The effect of taking the next chunk, of the next datagram if none is left of the current one.
    pub open spec fn taken(before: DatagramLink, chunk: Option<Chunk>, after: DatagramLink) -> bool {
        &&& after.same_receiver(&before)
        &&& after.waiting() == before.waiting()
        &&& after.cycles() == before.cycles()
        &&& after.last_sent() == before.last_sent()
        &&& match chunk {
            Some(c) => {
                &&& before.backlog().len() > 0
                &&& c == before.backlog()[0]
                &&& after.backlog() == before.backlog().skip(1)
            },
            None => {
                &&& before.backlog().len() == 0
                &&& after.queue() == before.queue()
                &&& after.chunks() == before.chunks()
            },
        }
        &&& before.chunks().len() > 0 ==> after.queue() == before.queue()
        &&& before.chunks().len() == 0 && before.queue().len() > 0 ==> after.queue()
            == before.queue().skip(1)
    }

    /// The decision on the next packet, which carries the chunk `p` if there is one.
    pub open spec fn advanced(
        before: DatagramLink,
        p: Option<DatagramPayload<CommandDatagramType>>,
        after: DatagramLink,
    ) -> bool {
        &&& after.same_receiver(&before)
        // An unacknowledged chunk is repeated
        &&& before.waiting() is Some && before.cycles() >= 1 ==> {
            &&& p == before.waiting()
            &&& after.cycles() == 0
            &&& after.queue() == before.queue()
            &&& after.chunks() == before.chunks()
            &&& after.waiting() == before.waiting()
            &&& after.last_sent() == before.last_sent()
        }
        // The next chunk is sent with the other sequence number
        &&& before.waiting() is None && before.backlog().len() > 0 ==> {
            &&& p is Some
            &&& p->0.seqnum == 1 - before.last_sent()
            &&& chunk_of(p->0) == before.backlog()[0]
            &&& after.waiting() == p
            &&& after.backlog() == before.backlog().skip(1)
            &&& after.last_sent() == 1 - before.last_sent()
            &&& after.cycles() == 0
            &&& after.queue() == (if before.chunks().len() > 0 {
                before.queue()
            } else {
                before.queue().skip(1)
            })
        }
        // No chunk is sent
        &&& before.regular_next() ==> {
            &&& p is None
            &&& after.cycles() == (if before.cycles() == 255 {
                255
            } else {
                before.cycles() + 1
            })
            &&& after.queue() == before.queue()
            &&& after.chunks() == before.chunks()
            &&& after.waiting() == before.waiting()
            &&& after.last_sent() == before.last_sent()
        }
    }

    /// The effect of an acknowledgement.
    pub open spec fn acked(before: DatagramLink, acknum: u8, after: DatagramLink) -> bool {
        &&& after.same_receiver(&before)
        &&& after.queue() == before.queue()
        &&& after.chunks() == before.chunks()
        &&& after.cycles() == before.cycles()
        &&& after.last_sent() == before.last_sent()
        &&& after.waiting() == (match before.waiting() {
            Some(p) => if p.seqnum == acknum {
                None
            } else {
                Some(p)
            },
            None => None,
        })
    }

    /// The effect of a received chunk, which completes `datagram` if there is one.
    pub open spec fn collected_chunk(
        before: DatagramLink,
        payload: DatagramPayload<ResponseDatagramType>,
        datagram: Option<ResponseDatagram>,
        after: DatagramLink,
    ) -> bool {
        let tag = payload.datagram_type;
        let data = before.collected(tag, payload.data@);
        &&& after.same_sender(&before)
        &&& after.last_received() == payload.seqnum
        &&& after.has_received()
        &&& match datagram {
            Some(d) => {
                &&& data.len() >= tag.size()
                &&& d.assembled(tag, data)
                &&& after.rx_type() is None
            },
            None => {
                &&& data.len() < tag.size()
                &&& after.rx_type() == Some(tag)
                &&& after.rx_data() == data
            },
        }
    }

    /// The effect of a received chunk where repetitions are dropped: a chunk with the sequence
    /// number of the last one is ignored.
    pub open spec fn collected_new_chunk(
        before: DatagramLink,
        payload: DatagramPayload<ResponseDatagramType>,
        datagram: Option<ResponseDatagram>,
        after: DatagramLink,
    ) -> bool {
        if before.repeats(payload.seqnum) {
            &&& datagram is None
            &&& after.same_sender(&before)
            &&& after.same_receiver(&before)
        } else {
            Self::collected_chunk(before, payload, datagram, after)
        }
    }
}

impl DatagramLink {
    /// Takes the next chunk, from the next datagram if there is none left of the current one.
    pub fn get_next_datagram_chunk(&mut self) -> (chunk: Option<(CommandDatagramType, [u8; 27])>)
        requires
            old(self).wf(),
        ensures
            final(self).wf(),
            Self::taken(
                *old(self),
                match chunk {
                    Some(c) => Some((c.0, c.1@)),
                    None => None,
                },
                *final(self),
            ),
    {
        if let Some(next_chunk) = self.datagram_chunk_queue.pop_front() {
            // Next chunk available
            proof {
                assert(self.chunks() =~= old(self).chunks().skip(1));
                assert(old(self).chunks()[0] == old(self).backlog()[0]);
                assert(self.backlog() =~= old(self).backlog().skip(1));
            }
            Some(next_chunk)
        } else if let Some(next_datagram) = self.datagram_queue.pop_front() {
            // No next chunk, but another queued datagram -> ingest next datagram
            let ghost d = next_datagram;
            let (datagram_type, data): (CommandDatagramType, Vec<u8>) = next_datagram.into_parts();
            proof {
                law_command_size(d);
                assert(self.queue() =~= old(self).queue().skip(1));
                assert(old(self).chunks() =~= Seq::<Chunk>::empty());
                assert(old(self).backlog() =~= chunks_of(d) + all_chunks(self.queue()));
                assert(self.chunks() =~= Seq::<Chunk>::empty());
            }
            self.push_chunks(datagram_type, &data, Ghost(d));
            let next: Option<(CommandDatagramType, [u8; 27])> =
                self.datagram_chunk_queue.pop_front();
            proof {
                assert(self.chunks() =~= chunks_of(d).skip(1));
                assert(chunks_of(d)[0] == old(self).backlog()[0]);
                assert(self.backlog() =~= old(self).backlog().skip(1));
            }
            next
        } else {
            // No chunks or datagrams left
            proof {
                assert(self.queue() =~= Seq::<CommandDatagram>::empty());
                assert(old(self).chunks() =~= Seq::<Chunk>::empty());
            }
            None
        }
    }

    /// Cuts the data of a datagram into chunks.
    fn push_chunks(
        &mut self,
        datagram_type: CommandDatagramType,
        data: &Vec<u8>,
        Ghost(d): Ghost<CommandDatagram>,
    )
        requires
            old(self).wf(),
            old(self).datagram_chunk_queue@.len() == 0,
            datagram_type == d.tag(),
            data@ == d.payload(),
            data@.len() <= 100,
        ensures
            final(self).wf(),
            final(self).same_receiver(old(self)),
            final(self).datagram_queue == old(self).datagram_queue,
            final(self).waiting() == old(self).waiting(),
            final(self).cycles() == old(self).cycles(),
            final(self).last_sent() == old(self).last_sent(),
            final(self).chunks() == chunks_of(d),
            final(self).datagram_chunk_queue@.len() == chunks_of(d).len(),
    {
        // Still submit an empty chunk when there is no payload
        let count: usize = if data.len() == 0 {
            1
        } else {
            (data.len() + 26) / 27
        };
        let mut i: usize = 0;
        while i < count
            invariant
                i <= count,
                count == chunk_count(data@.len()),
                count <= 4,
                datagram_type == d.tag(),
                data@ == d.payload(),
                self.wf(),
                self.same_receiver(old(self)),
                self.datagram_queue == old(self).datagram_queue,
                self.waiting() == old(self).waiting(),
                self.cycles() == old(self).cycles(),
                self.last_sent() == old(self).last_sent(),
                self.datagram_chunk_queue@.len() == i,
                forall|k: int|
                    0 <= k < i ==> (#[trigger] self.datagram_chunk_queue@[k]).0 == d.tag()
                        && self.datagram_chunk_queue@[k].1@ == chunk_data(data@, k),
            decreases count - i,
        {
            let chunk: [u8; 27] = cut_chunk(data, i);
            self.datagram_chunk_queue.push_back((datagram_type, chunk));
            i = i + 1;
        }
        proof {
            assert(self.chunks() =~= chunks_of(d));
        }
    }

    /// Decides whether the next packet carries a chunk. An unacknowledged chunk is repeated in every
    /// second packet.
    pub fn next_chunk(&mut self) -> (p: Option<DatagramPayload<CommandDatagramType>>)
        requires
            old(self).wf(),
        ensures
            final(self).wf(),
            Self::advanced(*old(self), p, *final(self)),
            final(self).outstanding() == old(self).outstanding(),
            p is Some ==> old(self).outstanding().len() > 0 && chunk_of(p->0) == old(
                self,
            ).outstanding()[0],
    {
        if let Some(sent_datagram_packet) = self.sent_datagram_packet {
            if self.cycles_since_datagram_send >= 1 {
                // Resend the last datagram packet if an ack was not received within the cooldown
                self.cycles_since_datagram_send = 0;
                return Some(sent_datagram_packet);
            }
        } else if let Some(next_chunk) = self.get_next_datagram_chunk() {
            // Construct new datagram packet
            self.seqnum_last_sent = 1 - self.seqnum_last_sent;
            let payload = DatagramPayload::<CommandDatagramType> {
                seqnum: self.seqnum_last_sent,
                datagram_type: next_chunk.0,
                data: next_chunk.1,
            };
            self.sent_datagram_packet = Some(payload);
            self.cycles_since_datagram_send = 0;
            proof {
                assert(self.outstanding() =~= old(self).outstanding());
            }
            return Some(payload);
        }
        // Send regular packet
        if self.cycles_since_datagram_send < 255 {
            self.cycles_since_datagram_send = self.cycles_since_datagram_send + 1;
        }
        None
    }

    /// Whether the next packet carries no chunk: either nothing is left to send, or a chunk was sent
    /// in the last packet and may still be acknowledged.
    pub open spec fn regular_next(&self) -> bool {
        match self.waiting() {
            Some(_) => self.cycles() == 0,
            None => self.backlog().len() == 0,
        }
    }

    /// Takes an acknowledgement.
    pub fn acknowledged(&mut self, acknum: u8)
        requires
            old(self).wf(),
        ensures
            final(self).wf(),
            Self::acked(*old(self), acknum, *final(self)),
            final(self).outstanding() == (if old(self).waiting() is Some && old(
                self,
            ).waiting()->0.seqnum == acknum {
                old(self).outstanding().skip(1)
            } else {
                old(self).outstanding()
            }),
    {
        if let Some(sent_datagram_packet) = self.sent_datagram_packet {
            if sent_datagram_packet.seqnum == acknum {
                self.sent_datagram_packet = None;
                proof {
                    assert(self.outstanding() =~= old(self).outstanding().skip(1));
                }
            }
        }
    }

    /// The data of the datagram that is being received, with one more chunk of kind `tag`. A chunk
    /// of another kind replaces what was received before.
    pub open spec fn collected(&self, tag: ResponseDatagramType, data: Seq<u8>) -> Seq<u8> {
        match self.rx_type() {
            Some(t) => if t == tag {
                self.rx_data() + data
            } else {
                data
            },
            None => data,
        }
    }

    /// Takes a chunk, and returns the datagram that it completes. A chunk that comes a second time,
    /// because its acknowledgement was lost, is ignored.
    pub fn receive_new_chunk(&mut self, payload: &DatagramPayload<ResponseDatagramType>) -> (datagram:
        Option<ResponseDatagram>)
        requires
            old(self).wf(),
            payload.seqnum < 2,
        ensures
            final(self).wf(),
            Self::collected_new_chunk(*old(self), *payload, datagram, *final(self)),
    {
        if self.chunk_received && payload.seqnum == self.seqnum_last_received {
            None
        } else {
            self.receive_chunk(payload)
        }
    }

    /// Takes a chunk, and returns the datagram that it completes.
    pub fn receive_chunk(&mut self, payload: &DatagramPayload<ResponseDatagramType>) -> (datagram:
        Option<ResponseDatagram>)
        requires
            old(self).wf(),
            payload.seqnum < 2,
        ensures
            final(self).wf(),
            Self::collected_chunk(*old(self), *payload, datagram, *final(self)),
    {
        let datagram_type: ResponseDatagramType = payload.datagram_type;

        // Update seqnum_last_received
        self.seqnum_last_received = payload.seqnum;
        self.chunk_received = true;

        // Clear buffer if replacing different uncompleted datagram
        if let Some(rx_type) = self.datagram_rx_type {
            if rx_type != datagram_type {
                self.datagram_rx_buf.clear();
            }
        }

        // Insert new chunk
        self.datagram_rx_type = Some(datagram_type);
        self.datagram_rx_buf.extend_from_slice(&payload.data);
        proof {
            assert(self.datagram_rx_buf@ =~= old(self).collected(datagram_type, payload.data@));
        }

        if self.datagram_rx_buf.len() >= datagram_type.get_datagram_size() {
            // Full datagram received
            let datagram = match ResponseDatagram::from_parts(
                datagram_type,
                self.datagram_rx_buf.as_slice(),
            ) {
                Ok(d) => Some(d),
                Err(_) => {
                    proof {
                        if datagram_type is BoardIds {
                            law_board_ids_complete(self.datagram_rx_buf@);
                        }
                        assert(false);
                    }
                    None
                },
            };
            self.datagram_rx_type = None;
            self.datagram_rx_buf.clear();
            datagram
        } else {
            None
        }
    }
}

/// Bytes `27 * i ..` of `data`, filled up with zeros.
fn cut_chunk(data: &Vec<u8>, i: usize) -> (chunk: [u8; 27])
    requires
        i < 4,
    ensures
        chunk@ == chunk_data(data@, i as int),
{
    let mut chunk: [u8; 27] = [0u8; 27];
    let mut k: usize = 0;
    while k < 27
        invariant
            k <= 27,
            i < 4,
            forall|j: int| 0 <= j < k ==> chunk@[j] == chunk_data(data@, i as int)[j],
            forall|j: int| k <= j < 27 ==> #[trigger] chunk@[j] == 0,
        decreases 27 - k,
    {
        if 27 * i + k < data.len() {
            chunk[k] = data[27 * i + k];
        }
        k = k + 1;
    }
    proof {
        assert(chunk@ =~= chunk_data(data@, i as int));
    }
    chunk
}

/// The chunks of a queue with one more datagram.
pub proof fn lemma_all_chunks_push(queue: Seq<CommandDatagram>, d: CommandDatagram)
    ensures
        all_chunks(queue.push(d)) == all_chunks(queue) + chunks_of(d),
    decreases queue.len(),
{
    reveal_with_fuel(all_chunks, 2);
    if queue.len() == 0 {
        assert(queue.push(d).skip(1) =~= Seq::empty());
        assert(all_chunks(queue.push(d)) =~= chunks_of(d));
        assert(all_chunks(queue) + chunks_of(d) =~= chunks_of(d));
    } else {
        lemma_all_chunks_push(queue.skip(1), d);
        assert(queue.push(d).skip(1) =~= queue.skip(1).push(d));
        assert(all_chunks(queue.push(d)) =~= all_chunks(queue) + chunks_of(d));
    }
}

// ======== Laws ========

/// Chunks `0 .. n` of `data`, one after the other.
pub open spec fn joined(data: Seq<u8>, n: nat) -> Seq<u8> {
    Seq::new(27 * n, |k: int| chunk_data(data, k / 27)[k % 27])
}

/// The chunks of some data hold the data, followed by zeros only, and no chunk can be left out.
pub proof fn law_chunks_hold_data(data: Seq<u8>)
    ensures
        joined(data, chunk_count(data.len())).len() >= data.len(),
        joined(data, chunk_count(data.len())).take(data.len() as int) == data,
        forall|k: int|
            data.len() <= k < 27 * chunk_count(data.len()) ==> #[trigger] joined(
                data,
                chunk_count(data.len()),
            )[k] == 0,
        data.len() > 0 ==> 27 * (chunk_count(data.len()) - 1) < data.len(),
{
    let all = joined(data, chunk_count(data.len()));
    assert forall|k: int| 0 <= k < data.len() implies all[k] == data[k] by {
        assert(27 * (k / 27) + k % 27 == k);
    }
    assert(all.take(data.len() as int) =~= data);
}

/// Datagrams are queued in the order in which they come.
pub proof fn law_queued_in_order(states: Seq<DatagramLink>, datagrams: Seq<CommandDatagram>)
    requires
        states.len() == datagrams.len() + 1,
        forall|i: int|
            0 <= i < datagrams.len() ==> DatagramLink::queued(
                states[i],
                #[trigger] datagrams[i],
                states[i + 1],
            ),
    ensures
        states.last().queue() == states[0].queue() + datagrams,
        states.last().chunks() == states[0].chunks(),
        states.last().backlog() == states[0].backlog() + all_chunks(datagrams),
    decreases datagrams.len(),
{
    if datagrams.len() == 0 {
        assert(states[0].queue() + datagrams =~= states[0].queue());
        assert(states[0].backlog() + all_chunks(datagrams) =~= states[0].backlog());
    } else {
        let n = datagrams.len() - 1;
        let init = datagrams.drop_last();
        let states0 = states.drop_last();
        assert forall|i: int| 0 <= i < init.len() implies DatagramLink::queued(
            states0[i],
            #[trigger] init[i],
            states0[i + 1],
        ) by {
            assert(DatagramLink::queued(states[i], datagrams[i], states[i + 1]));
        }
        law_queued_in_order(states0, init);
        assert(DatagramLink::queued(states[n], datagrams[n], states[n + 1]));
        assert(states[0].queue() + datagrams =~= (states[0].queue() + init).push(datagrams[n]));
        lemma_all_chunks_push(states[n].queue(), datagrams[n]);
        lemma_all_chunks_push(init, datagrams[n]);
        assert(init.push(datagrams[n]) =~= datagrams);
        assert(states0.last() == states[n]);
        let d = chunks_of(datagrams[n]);
        assert(states[n + 1].backlog() =~= states[n].backlog() + d);
        assert(states[0].backlog() + all_chunks(init) + d =~= states[0].backlog() + (all_chunks(
            init,
        ) + d));
    }
}

/// The chunks of a queue come datagram by datagram, in the order of the queue. Those of one datagram
/// have its kind, and hold its data in order.
pub proof fn law_chunks_by_datagram(queue: Seq<CommandDatagram>, i: int)
    requires
        0 <= i < queue.len(),
    ensures
        all_chunks(queue) == all_chunks(queue.take(i)) + chunks_of(queue[i]) + all_chunks(
            queue.skip(i + 1),
        ),
        chunks_of(queue[i]).len() == chunk_count(queue[i].payload().len()),
        forall|k: int|
            0 <= k < chunks_of(queue[i]).len() ==> (#[trigger] chunks_of(queue[i])[k])
                == (queue[i].tag(), chunk_data(queue[i].payload(), k)),
    decreases i,
{
    reveal_with_fuel(all_chunks, 2);
    if i == 0 {
        assert(queue.take(0) =~= Seq::empty());
        assert(all_chunks(queue) =~= all_chunks(queue.take(0)) + chunks_of(queue[0]) + all_chunks(
            queue.skip(1),
        ));
    } else {
        let rest = queue.skip(1);
        law_chunks_by_datagram(rest, i - 1);
        assert(rest.skip(i) =~= queue.skip(i + 1));
        assert(queue.take(i).skip(1) =~= rest.take(i - 1));
        assert(all_chunks(queue.take(i)) == chunks_of(queue[0]) + all_chunks(rest.take(i - 1)));
        assert(all_chunks(queue) =~= all_chunks(queue.take(i)) + chunks_of(queue[i]) + all_chunks(
            queue.skip(i + 1),
        ));
    }
}

/// Taking one chunk after the other gives all that were left, in order, and nothing only when none
/// is left.
pub proof fn law_drained(
    states: Seq<DatagramLink>,
    chunks: Seq<Chunk>,
    last: Option<Chunk>,
    end: DatagramLink,
)
    requires
        states.len() == chunks.len() + 1,
        forall|i: int|
            0 <= i < chunks.len() ==> DatagramLink::taken(
                states[i],
                Some(#[trigger] chunks[i]),
                states[i + 1],
            ),
        DatagramLink::taken(states.last(), last, end),
    ensures
        chunks.is_prefix_of(states[0].backlog()),
        states.last().backlog() == states[0].backlog().skip(chunks.len() as int),
        last is None <==> chunks == states[0].backlog(),
    decreases chunks.len(),
{
    let all = states[0].backlog();
    if chunks.len() == 0 {
        assert(all.skip(0) =~= all);
    } else {
        let n = chunks.len() - 1;
        let states0 = states.drop_last();
        let init = chunks.drop_last();
        assert forall|i: int| 0 <= i < init.len() implies DatagramLink::taken(
            states0[i],
            Some(#[trigger] init[i]),
            states0[i + 1],
        ) by {
            assert(DatagramLink::taken(states[i], Some(chunks[i]), states[i + 1]));
        }
        assert(DatagramLink::taken(states[n], Some(chunks[n]), states[n + 1]));
        law_drained(states0, init, Some(chunks[n]), states[n + 1]);
        assert(all.skip(n as int)[0] == all[n as int]);
        assert(all.skip(n as int).skip(1) =~= all.skip(n + 1));
        assert forall|k: int| 0 <= k < chunks.len() implies chunks[k] == all[k] by {
            if k < n {
                assert(init[k] == all[k]);
            }
        }
    }
    if last is None {
        assert(chunks =~= all);
    }
}

/// A link without anything left to send, on which datagrams are queued and whose chunks are then taken
/// until none is left, gives the chunks of these datagrams and no others, datagram by datagram in the
/// order in which they were queued. Those of a datagram have its kind, and hold its data followed by
/// zeros.
pub proof fn law_queue_drained(
    queueing: Seq<DatagramLink>,
    datagrams: Seq<CommandDatagram>,
    taking: Seq<DatagramLink>,
    chunks: Seq<Chunk>,
    end: DatagramLink,
    i: int,
)
    requires
        queueing.len() == datagrams.len() + 1,
        queueing[0].backlog() == Seq::<Chunk>::empty(),
        forall|k: int|
            0 <= k < datagrams.len() ==> DatagramLink::queued(
                queueing[k],
                #[trigger] datagrams[k],
                queueing[k + 1],
            ),
        taking.len() == chunks.len() + 1,
        taking[0] == queueing.last(),
        forall|k: int|
            0 <= k < chunks.len() ==> DatagramLink::taken(
                taking[k],
                Some(#[trigger] chunks[k]),
                taking[k + 1],
            ),
        DatagramLink::taken(taking.last(), None, end),
        0 <= i < datagrams.len(),
    ensures
        chunks == all_chunks(datagrams),
        ({
            let d = datagrams[i];
            let from = all_chunks(datagrams.take(i)).len() as int;
            let count = chunk_count(d.payload().len());
            &&& from + count <= chunks.len()
            &&& forall|k: int|
                0 <= k < count ==> (#[trigger] chunks[from + k]) == (
                    d.tag(),
                    chunk_data(d.payload(), k),
                )
            &&& joined(d.payload(), count).take(d.payload().len() as int) == d.payload()
            &&& forall|k: int|
                d.payload().len() <= k < 27 * count ==> #[trigger] joined(d.payload(), count)[k]
                    == 0
        }),
{
    law_queued_in_order(queueing, datagrams);
    assert(Seq::<Chunk>::empty() + all_chunks(datagrams) =~= all_chunks(datagrams));
    law_drained(taking, chunks, None, end);
    law_chunks_by_datagram(datagrams, i);
    law_chunks_hold_data(datagrams[i].payload());
    let d = datagrams[i];
    let from = all_chunks(datagrams.take(i)).len() as int;
    let count = chunk_count(d.payload().len());
    assert forall|k: int| 0 <= k < count implies (#[trigger] chunks[from + k]) == (
        d.tag(),
        chunk_data(d.payload(), k),
    ) by {
        assert(chunks[from + k] == chunks_of(d)[k]);
    }
}

/// The state of a receiver that has got the first `n` chunks of a datagram.
pub open spec fn has_collected(link: DatagramLink, tag: ResponseDatagramType, data: Seq<u8>, n: nat) -> bool {
    if n == 0 {
        link.rx_type() != Some(tag) || link.rx_data().len() == 0
    } else {
        link.rx_type() == Some(tag) && link.rx_data() == joined(data, n)
    }
}

proof fn lemma_collect_step(
    before: DatagramLink,
    tag: ResponseDatagramType,
    data: Seq<u8>,
    n: nat,
    chunk: Seq<u8>,
)
    requires
        has_collected(before, tag, data, n),
        chunk == chunk_data(data, n as int),
    ensures
        before.collected(tag, chunk) == joined(data, n + 1),
{
    assert forall|k: int| 0 <= k < 27 * (n + 1) implies joined(data, n + 1)[k] == (joined(data, n)
        + chunk)[k] by {
        if k >= 27 * n {
            assert(k / 27 == n);
        }
    }
    assert(joined(data, n + 1) =~= joined(data, n) + chunk);
    if n == 0 {
        assert(joined(data, 1) =~= chunk);
        assert(Seq::<u8>::empty() + chunk =~= chunk);
        assert(before.rx_data().len() == 0 ==> before.rx_data() =~= Seq::<u8>::empty());
    }
}

/// A receiver that gets the chunks of a datagram in order returns nothing until the last one, and
/// then the datagram. It may hold a part of a datagram of another kind before.
pub proof fn law_reassembly(
    states: Seq<DatagramLink>,
    payloads: Seq<DatagramPayload<ResponseDatagramType>>,
    results: Seq<Option<ResponseDatagram>>,
    tag: ResponseDatagramType,
    data: Seq<u8>,
    n: nat,
)
    requires
        data.len() == tag.size(),
        n <= chunk_count(data.len()),
        payloads.len() >= n,
        results.len() >= n,
        states.len() >= n + 1,
        states[0].wf(),
        states[0].rx_type() != Some(tag),
        forall|i: int|
            0 <= i < n ==> (#[trigger] payloads[i]).datagram_type == tag && payloads[i].data@
                == chunk_data(data, i) && DatagramLink::collected_chunk(
                states[i],
                payloads[i],
                results[i],
                states[i + 1],
            ),
    ensures
        forall|i: int|
            0 <= i < n && i + 1 < chunk_count(data.len()) ==> #[trigger] results[i] is None,
        n > 0 ==> states[n as int].last_received() == payloads[n - 1].seqnum,
        n < chunk_count(data.len()) ==> has_collected(states[n as int], tag, data, n),
        n == chunk_count(data.len()) ==> results[n - 1] is Some && results[n - 1]->0.assembled(
            tag,
            joined(data, n),
        ) && states[n as int].rx_type() is None,
    decreases n,
{
    if n > 0 {
        let m = (n - 1) as nat;
        law_reassembly(states, payloads, results, tag, data, m);
        law_chunks_hold_data(data);
        assert(payloads[m as int].datagram_type == tag);
        lemma_collect_step(states[m as int], tag, data, m, chunk_data(data, m as int));
        assert(joined(data, n).len() == 27 * n);
    }
}

proof fn lemma_alternating_chunks_are_new(
    states: Seq<DatagramLink>,
    payloads: Seq<DatagramPayload<ResponseDatagramType>>,
    results: Seq<Option<ResponseDatagram>>,
    n: nat,
)
    requires
        payloads.len() >= n,
        results.len() >= n,
        states.len() >= n + 1,
        n > 0 ==> !states[0].repeats(payloads[0].seqnum),
        forall|i: int|
            0 < i < n ==> (#[trigger] payloads[i]).seqnum != payloads[i - 1].seqnum,
        forall|i: int|
            0 <= i < n ==> DatagramLink::collected_new_chunk(
                states[i],
                #[trigger] payloads[i],
                results[i],
                states[i + 1],
            ),
    ensures
        n > 0 ==> states[n as int].last_received() == payloads[n - 1].seqnum,
        forall|i: int|
            0 <= i < n ==> DatagramLink::collected_chunk(
                states[i],
                #[trigger] payloads[i],
                results[i],
                states[i + 1],
            ),
    decreases n,
{
    if n > 0 {
        let m = n - 1;
        lemma_alternating_chunks_are_new(states, payloads, results, m as nat);
        assert(DatagramLink::collected_new_chunk(
            states[m],
            payloads[m],
            results[m],
            states[m + 1],
        ));
    }
}

/// A receiver that drops repetitions and gets the chunks of a datagram in order, with alternating
/// sequence numbers, returns nothing until the last one, and then the datagram.
pub proof fn law_reassembly_of_new_chunks(
    states: Seq<DatagramLink>,
    payloads: Seq<DatagramPayload<ResponseDatagramType>>,
    results: Seq<Option<ResponseDatagram>>,
    tag: ResponseDatagramType,
    data: Seq<u8>,
    n: nat,
)
    requires
        data.len() == tag.size(),
        n <= chunk_count(data.len()),
        payloads.len() >= n,
        results.len() >= n,
        states.len() >= n + 1,
        states[0].wf(),
        states[0].rx_type() != Some(tag),
        n > 0 ==> !states[0].repeats(payloads[0].seqnum),
        forall|i: int|
            0 < i < n ==> (#[trigger] payloads[i]).seqnum != payloads[i - 1].seqnum,
        forall|i: int|
            0 <= i < n ==> (#[trigger] payloads[i]).datagram_type == tag && payloads[i].data@
                == chunk_data(data, i) && DatagramLink::collected_new_chunk(
                states[i],
                payloads[i],
                results[i],
                states[i + 1],
            ),
    ensures
        forall|i: int|
            0 <= i < n && i + 1 < chunk_count(data.len()) ==> #[trigger] results[i] is None,
        n > 0 ==> states[n as int].last_received() == payloads[n - 1].seqnum,
        n < chunk_count(data.len()) ==> has_collected(states[n as int], tag, data, n),
        n == chunk_count(data.len()) ==> results[n - 1] is Some && results[n - 1]->0.assembled(
            tag,
            joined(data, n),
        ) && states[n as int].rx_type() is None,
{
    lemma_alternating_chunks_are_new(states, payloads, results, n);
    law_reassembly(states, payloads, results, tag, data, n);
}

/// Where repetitions are dropped, a chunk that comes a second time changes nothing and completes
/// nothing, and what follows it has the same effect as if it had come once: the lost acknowledgement
/// of a chunk does no harm.
pub proof fn law_repeated_chunk_ignored(
    before: DatagramLink,
    payload: DatagramPayload<ResponseDatagramType>,
    datagram: Option<ResponseDatagram>,
    after: DatagramLink,
    second: Option<ResponseDatagram>,
    last: DatagramLink,
)
    requires
        DatagramLink::collected_new_chunk(before, payload, datagram, after),
        DatagramLink::collected_new_chunk(after, payload, second, last),
    ensures
        second is None,
        last.same_sender(&after),
        last.same_receiver(&after),
        forall|
            next: DatagramPayload<ResponseDatagramType>,
            result: Option<ResponseDatagram>,
            end: DatagramLink,
        |
            DatagramLink::collected_new_chunk(last, next, result, end)
                == #[trigger] DatagramLink::collected_new_chunk(after, next, result, end),
{
}

/// An echo response that arrives in chunks is the datagram that was sent.
pub proof fn law_echo_reassembled(d: EchoDatagram, r: ResponseDatagram)
    requires
        r.assembled(ResponseDatagramType::Echo, joined(d.data@, 4)),
    ensures
        r == ResponseDatagram::Echo(d),
{
    law_chunks_hold_data(d.data@);
    let all = joined(d.data@, 4);
    let rest = all.skip(100);
    assert(all =~= d.bytes() + rest);
    law_echo_round_trip(d, rest, r->Echo_0);
}

/// Board ids that arrive in chunks are the ids that were sent.
pub proof fn law_board_ids_reassembled(d: BoardIdsResponseDatagram, r: ResponseDatagram)
    requires
        r.assembled(ResponseDatagramType::BoardIds, joined(d.bytes(), 4)),
    ensures
        r == ResponseDatagram::BoardIds(d),
{
    law_board_ids_size(d);
    law_chunks_hold_data(d.bytes());
    let all = joined(d.bytes(), 4);
    let rest = all.skip(84);
    assert(all =~= d.bytes() + rest);
    law_board_ids_round_trip(d, rest, r->BoardIds_0);
}

/// A chunk that is not acknowledged is sent again, unchanged, in the second packet after it.
pub proof fn law_resend(
    first: DatagramLink,
    p: Option<DatagramPayload<CommandDatagramType>>,
    second: DatagramLink,
    q: Option<DatagramPayload<CommandDatagramType>>,
    third: DatagramLink,
    r: Option<DatagramPayload<CommandDatagramType>>,
    fourth: DatagramLink,
)
    requires
        p is Some,
        DatagramLink::advanced(first, p, second),
        DatagramLink::advanced(second, q, third),
        DatagramLink::advanced(third, r, fourth),
    ensures
        q is None,
        r == p,
{
}

/// Two chunks that follow each other have different sequence numbers, so that the receiver can tell
/// a repeated chunk from a new one.
pub proof fn law_alternating_seqnums(
    first: DatagramLink,
    p: DatagramPayload<CommandDatagramType>,
    second: DatagramLink,
    third: DatagramLink,
    q: DatagramPayload<CommandDatagramType>,
    fourth: DatagramLink,
)
    requires
        first.wf(),
        first.waiting() is None,
        DatagramLink::advanced(first, Some(p), second),
        DatagramLink::acked(second, p.seqnum, third),
        DatagramLink::advanced(third, Some(q), fourth),
    ensures
        q.seqnum == 1 - p.seqnum,
        first.backlog().len() >= 2,
        chunk_of(p) == first.backlog()[0],
        chunk_of(q) == first.backlog()[1],
{
}

/// If every chunk is acknowledged, the chunks of all queued datagrams are sent in order and each of
/// them once, with alternating sequence numbers.
pub proof fn law_chunks_sent_in_order(
    states: Seq<DatagramLink>,
    sent: Seq<DatagramLink>,
    chunks: Seq<DatagramPayload<CommandDatagramType>>,
    n: nat,
)
    requires
        states.len() >= n + 1,
        sent.len() >= n,
        chunks.len() >= n,
        states[0].wf(),
        states[0].waiting() is None,
        forall|i: int|
            0 <= i < n ==> DatagramLink::advanced(states[i], Some(#[trigger] chunks[i]), sent[i])
                && DatagramLink::acked(sent[i], chunks[i].seqnum, states[i + 1]),
    ensures
        n <= states[0].backlog().len(),
        forall|i: int|
            0 <= i < n ==> chunk_of(#[trigger] chunks[i]) == states[0].backlog()[i]
                && chunks[i].seqnum == (states[0].last_sent() + 1 + i) % 2,
        states[n as int].waiting() is None,
        states[n as int].last_sent() == (states[0].last_sent() + n) % 2,
        states[n as int].backlog() == states[0].backlog().skip(n as int),
    decreases n,
{
    let all = states[0].backlog();
    if n == 0 {
        assert(all.skip(0) =~= all);
    } else {
        let m = n - 1;
        law_chunks_sent_in_order(states, sent, chunks, m as nat);
        let before = states[m];
        let p = chunks[m];
        assert(DatagramLink::advanced(before, Some(p), sent[m]));
        assert(before.backlog().len() > 0);
        assert(before.backlog()[0] == all[m]);
        assert(sent[m].backlog() == before.backlog().skip(1));
        assert(all.skip(m).skip(1) =~= all.skip(n as int));
    }
}

} // verus!
