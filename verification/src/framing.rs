//! Frames on a serial line: a packet with a checksum, stuffed so that a zero byte ends it.

use vstd::prelude::*;

verus! {

// ======== Byte stuffing ========

/// The error of a stuffed message that cannot be decoded.
#[verifier::external_type_specification]
#[verifier::external_body]
pub struct ExDecodeError(cobs::DecodeError);

/// What `cobs::encode_vec` makes of a message.
pub uninterp spec fn cobs_encoded(data: Seq<u8>) -> Seq<u8>;

/// What `cobs::decode_vec` makes of a stuffed message, if it can be decoded.
pub uninterp spec fn cobs_decoded(data: Seq<u8>) -> Option<Seq<u8>>;

/// Whether the encoding of a message of this length fits into memory.
pub open spec fn encodable(len: nat) -> bool {
    len + len / 254 + 1 <= isize::MAX
}

/// Calls `cobs::encode_vec`. The encoding holds no zero byte, one overhead byte is added to a
/// message that is shorter than 254 bytes, and decoding gives the message back.
#[verifier::external_body]
fn encode_vec(data: &[u8]) -> (encoded: Vec<u8>)
    requires
        encodable(data@.len()),
    ensures
        encoded@ == cobs_encoded(data@),
        forall|i: int| 0 <= i < encoded@.len() ==> #[trigger] encoded@[i] != 0,
        data@.len() < 254 ==> encoded@.len() == data@.len() + 1,
        cobs_decoded(encoded@) == Some(data@),
{
    cobs::encode_vec(data)
}

/// Calls `cobs::decode_vec`. A decoded message is shorter than its encoding, and by exactly the one
/// overhead byte if the encoding is shorter than 255 bytes and holds no zero byte.
#[verifier::external_body]
pub(crate) fn decode_vec(data: &[u8]) -> (decoded: Result<Vec<u8>, cobs::DecodeError>)
    ensures
        match decoded {
            Ok(d) => {
                &&& cobs_decoded(data@) == Some(d@)
                &&& d@.len() < data@.len()
                &&& data@.len() < 255 && !data@.contains(0) ==> d@.len() == data@.len() - 1
            },
            Err(_) => cobs_decoded(data@) is None,
        },
{
    cobs::decode_vec(data)
}

// ======== Checksum ========

/// The exclusive or of all bytes.
pub open spec fn checksum_of(data: Seq<u8>) -> u8
    decreases data.len(),
{
    if data.len() == 0 {
        0
    } else {
        checksum_of(data.drop_last()) ^ data.last()
    }
}

pub fn checksum(data: &[u8]) -> (sum: u8)
    ensures
        sum == checksum_of(data@),
{
    let mut sum: u8 = 0;
    let mut i: usize = 0;
    while i < data.len()
        invariant
            i <= data@.len(),
            sum == checksum_of(data@.take(i as int)),
        decreases data@.len() - i,
    {
        proof {
            assert(data@.take(i + 1).drop_last() =~= data@.take(i as int));
        }
        sum = sum ^ data[i];
        i = i + 1;
    }
    proof {
        assert(data@.take(i as int) =~= data@);
    }
    sum
}

/// A message with its checksum at the end.
pub open spec fn with_checksum(data: Seq<u8>) -> Seq<u8> {
    data.push(checksum_of(data))
}

/// What a message with a checksum holds, if the checksum is right.
pub open spec fn checked(data: Seq<u8>) -> Option<Seq<u8>> {
    if data.len() > 0 && data.last() == checksum_of(data.drop_last()) {
        Some(data.drop_last())
    } else {
        None
    }
}

/// Checks and removes the checksum at the end of a message.
pub fn remove_checksum(data: Vec<u8>) -> (r: Option<Vec<u8>>)
    requires
        data@.len() > 0,
    ensures
        match r {
            Some(d) => checked(data@) == Some(d@),
            None => checked(data@) is None,
        },
{
    let mut data = data;
    let ghost all = data@;
    match data.pop() {
        Some(sum) => {
            proof {
                assert(data@ =~= all.drop_last());
            }
            if sum == checksum(data.as_slice()) {
                Some(data)
            } else {
                None
            }
        },
        None => None,
    }
}

/// A checksum that was added is right, and removing it gives the message back.
pub proof fn law_checksum_round_trip(data: Seq<u8>)
    ensures
        checked(with_checksum(data)) == Some(data),
{
    assert(with_checksum(data).drop_last() =~= data);
}

/// One changed byte is always noticed.
pub proof fn law_checksum_detects_changed_byte(data: Seq<u8>, i: int, b: u8)
    requires
        0 <= i < data.len() + 1,
        b != with_checksum(data)[i],
    ensures
        checked(with_checksum(data).update(i, b)) is None,
{
    let sent = with_checksum(data);
    let got = sent.update(i, b);
    if i == data.len() {
        assert(got.drop_last() =~= data);
    } else {
        assert(got.drop_last() =~= data.update(i, b));
        lemma_checksum_update(data, i, b);
    }
}

proof fn lemma_checksum_update(data: Seq<u8>, i: int, b: u8)
    requires
        0 <= i < data.len(),
        b != data[i],
    ensures
        checksum_of(data.update(i, b)) != checksum_of(data),
    decreases data.len(),
{
    let new = data.update(i, b);
    let a = checksum_of(data.drop_last());
    let l = data.last();
    if i == data.len() - 1 {
        assert(new.drop_last() =~= data.drop_last());
        assert(b != l ==> a ^ b != a ^ l) by (bit_vector);
    } else {
        assert(new.drop_last() =~= data.drop_last().update(i, b));
        lemma_checksum_update(data.drop_last(), i, b);
        let c = checksum_of(new.drop_last());
        assert(a != c ==> a ^ l != c ^ l) by (bit_vector);
    }
}

// ======== Frames ========

/// The bytes that are sent for a packet.
pub open spec fn framed(packet: Seq<u8>) -> Seq<u8> {
    cobs_encoded(with_checksum(packet)).push(0)
}

/// Whether `body` is the part of a frame in front of its delimiter that carries `packet`.
pub open spec fn carries_packet(body: Seq<u8>, packet: Seq<u8>) -> bool {
    &&& !body.contains(0)
    &&& cobs_decoded(body) == Some(with_checksum(packet))
}

/// Makes a frame of a packet. The zero byte at its end is its only one.
pub fn frame(packet: &[u8]) -> (bytes: Vec<u8>)
    requires
        encodable(packet@.len() + 1),
    ensures
        bytes@ == framed(packet@),
        bytes@.last() == 0,
        carries_packet(bytes@.drop_last(), packet@),
        packet@.len() < 253 ==> bytes@.len() == packet@.len() + 3,
{
    let mut data: Vec<u8> = Vec::new();
    data.extend_from_slice(packet);
    proof {
        assert(data@ =~= packet@);
    }
    data.push(checksum(packet));
    let mut bytes: Vec<u8> = encode_vec(data.as_slice());
    let ghost body = bytes@;
    bytes.push(0);
    proof {
        assert(bytes@.drop_last() =~= body);
    }
    bytes
}

// ======== Receiving in chunks ========

/// The bytes of an incomplete frame. A frame is complete as soon as its last byte in front of the
/// delimiter has arrived.
#[derive(Debug)]
pub struct ReceiveBuffer {
    contents: Vec<u8>,
    size: usize,
}

/// A decoded frame, filled up with zeros to the size of a packet with its checksum.
pub open spec fn padded(data: Seq<u8>, size: nat) -> Seq<u8> {
    if data.len() < size {
        data + Seq::new((size - data.len()) as nat, |i: int| 0u8)
    } else {
        data
    }
}

/// The packet in a complete frame.
pub open spec fn received(bytes: Seq<u8>) -> Option<Seq<u8>> {
    match cobs_decoded(bytes) {
        Some(data) => checked(padded(data, (bytes.len() - 1) as nat)),
        None => None,
    }
}

/// The contents of a receive buffer after more bytes have arrived, and the packet that they
/// complete.
///
/// A zero byte starts a new frame. It stays at the front of the buffer.
pub open spec fn fed(contents: Seq<u8>, chunk: Seq<u8>, size: nat) -> (Seq<u8>, Option<Seq<u8>>) {
    if chunk.contains(0) {
        (chunk.skip(chunk.index_of_first(0u8).unwrap()), None)
    } else if contents.len() + chunk.len() < size {
        (contents + chunk, None)
    } else {
        (Seq::empty(), received(contents + chunk))
    }
}

impl ReceiveBuffer {
    pub closed spec fn view(&self) -> Seq<u8> {
        self.contents@
    }

    /// How many bytes a frame has in front of its delimiter.
    pub closed spec fn spec_size(&self) -> nat {
        self.size as nat
    }

    pub closed spec fn wf(&self) -> bool {
        &&& self.contents@.len() <= self.size
        &&& 2 <= self.size <= isize::MAX
    }

    /// For packets of the given size: one more byte is for the checksum and one for the stuffing.
    pub fn new(packet_size: usize) -> (b: ReceiveBuffer)
        requires
            packet_size + 2 <= isize::MAX,
        ensures
            b.wf(),
            b@ == Seq::<u8>::empty(),
            b.spec_size() == packet_size + 2,
    {
        ReceiveBuffer { contents: Vec::new(), size: packet_size + 2 }
    }

    /// How many bytes can be read next.
    pub fn room(&self) -> (n: usize)
        requires
            self.wf(),
        ensures
            n == self.spec_size() - self@.len(),
    {
        self.size - self.contents.len()
    }

    /// Takes bytes that were read. Returns the packet that they complete.
    pub fn feed(&mut self, chunk: &[u8]) -> (packet: Option<Vec<u8>>)
        requires
            old(self).wf(),
            old(self)@.len() + chunk@.len() <= old(self).spec_size(),
        ensures
            final(self).wf(),
            final(self).spec_size() == old(self).spec_size(),
            final(self)@ == fed(old(self)@, chunk@, old(self).spec_size()).0,
            match packet {
                Some(p) => fed(old(self)@, chunk@, old(self).spec_size()).1 == Some(p@),
                None => fed(old(self)@, chunk@, old(self).spec_size()).1 is None,
            },
    {
        // Reset on null byte
        if let Some(idx) = first_zero(chunk) {
            let rest: &[u8] = vstd::slice::slice_subrange(chunk, idx, chunk.len());
            let mut contents: Vec<u8> = Vec::new();
            contents.extend_from_slice(rest);
            proof {
                assert(contents@ =~= chunk@.skip(idx as int));
            }
            self.contents = contents;
            return None;
        }
        self.contents.extend_from_slice(chunk);
        let ghost bytes = self.contents@;
        proof {
            assert(bytes =~= old(self)@ + chunk@);
        }
        // Check if the packet is completed
        if self.contents.len() < self.size {
            return None;
        }
        let decoded: Result<Vec<u8>, cobs::DecodeError> = decode_vec(self.contents.as_slice());
        self.contents = Vec::new();
        match decoded {
            Ok(data) => {
                let size: usize = self.size - 1;
                remove_checksum(pad(data, size))
            },
            Err(_) => None,
        }
    }
}

/// The position of the first zero byte.
fn first_zero(data: &[u8]) -> (idx: Option<usize>)
    ensures
        match idx {
            Some(i) => data@.contains(0) && data@.index_of_first(0u8) == Some(i as int)
                && i < data@.len(),
            None => !data@.contains(0),
        },
{
    let mut i: usize = 0;
    while i < data.len()
        invariant
            i <= data@.len(),
            forall|k: int| 0 <= k < i ==> data@[k] != 0,
        decreases data@.len() - i,
    {
        if data[i] == 0 {
            proof {
                assert(data@[i as int] == 0);
                data@.index_of_first_ensures(0u8);
                let f = data@.index_of_first(0u8)->0;
                assert(f == i) by {
                    if f < i {
                        assert(data@[f] != 0);
                    }
                    if i < f {
                        assert(data@.take(f)[i as int] == 0);
                    }
                }
            }
            return Some(i);
        }
        i = i + 1;
    }
    None
}

/// Appends zeros up to the given size.
fn pad(data: Vec<u8>, size: usize) -> (r: Vec<u8>)
    ensures
        r@ == padded(data@, size as nat),
{
    let mut data = data;
    let ghost start = data@;
    while data.len() < size
        invariant
            start.len() <= data@.len(),
            start.len() < size ==> data@.len() <= size,
            start.len() >= size ==> data@ == start,
            data@ == start + Seq::new((data@.len() - start.len()) as nat, |i: int| 0u8),
        decreases size - data@.len(),
    {
        data.push(0);
        proof {
            assert(data@ =~= start + Seq::new((data@.len() - start.len()) as nat, |i: int| 0u8));
        }
    }
    data
}

/// The contents of a receive buffer and the packets that were received, after all the chunks.
pub open spec fn fed_all(contents: Seq<u8>, chunks: Seq<Seq<u8>>, size: nat) -> (
    Seq<u8>,
    Seq<Seq<u8>>,
)
    decreases chunks.len(),
{
    if chunks.len() == 0 {
        (contents, Seq::empty())
    } else {
        let (before, packets) = fed_all(contents, chunks.drop_last(), size);
        let (after, packet) = fed(before, chunks.last(), size);
        (
            after,
            match packet {
                Some(p) => packets.push(p),
                None => packets,
            },
        )
    }
}

/// A frame that arrives at an empty buffer gives the packet back, however it is cut into chunks.
pub proof fn law_frame_received(body: Seq<u8>, packet: Seq<u8>, chunks: Seq<Seq<u8>>)
    requires
        carries_packet(body, packet),
        body.len() == packet.len() + 2,
        chunks.flatten() == body,
    ensures
        fed_all(Seq::empty(), chunks, body.len()) == (Seq::<u8>::empty(), seq![packet]),
{
    assert(body.take(body.len() as int) =~= body);
    lemma_frame_prefix_received(body, packet, chunks);
}

proof fn lemma_frame_prefix_received(body: Seq<u8>, packet: Seq<u8>, chunks: Seq<Seq<u8>>)
    requires
        carries_packet(body, packet),
        body.len() == packet.len() + 2,
        chunks.flatten().len() <= body.len(),
        chunks.flatten() == body.take(chunks.flatten().len() as int),
    ensures
        fed_all(Seq::empty(), chunks, body.len()) == (if chunks.flatten().len() < body.len() {
            (chunks.flatten(), Seq::empty())
        } else {
            (Seq::<u8>::empty(), seq![packet])
        }),
    decreases chunks.len(),
{
    if chunks.len() > 0 {
        let init = chunks.drop_last();
        let last = chunks.last();
        chunks.lemma_flatten_and_flatten_alt_are_equivalent();
        init.lemma_flatten_and_flatten_alt_are_equivalent();
        assert(chunks.flatten() == init.flatten() + last);
        let all = chunks.flatten();
        let n = init.flatten().len() as int;
        assert(init.flatten() =~= body.take(n)) by {
            assert forall|k: int| 0 <= k < n implies init.flatten()[k] == body.take(n)[k] by {
                assert(all[k] == init.flatten()[k]);
                assert(body.take(all.len() as int)[k] == body[k]);
            }
        }
        lemma_frame_prefix_received(body, packet, init);
        assert(!last.contains(0)) by {
            if last.contains(0) {
                let k = choose|k: int| 0 <= k < last.len() && last[k] == 0;
                assert(all[n + k] == 0);
                assert(body.take(all.len() as int)[n + k] == body[n + k]);
                assert(body.contains(0));
            }
        }
        law_checksum_round_trip(packet);
        if n < body.len() {
            if all.len() == body.len() {
                assert(body.take(body.len() as int) =~= body);
                assert(init.flatten() + last =~= body);
                assert(padded(with_checksum(packet), (body.len() - 1) as nat) =~= with_checksum(
                    packet,
                ));
                assert(Seq::<Seq<u8>>::empty().push(packet) =~= seq![packet]);
            }
        } else {
            assert(last =~= Seq::<u8>::empty());
            assert(Seq::<u8>::empty() + last =~= Seq::<u8>::empty());
        }
    } else {
        assert(chunks =~= Seq::<Seq<u8>>::empty());
        assert(chunks.flatten().len() == 0);
        assert(chunks.flatten() =~= Seq::<u8>::empty());
    }
}

// ======== Laws of frames ========

/// The exclusive or of all bytes, from the first to the last.
pub open spec fn parity(data: Seq<u8>) -> u8 {
    data.fold_left(0u8, |sum: u8, byte: u8| sum ^ byte)
}

/// A message is accepted if and only if all its bytes, with the checksum at the end, cancel out. Then
/// the last byte is removed.
pub proof fn law_checksum_is_parity(data: Seq<u8>)
    ensures
        data.len() > 0 && parity(data) == 0 ==> checked(data) == Some(data.drop_last()),
        data.len() > 0 && parity(data) != 0 ==> checked(data) is None,
        data.len() == 0 ==> checked(data) is None,
        with_checksum(data).len() == data.len() + 1,
        with_checksum(data).take(data.len() as int) == data,
        parity(with_checksum(data)) == 0,
{
    lemma_parity(data);
    lemma_parity(with_checksum(data));
    assert(with_checksum(data).drop_last() =~= data);
    assert(with_checksum(data).take(data.len() as int) =~= data);
    let sum = checksum_of(data);
    assert(sum ^ sum == 0) by (bit_vector);
    if data.len() > 0 {
        lemma_parity(data.drop_last());
        let a = checksum_of(data.drop_last());
        let b = data.last();
        assert(a ^ b == 0 <==> a == b) by (bit_vector);
    }
}

proof fn lemma_parity(data: Seq<u8>)
    ensures
        parity(data) == checksum_of(data),
    decreases data.len(),
{
    if data.len() > 0 {
        lemma_parity(data.drop_last());
    }
}

/// A frame that carries a packet holds the bytes of the packet and one more, so that all of them
/// cancel out, and no zero byte.
pub proof fn law_frame_holds_packet(body: Seq<u8>, packet: Seq<u8>)
    requires
        carries_packet(body, packet),
    ensures
        forall|i: int| 0 <= i < body.len() ==> #[trigger] body[i] != 0,
        cobs_decoded(body) is Some,
        ({
            let data = cobs_decoded(body)->0;
            &&& data.len() == packet.len() + 1
            &&& data.take(packet.len() as int) == packet
            &&& parity(data) == 0
        }),
{
    law_checksum_is_parity(packet);
    assert forall|i: int| 0 <= i < body.len() implies #[trigger] body[i] != 0 by {
        assert(body.contains(body[i]));
    }
}

/// What becomes of bytes that are read. With a zero byte among them, the buffer holds them from the
/// first one on, and no packet is complete. Else they are appended, until there are as many as a
/// frame has: then the buffer is empty again.
pub proof fn law_bytes_are_collected(contents: Seq<u8>, chunk: Seq<u8>, size: nat)
    ensures
        ({
            let (after, packet) = fed(contents, chunk, size);
            &&& (exists|i: int| 0 <= i < chunk.len() && chunk[i] == 0) ==> {
                &&& packet is None
                &&& 0 < after.len() <= chunk.len()
                &&& after[0] == 0
                &&& after == chunk.skip(chunk.len() - after.len())
                &&& forall|i: int|
                    0 <= i < chunk.len() - after.len() ==> #[trigger] chunk[i] != 0
            }
            &&& (forall|i: int| 0 <= i < chunk.len() ==> chunk[i] != 0) ==> {
                &&& contents.len() + chunk.len() < size ==> packet is None && after == contents
                    + chunk
                &&& contents.len() + chunk.len() >= size ==> after.len() == 0
            }
        }),
{
    if exists|i: int| 0 <= i < chunk.len() && chunk[i] == 0 {
        let i = choose|i: int| 0 <= i < chunk.len() && chunk[i] == 0;
        assert(chunk.contains(0));
        chunk.index_of_first_ensures(0u8);
        let first = chunk.index_of_first(0u8)->0;
        assert forall|i: int| 0 <= i < first implies #[trigger] chunk[i] != 0 by {
            if chunk[i] == 0 {
                assert(chunk.take(first)[i] == 0);
            }
        }
    }
}

/// The packet of a complete frame: what the frame holds, filled up with zeros to one byte less than
/// the frame has, is checked, and the packet is all of it but the last byte.
pub proof fn law_packet_of_frame(contents: Seq<u8>, chunk: Seq<u8>, size: nat, data: Seq<u8>)
    requires
        forall|i: int| 0 <= i < chunk.len() ==> chunk[i] != 0,
        contents.len() + chunk.len() >= size,
        contents.len() + chunk.len() >= 2,
        cobs_decoded(contents + chunk) == Some(data),
    ensures
        ({
            let packet = fed(contents, chunk, size).1;
            let room = contents.len() + chunk.len() - 1;
            let full = if data.len() < room {
                data + Seq::new((room - data.len()) as nat, |i: int| 0u8)
            } else {
                data
            };
            &&& packet is Some <==> parity(full) == 0
            &&& packet is Some ==> packet->0 == full.drop_last()
        }),
{
    let room = contents.len() + chunk.len() - 1;
    let full = if data.len() < room {
        data + Seq::new((room - data.len()) as nat, |i: int| 0u8)
    } else {
        data
    };
    assert(!chunk.contains(0));
    law_checksum_is_parity(full);
}

} // verus!
