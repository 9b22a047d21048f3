//! Whole radio packets.

use crate::packet::deku_helpers::{resized, FixedSizePacking};
use crate::packet::response::{
    law_response_complete, law_response_data_size, law_response_round_trip, RegularResponseData,
};
use crate::packet::{law_command_data_size, law_command_round_trip, RegularCommandData};
use crate::protocol::bits::UnpackError;
use crate::protocol::deku_helpers::{padded, PackBytes, UnpackBytes};
use crate::protocol::proto2025::datagrams::{
    CommandDatagramType, DatagramTag, ResponseDatagramType,
};
use crate::protocol::proto2025::packet::{
    law_chunk_places, law_chunk_round_trip, law_header_places, law_response_kinds, DatagramPayload,
    PacketHeader, PACKET_SIZE,
};
use vstd::prelude::*;

verus! {

#[derive(Clone, Copy, Debug, PartialEq)]
pub struct RadioPacket<RegularPayload, DatagramType> {
    /// Overflowing packet counter to determine packet loss. 6 bits
    pub counter: u8,
    /// The `seqnum` of the last received datagram packet. 1 bit
    pub acknum: u8,
    // 1 bit tag included here
    pub payload: RadioPacketPayload<RegularPayload, DatagramType>,
}

#[derive(Clone, Copy, Debug, PartialEq)]
pub enum RadioPacketPayload<RegularPayload, DatagramType> {
    Regular(RegularPayload),
    Datagram {
        /// Alternating sequence number. Used to deduplicate packets on the receiving side (Can happen when the ack is lost)
        seqnum: u8,
        /// 7 bits
        datagram_type: DatagramType,
        data: [u8; 27],
    },
}

pub type RadioCommandPacket = RadioPacket<RegularCommandData, CommandDatagramType>;

pub type RadioCommandPayload = RadioPacketPayload<RegularCommandData, CommandDatagramType>;

pub type RadioResponsePacket = RadioPacket<RegularResponseData, ResponseDatagramType>;

pub type RadioResponsePayload = RadioPacketPayload<RegularResponseData, ResponseDatagramType>;

impl FixedSizePacking<29> for RadioCommandPacket {

}

impl FixedSizePacking<29> for RadioResponsePacket {

}

impl<R, D> RadioPacket<R, D> {
    /// The first byte of the packet.
    pub open spec fn header(&self) -> PacketHeader {
        PacketHeader {
            counter: self.counter,
            acknum: self.acknum,
            datagram: self.payload is Datagram,
        }
    }
}

impl<R, D> RadioPacketPayload<R, D> {
    /// The chunk of a datagram packet.
    pub open spec fn chunk(&self) -> DatagramPayload<D> {
        DatagramPayload {
            seqnum: self->seqnum,
            datagram_type: self->datagram_type,
            data: self->data,
        }
    }
}

impl<R: PackBytes, D: DatagramTag> PackBytes for RadioPacket<R, D> {
    open spec fn packable(&self) -> bool {
        &&& self.header().packable()
        &&& match self.payload {
            RadioPacketPayload::Regular(data) => data.packable(),
            RadioPacketPayload::Datagram { .. } => self.payload.chunk().packable(),
        }
    }

    open spec fn bytes(&self) -> Seq<u8> {
        self.header().bytes() + match self.payload {
            RadioPacketPayload::Regular(data) => data.bytes(),
            RadioPacketPayload::Datagram { .. } => self.payload.chunk().bytes(),
        }
    }

    fn to_bytes(&self) -> (bytes: Vec<u8>) {
        match &self.payload {
            RadioPacketPayload::Regular(data) => {
                let header = PacketHeader {
                    counter: self.counter,
                    acknum: self.acknum,
                    datagram: false,
                };
                let mut bytes: Vec<u8> = header.to_bytes();
                let mut rest: Vec<u8> = data.to_bytes();
                bytes.append(&mut rest);
                bytes
            },
            RadioPacketPayload::Datagram { seqnum, datagram_type, data } => {
                let header = PacketHeader {
                    counter: self.counter,
                    acknum: self.acknum,
                    datagram: true,
                };
                let mut bytes: Vec<u8> = header.to_bytes();
                let chunk = DatagramPayload {
                    seqnum: *seqnum,
                    datagram_type: *datagram_type,
                    data: *data,
                };
                let mut rest: Vec<u8> = chunk.to_bytes();
                bytes.append(&mut rest);
                bytes
            },
        }
    }
}

impl<R: UnpackBytes, D: DatagramTag> UnpackBytes for RadioPacket<R, D> {
    open spec fn unpack_error(bytes: Seq<u8>) -> Option<UnpackError> {
        if bytes.len() == 0 {
            Some(UnpackError::Incomplete { bits: 6 })
        } else if PacketHeader::of_byte(bytes[0]).datagram {
            DatagramPayload::<D>::unpack_error(bytes.skip(1))
        } else {
            R::unpack_error(bytes.skip(1))
        }
    }

    open spec fn unpacked(&self, bytes: Seq<u8>) -> bool {
        &&& self.header() == PacketHeader::of_byte(bytes[0])
        &&& match self.payload {
            RadioPacketPayload::Regular(data) => data.unpacked(bytes.skip(1)),
            RadioPacketPayload::Datagram { .. } => self.payload.chunk().unpacked(bytes.skip(1)),
        }
    }

    fn from_bytes(bytes: &[u8]) -> (r: Result<Self, UnpackError>) {
        let header: PacketHeader = match PacketHeader::from_bytes(bytes) {
            Ok(header) => header,
            Err(e) => return Err(e),
        };
        let rest: &[u8] = vstd::slice::slice_subrange(bytes, 1, bytes.len());
        proof {
            assert(rest@ =~= bytes@.skip(1));
        }
        if header.datagram {
            match DatagramPayload::<D>::from_bytes(rest) {
                Ok(p) => Ok(
                    RadioPacket {
                        counter: header.counter,
                        acknum: header.acknum,
                        payload: RadioPacketPayload::Datagram {
                            seqnum: p.seqnum,
                            datagram_type: p.datagram_type,
                            data: p.data,
                        },
                    },
                ),
                Err(e) => Err(e),
            }
        } else {
            match R::from_bytes(rest) {
                Ok(data) => Ok(
                    RadioPacket {
                        counter: header.counter,
                        acknum: header.acknum,
                        payload: RadioPacketPayload::Regular(data),
                    },
                ),
                Err(e) => Err(e),
            }
        }
    }
}

// ======== Laws ========

/// A command packet never exceeds the packet size.
pub proof fn law_command_packet_size(p: RadioCommandPacket)
    requires
        p.packable(),
    ensures
        p.bytes().len() <= PACKET_SIZE,
        resized(p.bytes(), PACKET_SIZE as nat) == padded(p.bytes(), PACKET_SIZE as nat),
{
    match p.payload {
        RadioPacketPayload::Regular(data) => law_command_data_size(data),
        RadioPacketPayload::Datagram { .. } => {},
    }
}

/// A response packet always has the packet size.
pub proof fn law_response_packet_size(p: RadioResponsePacket)
    requires
        p.packable(),
    ensures
        p.bytes().len() == PACKET_SIZE,
{
    match p.payload {
        RadioPacketPayload::Regular(data) => law_response_data_size(data),
        RadioPacketPayload::Datagram { .. } => {},
    }
}

/// What is read from a packed command packet is the packet that was sent.
pub proof fn law_command_packet_round_trip(
    p: RadioCommandPacket,
    rest: Seq<u8>,
    read: RadioCommandPacket,
)
    requires
        p.packable(),
        read.unpacked(p.bytes() + rest),
    ensures
        RadioCommandPacket::unpack_error(p.bytes() + rest) is None,
        read == (RadioPacket {
            payload: match p.payload {
                RadioPacketPayload::Regular(data) => RadioPacketPayload::Regular(
                    data.sent().clamped(),
                ),
                other => other,
            },
            ..p
        }),
{
    let all = p.bytes() + rest;
    match (p.payload, read.payload) {
        (RadioPacketPayload::Regular(data), RadioPacketPayload::Regular(got)) => {
            assert(all.skip(1) =~= data.bytes() + rest);
            law_command_round_trip(data, rest, got);
        },
        (RadioPacketPayload::Datagram { .. }, RadioPacketPayload::Datagram { .. }) => {
            assert(all.skip(1) =~= p.payload.chunk().bytes() + rest);
            law_chunk_round_trip(p.payload.chunk(), rest, read.payload.chunk());
        },
        _ => {},
    }
}

/// What is read from a packed response packet is the packet that was sent, with the codes moved
/// into their ranges.
pub proof fn law_response_packet_round_trip(
    p: RadioResponsePacket,
    rest: Seq<u8>,
    read: RadioResponsePacket,
)
    requires
        p.packable(),
        read.unpacked(p.bytes() + rest),
    ensures
        RadioResponsePacket::unpack_error(p.bytes() + rest) is None,
        read == (RadioPacket {
            payload: match p.payload {
                RadioPacketPayload::Regular(data) => RadioPacketPayload::Regular(data.clamped()),
                other => other,
            },
            ..p
        }),
{
    let all = p.bytes() + rest;
    match (p.payload, read.payload) {
        (RadioPacketPayload::Regular(data), RadioPacketPayload::Regular(got)) => {
            assert(all.skip(1) =~= data.bytes() + rest);
            law_response_round_trip(data, rest, got);
        },
        (RadioPacketPayload::Datagram { .. }, RadioPacketPayload::Datagram { .. }) => {
            assert(all.skip(1) =~= p.payload.chunk().bytes() + rest);
            law_chunk_round_trip(p.payload.chunk(), rest, read.payload.chunk());
        },
        _ => {},
    }
}

// ======== Places ========

/// The bytes of a packet: the first one holds the counter in 6 bits, the acknowledged number in the
/// next bit, and the highest bit tells a datagram. The regular data follow, or a byte with the
/// sequence number in its lowest bit and the number of the kind, and 27 bytes of data.
pub proof fn law_packet_places<R: PackBytes, D: DatagramTag>(p: RadioPacket<R, D>)
    requires
        p.packable(),
    ensures
        p.bytes().len() >= 1,
        p.counter < 64 && p.bytes()[0] % 64 == p.counter,
        p.acknum < 2 && (p.bytes()[0] / 64) % 2 == p.acknum,
        p.bytes()[0] >= 128 <==> p.payload is Datagram,
        match p.payload {
            RadioPacketPayload::Regular(data) => p.bytes().skip(1) == data.bytes(),
            RadioPacketPayload::Datagram { seqnum, datagram_type, data } => {
                &&& p.bytes().len() == 29
                &&& p.bytes()[1] % 2 == seqnum
                &&& p.bytes()[1] / 2 == datagram_type.id()
                &&& p.bytes().skip(2) == data@
            },
        },
{
    law_header_places(p.header(), Seq::empty());
    match p.payload {
        RadioPacketPayload::Regular(data) => {
            assert(p.bytes().skip(1) =~= data.bytes());
        },
        RadioPacketPayload::Datagram { data, .. } => {
            law_chunk_places(p.payload.chunk(), Seq::empty());
            assert(p.bytes().skip(1) =~= p.payload.chunk().bytes());
            assert(p.bytes()[1] == p.payload.chunk().bytes()[0]);
            assert(p.bytes().skip(2) =~= data@) by {
                assert forall|i: int| 0 <= i < 27 implies p.bytes().skip(2)[i] == data@[i] by {
                    assert(p.bytes().skip(2)[i] == p.payload.chunk().bytes()[1 + i]);
                }
            }
        },
    }
}

/// The bytes from which a packet was read.
pub proof fn law_packet_read_places<R: UnpackBytes, D: DatagramTag>(
    p: RadioPacket<R, D>,
    bytes: Seq<u8>,
)
    requires
        RadioPacket::<R, D>::unpack_error(bytes) is None,
        p.unpacked(bytes),
    ensures
        bytes.len() >= 1,
        p.counter == bytes[0] % 64,
        p.acknum == (bytes[0] / 64) % 2,
        p.payload is Datagram <==> bytes[0] >= 128,
        match p.payload {
            RadioPacketPayload::Regular(data) => {
                &&& R::unpack_error(bytes.skip(1)) is None
                &&& data.unpacked(bytes.skip(1))
            },
            RadioPacketPayload::Datagram { seqnum, datagram_type, data } => {
                &&& bytes.len() >= 29
                &&& seqnum == bytes[1] % 2
                &&& Some(datagram_type) == D::of_id(bytes[1] / 2)
                &&& data@ == bytes.subrange(2, 29)
            },
        },
{
    law_header_places(p.header(), bytes);
    if let RadioPacketPayload::Datagram { data, .. } = p.payload {
        let rest = bytes.skip(1);
        law_chunk_places(p.payload.chunk(), rest);
        assert(rest[0] == bytes[1]);
        assert(data@ =~= bytes.subrange(2, 29)) by {
            assert forall|i: int| 0 <= i < 27 implies data@[i] == bytes.subrange(2, 29)[i] by {
                assert(rest[1 + i] == bytes[2 + i]);
            }
        }
    }
}

/// A packed packet is filled up with zeros to the size of all packets.
pub proof fn law_packet_padding(p: RadioCommandPacket)
    requires
        p.packable(),
    ensures
        resized(p.bytes(), PACKET_SIZE as nat).len() == 29,
        forall|i: int|
            0 <= i < 29 ==> #[trigger] resized(p.bytes(), PACKET_SIZE as nat)[i] == (if i
                < p.bytes().len() {
                p.bytes()[i]
            } else {
                0
            }),
{
    law_command_packet_size(p);
}

/// Which bytes are taken for a response packet: 29 of them, with regular data, or with a chunk of a
/// known kind.
pub proof fn law_accepted_responses(bytes: Seq<u8>)
    ensures
        RadioResponsePacket::unpack_error(bytes) is None <==> {
            &&& bytes.len() >= 29
            &&& bytes[0] >= 128 ==> bytes[1] / 2 <= 2
        },
{
    if bytes.len() > 0 {
        let rest = bytes.skip(1);
        law_header_places(PacketHeader::of_byte(bytes[0]), bytes);
        let data: RegularResponseData = vstd::pervasive::arbitrary();
        law_response_complete(data, rest);
        let chunk: DatagramPayload<ResponseDatagramType> = vstd::pervasive::arbitrary();
        law_chunk_places(chunk, rest);
        if bytes.len() > 1 {
            assert(rest[0] == bytes[1]);
            law_response_kinds(ResponseDatagramType::Echo, bytes[1] / 2);
        }
    }
}

} // verus!
