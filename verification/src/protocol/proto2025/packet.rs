//! The parts of a packet: one byte of header, then a regular payload or a chunk of a datagram.

use crate::protocol::bits::UnpackError;
use crate::protocol::deku_helpers::{DekuPackedSize, PackBytes, UnpackBytes};
use crate::protocol::proto2025::datagrams::{
    CommandDatagramType, DatagramTag, ResponseDatagramType,
};
use vstd::prelude::*;

pub use crate::packet::response::RegularResponseData as RegularResponsePayload;
pub use crate::packet::RegularCommandData as RegularCommandPayload;

verus! {

/// Size of every packet.
pub const PACKET_SIZE: usize = 29;

/// Size of a packet without its header.
pub const PAYLOAD_SIZE: usize = 28;

/// Number of bytes of a datagram that fit into one packet.
pub const DATAGRAM_CHUNK_SIZE: usize = 27;

/// The first byte of a packet.
#[derive(Clone, Copy, Debug, PartialEq, Eq, Structural)]
pub struct PacketHeader {
    /// Overflowing packet counter to determine packet loss. 6 bits
    pub counter: u8,
    /// The `seqnum` of the last received datagram packet. 1 bit
    pub acknum: u8,
    /// Whether the payload is a part of a datagram.
    pub datagram: bool,
}

impl PacketHeader {
    /// Counter in the lowest 6 bits, then the acknum, then the datagram flag.
    pub open spec fn byte(&self) -> u8 {
        (self.counter + 64 * self.acknum + (if self.datagram { 128int } else { 0int })) as u8
    }

    /// The header that a byte holds.
    pub open spec fn of_byte(b: u8) -> PacketHeader {
        PacketHeader { counter: b % 64, acknum: (b / 64) % 2, datagram: b / 128 == 1 }
    }
}

impl DekuPackedSize<1> for PacketHeader {

}

impl PackBytes for PacketHeader {
    open spec fn packable(&self) -> bool {
        self.counter < 64 && self.acknum < 2
    }

    open spec fn bytes(&self) -> Seq<u8> {
        seq![self.byte()]
    }

    fn to_bytes(&self) -> (bytes: Vec<u8>) {
        let b: u8 = self.counter + 64 * self.acknum + if self.datagram { 128 } else { 0 };
        let mut bytes: Vec<u8> = Vec::new();
        bytes.push(b);
        bytes
    }
}

impl UnpackBytes for PacketHeader {
    open spec fn unpack_error(bytes: Seq<u8>) -> Option<UnpackError> {
        if bytes.len() == 0 {
            Some(UnpackError::Incomplete { bits: 6 })
        } else {
            None
        }
    }

    open spec fn unpacked(&self, bytes: Seq<u8>) -> bool {
        *self == Self::of_byte(bytes[0])
    }

    fn from_bytes(bytes: &[u8]) -> (r: Result<Self, UnpackError>) {
        if bytes.len() == 0 {
            return Err(UnpackError::Incomplete { bits: 6 });
        }
        let b: u8 = bytes[0];
        Ok(PacketHeader { counter: b % 64, acknum: (b / 64) % 2, datagram: b / 128 == 1 })
    }
}

/// A chunk of a datagram.
#[derive(Clone, Copy, Debug, PartialEq, Eq)]
pub struct DatagramPayload<T> {
    /// Alternating sequence number. Used to deduplicate packets on the receiving side (can happen
    /// when the ack is lost). 1 bit
    pub seqnum: u8,
    /// 7 bits
    pub datagram_type: T,
    pub data: [u8; 27],
}

impl<T: DatagramTag> DekuPackedSize<28> for DatagramPayload<T> {

}

impl<T: DatagramTag> PackBytes for DatagramPayload<T> {
    open spec fn packable(&self) -> bool {
        self.seqnum < 2
    }

    open spec fn bytes(&self) -> Seq<u8> {
        seq![(self.seqnum + 2 * self.datagram_type.id()) as u8] + self.data@
    }

    fn to_bytes(&self) -> (bytes: Vec<u8>) {
        let id: u8 = self.datagram_type.to_id();
        proof {
            self.datagram_type.law_id();
        }
        let mut bytes: Vec<u8> = Vec::new();
        bytes.push(self.seqnum + 2 * id);
        bytes.extend_from_slice(&self.data);
        proof {
            assert(bytes@ =~= self.bytes());
        }
        bytes
    }
}

impl<T: DatagramTag> UnpackBytes for DatagramPayload<T> {
    open spec fn unpack_error(bytes: Seq<u8>) -> Option<UnpackError> {
        if bytes.len() == 0 {
            Some(UnpackError::Incomplete { bits: 1 })
        } else if T::of_id(bytes[0] / 2) is None {
            Some(UnpackError::UnknownTag { tag: bytes[0] / 2 })
        } else if bytes.len() < PAYLOAD_SIZE {
            Some(UnpackError::Incomplete { bits: 8 })
        } else {
            None
        }
    }

    open spec fn unpacked(&self, bytes: Seq<u8>) -> bool {
        &&& self.seqnum == bytes[0] % 2
        &&& T::of_id(bytes[0] / 2) == Some(self.datagram_type)
        &&& self.data@ == bytes.subrange(1, 28)
    }

    fn from_bytes(bytes: &[u8]) -> (r: Result<Self, UnpackError>) {
        if bytes.len() == 0 {
            return Err(UnpackError::Incomplete { bits: 1 });
        }
        let seqnum: u8 = bytes[0] % 2;
        let id: u8 = bytes[0] / 2;
        let datagram_type: T = match T::from_id(id) {
            Some(t) => t,
            None => return Err(UnpackError::UnknownTag { tag: id }),
        };
        if bytes.len() < PAYLOAD_SIZE {
            return Err(UnpackError::Incomplete { bits: 8 });
        }
        let mut data: [u8; 27] = [0u8; 27];
        let mut i: usize = 0;
        while i < 27
            invariant
                i <= 27,
                28 <= bytes@.len(),
                forall|k: int| 0 <= k < i ==> data@[k] == bytes@[k + 1],
            decreases 27 - i,
        {
            data[i] = bytes[i + 1];
            i = i + 1;
        }
        proof {
            assert(data@ =~= bytes@.subrange(1, 28));
        }
        Ok(DatagramPayload { seqnum, datagram_type, data })
    }
}

/// A header survives being packed and unpacked, whatever follows it.
pub proof fn law_header_round_trip(h: PacketHeader, rest: Seq<u8>, read: PacketHeader)
    requires
        h.packable(),
        read.unpacked(h.bytes() + rest),
    ensures
        PacketHeader::unpack_error(h.bytes() + rest) is None,
        read == h,
{
}

/// A chunk survives being packed and unpacked, whatever follows it.
pub proof fn law_chunk_round_trip<T: DatagramTag>(
    p: DatagramPayload<T>,
    rest: Seq<u8>,
    read: DatagramPayload<T>,
)
    requires
        p.packable(),
        read.unpacked(p.bytes() + rest),
    ensures
        DatagramPayload::<T>::unpack_error(p.bytes() + rest) is None,
        read == p,
{
    let all = p.bytes() + rest;
    p.datagram_type.law_id();
    assert(all.subrange(1, 28) =~= p.data@);
    assert forall|i: int| 0 <= i < 27 implies read.data[i] == p.data[i] by {
        assert(read.data@[i] == p.data@[i]);
    }
    assert(read.data =~= p.data);
}

// ======== Places ========

/// The bits of a header: the counter in the lowest 6 bits, then the acknowledged number, then whether
/// a datagram follows. This holds of a header that is packed and of one that is read.
pub proof fn law_header_places(h: PacketHeader, bytes: Seq<u8>)
    ensures
        h.packable() <==> h.counter < 64 && h.acknum <= 1,
        h.packable() ==> {
            &&& h.bytes().len() == 1
            &&& h.bytes()[0] % 64 == h.counter
            &&& (h.bytes()[0] / 64) % 2 == h.acknum
            &&& h.bytes()[0] >= 128 <==> h.datagram
        },
        PacketHeader::unpack_error(bytes) is None <==> bytes.len() >= 1,
        bytes.len() >= 1 && h.unpacked(bytes) ==> {
            &&& h.counter == bytes[0] % 64
            &&& h.acknum == (bytes[0] / 64) % 2
            &&& h.datagram <==> bytes[0] >= 128
            &&& h.packable()
        },
        bytes.len() >= 1 ==> {
            let read = PacketHeader::of_byte(bytes[0]);
            &&& read.counter == bytes[0] % 64
            &&& read.acknum == (bytes[0] / 64) % 2
            &&& read.datagram <==> bytes[0] >= 128
        },
{
}

/// The bits of a chunk: the sequence number in the lowest bit of the first byte, then the number of
/// the kind, then 27 bytes of data. This holds of a chunk that is packed and of one that is read.
pub proof fn law_chunk_places<T: DatagramTag>(p: DatagramPayload<T>, bytes: Seq<u8>)
    ensures
        p.packable() <==> p.seqnum <= 1,
        p.packable() ==> {
            &&& p.bytes().len() == 28
            &&& p.bytes()[0] % 2 == p.seqnum
            &&& p.bytes()[0] / 2 == p.datagram_type.id()
            &&& forall|i: int| 0 <= i < 27 ==> p.bytes()[1 + i] == #[trigger] p.data@[i]
        },
        DatagramPayload::<T>::unpack_error(bytes) is None <==> {
            &&& bytes.len() >= 28
            &&& T::of_id(bytes[0] / 2) is Some
        },
        bytes.len() >= 28 && p.unpacked(bytes) ==> {
            &&& p.seqnum == bytes[0] % 2
            &&& Some(p.datagram_type) == T::of_id(bytes[0] / 2)
            &&& forall|i: int| 0 <= i < 27 ==> bytes[1 + i] == #[trigger] p.data@[i]
        },
{
    p.datagram_type.law_id();
    if bytes.len() >= 28 && p.unpacked(bytes) {
        assert forall|i: int| 0 <= i < 27 implies bytes[1 + i] == #[trigger] p.data@[i] by {
            assert(bytes.subrange(1, 28)[i] == bytes[1 + i]);
        }
    }
}

/// The numbers of the kinds of datagrams that the robot is sent.
pub proof fn law_command_kinds(t: CommandDatagramType, id: u8)
    ensures
        t.id() == id <==> match t {
            CommandDatagramType::Echo => id == 0,
            CommandDatagramType::ReadRobotId => id == 1,
            CommandDatagramType::ReadBoardIds => id == 2,
            CommandDatagramType::ToggleKickCalibration => id == 3,
            CommandDatagramType::WriteKickCalibration => id == 4,
        },
        CommandDatagramType::of_id(id) == Some(t) <==> t.id() == id,
        CommandDatagramType::of_id(id) is Some <==> id <= 4,
{
}

/// The numbers of the kinds of datagrams that the robot sends.
pub proof fn law_response_kinds(t: ResponseDatagramType, id: u8)
    ensures
        t.id() == id <==> match t {
            ResponseDatagramType::Echo => id == 0,
            ResponseDatagramType::RobotId => id == 1,
            ResponseDatagramType::BoardIds => id == 2,
        },
        ResponseDatagramType::of_id(id) == Some(t) <==> t.id() == id,
        ResponseDatagramType::of_id(id) is Some <==> id <= 2,
{
}

/// Why bytes are refused: an input without a header ends inside its counter, one without a chunk
/// inside the sequence number, an unknown kind of datagram is named, and all other chunks that are
/// too short end inside a byte of their data.
pub proof fn law_refused_bytes<T: DatagramTag>(bytes: Seq<u8>)
    ensures
        bytes.len() == 0 ==> PacketHeader::unpack_error(bytes) == Some(
            UnpackError::Incomplete { bits: 6 },
        ),
        bytes.len() == 0 ==> DatagramPayload::<T>::unpack_error(bytes) == Some(
            UnpackError::Incomplete { bits: 1 },
        ),
        bytes.len() > 0 && T::of_id(bytes[0] / 2) is None ==> DatagramPayload::<T>::unpack_error(
            bytes,
        ) == Some(UnpackError::UnknownTag { tag: bytes[0] / 2 }),
        0 < bytes.len() < 28 && T::of_id(bytes[0] / 2) is Some ==> DatagramPayload::<
            T,
        >::unpack_error(bytes) == Some(UnpackError::Incomplete { bits: 8 }),
{
}

} // verus!
