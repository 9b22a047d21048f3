//! Datagrams: messages that are too large or too rare for the regular packets.

use crate::protocol::bits::{
    bits_of_bytes, bytes_of_bits, decode, encode, first_missing, law_fields_round_trip, layout_ok,
    lemma_decodes, lemma_encode, lemma_field_bound, lemma_first_missing, offset, read_fields, values_fit, write_fields, UnpackError,
};
use crate::protocol::deku_helpers::{
    DekuPackedSize, PackBytes, PacketPacking, UnpackBytes,
};
use crate::protocol::wire::{digits_at, holds_number, lemma_field_digits};
use vstd::arithmetic::power2::lemma2_to64;
use vstd::prelude::*;

verus! {

/// Size of a packed [EchoDatagram].
pub const ECHO_SIZE: usize = 100;

/// Size of a packed [BoardIdsResponseDatagram].
pub const BOARD_IDS_SIZE: usize = 84;

/// Size of a packed [WriteKickCalibrationCommandDatagram].
pub const KICK_CALIBRATION_SIZE: usize = 55;

// ======== Data ========

#[derive(Clone, Copy, Debug, PartialEq)]
pub struct EchoDatagram {
    pub data: [u8; 100],
}

/// Hardware ids of the boards of a robot.
#[derive(Clone, Copy, Debug, PartialEq)]
pub struct BoardIdsResponseDatagram {
    pub main: [u32; 3],
    pub kicker: [u32; 3],
    pub dribbler: [u32; 3],
    pub motor_fl: [u32; 3],
    pub motor_fr: [u32; 3],
    pub motor_bl: [u32; 3],
    pub motor_br: [u32; 3],
}

/// Coefficients for the kicker. The numbers are single precision floats, given by their bits.
#[derive(Clone, Copy, Debug, PartialEq)]
pub struct WriteKickCalibrationCommandDatagram {
    /// rfc3339-formatted local datetime, rounded to seconds
    /// (Example: 1979-05-27T07:32:00)
    pub datetime_str: [u8; 19],
    pub kicker_id: [u32; 3],
    pub linear: [u32; 3],
    pub chip: [u32; 3],
}

impl DekuPackedSize<100> for EchoDatagram {

}

impl DekuPackedSize<84> for BoardIdsResponseDatagram {

}

impl DekuPackedSize<55> for WriteKickCalibrationCommandDatagram {

}

impl PackBytes for EchoDatagram {
    open spec fn packable(&self) -> bool {
        true
    }

    open spec fn bytes(&self) -> Seq<u8> {
        self.data@
    }

    fn to_bytes(&self) -> (bytes: Vec<u8>) {
        let mut bytes: Vec<u8> = Vec::new();
        bytes.extend_from_slice(&self.data);
        proof {
            assert(bytes@ =~= self.data@);
        }
        bytes
    }
}

impl UnpackBytes for EchoDatagram {
    open spec fn unpack_error(bytes: Seq<u8>) -> Option<UnpackError> {
        if bytes.len() < ECHO_SIZE {
            Some(UnpackError::Incomplete { bits: 8 })
        } else {
            None
        }
    }

    open spec fn unpacked(&self, bytes: Seq<u8>) -> bool {
        self.data@ == bytes.take(ECHO_SIZE as int)
    }

    fn from_bytes(bytes: &[u8]) -> (r: Result<Self, UnpackError>) {
        if bytes.len() < ECHO_SIZE {
            return Err(UnpackError::Incomplete { bits: 8 });
        }
        let mut data: [u8; 100] = [0u8; 100];
        let mut i: usize = 0;
        while i < 100
            invariant
                i <= 100 <= bytes@.len(),
                forall|k: int| 0 <= k < i ==> data@[k] == bytes@[k],
            decreases 100 - i,
        {
            data[i] = bytes[i];
            i = i + 1;
        }
        proof {
            assert(data@ =~= bytes@.take(100));
        }
        Ok(EchoDatagram { data })
    }
}

/// `n` fields of `width` bits.
pub open spec fn uniform_layout(n: nat, width: usize) -> Seq<usize> {
    Seq::new(n, |i: int| width)
}

impl BoardIdsResponseDatagram {
    /// All ids, in the order in which they are sent.
    pub open spec fn words(&self) -> Seq<u32> {
        self.main@ + self.kicker@ + self.dribbler@ + self.motor_fl@ + self.motor_fr@
            + self.motor_bl@ + self.motor_br@
    }
}

impl PackBytes for BoardIdsResponseDatagram {
    open spec fn packable(&self) -> bool {
        true
    }

    open spec fn bytes(&self) -> Seq<u8> {
        bytes_of_bits(encode(self.words(), uniform_layout(21, 32)))
    }

    fn to_bytes(&self) -> (bytes: Vec<u8>) {
        let mut words: Vec<u32> = Vec::new();
        words.extend_from_slice(&self.main);
        words.extend_from_slice(&self.kicker);
        words.extend_from_slice(&self.dribbler);
        words.extend_from_slice(&self.motor_fl);
        words.extend_from_slice(&self.motor_fr);
        words.extend_from_slice(&self.motor_bl);
        words.extend_from_slice(&self.motor_br);
        let layout: Vec<usize> = vec![32usize; 21];
        proof {
            assert(words@ =~= self.words());
            assert(layout@ =~= uniform_layout(21, 32));
        }
        write_fields(&words, &layout)
    }
}

/// The three words of `words` that start at `from`.
fn three_words(words: &Vec<u32>, from: usize) -> (out: [u32; 3])
    requires
        from + 3 <= words@.len(),
    ensures
        out@ == words@.subrange(from as int, from + 3),
{
    assert(words.len() == words@.len());
    let out: [u32; 3] = [words[from], words[from + 1], words[from + 2]];
    proof {
        assert(out@ =~= words@.subrange(from as int, from + 3));
    }
    out
}

impl UnpackBytes for BoardIdsResponseDatagram {
    open spec fn unpack_error(bytes: Seq<u8>) -> Option<UnpackError> {
        match decode(bits_of_bytes(bytes), uniform_layout(21, 32)) {
            Ok(_) => None,
            Err(e) => Some(e),
        }
    }

    open spec fn unpacked(&self, bytes: Seq<u8>) -> bool {
        decode(bits_of_bytes(bytes), uniform_layout(21, 32)) == Ok::<Seq<u32>, UnpackError>(
            self.words(),
        )
    }

    fn from_bytes(bytes: &[u8]) -> (r: Result<Self, UnpackError>) {
        let layout: Vec<usize> = vec![32usize; 21];
        proof {
            assert(layout@ =~= uniform_layout(21, 32));
        }
        let words: Vec<u32> = match read_fields(bytes, &layout) {
            Ok(words) => words,
            Err(e) => return Err(e),
        };
        let v = BoardIdsResponseDatagram {
            main: three_words(&words, 0),
            kicker: three_words(&words, 3),
            dribbler: three_words(&words, 6),
            motor_fl: three_words(&words, 9),
            motor_fr: three_words(&words, 12),
            motor_bl: three_words(&words, 15),
            motor_br: three_words(&words, 18),
        };
        proof {
            assert(v.words() =~= words@);
        }
        Ok(v)
    }
}

impl WriteKickCalibrationCommandDatagram {
    /// The widths of the parts: 19 bytes, then 9 words.
    pub open spec fn layout() -> Seq<usize> {
        uniform_layout(19, 8) + uniform_layout(9, 32)
    }

    /// All parts, in the order in which they are sent.
    pub open spec fn fields(&self) -> Seq<u32> {
        Seq::new(19, |i: int| self.datetime_str@[i] as u32) + self.kicker_id@ + self.linear@
            + self.chip@
    }

    fn layout_vec() -> (layout: Vec<usize>)
        ensures
            layout@ == Self::layout(),
            layout_ok(layout@),
    {
        let mut layout: Vec<usize> = vec![8usize; 19];
        let words: Vec<usize> = vec![32usize; 9];
        layout.extend_from_slice(words.as_slice());
        proof {
            assert(layout@ =~= Self::layout());
        }
        layout
    }
}

impl PackBytes for WriteKickCalibrationCommandDatagram {
    open spec fn packable(&self) -> bool {
        true
    }

    open spec fn bytes(&self) -> Seq<u8> {
        bytes_of_bits(encode(self.fields(), Self::layout()))
    }

    fn to_bytes(&self) -> (bytes: Vec<u8>) {
        let mut fields: Vec<u32> = Vec::new();
        let mut i: usize = 0;
        while i < 19
            invariant
                i <= 19,
                fields@ == Seq::new(i as nat, |k: int| self.datetime_str@[k] as u32),
            decreases 19 - i,
        {
            fields.push(self.datetime_str[i] as u32);
            i = i + 1;
            proof {
                assert(fields@ =~= Seq::new(i as nat, |k: int| self.datetime_str@[k] as u32));
            }
        }
        fields.extend_from_slice(&self.kicker_id);
        fields.extend_from_slice(&self.linear);
        fields.extend_from_slice(&self.chip);
        proof {
            assert(fields@ =~= self.fields());
        }
        let layout: Vec<usize> = Self::layout_vec();
        write_fields(&fields, &layout)
    }
}

impl UnpackBytes for WriteKickCalibrationCommandDatagram {
    open spec fn unpack_error(bytes: Seq<u8>) -> Option<UnpackError> {
        match decode(bits_of_bytes(bytes), Self::layout()) {
            Ok(_) => None,
            Err(e) => Some(e),
        }
    }

    open spec fn unpacked(&self, bytes: Seq<u8>) -> bool {
        decode(bits_of_bytes(bytes), Self::layout()) == Ok::<Seq<u32>, UnpackError>(self.fields())
    }

    fn from_bytes(bytes: &[u8]) -> (r: Result<Self, UnpackError>) {
        let layout: Vec<usize> = Self::layout_vec();
        let fields: Vec<u32> = match read_fields(bytes, &layout) {
            Ok(fields) => fields,
            Err(e) => return Err(e),
        };
        let mut datetime_str: [u8; 19] = [0u8; 19];
        let mut i: usize = 0;
        while i < 19
            invariant
                i <= 19,
                fields@.len() == 28,
                decode(bits_of_bytes(bytes@), Self::layout()) == Ok::<Seq<u32>, UnpackError>(
                    fields@,
                ),
                forall|k: int| 0 <= k < i ==> datetime_str@[k] == #[trigger] fields@[k],
            decreases 19 - i,
        {
            proof {
                lemma_byte_field(bits_of_bytes(bytes@), Self::layout(), i as int);
            }
            datetime_str[i] = fields[i] as u8;
            i = i + 1;
        }
        let v = WriteKickCalibrationCommandDatagram {
            datetime_str,
            kicker_id: three_words(&fields, 19),
            linear: three_words(&fields, 22),
            chip: three_words(&fields, 25),
        };
        proof {
            assert(v.fields() =~= fields@);
        }
        Ok(v)
    }
}

/// A field of 8 bits holds a byte.
proof fn lemma_byte_field(bits: Seq<bool>, layout: Seq<usize>, i: int)
    requires
        0 <= i < layout.len(),
        layout[i] == 8,
        decode(bits, layout) is Ok,
    ensures
        decode(bits, layout)->Ok_0[i] < 256,
{
    lemma_field_bound(bits, layout, i);
    lemma2_to64();
}

proof fn lemma_uniform_offset(n: nat, width: usize, i: int)
    requires
        0 <= i <= n,
    ensures
        offset(uniform_layout(n, width), i) == i * width,
    decreases i,
{
    if i > 0 {
        lemma_uniform_offset(n, width, i - 1);
        assert((i - 1) * width + width == i * width) by (nonlinear_arith);
    }
}

// ======== Structure - Command ========

/// The kinds of datagrams of one direction.
pub trait DatagramTag: Sized + Copy {
    /// The number that stands for this kind in a packet.
    spec fn id(&self) -> u8;

    /// The kind that a number stands for.
    spec fn of_id(id: u8) -> Option<Self>;

    /// Every kind has a number of 7 bits of its own.
    proof fn law_id(&self)
        ensures
            self.id() < 128,
            Self::of_id(self.id()) == Some(*self),
    ;

    fn to_id(&self) -> (id: u8)
        ensures
            id == self.id(),
    ;

    fn from_id(id: u8) -> (tag: Option<Self>)
        ensures
            tag == Self::of_id(id),
            tag matches Some(t) ==> t.id() == id,
    ;
}

#[derive(Clone, Copy, Debug, PartialEq, Eq, Structural)]
pub enum CommandDatagramType {
    Echo,
    ReadRobotId,
    ReadBoardIds,
    ToggleKickCalibration,
    WriteKickCalibration,
}

impl CommandDatagramType {
    /// The size of a datagram of this kind.
    pub open spec fn size(&self) -> nat {
        match self {
            CommandDatagramType::Echo => 100,
            CommandDatagramType::ReadRobotId => 0,
            CommandDatagramType::ReadBoardIds => 0,
            CommandDatagramType::ToggleKickCalibration => 1,
            CommandDatagramType::WriteKickCalibration => 55,
        }
    }

    pub fn get_datagram_size(&self) -> (size: usize)
        ensures
            size == self.size(),
    {
        match self {
            CommandDatagramType::Echo => <EchoDatagram as PacketPacking<100>>::packed_size(),
            CommandDatagramType::ReadRobotId => 0,
            CommandDatagramType::ReadBoardIds => 0,
            CommandDatagramType::ToggleKickCalibration => 1,
            CommandDatagramType::WriteKickCalibration => {
                <WriteKickCalibrationCommandDatagram as PacketPacking<55>>::packed_size()
            },
        }
    }
}

impl DatagramTag for CommandDatagramType {
    open spec fn id(&self) -> u8 {
        match self {
            CommandDatagramType::Echo => 0,
            CommandDatagramType::ReadRobotId => 1,
            CommandDatagramType::ReadBoardIds => 2,
            CommandDatagramType::ToggleKickCalibration => 3,
            CommandDatagramType::WriteKickCalibration => 4,
        }
    }

    open spec fn of_id(id: u8) -> Option<Self> {
        if id == 0 {
            Some(CommandDatagramType::Echo)
        } else if id == 1 {
            Some(CommandDatagramType::ReadRobotId)
        } else if id == 2 {
            Some(CommandDatagramType::ReadBoardIds)
        } else if id == 3 {
            Some(CommandDatagramType::ToggleKickCalibration)
        } else if id == 4 {
            Some(CommandDatagramType::WriteKickCalibration)
        } else {
            None
        }
    }

    proof fn law_id(&self) {
    }

    fn to_id(&self) -> (id: u8) {
        match self {
            CommandDatagramType::Echo => 0,
            CommandDatagramType::ReadRobotId => 1,
            CommandDatagramType::ReadBoardIds => 2,
            CommandDatagramType::ToggleKickCalibration => 3,
            CommandDatagramType::WriteKickCalibration => 4,
        }
    }

    fn from_id(id: u8) -> (tag: Option<Self>) {
        match id {
            0 => Some(CommandDatagramType::Echo),
            1 => Some(CommandDatagramType::ReadRobotId),
            2 => Some(CommandDatagramType::ReadBoardIds),
            3 => Some(CommandDatagramType::ToggleKickCalibration),
            4 => Some(CommandDatagramType::WriteKickCalibration),
            _ => None,
        }
    }
}

/// Helper type for handling full command datagrams
#[derive(Clone, Copy, Debug)]
pub enum CommandDatagram {
    Echo(EchoDatagram),
    ReadRobotId,
    ReadBoardIds,
    ToggleKickCalibration(bool),
    WriteKickCalibration(WriteKickCalibrationCommandDatagram),
}

impl CommandDatagram {
    /// The kind of this datagram.
    pub open spec fn tag(&self) -> CommandDatagramType {
        match self {
            CommandDatagram::Echo(_) => CommandDatagramType::Echo,
            CommandDatagram::ReadRobotId => CommandDatagramType::ReadRobotId,
            CommandDatagram::ReadBoardIds => CommandDatagramType::ReadBoardIds,
            CommandDatagram::ToggleKickCalibration(_) => CommandDatagramType::ToggleKickCalibration,
            CommandDatagram::WriteKickCalibration(_) => CommandDatagramType::WriteKickCalibration,
        }
    }

    /// The data of this datagram.
    pub open spec fn payload(&self) -> Seq<u8> {
        match self {
            CommandDatagram::Echo(d) => d.bytes(),
            CommandDatagram::ReadRobotId => Seq::empty(),
            CommandDatagram::ReadBoardIds => Seq::empty(),
            CommandDatagram::ToggleKickCalibration(d) => seq![if *d { 1u8 } else { 0u8 }],
            CommandDatagram::WriteKickCalibration(d) => d.bytes(),
        }
    }

    /// Splits the datagram into its kind and its data.
    pub fn into_parts(self) -> (parts: (CommandDatagramType, Vec<u8>))
        ensures
            parts.0 == self.tag(),
            parts.1@ == self.payload(),
            parts.1@.len() == self.tag().size(),
    {
        proof {
            law_command_size(self);
        }
        match self {
            CommandDatagram::Echo(d) => (CommandDatagramType::Echo, d.to_bytes()),
            CommandDatagram::ReadRobotId => (CommandDatagramType::ReadRobotId, Vec::new()),
            CommandDatagram::ReadBoardIds => (CommandDatagramType::ReadBoardIds, Vec::new()),
            CommandDatagram::ToggleKickCalibration(d) => {
                let mut data: Vec<u8> = Vec::new();
                data.push(if d { 1 } else { 0 });
                (CommandDatagramType::ToggleKickCalibration, data)
            },
            CommandDatagram::WriteKickCalibration(d) => {
                (CommandDatagramType::WriteKickCalibration, d.to_bytes())
            },
        }
    }
}

// ======== Structure - Response ========

#[derive(Clone, Copy, Debug, PartialEq, Eq, Structural)]
pub enum ResponseDatagramType {
    Echo,
    RobotId,
    BoardIds,
}

impl ResponseDatagramType {
    /// The size of a datagram of this kind.
    pub open spec fn size(&self) -> nat {
        match self {
            ResponseDatagramType::Echo => 100,
            ResponseDatagramType::RobotId => 1,
            ResponseDatagramType::BoardIds => 84,
        }
    }

    pub fn get_datagram_size(&self) -> (size: usize)
        ensures
            size == self.size(),
    {
        match self {
            ResponseDatagramType::Echo => <EchoDatagram as PacketPacking<100>>::packed_size(),
            ResponseDatagramType::RobotId => 1,
            ResponseDatagramType::BoardIds => {
                <BoardIdsResponseDatagram as PacketPacking<84>>::packed_size()
            },
        }
    }
}

impl DatagramTag for ResponseDatagramType {
    open spec fn id(&self) -> u8 {
        match self {
            ResponseDatagramType::Echo => 0,
            ResponseDatagramType::RobotId => 1,
            ResponseDatagramType::BoardIds => 2,
        }
    }

    open spec fn of_id(id: u8) -> Option<Self> {
        if id == 0 {
            Some(ResponseDatagramType::Echo)
        } else if id == 1 {
            Some(ResponseDatagramType::RobotId)
        } else if id == 2 {
            Some(ResponseDatagramType::BoardIds)
        } else {
            None
        }
    }

    proof fn law_id(&self) {
    }

    fn to_id(&self) -> (id: u8) {
        match self {
            ResponseDatagramType::Echo => 0,
            ResponseDatagramType::RobotId => 1,
            ResponseDatagramType::BoardIds => 2,
        }
    }

    fn from_id(id: u8) -> (tag: Option<Self>) {
        match id {
            0 => Some(ResponseDatagramType::Echo),
            1 => Some(ResponseDatagramType::RobotId),
            2 => Some(ResponseDatagramType::BoardIds),
            _ => None,
        }
    }
}

/// Helper type for handling full response datagrams
#[derive(Clone, Copy, Debug)]
pub enum ResponseDatagram {
    Echo(EchoDatagram),
    RobotId(u8),
    BoardIds(BoardIdsResponseDatagram),
}

impl ResponseDatagram {
    /// The kind of this datagram.
    pub open spec fn tag(&self) -> ResponseDatagramType {
        match self {
            ResponseDatagram::Echo(_) => ResponseDatagramType::Echo,
            ResponseDatagram::RobotId(_) => ResponseDatagramType::RobotId,
            ResponseDatagram::BoardIds(_) => ResponseDatagramType::BoardIds,
        }
    }

    /// Whether this is the datagram of kind `tag` at the start of `data`.
    pub open spec fn assembled(&self, tag: ResponseDatagramType, data: Seq<u8>) -> bool {
        match self {
            ResponseDatagram::Echo(d) => tag is Echo && d.unpacked(data),
            ResponseDatagram::RobotId(id) => tag is RobotId && data.len() > 0 && *id == data[0],
            ResponseDatagram::BoardIds(d) => tag is BoardIds && d.unpacked(data),
        }
    }

    /// Why `data` do not start with a datagram of kind `tag`, or `None` if they do.
    pub open spec fn assembly_error(tag: ResponseDatagramType, data: Seq<u8>) -> Option<UnpackError> {
        match tag {
            ResponseDatagramType::Echo => EchoDatagram::unpack_error(data),
            ResponseDatagramType::RobotId => None,
            ResponseDatagramType::BoardIds => BoardIdsResponseDatagram::unpack_error(data),
        }
    }

    /// Reads a datagram of a known kind.
    pub fn from_parts(datagram_type: ResponseDatagramType, data: &[u8]) -> (r: Result<
        ResponseDatagram,
        UnpackError,
    >)
        requires
            datagram_type is RobotId ==> data@.len() > 0,
        ensures
            match r {
                Ok(d) => Self::assembly_error(datagram_type, data@) is None && d.assembled(
                    datagram_type,
                    data@,
                ),
                Err(e) => Self::assembly_error(datagram_type, data@) == Some(e),
            },
    {
        match datagram_type {
            ResponseDatagramType::Echo => match EchoDatagram::from_bytes(data) {
                Ok(d) => Ok(ResponseDatagram::Echo(d)),
                Err(e) => Err(e),
            },
            ResponseDatagramType::RobotId => Ok(ResponseDatagram::RobotId(data[0])),
            ResponseDatagramType::BoardIds => match BoardIdsResponseDatagram::from_bytes(data) {
                Ok(d) => Ok(ResponseDatagram::BoardIds(d)),
                Err(e) => Err(e),
            },
        }
    }
}

// ======== Laws ========

/// A packed set of board ids has 84 bytes.
pub proof fn law_board_ids_size(d: BoardIdsResponseDatagram)
    ensures
        d.bytes().len() == BOARD_IDS_SIZE,
{
    let layout = uniform_layout(21, 32);
    lemma_encode(d.words(), layout);
    lemma_uniform_offset(21, 32, 21);
}

/// Board ids can be read from any 84 bytes.
pub proof fn law_board_ids_complete(data: Seq<u8>)
    requires
        data.len() >= BOARD_IDS_SIZE,
    ensures
        BoardIdsResponseDatagram::unpack_error(data) is None,
{
    let layout = uniform_layout(21, 32);
    lemma_first_missing(layout, bits_of_bytes(data).len(), 0);
    match first_missing(layout, bits_of_bytes(data).len(), 0) {
        Some(k) => lemma_uniform_offset(21, 32, k),
        None => {},
    }
}

/// A packed kick calibration has 55 bytes.
pub proof fn law_kick_calibration_size(d: WriteKickCalibrationCommandDatagram)
    ensures
        d.bytes().len() == KICK_CALIBRATION_SIZE,
{
    let layout = WriteKickCalibrationCommandDatagram::layout();
    lemma_encode(d.fields(), layout);
    lemma_kick_offset(28);
}

proof fn lemma_kick_offset(i: int)
    requires
        0 <= i <= 28,
    ensures
        offset(WriteKickCalibrationCommandDatagram::layout(), i) == (if i <= 19 {
            8 * i
        } else {
            8 * 19 + 32 * (i - 19)
        }),
    decreases i,
{
    if i > 0 {
        lemma_kick_offset(i - 1);
    }
}

/// The data of a command datagram have the size that belongs to its kind.
pub proof fn law_command_size(d: CommandDatagram)
    ensures
        d.payload().len() == d.tag().size(),
{
    match d {
        CommandDatagram::WriteKickCalibration(k) => law_kick_calibration_size(k),
        _ => {},
    }
}

/// Unpacking a packed echo datagram gives the datagram back, whatever follows it.
pub proof fn law_echo_round_trip(d: EchoDatagram, rest: Seq<u8>, read: EchoDatagram)
    requires
        read.unpacked(d.bytes() + rest),
    ensures
        EchoDatagram::unpack_error(d.bytes() + rest) is None,
        read == d,
{
    assert((d.bytes() + rest).take(100) =~= d.data@);
    assert forall|i: int| 0 <= i < 100 implies read.data[i] == d.data[i] by {
        assert(read.data@[i] == d.data@[i]);
    }
    assert(read.data =~= d.data);
}

/// Unpacking packed board ids gives the ids back, whatever follows them.
pub proof fn law_board_ids_round_trip(
    d: BoardIdsResponseDatagram,
    rest: Seq<u8>,
    read: BoardIdsResponseDatagram,
)
    requires
        read.unpacked(d.bytes() + rest),
    ensures
        BoardIdsResponseDatagram::unpack_error(d.bytes() + rest) is None,
        read == d,
{
    lemma_uniform_offset(21, 32, 21);
    lemma2_to64();
    law_fields_round_trip(d.words(), uniform_layout(21, 32), rest);
    lemma_board_words(read, d);
}

/// Equal ids in the order of sending belong to equal boards.
proof fn lemma_board_words(a: BoardIdsResponseDatagram, b: BoardIdsResponseDatagram)
    requires
        a.words() == b.words(),
    ensures
        a == b,
{
    lemma_three(a.words(), b.words(), 0, a.main, b.main);
    lemma_three(a.words(), b.words(), 3, a.kicker, b.kicker);
    lemma_three(a.words(), b.words(), 6, a.dribbler, b.dribbler);
    lemma_three(a.words(), b.words(), 9, a.motor_fl, b.motor_fl);
    lemma_three(a.words(), b.words(), 12, a.motor_fr, b.motor_fr);
    lemma_three(a.words(), b.words(), 15, a.motor_bl, b.motor_bl);
    lemma_three(a.words(), b.words(), 18, a.motor_br, b.motor_br);
}

proof fn lemma_three(a: Seq<u32>, b: Seq<u32>, from: int, x: [u32; 3], y: [u32; 3])
    requires
        0 <= from,
        from + 3 <= a.len(),
        a == b,
        a[from] == x@[0] && a[from + 1] == x@[1] && a[from + 2] == x@[2],
        b[from] == y@[0] && b[from + 1] == y@[1] && b[from + 2] == y@[2],
    ensures
        x == y,
{
    assert forall|i: int| 0 <= i < 3 implies x[i] == y[i] by {
        assert(x@[i] == y@[i]);
    }
    assert(x =~= y);
}

/// Unpacking a packed kick calibration gives the calibration back, whatever follows it.
pub proof fn law_kick_calibration_round_trip(
    d: WriteKickCalibrationCommandDatagram,
    rest: Seq<u8>,
    read: WriteKickCalibrationCommandDatagram,
)
    requires
        read.unpacked(d.bytes() + rest),
    ensures
        WriteKickCalibrationCommandDatagram::unpack_error(d.bytes() + rest) is None,
        read == d,
{
    lemma_kick_offset(28);
    lemma_kick_fit(d);
    law_fields_round_trip(d.fields(), WriteKickCalibrationCommandDatagram::layout(), rest);
    lemma_kick_fields(read, d);
}

proof fn lemma_kick_fit(d: WriteKickCalibrationCommandDatagram)
    ensures
        values_fit(d.fields(), WriteKickCalibrationCommandDatagram::layout()),
{
    lemma2_to64();
}

/// Equal parts in the order of sending belong to equal calibrations.
proof fn lemma_kick_fields(
    x: WriteKickCalibrationCommandDatagram,
    y: WriteKickCalibrationCommandDatagram,
)
    requires
        x.fields() == y.fields(),
    ensures
        x == y,
{
    let a = x.fields();
    let b = y.fields();
    assert forall|i: int| 0 <= i < 19 implies x.datetime_str[i] == y.datetime_str[i] by {
        assert(a[i] == b[i]);
        assert(x.datetime_str@[i] == y.datetime_str@[i]);
    }
    assert(x.datetime_str =~= y.datetime_str);
    lemma_three(a, b, 19, x.kicker_id, y.kicker_id);
    lemma_three(a, b, 22, x.linear, y.linear);
    lemma_three(a, b, 25, x.chip, y.chip);
}

// ======== Places ========

/// Three words stand one after the other from digit `from` on.
pub open spec fn holds_words(bytes: Seq<u8>, from: nat, words: [u32; 3]) -> bool {
    &&& holds_number(bytes, from, 32, words@[0] as nat)
    &&& holds_number(bytes, from + 32, 32, words@[1] as nat)
    &&& holds_number(bytes, from + 64, 32, words@[2] as nat)
}

proof fn lemma_board_places(bytes: Seq<u8>, d: BoardIdsResponseDatagram)
    requires
        d.unpacked(bytes),
    ensures
        holds_words(bytes, 0, d.main),
        holds_words(bytes, 96, d.kicker),
        holds_words(bytes, 192, d.dribbler),
        holds_words(bytes, 288, d.motor_fl),
        holds_words(bytes, 384, d.motor_fr),
        holds_words(bytes, 480, d.motor_bl),
        holds_words(bytes, 576, d.motor_br),
{
    let layout = uniform_layout(21, 32);
    assert forall|i: int| 0 <= i < 21 implies #[trigger] d.words()[i] == digits_at(
        bytes,
        (32 * i) as nat,
        32,
    ) by {
        lemma_field_digits(bytes, layout, i);
        lemma_uniform_offset(21, 32, i);
    }
    lemma2_to64();
    assert(d.words()[0] == d.main@[0]);
    assert(d.words()[1] == d.main@[1]);
    assert(d.words()[2] == d.main@[2]);
    assert(d.words()[3] == d.kicker@[0]);
    assert(d.words()[4] == d.kicker@[1]);
    assert(d.words()[5] == d.kicker@[2]);
    assert(d.words()[6] == d.dribbler@[0]);
    assert(d.words()[7] == d.dribbler@[1]);
    assert(d.words()[8] == d.dribbler@[2]);
    assert(d.words()[9] == d.motor_fl@[0]);
    assert(d.words()[10] == d.motor_fl@[1]);
    assert(d.words()[11] == d.motor_fl@[2]);
    assert(d.words()[12] == d.motor_fr@[0]);
    assert(d.words()[13] == d.motor_fr@[1]);
    assert(d.words()[14] == d.motor_fr@[2]);
    assert(d.words()[15] == d.motor_bl@[0]);
    assert(d.words()[16] == d.motor_bl@[1]);
    assert(d.words()[17] == d.motor_bl@[2]);
    assert(d.words()[18] == d.motor_br@[0]);
    assert(d.words()[19] == d.motor_br@[1]);
    assert(d.words()[20] == d.motor_br@[2]);
}

/// The ids of each board have their own place in the bytes, three words each, whatever follows.
pub proof fn law_board_ids_places(d: BoardIdsResponseDatagram, rest: Seq<u8>)
    ensures
        holds_words(d.bytes() + rest, 0, d.main),
        holds_words(d.bytes() + rest, 96, d.kicker),
        holds_words(d.bytes() + rest, 192, d.dribbler),
        holds_words(d.bytes() + rest, 288, d.motor_fl),
        holds_words(d.bytes() + rest, 384, d.motor_fr),
        holds_words(d.bytes() + rest, 480, d.motor_bl),
        holds_words(d.bytes() + rest, 576, d.motor_br),
{
    lemma_uniform_offset(21, 32, 21);
    lemma2_to64();
    law_fields_round_trip(d.words(), uniform_layout(21, 32), rest);
    lemma_board_places(d.bytes() + rest, d);
}

/// Board ids are read from 84 bytes at least, those of each board from their own place.
pub proof fn law_board_ids_read_places(d: BoardIdsResponseDatagram, bytes: Seq<u8>)
    ensures
        BoardIdsResponseDatagram::unpack_error(bytes) is None <==> bytes.len() >= 84,
        d.unpacked(bytes) ==> {
            &&& holds_words(bytes, 0, d.main)
            &&& holds_words(bytes, 96, d.kicker)
            &&& holds_words(bytes, 192, d.dribbler)
            &&& holds_words(bytes, 288, d.motor_fl)
            &&& holds_words(bytes, 384, d.motor_fr)
            &&& holds_words(bytes, 480, d.motor_bl)
            &&& holds_words(bytes, 576, d.motor_br)
        },
{
    lemma_uniform_offset(21, 32, 21);
    lemma_decodes(bits_of_bytes(bytes), uniform_layout(21, 32));
    if d.unpacked(bytes) {
        lemma_board_places(bytes, d);
    }
}

proof fn lemma_kick_places(bytes: Seq<u8>, d: WriteKickCalibrationCommandDatagram)
    requires
        d.unpacked(bytes),
    ensures
        forall|i: int|
            0 <= i < 19 ==> digits_at(bytes, (8 * i) as nat, 8) == #[trigger] d.datetime_str@[i],
        holds_words(bytes, 152, d.kicker_id),
        holds_words(bytes, 248, d.linear),
        holds_words(bytes, 344, d.chip),
{
    let layout = WriteKickCalibrationCommandDatagram::layout();
    assert forall|i: int| 0 <= i < 28 implies #[trigger] d.fields()[i] == digits_at(
        bytes,
        (if i <= 19 { 8 * i } else { 8 * 19 + 32 * (i - 19) }) as nat,
        if i < 19 { 8 } else { 32 },
    ) by {
        lemma_field_digits(bytes, layout, i);
        lemma_kick_offset(i);
    }
    assert forall|i: int| 0 <= i < 19 implies digits_at(bytes, (8 * i) as nat, 8)
        == #[trigger] d.datetime_str@[i] by {
        assert(d.fields()[i] == d.datetime_str@[i] as u32);
    }
    lemma2_to64();
    assert(d.fields()[19] == d.kicker_id@[0]);
    assert(d.fields()[20] == d.kicker_id@[1]);
    assert(d.fields()[21] == d.kicker_id@[2]);
    assert(d.fields()[22] == d.linear@[0]);
    assert(d.fields()[23] == d.linear@[1]);
    assert(d.fields()[24] == d.linear@[2]);
    assert(d.fields()[25] == d.chip@[0]);
    assert(d.fields()[26] == d.chip@[1]);
    assert(d.fields()[27] == d.chip@[2]);
}

/// The parts of a kick calibration have their own places in the bytes: the text first, then the id of
/// the kicker, the coefficients of the linear kick and those of the chip.
pub proof fn law_kick_calibration_places(d: WriteKickCalibrationCommandDatagram, rest: Seq<u8>)
    ensures
        forall|i: int|
            0 <= i < 19 ==> digits_at(d.bytes() + rest, (8 * i) as nat, 8)
                == #[trigger] d.datetime_str@[i],
        holds_words(d.bytes() + rest, 152, d.kicker_id),
        holds_words(d.bytes() + rest, 248, d.linear),
        holds_words(d.bytes() + rest, 344, d.chip),
{
    lemma_kick_offset(28);
    lemma_kick_fit(d);
    law_fields_round_trip(d.fields(), WriteKickCalibrationCommandDatagram::layout(), rest);
    lemma_kick_places(d.bytes() + rest, d);
}

/// A kick calibration is read from 55 bytes at least, each part from its own place.
pub proof fn law_kick_calibration_read_places(
    d: WriteKickCalibrationCommandDatagram,
    bytes: Seq<u8>,
)
    ensures
        WriteKickCalibrationCommandDatagram::unpack_error(bytes) is None <==> bytes.len() >= 55,
        d.unpacked(bytes) ==> {
            &&& forall|i: int|
                0 <= i < 19 ==> digits_at(bytes, (8 * i) as nat, 8)
                    == #[trigger] d.datetime_str@[i]
            &&& holds_words(bytes, 152, d.kicker_id)
            &&& holds_words(bytes, 248, d.linear)
            &&& holds_words(bytes, 344, d.chip)
        },
{
    lemma_kick_offset(28);
    lemma_decodes(bits_of_bytes(bytes), WriteKickCalibrationCommandDatagram::layout());
    if d.unpacked(bytes) {
        lemma_kick_places(bytes, d);
    }
}

/// An echo datagram is its bytes, and is read from the first 100 bytes.
pub proof fn law_echo_places(d: EchoDatagram, bytes: Seq<u8>)
    ensures
        d.bytes().len() == 100,
        forall|i: int| 0 <= i < 100 ==> d.bytes()[i] == #[trigger] d.data@[i],
        EchoDatagram::unpack_error(bytes) is None <==> bytes.len() >= 100,
        d.unpacked(bytes) && bytes.len() >= 100 ==> forall|i: int|
            0 <= i < 100 ==> bytes[i] == #[trigger] d.data@[i],
{
    if d.unpacked(bytes) && bytes.len() >= 100 {
        assert forall|i: int| 0 <= i < 100 implies bytes[i] == #[trigger] d.data@[i] by {
            assert(bytes.take(100)[i] == bytes[i]);
        }
    }
}

/// A command datagram is sent with its own kind, and with the data that belong to it: those of an
/// echo or a calibration, one byte that is 1 or 0 to switch, and nothing to ask.
pub proof fn law_command_datagram_parts(d: CommandDatagram)
    ensures
        match d {
            CommandDatagram::Echo(e) => {
                &&& d.tag() is Echo
                &&& d.payload() == e.data@
            },
            CommandDatagram::ReadRobotId => {
                &&& d.tag() is ReadRobotId
                &&& d.payload().len() == 0
            },
            CommandDatagram::ReadBoardIds => {
                &&& d.tag() is ReadBoardIds
                &&& d.payload().len() == 0
            },
            CommandDatagram::ToggleKickCalibration(on) => {
                &&& d.tag() is ToggleKickCalibration
                &&& d.payload().len() == 1
                &&& on ==> d.payload()[0] == 1
                &&& !on ==> d.payload()[0] == 0
            },
            CommandDatagram::WriteKickCalibration(k) => {
                &&& d.tag() is WriteKickCalibration
                &&& d.payload().len() == 55
                &&& holds_words(d.payload(), 152, k.kicker_id)
                &&& holds_words(d.payload(), 248, k.linear)
                &&& holds_words(d.payload(), 344, k.chip)
            },
        },
{
    if let CommandDatagram::WriteKickCalibration(k) = d {
        law_kick_calibration_size(k);
        law_kick_calibration_places(k, Seq::empty());
        assert(k.bytes() + Seq::<u8>::empty() =~= k.bytes());
    }
}

/// A response datagram is of the kind that was announced, and holds the data that were received: the
/// bytes of an echo, the id in the first byte, or the ids of the boards. Enough data are accepted.
pub proof fn law_response_datagram_parts(
    d: ResponseDatagram,
    tag: ResponseDatagramType,
    data: Seq<u8>,
)
    ensures
        match tag {
            ResponseDatagramType::Echo => {
                &&& tag.size() == 100
                &&& data.len() >= 100 ==> ResponseDatagram::assembly_error(tag, data) is None
                &&& data.len() >= 100 && d.assembled(tag, data) ==> (d matches ResponseDatagram::Echo(
                    e,
                ) && forall|i: int| 0 <= i < 100 ==> data[i] == #[trigger] e.data@[i])
            },
            ResponseDatagramType::RobotId => {
                &&& tag.size() == 1
                &&& data.len() >= 1 ==> ResponseDatagram::assembly_error(tag, data) is None
                &&& d.assembled(tag, data) ==> d == ResponseDatagram::RobotId(data[0])
            },
            ResponseDatagramType::BoardIds => {
                &&& tag.size() == 84
                &&& data.len() >= 84 ==> ResponseDatagram::assembly_error(tag, data) is None
                &&& d.assembled(tag, data) ==> (d matches ResponseDatagram::BoardIds(b) && {
                    &&& holds_words(data, 0, b.main)
                    &&& holds_words(data, 96, b.kicker)
                    &&& holds_words(data, 192, b.dribbler)
                    &&& holds_words(data, 288, b.motor_fl)
                    &&& holds_words(data, 384, b.motor_fr)
                    &&& holds_words(data, 480, b.motor_bl)
                    &&& holds_words(data, 576, b.motor_br)
                })
            },
        },
{
    match d {
        ResponseDatagram::Echo(e) => law_echo_places(e, data),
        ResponseDatagram::RobotId(_) => {},
        ResponseDatagram::BoardIds(b) => law_board_ids_read_places(b, data),
    }
    if data.len() >= 84 {
        law_board_ids_complete(data);
    }
}

} // verus!
