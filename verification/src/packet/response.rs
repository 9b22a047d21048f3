//! The regular response of a robot.

use crate::packet::places::{lemma_carries_number, lemma_carries_signed};
use crate::packet::{
    fields_fit, flag, flag_field, lemma_decoded_fit, lemma_fit, lemma_fit_split,
    lemma_offset_concat, lemma_signed_fits, lemma_signed_read, lemma_unsigned_fits,
    lemma_unsigned_read, signed, signed_clamped, signed_ok, unsigned, unsigned_clamped,
    unsigned_ok,
};
use crate::protocol::bits::{
    bits_of_bytes, bytes_of_bits, decode, encode, law_fields_round_trip, layout_ok, lemma_decodes,
    offset, read_fields, values_fit, write_fields, UnpackError,
};
use crate::protocol::deku_helpers::{
    int_from_field, int_to_field, uint_to_field, DekuPackedSize, PackBytes, UnpackBytes,
};
use crate::protocol::wire::{
    carries_number, carries_signed, digits_at, holds_flag, holds_number, holds_signed,
    lemma_field_digits,
};
use vstd::arithmetic::power2::{lemma2_to64, pow2};
use vstd::prelude::*;

verus! {

/// State of one motor.
#[derive(Clone, Copy, Debug, PartialEq, Eq, Structural)]
pub struct MotorStatus {
    pub error: bool,
    pub overheated: bool,
    pub encoder_error: bool,
    /// 5 bits
    pub unused: u8,
}

impl Default for MotorStatus {
    fn default() -> (d: MotorStatus)
        ensures
            d == (MotorStatus {
                error: false,
                overheated: false,
                encoder_error: false,
                unused: 0,
            }),
    {
        MotorStatus {
            error: false,
            overheated: false,
            encoder_error: false,
            unused: 0,
        }
    }
}

impl MotorStatus {
    pub open spec fn layout() -> Seq<usize> {
        seq![1usize, 1, 1, 5]
    }

    pub open spec fn slots(&self) -> Seq<u32> {
        seq![flag(self.error), flag(self.overheated), flag(self.encoder_error), self.unused as u32]
    }

    pub open spec fn fits(&self) -> bool {
        self.unused < 32
    }

    fn push_layout(out: &mut Vec<usize>)
        ensures
            final(out)@ == old(out)@ + Self::layout(),
    {
        out.push(1);
        out.push(1);
        out.push(1);
        out.push(5);
        proof {
            assert(out@ =~= old(out)@ + Self::layout());
        }
    }

    fn push_fields(&self, out: &mut Vec<u32>)
        ensures
            final(out)@ == old(out)@ + self.slots(),
    {
        out.push(flag_field(self.error));
        out.push(flag_field(self.overheated));
        out.push(flag_field(self.encoder_error));
        out.push(self.unused as u32);
        proof {
            assert(out@ =~= old(out)@ + self.slots());
        }
    }

    fn from_fields(fields: &Vec<u32>, at: usize) -> (status: MotorStatus)
        requires
            fields_fit(fields@, at as int, Self::layout()),
        ensures
            status.fits(),
            fields@.subrange(at as int, at + 4) == status.slots(),
    {
        assert(fields.len() == fields@.len());
        proof {
            lemma_fit(fields@, at as int, Self::layout());
            lemma2_to64();
        }
        let status = MotorStatus {
            error: fields[at] == 1,
            overheated: fields[at + 1] == 1,
            encoder_error: fields[at + 2] == 1,
            unused: fields[at + 3] as u8,
        };
        proof {
            assert(fields@.subrange(at as int, at + 4) =~= status.slots());
        }
        status
    }
}

/// State of the kicker.
#[derive(Clone, Copy, Debug, PartialEq, Eq, Structural)]
pub struct KickerStatus {
    pub error: bool,
    pub break_beam_error: bool,
    /// 6 bits
    pub unused: u8,
}

impl Default for KickerStatus {
    fn default() -> (d: KickerStatus)
        ensures
            d == (KickerStatus {
                error: false,
                break_beam_error: false,
                unused: 0,
            }),
    {
        KickerStatus {
            error: false,
            break_beam_error: false,
            unused: 0,
        }
    }
}

impl KickerStatus {
    pub open spec fn layout() -> Seq<usize> {
        seq![1usize, 1, 6]
    }

    pub open spec fn slots(&self) -> Seq<u32> {
        seq![flag(self.error), flag(self.break_beam_error), self.unused as u32]
    }

    pub open spec fn fits(&self) -> bool {
        self.unused < 64
    }

    fn push_layout(out: &mut Vec<usize>)
        ensures
            final(out)@ == old(out)@ + Self::layout(),
    {
        out.push(1);
        out.push(1);
        out.push(6);
        proof {
            assert(out@ =~= old(out)@ + Self::layout());
        }
    }

    fn push_fields(&self, out: &mut Vec<u32>)
        ensures
            final(out)@ == old(out)@ + self.slots(),
    {
        out.push(flag_field(self.error));
        out.push(flag_field(self.break_beam_error));
        out.push(self.unused as u32);
        proof {
            assert(out@ =~= old(out)@ + self.slots());
        }
    }

    fn from_fields(fields: &Vec<u32>, at: usize) -> (status: KickerStatus)
        requires
            fields_fit(fields@, at as int, Self::layout()),
        ensures
            status.fits(),
            fields@.subrange(at as int, at + 3) == status.slots(),
    {
        assert(fields.len() == fields@.len());
        proof {
            lemma_fit(fields@, at as int, Self::layout());
            lemma2_to64();
        }
        let status = KickerStatus {
            error: fields[at] == 1,
            break_beam_error: fields[at + 1] == 1,
            unused: fields[at + 2] as u8,
        };
        proof {
            assert(fields@.subrange(at as int, at + 3) =~= status.slots());
        }
        status
    }
}

/// State of the inertial measurement unit.
#[derive(Clone, Copy, Debug, PartialEq, Eq, Structural)]
pub struct IMUStatus {
    pub error: bool,
    /// 7 bits
    pub unused: u8,
}

impl Default for IMUStatus {
    fn default() -> (d: IMUStatus)
        ensures
            d == (IMUStatus {
                error: false,
                unused: 0,
            }),
    {
        IMUStatus {
            error: false,
            unused: 0,
        }
    }
}

impl IMUStatus {
    pub open spec fn layout() -> Seq<usize> {
        seq![1usize, 7]
    }

    pub open spec fn slots(&self) -> Seq<u32> {
        seq![flag(self.error), self.unused as u32]
    }

    pub open spec fn fits(&self) -> bool {
        self.unused < 128
    }

    fn push_layout(out: &mut Vec<usize>)
        ensures
            final(out)@ == old(out)@ + Self::layout(),
    {
        out.push(1);
        out.push(7);
        proof {
            assert(out@ =~= old(out)@ + Self::layout());
        }
    }

    fn push_fields(&self, out: &mut Vec<u32>)
        ensures
            final(out)@ == old(out)@ + self.slots(),
    {
        out.push(flag_field(self.error));
        out.push(self.unused as u32);
        proof {
            assert(out@ =~= old(out)@ + self.slots());
        }
    }

    fn from_fields(fields: &Vec<u32>, at: usize) -> (status: IMUStatus)
        requires
            fields_fit(fields@, at as int, Self::layout()),
        ensures
            status.fits(),
            fields@.subrange(at as int, at + 2) == status.slots(),
    {
        assert(fields.len() == fields@.len());
        proof {
            lemma_fit(fields@, at as int, Self::layout());
            lemma2_to64();
        }
        let status = IMUStatus {
            error: fields[at] == 1,
            unused: fields[at + 1] as u8,
        };
        proof {
            assert(fields@.subrange(at as int, at + 2) =~= status.slots());
        }
        status
    }
}

/// State of the SD card.
#[derive(Clone, Copy, Debug, PartialEq, Eq, Structural)]
pub struct SdStatus {
    pub error: bool,
    pub mounted: bool,
    pub full: bool,
    /// 5 bits
    pub unused: u8,
}

impl Default for SdStatus {
    fn default() -> (d: SdStatus)
        ensures
            d == (SdStatus {
                error: false,
                mounted: false,
                full: false,
                unused: 0,
            }),
    {
        SdStatus {
            error: false,
            mounted: false,
            full: false,
            unused: 0,
        }
    }
}

impl SdStatus {
    pub open spec fn layout() -> Seq<usize> {
        seq![1usize, 1, 1, 5]
    }

    pub open spec fn slots(&self) -> Seq<u32> {
        seq![flag(self.error), flag(self.mounted), flag(self.full), self.unused as u32]
    }

    pub open spec fn fits(&self) -> bool {
        self.unused < 32
    }

    fn push_layout(out: &mut Vec<usize>)
        ensures
            final(out)@ == old(out)@ + Self::layout(),
    {
        out.push(1);
        out.push(1);
        out.push(1);
        out.push(5);
        proof {
            assert(out@ =~= old(out)@ + Self::layout());
        }
    }

    fn push_fields(&self, out: &mut Vec<u32>)
        ensures
            final(out)@ == old(out)@ + self.slots(),
    {
        out.push(flag_field(self.error));
        out.push(flag_field(self.mounted));
        out.push(flag_field(self.full));
        out.push(self.unused as u32);
        proof {
            assert(out@ =~= old(out)@ + self.slots());
        }
    }

    fn from_fields(fields: &Vec<u32>, at: usize) -> (status: SdStatus)
        requires
            fields_fit(fields@, at as int, Self::layout()),
        ensures
            status.fits(),
            fields@.subrange(at as int, at + 4) == status.slots(),
    {
        assert(fields.len() == fields@.len());
        proof {
            lemma_fit(fields@, at as int, Self::layout());
            lemma2_to64();
        }
        let status = SdStatus {
            error: fields[at] == 1,
            mounted: fields[at + 1] == 1,
            full: fields[at + 2] == 1,
            unused: fields[at + 3] as u8,
        };
        proof {
            assert(fields@.subrange(at as int, at + 4) =~= status.slots());
        }
        status
    }
}

/// Regular response of one robot, by codes.
#[derive(Clone, Copy, Debug, PartialEq, Eq, Structural)]
pub struct RegularResponseData {
    /// 8 bits for 0 to 1
    pub battery: u32,
    /// 8 bits for 0 to 1
    pub packet_loss: u32,
    pub motor0_status: MotorStatus,
    pub motor1_status: MotorStatus,
    pub motor2_status: MotorStatus,
    pub motor3_status: MotorStatus,
    pub dribbler_status: MotorStatus,
    pub kicker_status: KickerStatus,
    pub imu_status: IMUStatus,
    pub sd_status: SdStatus,
    /// 8 bits for -10 to 10
    pub motor0_load_torque: i32,
    /// 8 bits for -10 to 10
    pub motor1_load_torque: i32,
    /// 8 bits for -10 to 10
    pub motor2_load_torque: i32,
    /// 8 bits for -10 to 10
    pub motor3_load_torque: i32,
    /// 8 bits for -10 to 10
    pub dribbler_load_torque: i32,
    /// 14 bits for -8 m to 8 m
    pub measured_pos_x: i32,
    /// 14 bits for -8 m to 8 m
    pub measured_pos_y: i32,
    /// 14 bits for -pi to pi
    pub measured_phi: i32,
    /// 15 bits for -6 m/s to 6 m/s
    pub measured_vel_x: i32,
    /// 15 bits for -6 m/s to 6 m/s
    pub measured_vel_y: i32,
    /// 14 bits for -20 pi/s to 20 pi/s
    pub measured_omega: i32,
    pub power_enabled: bool,
    pub ball_detected: bool,
    pub unused: u16,
}

impl Default for RegularResponseData {
    fn default() -> (d: RegularResponseData)
        ensures
            d.battery == 0,
            d.packet_loss == 0,
            d.motor0_status == (MotorStatus { error: false, overheated: false, encoder_error: false, unused: 0 }),
            d.motor1_status == (MotorStatus { error: false, overheated: false, encoder_error: false, unused: 0 }),
            d.motor2_status == (MotorStatus { error: false, overheated: false, encoder_error: false, unused: 0 }),
            d.motor3_status == (MotorStatus { error: false, overheated: false, encoder_error: false, unused: 0 }),
            d.dribbler_status == (MotorStatus { error: false, overheated: false, encoder_error: false, unused: 0 }),
            d.kicker_status == (KickerStatus { error: false, break_beam_error: false, unused: 0 }),
            d.imu_status == (IMUStatus { error: false, unused: 0 }),
            d.sd_status == (SdStatus { error: false, mounted: false, full: false, unused: 0 }),
            d.motor0_load_torque == 0,
            d.motor1_load_torque == 0,
            d.motor2_load_torque == 0,
            d.motor3_load_torque == 0,
            d.dribbler_load_torque == 0,
            d.measured_pos_x == 0,
            d.measured_pos_y == 0,
            d.measured_phi == 0,
            d.measured_vel_x == 0,
            d.measured_vel_y == 0,
            d.measured_omega == 0,
            !d.power_enabled,
            !d.ball_detected,
            d.unused == 0,
    {
        RegularResponseData {
            battery: 0,
            packet_loss: 0,
            motor0_status: MotorStatus::default(),
            motor1_status: MotorStatus::default(),
            motor2_status: MotorStatus::default(),
            motor3_status: MotorStatus::default(),
            dribbler_status: MotorStatus::default(),
            kicker_status: KickerStatus::default(),
            imu_status: IMUStatus::default(),
            sd_status: SdStatus::default(),
            motor0_load_torque: 0,
            motor1_load_torque: 0,
            motor2_load_torque: 0,
            motor3_load_torque: 0,
            dribbler_load_torque: 0,
            measured_pos_x: 0,
            measured_pos_y: 0,
            measured_phi: 0,
            measured_vel_x: 0,
            measured_vel_y: 0,
            measured_omega: 0,
            power_enabled: false,
            ball_detected: false,
            unused: 0,
        }
    }
}

impl RegularResponseData {
    pub open spec fn start_layout() -> Seq<usize> {
        seq![8usize, 8]
    }

    pub open spec fn end_layout() -> Seq<usize> {
        seq![8usize, 8, 8, 8, 8, 14, 14, 14, 15, 15, 14, 1, 1, 16]
    }

    pub open spec fn layout() -> Seq<usize> {
        Self::start_layout()
            + MotorStatus::layout()
            + MotorStatus::layout()
            + MotorStatus::layout()
            + MotorStatus::layout()
            + MotorStatus::layout()
            + KickerStatus::layout()
            + IMUStatus::layout()
            + SdStatus::layout()
            + Self::end_layout()
    }

    pub open spec fn start_slots(&self) -> Seq<u32> {
        seq![unsigned(self.battery, 8), unsigned(self.packet_loss, 8)]
    }

    pub open spec fn end_slots(&self) -> Seq<u32> {
        seq![
            signed(self.motor0_load_torque, 8),
            signed(self.motor1_load_torque, 8),
            signed(self.motor2_load_torque, 8),
            signed(self.motor3_load_torque, 8),
            signed(self.dribbler_load_torque, 8),
            signed(self.measured_pos_x, 14),
            signed(self.measured_pos_y, 14),
            signed(self.measured_phi, 14),
            signed(self.measured_vel_x, 15),
            signed(self.measured_vel_y, 15),
            signed(self.measured_omega, 14),
            flag(self.power_enabled),
            flag(self.ball_detected),
            self.unused as u32,
        ]
    }

    /// The fields, each in its own place.
    pub open spec fn slots(&self) -> Seq<u32> {
        self.start_slots()
            + self.motor0_status.slots()
            + self.motor1_status.slots()
            + self.motor2_status.slots()
            + self.motor3_status.slots()
            + self.dribbler_status.slots()
            + self.kicker_status.slots()
            + self.imu_status.slots()
            + self.sd_status.slots()
            + self.end_slots()
    }

    /// The unused bits of the status bytes fit into their places.
    pub open spec fn status_fits(&self) -> bool {
        &&& self.motor0_status.fits()
        &&& self.motor1_status.fits()
        &&& self.motor2_status.fits()
        &&& self.motor3_status.fits()
        &&& self.dribbler_status.fits()
        &&& self.kicker_status.fits()
        &&& self.imu_status.fits()
        &&& self.sd_status.fits()
    }

    /// All codes are within their ranges.
    pub open spec fn canonical(&self) -> bool {
        &&& self.status_fits()
        &&& unsigned_ok(self.battery, 8)
        &&& unsigned_ok(self.packet_loss, 8)
        &&& signed_ok(self.motor0_load_torque, 8)
        &&& signed_ok(self.motor1_load_torque, 8)
        &&& signed_ok(self.motor2_load_torque, 8)
        &&& signed_ok(self.motor3_load_torque, 8)
        &&& signed_ok(self.dribbler_load_torque, 8)
        &&& signed_ok(self.measured_pos_x, 14)
        &&& signed_ok(self.measured_pos_y, 14)
        &&& signed_ok(self.measured_phi, 14)
        &&& signed_ok(self.measured_vel_x, 15)
        &&& signed_ok(self.measured_vel_y, 15)
        &&& signed_ok(self.measured_omega, 14)
    }

    /// The response with all codes moved into their ranges.
    pub open spec fn clamped(&self) -> RegularResponseData {
        RegularResponseData {
            battery: unsigned_clamped(self.battery, 8),
            packet_loss: unsigned_clamped(self.packet_loss, 8),
            motor0_load_torque: signed_clamped(self.motor0_load_torque, 8),
            motor1_load_torque: signed_clamped(self.motor1_load_torque, 8),
            motor2_load_torque: signed_clamped(self.motor2_load_torque, 8),
            motor3_load_torque: signed_clamped(self.motor3_load_torque, 8),
            dribbler_load_torque: signed_clamped(self.dribbler_load_torque, 8),
            measured_pos_x: signed_clamped(self.measured_pos_x, 14),
            measured_pos_y: signed_clamped(self.measured_pos_y, 14),
            measured_phi: signed_clamped(self.measured_phi, 14),
            measured_vel_x: signed_clamped(self.measured_vel_x, 15),
            measured_vel_y: signed_clamped(self.measured_vel_y, 15),
            measured_omega: signed_clamped(self.measured_omega, 14),
            ..*self
        }
    }

    fn layout_vec() -> (layout: Vec<usize>)
        ensures
            layout@ == Self::layout(),
            layout_ok(layout@),
    {
        let mut layout: Vec<usize> = vec![8, 8];
        proof {
            assert(layout@ =~= Self::start_layout());
        }
        MotorStatus::push_layout(&mut layout);
        MotorStatus::push_layout(&mut layout);
        MotorStatus::push_layout(&mut layout);
        MotorStatus::push_layout(&mut layout);
        MotorStatus::push_layout(&mut layout);
        KickerStatus::push_layout(&mut layout);
        IMUStatus::push_layout(&mut layout);
        SdStatus::push_layout(&mut layout);
        let end: Vec<usize> = vec![8, 8, 8, 8, 8, 14, 14, 14, 15, 15, 14, 1, 1, 16];
        proof {
            assert(end@ =~= Self::end_layout());
        }
        layout.extend_from_slice(end.as_slice());
        proof {
            assert(layout@ =~= Self::layout());
            lemma_response_layout();
        }
        layout
    }

    fn push_end(&self, out: &mut Vec<u32>)
        ensures
            final(out)@ == old(out)@ + self.end_slots(),
    {
        out.push(int_to_field(self.motor0_load_torque, 8));
        out.push(int_to_field(self.motor1_load_torque, 8));
        out.push(int_to_field(self.motor2_load_torque, 8));
        out.push(int_to_field(self.motor3_load_torque, 8));
        out.push(int_to_field(self.dribbler_load_torque, 8));
        out.push(int_to_field(self.measured_pos_x, 14));
        out.push(int_to_field(self.measured_pos_y, 14));
        out.push(int_to_field(self.measured_phi, 14));
        out.push(int_to_field(self.measured_vel_x, 15));
        out.push(int_to_field(self.measured_vel_y, 15));
        out.push(int_to_field(self.measured_omega, 14));
        out.push(flag_field(self.power_enabled));
        out.push(flag_field(self.ball_detected));
        out.push(self.unused as u32);
        proof {
            assert(out@ =~= old(out)@ + self.end_slots());
        }
    }

    fn from_fields(fields: &Vec<u32>) -> (v: RegularResponseData)
        requires
            fields@.len() == 45,
            fields_fit(fields@, 0, Self::layout()),
        ensures
            v.canonical(),
            v.slots() == fields@,
    {
        proof {
            lemma_response_fit_parts(fields@);
        }
        let v = Self::from_end(fields);
        let v = RegularResponseData {
            battery: fields[0],
            packet_loss: fields[1],
            motor0_status: MotorStatus::from_fields(fields, 2),
            motor1_status: MotorStatus::from_fields(fields, 6),
            motor2_status: MotorStatus::from_fields(fields, 10),
            motor3_status: MotorStatus::from_fields(fields, 14),
            dribbler_status: MotorStatus::from_fields(fields, 18),
            kicker_status: KickerStatus::from_fields(fields, 22),
            imu_status: IMUStatus::from_fields(fields, 25),
            sd_status: SdStatus::from_fields(fields, 27),
            ..v
        };
        proof {
            lemma2_to64();
            lemma_fit(fields@, 0, Self::start_layout());
            assert(fields@.subrange(0, 2) =~= v.start_slots());
            assert(fields@ =~= fields@.subrange(0, 2)
                + fields@.subrange(2, 6)
                + fields@.subrange(6, 10)
                + fields@.subrange(10, 14)
                + fields@.subrange(14, 18)
                + fields@.subrange(18, 22)
                + fields@.subrange(22, 25)
                + fields@.subrange(25, 27)
                + fields@.subrange(27, 31)
                + fields@.subrange(31, 45));
        }
        v
    }

    /// Reads the part after the status bytes.
    fn from_end(fields: &Vec<u32>) -> (v: RegularResponseData)
        requires
            fields@.len() == 45,
            fields_fit(fields@, 31, Self::end_layout()),
        ensures
            signed_ok(v.motor0_load_torque, 8),
            signed_ok(v.motor1_load_torque, 8),
            signed_ok(v.motor2_load_torque, 8),
            signed_ok(v.motor3_load_torque, 8),
            signed_ok(v.dribbler_load_torque, 8),
            signed_ok(v.measured_pos_x, 14),
            signed_ok(v.measured_pos_y, 14),
            signed_ok(v.measured_phi, 14),
            signed_ok(v.measured_vel_x, 15),
            signed_ok(v.measured_vel_y, 15),
            signed_ok(v.measured_omega, 14),
            fields@.subrange(31, 45) == v.end_slots(),
    {
        proof {
            lemma_fit(fields@, 31, Self::end_layout());
            lemma2_to64();
        }
        let v = RegularResponseData {
            motor0_load_torque: int_from_field(fields[31], 8),
            motor1_load_torque: int_from_field(fields[32], 8),
            motor2_load_torque: int_from_field(fields[33], 8),
            motor3_load_torque: int_from_field(fields[34], 8),
            dribbler_load_torque: int_from_field(fields[35], 8),
            measured_pos_x: int_from_field(fields[36], 14),
            measured_pos_y: int_from_field(fields[37], 14),
            measured_phi: int_from_field(fields[38], 14),
            measured_vel_x: int_from_field(fields[39], 15),
            measured_vel_y: int_from_field(fields[40], 15),
            measured_omega: int_from_field(fields[41], 14),
            power_enabled: fields[42] == 1,
            ball_detected: fields[43] == 1,
            unused: fields[44] as u16,
            ..RegularResponseData::default()
        };
        proof {
            assert(fields@.subrange(31, 45) =~= v.end_slots());
        }
        v
    }
}

proof fn lemma_response_layout()
    ensures
        RegularResponseData::layout().len() == 45,
        layout_ok(RegularResponseData::layout()),
{
    let layout = RegularResponseData::layout();
    assert forall|i: int| 0 <= i < layout.len() implies #[trigger] layout[i] <= 32 by {}
}

proof fn lemma_response_fit_parts(fields: Seq<u32>)
    requires
        fields.len() == 45,
        fields_fit(fields, 0, RegularResponseData::layout()),
    ensures
        fields_fit(fields, 0, RegularResponseData::start_layout()),
        fields_fit(fields, 2, MotorStatus::layout()),
        fields_fit(fields, 6, MotorStatus::layout()),
        fields_fit(fields, 10, MotorStatus::layout()),
        fields_fit(fields, 14, MotorStatus::layout()),
        fields_fit(fields, 18, MotorStatus::layout()),
        fields_fit(fields, 22, KickerStatus::layout()),
        fields_fit(fields, 25, IMUStatus::layout()),
        fields_fit(fields, 27, SdStatus::layout()),
        fields_fit(fields, 31, RegularResponseData::end_layout()),
{
    let l0 = RegularResponseData::start_layout();
    let l1 = l0 + MotorStatus::layout();
    let l2 = l1 + MotorStatus::layout();
    let l3 = l2 + MotorStatus::layout();
    let l4 = l3 + MotorStatus::layout();
    let l5 = l4 + MotorStatus::layout();
    let l6 = l5 + KickerStatus::layout();
    let l7 = l6 + IMUStatus::layout();
    let l8 = l7 + SdStatus::layout();
    lemma_fit_split(fields, 0, l8, RegularResponseData::end_layout());
    lemma_fit_split(fields, 0, l7, SdStatus::layout());
    lemma_fit_split(fields, 0, l6, IMUStatus::layout());
    lemma_fit_split(fields, 0, l5, KickerStatus::layout());
    lemma_fit_split(fields, 0, l4, MotorStatus::layout());
    lemma_fit_split(fields, 0, l3, MotorStatus::layout());
    lemma_fit_split(fields, 0, l2, MotorStatus::layout());
    lemma_fit_split(fields, 0, l1, MotorStatus::layout());
    lemma_fit_split(fields, 0, l0, MotorStatus::layout());
}

impl DekuPackedSize<28> for RegularResponseData {

}

impl PackBytes for RegularResponseData {
    open spec fn packable(&self) -> bool {
        self.status_fits()
    }

    open spec fn bytes(&self) -> Seq<u8> {
        bytes_of_bits(encode(self.slots(), Self::layout()))
    }

    fn to_bytes(&self) -> (bytes: Vec<u8>) {
        let mut fields: Vec<u32> = Vec::new();
        fields.push(uint_to_field(self.battery, 8));
        fields.push(uint_to_field(self.packet_loss, 8));
        proof {
            assert(fields@ =~= self.start_slots());
        }
        self.motor0_status.push_fields(&mut fields);
        self.motor1_status.push_fields(&mut fields);
        self.motor2_status.push_fields(&mut fields);
        self.motor3_status.push_fields(&mut fields);
        self.dribbler_status.push_fields(&mut fields);
        self.kicker_status.push_fields(&mut fields);
        self.imu_status.push_fields(&mut fields);
        self.sd_status.push_fields(&mut fields);
        self.push_end(&mut fields);
        let layout: Vec<usize> = Self::layout_vec();
        write_fields(&fields, &layout)
    }
}

impl UnpackBytes for RegularResponseData {
    open spec fn unpack_error(bytes: Seq<u8>) -> Option<UnpackError> {
        match decode(bits_of_bytes(bytes), Self::layout()) {
            Err(e) => Some(e),
            Ok(_) => None,
        }
    }

    open spec fn unpacked(&self, bytes: Seq<u8>) -> bool {
        &&& self.canonical()
        &&& decode(bits_of_bytes(bytes), Self::layout()) == Ok::<Seq<u32>, UnpackError>(
            self.slots(),
        )
    }

    fn from_bytes(bytes: &[u8]) -> (r: Result<Self, UnpackError>) {
        let layout: Vec<usize> = Self::layout_vec();
        proof {
            lemma_response_layout();
        }
        let fields: Vec<u32> = match read_fields(bytes, &layout) {
            Ok(fields) => fields,
            Err(e) => return Err(e),
        };
        proof {
            lemma_decoded_fit(bits_of_bytes(bytes@), layout@);
        }
        Ok(Self::from_fields(&fields))
    }
}

// ======== Laws ========

proof fn lemma_fit_concat(a: Seq<u32>, la: Seq<usize>, b: Seq<u32>, lb: Seq<usize>)
    requires
        values_fit(a, la),
        values_fit(b, lb),
    ensures
        values_fit(a + b, la + lb),
{
    let layout = la + lb;
    let values = a + b;
    assert forall|i: int| 0 <= i < layout.len() implies (#[trigger] values[i] as nat) < pow2(
        layout[i] as nat,
    ) by {
        if i < la.len() {
            assert(values[i] == a[i]);
        } else {
            assert(values[i] == b[i - la.len()]);
        }
    }
}

proof fn lemma_concat_parts(a: Seq<u32>, b: Seq<u32>, c: Seq<u32>, d: Seq<u32>)
    requires
        a + b == c + d,
        a.len() == c.len(),
    ensures
        a == c,
        b == d,
{
    assert((a + b).take(a.len() as int) =~= a);
    assert((c + d).take(a.len() as int) =~= c);
    assert((a + b).skip(a.len() as int) =~= b);
    assert((c + d).skip(a.len() as int) =~= d);
}

proof fn lemma_ends_fit(r: RegularResponseData)
    ensures
        values_fit(r.start_slots(), RegularResponseData::start_layout()),
        values_fit(r.end_slots(), RegularResponseData::end_layout()),
{
    lemma_unsigned_fits(r.battery, 8);
    lemma_unsigned_fits(r.packet_loss, 8);
    lemma_signed_fits(r.motor0_load_torque, 8);
    lemma_signed_fits(r.motor1_load_torque, 8);
    lemma_signed_fits(r.motor2_load_torque, 8);
    lemma_signed_fits(r.motor3_load_torque, 8);
    lemma_signed_fits(r.dribbler_load_torque, 8);
    lemma_signed_fits(r.measured_pos_x, 14);
    lemma_signed_fits(r.measured_pos_y, 14);
    lemma_signed_fits(r.measured_phi, 14);
    lemma_signed_fits(r.measured_vel_x, 15);
    lemma_signed_fits(r.measured_vel_y, 15);
    lemma_signed_fits(r.measured_omega, 14);
    lemma2_to64();
}

proof fn lemma_status_fit(r: RegularResponseData)
    requires
        r.status_fits(),
    ensures
        values_fit(r.motor0_status.slots(), MotorStatus::layout()),
        values_fit(r.motor1_status.slots(), MotorStatus::layout()),
        values_fit(r.motor2_status.slots(), MotorStatus::layout()),
        values_fit(r.motor3_status.slots(), MotorStatus::layout()),
        values_fit(r.dribbler_status.slots(), MotorStatus::layout()),
        values_fit(r.kicker_status.slots(), KickerStatus::layout()),
        values_fit(r.imu_status.slots(), IMUStatus::layout()),
        values_fit(r.sd_status.slots(), SdStatus::layout()),
{
    lemma2_to64();
}

proof fn lemma_response_fits(r: RegularResponseData)
    requires
        r.packable(),
    ensures
        values_fit(r.slots(), RegularResponseData::layout()),
{
    lemma_ends_fit(r);
    lemma_status_fit(r);
    let v0 = r.start_slots();
    let l0 = RegularResponseData::start_layout();
    let v1 = v0 + r.motor0_status.slots();
    let l1 = l0 + MotorStatus::layout();
    lemma_fit_concat(v0, l0, r.motor0_status.slots(), MotorStatus::layout());
    let v2 = v1 + r.motor1_status.slots();
    let l2 = l1 + MotorStatus::layout();
    lemma_fit_concat(v1, l1, r.motor1_status.slots(), MotorStatus::layout());
    let v3 = v2 + r.motor2_status.slots();
    let l3 = l2 + MotorStatus::layout();
    lemma_fit_concat(v2, l2, r.motor2_status.slots(), MotorStatus::layout());
    let v4 = v3 + r.motor3_status.slots();
    let l4 = l3 + MotorStatus::layout();
    lemma_fit_concat(v3, l3, r.motor3_status.slots(), MotorStatus::layout());
    let v5 = v4 + r.dribbler_status.slots();
    let l5 = l4 + MotorStatus::layout();
    lemma_fit_concat(v4, l4, r.dribbler_status.slots(), MotorStatus::layout());
    let v6 = v5 + r.kicker_status.slots();
    let l6 = l5 + KickerStatus::layout();
    lemma_fit_concat(v5, l5, r.kicker_status.slots(), KickerStatus::layout());
    let v7 = v6 + r.imu_status.slots();
    let l7 = l6 + IMUStatus::layout();
    lemma_fit_concat(v6, l6, r.imu_status.slots(), IMUStatus::layout());
    let v8 = v7 + r.sd_status.slots();
    let l8 = l7 + SdStatus::layout();
    lemma_fit_concat(v7, l7, r.sd_status.slots(), SdStatus::layout());
    lemma_fit_concat(v8, l8, r.end_slots(), RegularResponseData::end_layout());
}

proof fn lemma_part_offsets()
    ensures
        offset(RegularResponseData::start_layout(), 2) == 16,
        offset(MotorStatus::layout(), 4) == 8,
        offset(KickerStatus::layout(), 3) == 8,
        offset(IMUStatus::layout(), 2) == 8,
        offset(SdStatus::layout(), 4) == 8,
        offset(RegularResponseData::end_layout(), 14) == 144,
{
    reveal_with_fuel(offset, 15);
}

proof fn lemma_response_offset()
    ensures
        offset(RegularResponseData::layout(), 45) == 224,
{
    lemma_part_offsets();
    let l0 = RegularResponseData::start_layout();
    let l1 = l0 + MotorStatus::layout();
    lemma_offset_concat(l0, MotorStatus::layout(), 4);
    let l2 = l1 + MotorStatus::layout();
    lemma_offset_concat(l1, MotorStatus::layout(), 4);
    let l3 = l2 + MotorStatus::layout();
    lemma_offset_concat(l2, MotorStatus::layout(), 4);
    let l4 = l3 + MotorStatus::layout();
    lemma_offset_concat(l3, MotorStatus::layout(), 4);
    let l5 = l4 + MotorStatus::layout();
    lemma_offset_concat(l4, MotorStatus::layout(), 4);
    let l6 = l5 + KickerStatus::layout();
    lemma_offset_concat(l5, KickerStatus::layout(), 3);
    let l7 = l6 + IMUStatus::layout();
    lemma_offset_concat(l6, IMUStatus::layout(), 2);
    let l8 = l7 + SdStatus::layout();
    lemma_offset_concat(l7, SdStatus::layout(), 4);
    lemma_offset_concat(l8, RegularResponseData::end_layout(), 14);
}

/// A packed response has 28 bytes.
pub proof fn law_response_data_size(r: RegularResponseData)
    requires
        r.packable(),
    ensures
        r.bytes().len() == 28,
{
    lemma_response_fits(r);
    lemma_response_layout();
    lemma_response_offset();
    law_fields_round_trip(r.slots(), RegularResponseData::layout(), Seq::empty());
}

proof fn lemma_ends_read(a: RegularResponseData, b: RegularResponseData)
    requires
        a.canonical(),
        a.start_slots() == b.start_slots(),
        a.end_slots() == b.end_slots(),
    ensures
        a.battery == unsigned_clamped(b.battery, 8),
        a.packet_loss == unsigned_clamped(b.packet_loss, 8),
        a.motor0_load_torque == signed_clamped(b.motor0_load_torque, 8),
        a.motor1_load_torque == signed_clamped(b.motor1_load_torque, 8),
        a.motor2_load_torque == signed_clamped(b.motor2_load_torque, 8),
        a.motor3_load_torque == signed_clamped(b.motor3_load_torque, 8),
        a.dribbler_load_torque == signed_clamped(b.dribbler_load_torque, 8),
        a.measured_pos_x == signed_clamped(b.measured_pos_x, 14),
        a.measured_pos_y == signed_clamped(b.measured_pos_y, 14),
        a.measured_phi == signed_clamped(b.measured_phi, 14),
        a.measured_vel_x == signed_clamped(b.measured_vel_x, 15),
        a.measured_vel_y == signed_clamped(b.measured_vel_y, 15),
        a.measured_omega == signed_clamped(b.measured_omega, 14),
        a.power_enabled == b.power_enabled,
        a.ball_detected == b.ball_detected,
        a.unused == b.unused,
{
    let x = a.start_slots();
    let y = b.start_slots();
    assert(x[0] == y[0]);
    assert(x[1] == y[1]);
    lemma_unsigned_read(a.battery, b.battery, 8);
    lemma_unsigned_read(a.packet_loss, b.packet_loss, 8);
    let x = a.end_slots();
    let y = b.end_slots();
    assert(x[0] == y[0]);
    assert(x[1] == y[1]);
    assert(x[2] == y[2]);
    assert(x[3] == y[3]);
    assert(x[4] == y[4]);
    assert(x[5] == y[5]);
    assert(x[6] == y[6]);
    assert(x[7] == y[7]);
    assert(x[8] == y[8]);
    assert(x[9] == y[9]);
    assert(x[10] == y[10]);
    assert(x[11] == y[11]);
    assert(x[12] == y[12]);
    assert(x[13] == y[13]);
    lemma_signed_read(a.motor0_load_torque, b.motor0_load_torque, 8);
    lemma_signed_read(a.motor1_load_torque, b.motor1_load_torque, 8);
    lemma_signed_read(a.motor2_load_torque, b.motor2_load_torque, 8);
    lemma_signed_read(a.motor3_load_torque, b.motor3_load_torque, 8);
    lemma_signed_read(a.dribbler_load_torque, b.dribbler_load_torque, 8);
    lemma_signed_read(a.measured_pos_x, b.measured_pos_x, 14);
    lemma_signed_read(a.measured_pos_y, b.measured_pos_y, 14);
    lemma_signed_read(a.measured_phi, b.measured_phi, 14);
    lemma_signed_read(a.measured_vel_x, b.measured_vel_x, 15);
    lemma_signed_read(a.measured_vel_y, b.measured_vel_y, 15);
    lemma_signed_read(a.measured_omega, b.measured_omega, 14);
}

proof fn lemma_motor_read(a: MotorStatus, b: MotorStatus)
    requires
        a.slots() == b.slots(),
    ensures
        a == b,
{
    let x = a.slots();
    let y = b.slots();
    assert(x[0] == y[0]);
    assert(x[1] == y[1]);
    assert(x[2] == y[2]);
    assert(x[3] == y[3]);
}

proof fn lemma_kicker_read(a: KickerStatus, b: KickerStatus)
    requires
        a.slots() == b.slots(),
    ensures
        a == b,
{
    let x = a.slots();
    let y = b.slots();
    assert(x[0] == y[0]);
    assert(x[1] == y[1]);
    assert(x[2] == y[2]);
}

proof fn lemma_imu_read(a: IMUStatus, b: IMUStatus)
    requires
        a.slots() == b.slots(),
    ensures
        a == b,
{
    let x = a.slots();
    let y = b.slots();
    assert(x[0] == y[0]);
    assert(x[1] == y[1]);
}

proof fn lemma_sd_read(a: SdStatus, b: SdStatus)
    requires
        a.slots() == b.slots(),
    ensures
        a == b,
{
    let x = a.slots();
    let y = b.slots();
    assert(x[0] == y[0]);
    assert(x[1] == y[1]);
    assert(x[2] == y[2]);
    assert(x[3] == y[3]);
}

/// Equal responses have equal parts.
proof fn lemma_response_parts(a: RegularResponseData, b: RegularResponseData)
    requires
        a.slots() == b.slots(),
    ensures
        a.start_slots() == b.start_slots(),
        a.motor0_status.slots() == b.motor0_status.slots(),
        a.motor1_status.slots() == b.motor1_status.slots(),
        a.motor2_status.slots() == b.motor2_status.slots(),
        a.motor3_status.slots() == b.motor3_status.slots(),
        a.dribbler_status.slots() == b.dribbler_status.slots(),
        a.kicker_status.slots() == b.kicker_status.slots(),
        a.imu_status.slots() == b.imu_status.slots(),
        a.sd_status.slots() == b.sd_status.slots(),
        a.end_slots() == b.end_slots(),
{
    let x0 = a.start_slots();
    let y0 = b.start_slots();
    let x1 = x0 + a.motor0_status.slots();
    let y1 = y0 + b.motor0_status.slots();
    let x2 = x1 + a.motor1_status.slots();
    let y2 = y1 + b.motor1_status.slots();
    let x3 = x2 + a.motor2_status.slots();
    let y3 = y2 + b.motor2_status.slots();
    let x4 = x3 + a.motor3_status.slots();
    let y4 = y3 + b.motor3_status.slots();
    let x5 = x4 + a.dribbler_status.slots();
    let y5 = y4 + b.dribbler_status.slots();
    let x6 = x5 + a.kicker_status.slots();
    let y6 = y5 + b.kicker_status.slots();
    let x7 = x6 + a.imu_status.slots();
    let y7 = y6 + b.imu_status.slots();
    let x8 = x7 + a.sd_status.slots();
    let y8 = y7 + b.sd_status.slots();
    lemma_concat_parts(x8, a.end_slots(), y8, b.end_slots());
    lemma_concat_parts(x7, a.sd_status.slots(), y7, b.sd_status.slots());
    lemma_concat_parts(x6, a.imu_status.slots(), y6, b.imu_status.slots());
    lemma_concat_parts(x5, a.kicker_status.slots(), y5, b.kicker_status.slots());
    lemma_concat_parts(x4, a.dribbler_status.slots(), y4, b.dribbler_status.slots());
    lemma_concat_parts(x3, a.motor3_status.slots(), y3, b.motor3_status.slots());
    lemma_concat_parts(x2, a.motor2_status.slots(), y2, b.motor2_status.slots());
    lemma_concat_parts(x1, a.motor1_status.slots(), y1, b.motor1_status.slots());
    lemma_concat_parts(x0, a.motor0_status.slots(), y0, b.motor0_status.slots());
}

/// The fields determine the response in its range.
proof fn lemma_response_read(a: RegularResponseData, b: RegularResponseData)
    requires
        a.canonical(),
        a.slots() == b.slots(),
    ensures
        a == b.clamped(),
{
    lemma_response_parts(a, b);
    lemma_ends_read(a, b);
    lemma_status_read(a, b);
}

proof fn lemma_status_read(a: RegularResponseData, b: RegularResponseData)
    requires
        a.motor0_status.slots() == b.motor0_status.slots(),
        a.motor1_status.slots() == b.motor1_status.slots(),
        a.motor2_status.slots() == b.motor2_status.slots(),
        a.motor3_status.slots() == b.motor3_status.slots(),
        a.dribbler_status.slots() == b.dribbler_status.slots(),
        a.kicker_status.slots() == b.kicker_status.slots(),
        a.imu_status.slots() == b.imu_status.slots(),
        a.sd_status.slots() == b.sd_status.slots(),
    ensures
        a.motor0_status == b.motor0_status,
        a.motor1_status == b.motor1_status,
        a.motor2_status == b.motor2_status,
        a.motor3_status == b.motor3_status,
        a.dribbler_status == b.dribbler_status,
        a.kicker_status == b.kicker_status,
        a.imu_status == b.imu_status,
        a.sd_status == b.sd_status,
{
    lemma_motor_read(a.motor0_status, b.motor0_status);
    lemma_motor_read(a.motor1_status, b.motor1_status);
    lemma_motor_read(a.motor2_status, b.motor2_status);
    lemma_motor_read(a.motor3_status, b.motor3_status);
    lemma_motor_read(a.dribbler_status, b.dribbler_status);
    lemma_kicker_read(a.kicker_status, b.kicker_status);
    lemma_imu_read(a.imu_status, b.imu_status);
    lemma_sd_read(a.sd_status, b.sd_status);
}

/// What is read from a packed response is the response, with the codes moved into their ranges.
pub proof fn law_response_round_trip(
    r: RegularResponseData,
    rest: Seq<u8>,
    read: RegularResponseData,
)
    requires
        r.packable(),
        read.unpacked(r.bytes() + rest),
    ensures
        RegularResponseData::unpack_error(r.bytes() + rest) is None,
        read == r.clamped(),
        r.canonical() ==> read == r,
{
    lemma_response_fits(r);
    lemma_response_layout();
    lemma_response_offset();
    law_fields_round_trip(r.slots(), RegularResponseData::layout(), rest);
    lemma_response_read(read, r);
    lemma_response_canonical(r);
}

proof fn lemma_response_canonical(r: RegularResponseData)
    ensures
        r.canonical() ==> r.clamped() == r,
{
}

// ======== Places ========

/// All widths, one after the other.
spec fn widths() -> Seq<usize> {
    seq![8usize, 8, 1, 1, 1, 5, 1, 1, 1, 5, 1, 1, 1, 5, 1, 1, 1, 5, 1, 1, 1, 5, 1, 1, 6, 1, 7, 1, 1, 1, 5, 8, 8, 8, 8, 8, 14, 14, 14, 15, 15, 14, 1, 1, 16]
}

proof fn lemma_widths()
    ensures
        RegularResponseData::layout() == widths(),
        offset(widths(), 0) == 0,
        offset(widths(), 1) == 8,
        offset(widths(), 2) == 16,
        offset(widths(), 3) == 17,
        offset(widths(), 4) == 18,
        offset(widths(), 5) == 19,
        offset(widths(), 6) == 24,
        offset(widths(), 7) == 25,
        offset(widths(), 8) == 26,
        offset(widths(), 9) == 27,
        offset(widths(), 10) == 32,
        offset(widths(), 11) == 33,
        offset(widths(), 12) == 34,
        offset(widths(), 13) == 35,
        offset(widths(), 14) == 40,
        offset(widths(), 15) == 41,
        offset(widths(), 16) == 42,
        offset(widths(), 17) == 43,
        offset(widths(), 18) == 48,
        offset(widths(), 19) == 49,
        offset(widths(), 20) == 50,
        offset(widths(), 21) == 51,
        offset(widths(), 22) == 56,
        offset(widths(), 23) == 57,
        offset(widths(), 24) == 58,
        offset(widths(), 25) == 64,
        offset(widths(), 26) == 65,
        offset(widths(), 27) == 72,
        offset(widths(), 28) == 73,
        offset(widths(), 29) == 74,
        offset(widths(), 30) == 75,
        offset(widths(), 31) == 80,
        offset(widths(), 32) == 88,
        offset(widths(), 33) == 96,
        offset(widths(), 34) == 104,
        offset(widths(), 35) == 112,
        offset(widths(), 36) == 120,
        offset(widths(), 37) == 134,
        offset(widths(), 38) == 148,
        offset(widths(), 39) == 162,
        offset(widths(), 40) == 177,
        offset(widths(), 41) == 192,
        offset(widths(), 42) == 206,
        offset(widths(), 43) == 207,
        offset(widths(), 44) == 208,
{
    assert(RegularResponseData::layout() =~= widths());
    reveal_with_fuel(offset, 46);
}

/// The bytes from which a response with these fields is read.
spec fn spells(bytes: Seq<u8>, r: RegularResponseData) -> bool {
    decode(bits_of_bytes(bytes), RegularResponseData::layout()) == Ok::<Seq<u32>, UnpackError>(
        r.slots(),
    )
}

#[verifier::spinoff_prover]
#[verifier::rlimit(60)]
proof fn lemma_start_digits(bytes: Seq<u8>, r: RegularResponseData)
    requires
        spells(bytes, r),
    ensures
        digits_at(bytes, 0, 8) == r.start_slots()[0],
        digits_at(bytes, 8, 8) == r.start_slots()[1],
        digits_at(bytes, 16, 1) == r.motor0_status.slots()[0],
        digits_at(bytes, 17, 1) == r.motor0_status.slots()[1],
        digits_at(bytes, 18, 1) == r.motor0_status.slots()[2],
        digits_at(bytes, 19, 5) == r.motor0_status.slots()[3],
{
    lemma_widths();
    lemma_field_digits(bytes, widths(), 0);
    assert(r.slots()[0] == r.start_slots()[0]);
    lemma_field_digits(bytes, widths(), 1);
    assert(r.slots()[1] == r.start_slots()[1]);
    lemma_field_digits(bytes, widths(), 2);
    assert(r.slots()[2] == r.motor0_status.slots()[0]);
    lemma_field_digits(bytes, widths(), 3);
    assert(r.slots()[3] == r.motor0_status.slots()[1]);
    lemma_field_digits(bytes, widths(), 4);
    assert(r.slots()[4] == r.motor0_status.slots()[2]);
    lemma_field_digits(bytes, widths(), 5);
    assert(r.slots()[5] == r.motor0_status.slots()[3]);
}

#[verifier::spinoff_prover]
#[verifier::rlimit(60)]
proof fn lemma_front_digits(bytes: Seq<u8>, r: RegularResponseData)
    requires
        spells(bytes, r),
    ensures
        digits_at(bytes, 24, 1) == r.motor1_status.slots()[0],
        digits_at(bytes, 25, 1) == r.motor1_status.slots()[1],
        digits_at(bytes, 26, 1) == r.motor1_status.slots()[2],
        digits_at(bytes, 27, 5) == r.motor1_status.slots()[3],
        digits_at(bytes, 32, 1) == r.motor2_status.slots()[0],
        digits_at(bytes, 33, 1) == r.motor2_status.slots()[1],
        digits_at(bytes, 34, 1) == r.motor2_status.slots()[2],
        digits_at(bytes, 35, 5) == r.motor2_status.slots()[3],
{
    lemma_widths();
    lemma_field_digits(bytes, widths(), 6);
    assert(r.slots()[6] == r.motor1_status.slots()[0]);
    lemma_field_digits(bytes, widths(), 7);
    assert(r.slots()[7] == r.motor1_status.slots()[1]);
    lemma_field_digits(bytes, widths(), 8);
    assert(r.slots()[8] == r.motor1_status.slots()[2]);
    lemma_field_digits(bytes, widths(), 9);
    assert(r.slots()[9] == r.motor1_status.slots()[3]);
    lemma_field_digits(bytes, widths(), 10);
    assert(r.slots()[10] == r.motor2_status.slots()[0]);
    lemma_field_digits(bytes, widths(), 11);
    assert(r.slots()[11] == r.motor2_status.slots()[1]);
    lemma_field_digits(bytes, widths(), 12);
    assert(r.slots()[12] == r.motor2_status.slots()[2]);
    lemma_field_digits(bytes, widths(), 13);
    assert(r.slots()[13] == r.motor2_status.slots()[3]);
}

#[verifier::spinoff_prover]
#[verifier::rlimit(60)]
proof fn lemma_back_digits(bytes: Seq<u8>, r: RegularResponseData)
    requires
        spells(bytes, r),
    ensures
        digits_at(bytes, 40, 1) == r.motor3_status.slots()[0],
        digits_at(bytes, 41, 1) == r.motor3_status.slots()[1],
        digits_at(bytes, 42, 1) == r.motor3_status.slots()[2],
        digits_at(bytes, 43, 5) == r.motor3_status.slots()[3],
        digits_at(bytes, 48, 1) == r.dribbler_status.slots()[0],
        digits_at(bytes, 49, 1) == r.dribbler_status.slots()[1],
        digits_at(bytes, 50, 1) == r.dribbler_status.slots()[2],
        digits_at(bytes, 51, 5) == r.dribbler_status.slots()[3],
{
    lemma_widths();
    lemma_field_digits(bytes, widths(), 14);
    assert(r.slots()[14] == r.motor3_status.slots()[0]);
    lemma_field_digits(bytes, widths(), 15);
    assert(r.slots()[15] == r.motor3_status.slots()[1]);
    lemma_field_digits(bytes, widths(), 16);
    assert(r.slots()[16] == r.motor3_status.slots()[2]);
    lemma_field_digits(bytes, widths(), 17);
    assert(r.slots()[17] == r.motor3_status.slots()[3]);
    lemma_field_digits(bytes, widths(), 18);
    assert(r.slots()[18] == r.dribbler_status.slots()[0]);
    lemma_field_digits(bytes, widths(), 19);
    assert(r.slots()[19] == r.dribbler_status.slots()[1]);
    lemma_field_digits(bytes, widths(), 20);
    assert(r.slots()[20] == r.dribbler_status.slots()[2]);
    lemma_field_digits(bytes, widths(), 21);
    assert(r.slots()[21] == r.dribbler_status.slots()[3]);
}

#[verifier::spinoff_prover]
#[verifier::rlimit(60)]
proof fn lemma_status_digits(bytes: Seq<u8>, r: RegularResponseData)
    requires
        spells(bytes, r),
    ensures
        digits_at(bytes, 56, 1) == r.kicker_status.slots()[0],
        digits_at(bytes, 57, 1) == r.kicker_status.slots()[1],
        digits_at(bytes, 58, 6) == r.kicker_status.slots()[2],
        digits_at(bytes, 64, 1) == r.imu_status.slots()[0],
        digits_at(bytes, 65, 7) == r.imu_status.slots()[1],
        digits_at(bytes, 72, 1) == r.sd_status.slots()[0],
        digits_at(bytes, 73, 1) == r.sd_status.slots()[1],
        digits_at(bytes, 74, 1) == r.sd_status.slots()[2],
        digits_at(bytes, 75, 5) == r.sd_status.slots()[3],
{
    lemma_widths();
    lemma_field_digits(bytes, widths(), 22);
    assert(r.slots()[22] == r.kicker_status.slots()[0]);
    lemma_field_digits(bytes, widths(), 23);
    assert(r.slots()[23] == r.kicker_status.slots()[1]);
    lemma_field_digits(bytes, widths(), 24);
    assert(r.slots()[24] == r.kicker_status.slots()[2]);
    lemma_field_digits(bytes, widths(), 25);
    assert(r.slots()[25] == r.imu_status.slots()[0]);
    lemma_field_digits(bytes, widths(), 26);
    assert(r.slots()[26] == r.imu_status.slots()[1]);
    lemma_field_digits(bytes, widths(), 27);
    assert(r.slots()[27] == r.sd_status.slots()[0]);
    lemma_field_digits(bytes, widths(), 28);
    assert(r.slots()[28] == r.sd_status.slots()[1]);
    lemma_field_digits(bytes, widths(), 29);
    assert(r.slots()[29] == r.sd_status.slots()[2]);
    lemma_field_digits(bytes, widths(), 30);
    assert(r.slots()[30] == r.sd_status.slots()[3]);
}

#[verifier::spinoff_prover]
#[verifier::rlimit(60)]
proof fn lemma_torque_digits(bytes: Seq<u8>, r: RegularResponseData)
    requires
        spells(bytes, r),
    ensures
        digits_at(bytes, 80, 8) == r.end_slots()[0],
        digits_at(bytes, 88, 8) == r.end_slots()[1],
        digits_at(bytes, 96, 8) == r.end_slots()[2],
        digits_at(bytes, 104, 8) == r.end_slots()[3],
        digits_at(bytes, 112, 8) == r.end_slots()[4],
{
    lemma_widths();
    lemma_field_digits(bytes, widths(), 31);
    assert(r.slots()[31] == r.end_slots()[0]);
    lemma_field_digits(bytes, widths(), 32);
    assert(r.slots()[32] == r.end_slots()[1]);
    lemma_field_digits(bytes, widths(), 33);
    assert(r.slots()[33] == r.end_slots()[2]);
    lemma_field_digits(bytes, widths(), 34);
    assert(r.slots()[34] == r.end_slots()[3]);
    lemma_field_digits(bytes, widths(), 35);
    assert(r.slots()[35] == r.end_slots()[4]);
}

#[verifier::spinoff_prover]
#[verifier::rlimit(60)]
proof fn lemma_measured_digits(bytes: Seq<u8>, r: RegularResponseData)
    requires
        spells(bytes, r),
    ensures
        digits_at(bytes, 120, 14) == r.end_slots()[5],
        digits_at(bytes, 134, 14) == r.end_slots()[6],
        digits_at(bytes, 148, 14) == r.end_slots()[7],
        digits_at(bytes, 162, 15) == r.end_slots()[8],
        digits_at(bytes, 177, 15) == r.end_slots()[9],
        digits_at(bytes, 192, 14) == r.end_slots()[10],
        digits_at(bytes, 206, 1) == r.end_slots()[11],
        digits_at(bytes, 207, 1) == r.end_slots()[12],
        digits_at(bytes, 208, 16) == r.end_slots()[13],
{
    lemma_widths();
    lemma_field_digits(bytes, widths(), 36);
    assert(r.slots()[36] == r.end_slots()[5]);
    lemma_field_digits(bytes, widths(), 37);
    assert(r.slots()[37] == r.end_slots()[6]);
    lemma_field_digits(bytes, widths(), 38);
    assert(r.slots()[38] == r.end_slots()[7]);
    lemma_field_digits(bytes, widths(), 39);
    assert(r.slots()[39] == r.end_slots()[8]);
    lemma_field_digits(bytes, widths(), 40);
    assert(r.slots()[40] == r.end_slots()[9]);
    lemma_field_digits(bytes, widths(), 41);
    assert(r.slots()[41] == r.end_slots()[10]);
    lemma_field_digits(bytes, widths(), 42);
    assert(r.slots()[42] == r.end_slots()[11]);
    lemma_field_digits(bytes, widths(), 43);
    assert(r.slots()[43] == r.end_slots()[12]);
    lemma_field_digits(bytes, widths(), 44);
    assert(r.slots()[44] == r.end_slots()[13]);
}

proof fn lemma_start_places(bytes: Seq<u8>, r: RegularResponseData)
    requires
        spells(bytes, r),
        r.status_fits(),
    ensures
        carries_number(bytes, 0, 8, r.battery as nat),
        carries_number(bytes, 8, 8, r.packet_loss as nat),
        holds_flag(bytes, 16, r.motor0_status.error),
        holds_flag(bytes, 17, r.motor0_status.overheated),
        holds_flag(bytes, 18, r.motor0_status.encoder_error),
        holds_number(bytes, 19, 5, r.motor0_status.unused as nat),
        r.canonical() ==> holds_number(bytes, 0, 8, r.battery as nat),
        r.canonical() ==> holds_number(bytes, 8, 8, r.packet_loss as nat),
{
    lemma_start_digits(bytes, r);
    lemma2_to64();
    lemma_carries_number(bytes, 0, 8, r.battery);
    lemma_carries_number(bytes, 8, 8, r.packet_loss);
}

proof fn lemma_front_places(bytes: Seq<u8>, r: RegularResponseData)
    requires
        spells(bytes, r),
        r.status_fits(),
    ensures
        holds_flag(bytes, 24, r.motor1_status.error),
        holds_flag(bytes, 25, r.motor1_status.overheated),
        holds_flag(bytes, 26, r.motor1_status.encoder_error),
        holds_number(bytes, 27, 5, r.motor1_status.unused as nat),
        holds_flag(bytes, 32, r.motor2_status.error),
        holds_flag(bytes, 33, r.motor2_status.overheated),
        holds_flag(bytes, 34, r.motor2_status.encoder_error),
        holds_number(bytes, 35, 5, r.motor2_status.unused as nat),
{
    lemma_front_digits(bytes, r);
    lemma2_to64();
}

proof fn lemma_back_places(bytes: Seq<u8>, r: RegularResponseData)
    requires
        spells(bytes, r),
        r.status_fits(),
    ensures
        holds_flag(bytes, 40, r.motor3_status.error),
        holds_flag(bytes, 41, r.motor3_status.overheated),
        holds_flag(bytes, 42, r.motor3_status.encoder_error),
        holds_number(bytes, 43, 5, r.motor3_status.unused as nat),
        holds_flag(bytes, 48, r.dribbler_status.error),
        holds_flag(bytes, 49, r.dribbler_status.overheated),
        holds_flag(bytes, 50, r.dribbler_status.encoder_error),
        holds_number(bytes, 51, 5, r.dribbler_status.unused as nat),
{
    lemma_back_digits(bytes, r);
    lemma2_to64();
}

proof fn lemma_status_places(bytes: Seq<u8>, r: RegularResponseData)
    requires
        spells(bytes, r),
        r.status_fits(),
    ensures
        holds_flag(bytes, 56, r.kicker_status.error),
        holds_flag(bytes, 57, r.kicker_status.break_beam_error),
        holds_number(bytes, 58, 6, r.kicker_status.unused as nat),
        holds_flag(bytes, 64, r.imu_status.error),
        holds_number(bytes, 65, 7, r.imu_status.unused as nat),
        holds_flag(bytes, 72, r.sd_status.error),
        holds_flag(bytes, 73, r.sd_status.mounted),
        holds_flag(bytes, 74, r.sd_status.full),
        holds_number(bytes, 75, 5, r.sd_status.unused as nat),
{
    lemma_status_digits(bytes, r);
    lemma2_to64();
}

proof fn lemma_torque_places(bytes: Seq<u8>, r: RegularResponseData)
    requires
        spells(bytes, r),
        r.status_fits(),
    ensures
        carries_signed(bytes, 80, 8, r.motor0_load_torque as int),
        carries_signed(bytes, 88, 8, r.motor1_load_torque as int),
        carries_signed(bytes, 96, 8, r.motor2_load_torque as int),
        carries_signed(bytes, 104, 8, r.motor3_load_torque as int),
        carries_signed(bytes, 112, 8, r.dribbler_load_torque as int),
        r.canonical() ==> holds_signed(bytes, 80, 8, r.motor0_load_torque as int),
        r.canonical() ==> holds_signed(bytes, 88, 8, r.motor1_load_torque as int),
        r.canonical() ==> holds_signed(bytes, 96, 8, r.motor2_load_torque as int),
        r.canonical() ==> holds_signed(bytes, 104, 8, r.motor3_load_torque as int),
        r.canonical() ==> holds_signed(bytes, 112, 8, r.dribbler_load_torque as int),
{
    lemma_torque_digits(bytes, r);
    lemma2_to64();
    lemma_carries_signed(bytes, 80, 8, r.motor0_load_torque);
    lemma_carries_signed(bytes, 88, 8, r.motor1_load_torque);
    lemma_carries_signed(bytes, 96, 8, r.motor2_load_torque);
    lemma_carries_signed(bytes, 104, 8, r.motor3_load_torque);
    lemma_carries_signed(bytes, 112, 8, r.dribbler_load_torque);
}

proof fn lemma_measured_places(bytes: Seq<u8>, r: RegularResponseData)
    requires
        spells(bytes, r),
        r.status_fits(),
    ensures
        carries_signed(bytes, 120, 14, r.measured_pos_x as int),
        carries_signed(bytes, 134, 14, r.measured_pos_y as int),
        carries_signed(bytes, 148, 14, r.measured_phi as int),
        carries_signed(bytes, 162, 15, r.measured_vel_x as int),
        carries_signed(bytes, 177, 15, r.measured_vel_y as int),
        carries_signed(bytes, 192, 14, r.measured_omega as int),
        holds_flag(bytes, 206, r.power_enabled),
        holds_flag(bytes, 207, r.ball_detected),
        holds_number(bytes, 208, 16, r.unused as nat),
        r.canonical() ==> holds_signed(bytes, 120, 14, r.measured_pos_x as int),
        r.canonical() ==> holds_signed(bytes, 134, 14, r.measured_pos_y as int),
        r.canonical() ==> holds_signed(bytes, 148, 14, r.measured_phi as int),
        r.canonical() ==> holds_signed(bytes, 162, 15, r.measured_vel_x as int),
        r.canonical() ==> holds_signed(bytes, 177, 15, r.measured_vel_y as int),
        r.canonical() ==> holds_signed(bytes, 192, 14, r.measured_omega as int),
{
    lemma_measured_digits(bytes, r);
    lemma2_to64();
    lemma_carries_signed(bytes, 120, 14, r.measured_pos_x);
    lemma_carries_signed(bytes, 134, 14, r.measured_pos_y);
    lemma_carries_signed(bytes, 148, 14, r.measured_phi);
    lemma_carries_signed(bytes, 162, 15, r.measured_vel_x);
    lemma_carries_signed(bytes, 177, 15, r.measured_vel_y);
    lemma_carries_signed(bytes, 192, 14, r.measured_omega);
}

/// Where the parts of a packed response stand, whatever follows it: each part has its own range of
/// binary digits, numbers are clamped to what fits, and signed numbers are in two's complement.
pub proof fn law_response_places(r: RegularResponseData, rest: Seq<u8>)
    requires
        r.packable(),
    ensures
        carries_number(r.bytes() + rest, 0, 8, r.battery as nat),
        carries_number(r.bytes() + rest, 8, 8, r.packet_loss as nat),
        holds_flag(r.bytes() + rest, 16, r.motor0_status.error),
        holds_flag(r.bytes() + rest, 17, r.motor0_status.overheated),
        holds_flag(r.bytes() + rest, 18, r.motor0_status.encoder_error),
        holds_number(r.bytes() + rest, 19, 5, r.motor0_status.unused as nat),
        holds_flag(r.bytes() + rest, 24, r.motor1_status.error),
        holds_flag(r.bytes() + rest, 25, r.motor1_status.overheated),
        holds_flag(r.bytes() + rest, 26, r.motor1_status.encoder_error),
        holds_number(r.bytes() + rest, 27, 5, r.motor1_status.unused as nat),
        holds_flag(r.bytes() + rest, 32, r.motor2_status.error),
        holds_flag(r.bytes() + rest, 33, r.motor2_status.overheated),
        holds_flag(r.bytes() + rest, 34, r.motor2_status.encoder_error),
        holds_number(r.bytes() + rest, 35, 5, r.motor2_status.unused as nat),
        holds_flag(r.bytes() + rest, 40, r.motor3_status.error),
        holds_flag(r.bytes() + rest, 41, r.motor3_status.overheated),
        holds_flag(r.bytes() + rest, 42, r.motor3_status.encoder_error),
        holds_number(r.bytes() + rest, 43, 5, r.motor3_status.unused as nat),
        holds_flag(r.bytes() + rest, 48, r.dribbler_status.error),
        holds_flag(r.bytes() + rest, 49, r.dribbler_status.overheated),
        holds_flag(r.bytes() + rest, 50, r.dribbler_status.encoder_error),
        holds_number(r.bytes() + rest, 51, 5, r.dribbler_status.unused as nat),
        holds_flag(r.bytes() + rest, 56, r.kicker_status.error),
        holds_flag(r.bytes() + rest, 57, r.kicker_status.break_beam_error),
        holds_number(r.bytes() + rest, 58, 6, r.kicker_status.unused as nat),
        holds_flag(r.bytes() + rest, 64, r.imu_status.error),
        holds_number(r.bytes() + rest, 65, 7, r.imu_status.unused as nat),
        holds_flag(r.bytes() + rest, 72, r.sd_status.error),
        holds_flag(r.bytes() + rest, 73, r.sd_status.mounted),
        holds_flag(r.bytes() + rest, 74, r.sd_status.full),
        holds_number(r.bytes() + rest, 75, 5, r.sd_status.unused as nat),
        carries_signed(r.bytes() + rest, 80, 8, r.motor0_load_torque as int),
        carries_signed(r.bytes() + rest, 88, 8, r.motor1_load_torque as int),
        carries_signed(r.bytes() + rest, 96, 8, r.motor2_load_torque as int),
        carries_signed(r.bytes() + rest, 104, 8, r.motor3_load_torque as int),
        carries_signed(r.bytes() + rest, 112, 8, r.dribbler_load_torque as int),
        carries_signed(r.bytes() + rest, 120, 14, r.measured_pos_x as int),
        carries_signed(r.bytes() + rest, 134, 14, r.measured_pos_y as int),
        carries_signed(r.bytes() + rest, 148, 14, r.measured_phi as int),
        carries_signed(r.bytes() + rest, 162, 15, r.measured_vel_x as int),
        carries_signed(r.bytes() + rest, 177, 15, r.measured_vel_y as int),
        carries_signed(r.bytes() + rest, 192, 14, r.measured_omega as int),
        holds_flag(r.bytes() + rest, 206, r.power_enabled),
        holds_flag(r.bytes() + rest, 207, r.ball_detected),
        holds_number(r.bytes() + rest, 208, 16, r.unused as nat),
{
    let b = r.bytes() + rest;
    lemma_response_fits(r);
    lemma_response_layout();
    lemma_response_offset();
    law_fields_round_trip(r.slots(), RegularResponseData::layout(), rest);
    lemma_start_places(b, r);
    lemma_front_places(b, r);
    lemma_back_places(b, r);
    lemma_status_places(b, r);
    lemma_torque_places(b, r);
    lemma_measured_places(b, r);
}

/// Where the parts of a response were read from.
pub proof fn law_response_read_places(r: RegularResponseData, bytes: Seq<u8>)
    requires
        r.unpacked(bytes),
    ensures
        holds_number(bytes, 0, 8, r.battery as nat),
        holds_number(bytes, 8, 8, r.packet_loss as nat),
        holds_flag(bytes, 16, r.motor0_status.error),
        holds_flag(bytes, 17, r.motor0_status.overheated),
        holds_flag(bytes, 18, r.motor0_status.encoder_error),
        holds_number(bytes, 19, 5, r.motor0_status.unused as nat),
        holds_flag(bytes, 24, r.motor1_status.error),
        holds_flag(bytes, 25, r.motor1_status.overheated),
        holds_flag(bytes, 26, r.motor1_status.encoder_error),
        holds_number(bytes, 27, 5, r.motor1_status.unused as nat),
        holds_flag(bytes, 32, r.motor2_status.error),
        holds_flag(bytes, 33, r.motor2_status.overheated),
        holds_flag(bytes, 34, r.motor2_status.encoder_error),
        holds_number(bytes, 35, 5, r.motor2_status.unused as nat),
        holds_flag(bytes, 40, r.motor3_status.error),
        holds_flag(bytes, 41, r.motor3_status.overheated),
        holds_flag(bytes, 42, r.motor3_status.encoder_error),
        holds_number(bytes, 43, 5, r.motor3_status.unused as nat),
        holds_flag(bytes, 48, r.dribbler_status.error),
        holds_flag(bytes, 49, r.dribbler_status.overheated),
        holds_flag(bytes, 50, r.dribbler_status.encoder_error),
        holds_number(bytes, 51, 5, r.dribbler_status.unused as nat),
        holds_flag(bytes, 56, r.kicker_status.error),
        holds_flag(bytes, 57, r.kicker_status.break_beam_error),
        holds_number(bytes, 58, 6, r.kicker_status.unused as nat),
        holds_flag(bytes, 64, r.imu_status.error),
        holds_number(bytes, 65, 7, r.imu_status.unused as nat),
        holds_flag(bytes, 72, r.sd_status.error),
        holds_flag(bytes, 73, r.sd_status.mounted),
        holds_flag(bytes, 74, r.sd_status.full),
        holds_number(bytes, 75, 5, r.sd_status.unused as nat),
        holds_signed(bytes, 80, 8, r.motor0_load_torque as int),
        holds_signed(bytes, 88, 8, r.motor1_load_torque as int),
        holds_signed(bytes, 96, 8, r.motor2_load_torque as int),
        holds_signed(bytes, 104, 8, r.motor3_load_torque as int),
        holds_signed(bytes, 112, 8, r.dribbler_load_torque as int),
        holds_signed(bytes, 120, 14, r.measured_pos_x as int),
        holds_signed(bytes, 134, 14, r.measured_pos_y as int),
        holds_signed(bytes, 148, 14, r.measured_phi as int),
        holds_signed(bytes, 162, 15, r.measured_vel_x as int),
        holds_signed(bytes, 177, 15, r.measured_vel_y as int),
        holds_signed(bytes, 192, 14, r.measured_omega as int),
        holds_flag(bytes, 206, r.power_enabled),
        holds_flag(bytes, 207, r.ball_detected),
        holds_number(bytes, 208, 16, r.unused as nat),
{
    let b = bytes;
    lemma_start_places(b, r);
    lemma_front_places(b, r);
    lemma_back_places(b, r);
    lemma_status_places(b, r);
    lemma_torque_places(b, r);
    lemma_measured_places(b, r);
}

/// A response is read from any 28 bytes, and not from fewer. It can be packed exactly if the unused
/// bits of its status bytes fit.
pub proof fn law_response_complete(r: RegularResponseData, bytes: Seq<u8>)
    ensures
        RegularResponseData::unpack_error(bytes) is None <==> bytes.len() >= 28,
        r.packable() <==> {
            &&& r.motor0_status.unused < 32
            &&& r.motor1_status.unused < 32
            &&& r.motor2_status.unused < 32
            &&& r.motor3_status.unused < 32
            &&& r.dribbler_status.unused < 32
            &&& r.kicker_status.unused < 64
            &&& r.imu_status.unused < 128
            &&& r.sd_status.unused < 32
        },
{
    lemma_response_layout();
    lemma_response_offset();
    lemma_decodes(bits_of_bytes(bytes), RegularResponseData::layout());
}

// ======== Defaults ========

/// Whether a motor reports no error.
pub open spec fn in_order(motor: MotorStatus) -> bool {
    !motor.error && !motor.overheated && !motor.encoder_error && motor.unused == 0
}

/// The default response reports no errors, and zeros for all that is measured.
pub proof fn law_default_response(r: RegularResponseData)
    requires
        call_ensures(RegularResponseData::default, (), r),
    ensures
        r.battery == 0 && r.packet_loss == 0 && r.unused == 0,
        !r.power_enabled && !r.ball_detected,
        in_order(r.motor0_status) && in_order(r.motor1_status) && in_order(r.motor2_status),
        in_order(r.motor3_status) && in_order(r.dribbler_status),
        !r.kicker_status.error && !r.kicker_status.break_beam_error && r.kicker_status.unused == 0,
        !r.imu_status.error && r.imu_status.unused == 0,
        !r.sd_status.error && !r.sd_status.mounted && !r.sd_status.full && r.sd_status.unused == 0,
        r.motor0_load_torque == 0 && r.motor1_load_torque == 0 && r.motor2_load_torque == 0
            && r.motor3_load_torque == 0 && r.dribbler_load_torque == 0,
        r.measured_pos_x == 0 && r.measured_pos_y == 0 && r.measured_phi == 0,
        r.measured_vel_x == 0 && r.measured_vel_y == 0 && r.measured_omega == 0,
{
}

} // verus!
