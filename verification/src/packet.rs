//! Radio packets.
//!
//! Real numbers are carried as integer codes. A signed code of `n` bits maps the range of its
//! quantity to `-2^(n-1) .. 2^(n-1) - 1`, an unsigned code of `n` bits maps it to `0 .. 2^n - 1`.
//! The structs below hold the codes. A code outside its range is moved to the nearest code inside
//! it when the packet is packed.

use crate::protocol::bits::{
    bits_of_bytes, bytes_of_bits, decode, encode, first_missing, law_fields_round_trip, layout_ok,
    lemma_field_bound, lemma_first_missing, lemma_offset_prefix, offset, read_fields, values_fit, write_fields, UnpackError,
};
use crate::protocol::deku_helpers::{
    clamp_int, clamp_uint, int_field, int_from_field, int_to_field, law_int_field, uint_to_field,
    DekuPackedSize, PackBytes, UnpackBytes,
};
use vstd::arithmetic::power2::{lemma2_to64, lemma_pow2_pos, pow2};
use vstd::prelude::*;

pub mod deku_helpers;
pub mod places;
pub mod radio;
pub mod response;

verus! {

pub const PACKET_SIZE: usize = 29;

pub const DATAGRAM_CHUNK_SIZE: usize = PACKET_SIZE - 2;

pub const MAX_CHUNKS_PER_DATAGRAM: usize = 20;

// ======== Fields ========

/// The field of a flag.
pub open spec fn flag(b: bool) -> u32 {
    if b { 1 } else { 0 }
}

/// The field of a signed code.
pub open spec fn signed(y: i32, width: nat) -> u32 {
    int_field(y as int, width) as u32
}

/// The field of an unsigned code.
pub open spec fn unsigned(y: u32, width: nat) -> u32 {
    clamp_uint(y as int, width) as u32
}

/// A signed code within its range.
pub open spec fn signed_ok(y: i32, width: nat) -> bool {
    clamp_int(y as int, width) == y
}

/// An unsigned code within its range.
pub open spec fn unsigned_ok(y: u32, width: nat) -> bool {
    y < pow2(width)
}

/// A signed code, moved into its range.
pub open spec fn signed_clamped(y: i32, width: nat) -> i32 {
    clamp_int(y as int, width) as i32
}

/// An unsigned code, moved into its range.
pub open spec fn unsigned_clamped(y: u32, width: nat) -> u32 {
    clamp_uint(y as int, width) as u32
}

pub(crate) fn flag_field(b: bool) -> (f: u32)
    ensures
        f == flag(b),
{
    if b { 1 } else { 0 }
}

// ======== Command (PC -> Robot) ========

/// Path of a trajectory, by codes.
#[derive(Clone, Copy, Debug, PartialEq, Eq, Structural)]
pub struct TrajectoryPath {
    /// 11 bits for -8 m to 8 m
    pub start_pos_x: i32,
    /// 11 bits for -8 m to 8 m
    pub start_pos_y: i32,
    /// 9 bits for -pi to pi
    pub start_phi: i32,
    /// 12 bits for -6 m/s to 6 m/s
    pub start_vel_x: i32,
    /// 12 bits for -6 m/s to 6 m/s
    pub start_vel_y: i32,
    /// 9 bits for -pi to pi
    pub end_phi: i32,
    /// 12 bits for -6 m/s to 6 m/s
    pub end_vel_x: i32,
    /// 12 bits for -6 m/s to 6 m/s. A packed path carries `end_vel_x` in this place.
    pub end_vel_y: i32,
    /// 15 bits for -pi to pi
    pub alpha: i32,
    /// 15 bits for 0 s to 40 s
    pub t: u32,
    /// 12 bits for 0 to 15 m/s^2
    pub acceleration: u32,
    /// 12 bits for 0 to 6 m/s
    pub v_max: u32,
    /// 9 bits for 0 s to 1 s
    pub slow_down_time: u32,
    pub is_fast_endspeed: bool,
}

impl Default for TrajectoryPath {
    fn default() -> (d: TrajectoryPath)
        ensures
            d == (TrajectoryPath {
                start_pos_x: 0,
                start_pos_y: 0,
                start_phi: 0,
                start_vel_x: 0,
                start_vel_y: 0,
                end_phi: 0,
                end_vel_x: 0,
                end_vel_y: 0,
                alpha: 0,
                t: 0,
                acceleration: 0,
                v_max: 0,
                slow_down_time: 0,
                is_fast_endspeed: false,
            }),
    {
        TrajectoryPath {
            start_pos_x: 0,
            start_pos_y: 0,
            start_phi: 0,
            start_vel_x: 0,
            start_vel_y: 0,
            end_phi: 0,
            end_vel_x: 0,
            end_vel_y: 0,
            alpha: 0,
            t: 0,
            acceleration: 0,
            v_max: 0,
            slow_down_time: 0,
            is_fast_endspeed: false,
        }
    }
}

impl TrajectoryPath {
    pub open spec fn layout() -> Seq<usize> {
        seq![11usize, 11, 9, 12, 12, 9, 12, 12, 15, 15, 12, 12, 9, 1]
    }

    /// The fields, each in its own place.
    pub open spec fn slots(&self) -> Seq<u32> {
        seq![
            signed(self.start_pos_x, 11),
            signed(self.start_pos_y, 11),
            signed(self.start_phi, 9),
            signed(self.start_vel_x, 12),
            signed(self.start_vel_y, 12),
            signed(self.end_phi, 9),
            signed(self.end_vel_x, 12),
            signed(self.end_vel_y, 12),
            signed(self.alpha, 15),
            unsigned(self.t, 15),
            unsigned(self.acceleration, 12),
            unsigned(self.v_max, 12),
            unsigned(self.slow_down_time, 9),
            flag(self.is_fast_endspeed),
        ]
    }

    /// The path that is sent: both end velocities are `end_vel_x`.
    pub open spec fn sent(&self) -> TrajectoryPath {
        TrajectoryPath { end_vel_y: self.end_vel_x, ..*self }
    }

    /// All codes are within their ranges.
    pub open spec fn canonical(&self) -> bool {
        &&& signed_ok(self.start_pos_x, 11)
        &&& signed_ok(self.start_pos_y, 11)
        &&& signed_ok(self.start_phi, 9)
        &&& signed_ok(self.start_vel_x, 12)
        &&& signed_ok(self.start_vel_y, 12)
        &&& signed_ok(self.end_phi, 9)
        &&& signed_ok(self.end_vel_x, 12)
        &&& signed_ok(self.end_vel_y, 12)
        &&& signed_ok(self.alpha, 15)
        &&& unsigned_ok(self.t, 15)
        &&& unsigned_ok(self.acceleration, 12)
        &&& unsigned_ok(self.v_max, 12)
        &&& unsigned_ok(self.slow_down_time, 9)
    }

    /// The path with all codes moved into their ranges.
    pub open spec fn clamped(&self) -> TrajectoryPath {
        TrajectoryPath {
            start_pos_x: signed_clamped(self.start_pos_x, 11),
            start_pos_y: signed_clamped(self.start_pos_y, 11),
            start_phi: signed_clamped(self.start_phi, 9),
            start_vel_x: signed_clamped(self.start_vel_x, 12),
            start_vel_y: signed_clamped(self.start_vel_y, 12),
            end_phi: signed_clamped(self.end_phi, 9),
            end_vel_x: signed_clamped(self.end_vel_x, 12),
            end_vel_y: signed_clamped(self.end_vel_y, 12),
            alpha: signed_clamped(self.alpha, 15),
            t: unsigned_clamped(self.t, 15),
            acceleration: unsigned_clamped(self.acceleration, 12),
            v_max: unsigned_clamped(self.v_max, 12),
            slow_down_time: unsigned_clamped(self.slow_down_time, 9),
            is_fast_endspeed: self.is_fast_endspeed,
        }
    }

    fn push_layout(out: &mut Vec<usize>)
        ensures
            final(out)@ == old(out)@ + Self::layout(),
    {
        let widths: Vec<usize> = vec![11, 11, 9, 12, 12, 9, 12, 12, 15, 15, 12, 12, 9, 1];
        out.extend_from_slice(widths.as_slice());
        proof {
            assert(widths@ =~= Self::layout());
            assert(out@ =~= old(out)@ + Self::layout());
        }
    }

    fn push_fields(&self, out: &mut Vec<u32>)
        ensures
            final(out)@ == old(out)@ + self.sent().slots(),
    {
        out.push(int_to_field(self.start_pos_x, 11));
        out.push(int_to_field(self.start_pos_y, 11));
        out.push(int_to_field(self.start_phi, 9));
        out.push(int_to_field(self.start_vel_x, 12));
        out.push(int_to_field(self.start_vel_y, 12));
        out.push(int_to_field(self.end_phi, 9));
        out.push(int_to_field(self.end_vel_x, 12));
        out.push(int_to_field(self.end_vel_x, 12));
        out.push(int_to_field(self.alpha, 15));
        out.push(uint_to_field(self.t, 15));
        out.push(uint_to_field(self.acceleration, 12));
        out.push(uint_to_field(self.v_max, 12));
        out.push(uint_to_field(self.slow_down_time, 9));
        out.push(flag_field(self.is_fast_endspeed));
        proof {
            assert(out@ =~= old(out)@ + self.sent().slots());
        }
    }

    /// Reads a path from the fields that start at `at`.
    fn from_fields(fields: &Vec<u32>, at: usize) -> (path: TrajectoryPath)
        requires
            fields_fit(fields@, at as int, Self::layout()),
        ensures
            path.canonical(),
            fields@.subrange(at as int, at + 14) == path.slots(),
    {
        assert(fields.len() == fields@.len());
        proof {
            lemma_fit(fields@, at as int, Self::layout());
            lemma2_to64();
        }
        let path = TrajectoryPath {
            start_pos_x: int_from_field(fields[at], 11),
            start_pos_y: int_from_field(fields[at + 1], 11),
            start_phi: int_from_field(fields[at + 2], 9),
            start_vel_x: int_from_field(fields[at + 3], 12),
            start_vel_y: int_from_field(fields[at + 4], 12),
            end_phi: int_from_field(fields[at + 5], 9),
            end_vel_x: int_from_field(fields[at + 6], 12),
            end_vel_y: int_from_field(fields[at + 7], 12),
            alpha: int_from_field(fields[at + 8], 15),
            t: fields[at + 9],
            acceleration: fields[at + 10],
            v_max: fields[at + 11],
            slow_down_time: fields[at + 12],
            is_fast_endspeed: fields[at + 13] == 1,
        };
        proof {
            assert(fields@.subrange(at as int, at + 14) =~= path.slots());
        }
        path
    }
}

/// Cubic spline in each coordinate, by codes.
#[derive(Clone, Copy, Debug, PartialEq, Eq, Structural)]
pub struct Spline {
    /// 11 bits for -8 m to 8 m
    pub x_pos: i32,
    /// 12 bits for -6 m/s to 6 m/s
    pub x_vel: i32,
    /// 13 bits for -15 to 15 m/s^2
    pub x_acc: i32,
    /// 15 bits for -100 to 100 m/s^3
    pub x_jerk: i32,
    /// 11 bits for -8 m to 8 m
    pub y_pos: i32,
    /// 12 bits for -6 m/s to 6 m/s
    pub y_vel: i32,
    /// 13 bits for -15 to 15 m/s^2
    pub y_acc: i32,
    /// 15 bits for -100 to 100 m/s^3
    pub y_jerk: i32,
    /// 9 bits for -pi to pi
    pub phi_pos: i32,
    /// 10 bits for -20 pi/s to 20 pi/s
    pub phi_vel: i32,
    /// 14 bits for -15000 to 15000 rad/s^2
    pub phi_acc: i32,
    /// 17 bits for -400000 to 400000 rad/s^3
    pub phi_jerk: i32,
}

impl Default for Spline {
    fn default() -> (d: Spline)
        ensures
            d == (Spline {
                x_pos: 0,
                x_vel: 0,
                x_acc: 0,
                x_jerk: 0,
                y_pos: 0,
                y_vel: 0,
                y_acc: 0,
                y_jerk: 0,
                phi_pos: 0,
                phi_vel: 0,
                phi_acc: 0,
                phi_jerk: 0,
            }),
    {
        Spline {
            x_pos: 0,
            x_vel: 0,
            x_acc: 0,
            x_jerk: 0,
            y_pos: 0,
            y_vel: 0,
            y_acc: 0,
            y_jerk: 0,
            phi_pos: 0,
            phi_vel: 0,
            phi_acc: 0,
            phi_jerk: 0,
        }
    }
}

impl Spline {
    pub open spec fn layout() -> Seq<usize> {
        seq![11usize, 12, 13, 15, 11, 12, 13, 15, 9, 10, 14, 17]
    }

    /// The fields, each in its own place.
    pub open spec fn slots(&self) -> Seq<u32> {
        seq![
            signed(self.x_pos, 11),
            signed(self.x_vel, 12),
            signed(self.x_acc, 13),
            signed(self.x_jerk, 15),
            signed(self.y_pos, 11),
            signed(self.y_vel, 12),
            signed(self.y_acc, 13),
            signed(self.y_jerk, 15),
            signed(self.phi_pos, 9),
            signed(self.phi_vel, 10),
            signed(self.phi_acc, 14),
            signed(self.phi_jerk, 17),
        ]
    }

    /// All codes are within their ranges.
    pub open spec fn canonical(&self) -> bool {
        &&& signed_ok(self.x_pos, 11)
        &&& signed_ok(self.x_vel, 12)
        &&& signed_ok(self.x_acc, 13)
        &&& signed_ok(self.x_jerk, 15)
        &&& signed_ok(self.y_pos, 11)
        &&& signed_ok(self.y_vel, 12)
        &&& signed_ok(self.y_acc, 13)
        &&& signed_ok(self.y_jerk, 15)
        &&& signed_ok(self.phi_pos, 9)
        &&& signed_ok(self.phi_vel, 10)
        &&& signed_ok(self.phi_acc, 14)
        &&& signed_ok(self.phi_jerk, 17)
    }

    /// The spline with all codes moved into their ranges.
    pub open spec fn clamped(&self) -> Spline {
        Spline {
            x_pos: signed_clamped(self.x_pos, 11),
            x_vel: signed_clamped(self.x_vel, 12),
            x_acc: signed_clamped(self.x_acc, 13),
            x_jerk: signed_clamped(self.x_jerk, 15),
            y_pos: signed_clamped(self.y_pos, 11),
            y_vel: signed_clamped(self.y_vel, 12),
            y_acc: signed_clamped(self.y_acc, 13),
            y_jerk: signed_clamped(self.y_jerk, 15),
            phi_pos: signed_clamped(self.phi_pos, 9),
            phi_vel: signed_clamped(self.phi_vel, 10),
            phi_acc: signed_clamped(self.phi_acc, 14),
            phi_jerk: signed_clamped(self.phi_jerk, 17),
        }
    }

    fn push_layout(out: &mut Vec<usize>)
        ensures
            final(out)@ == old(out)@ + Self::layout(),
    {
        let widths: Vec<usize> = vec![11, 12, 13, 15, 11, 12, 13, 15, 9, 10, 14, 17];
        out.extend_from_slice(widths.as_slice());
        proof {
            assert(widths@ =~= Self::layout());
            assert(out@ =~= old(out)@ + Self::layout());
        }
    }

    fn push_fields(&self, out: &mut Vec<u32>)
        ensures
            final(out)@ == old(out)@ + self.slots(),
    {
        out.push(int_to_field(self.x_pos, 11));
        out.push(int_to_field(self.x_vel, 12));
        out.push(int_to_field(self.x_acc, 13));
        out.push(int_to_field(self.x_jerk, 15));
        out.push(int_to_field(self.y_pos, 11));
        out.push(int_to_field(self.y_vel, 12));
        out.push(int_to_field(self.y_acc, 13));
        out.push(int_to_field(self.y_jerk, 15));
        out.push(int_to_field(self.phi_pos, 9));
        out.push(int_to_field(self.phi_vel, 10));
        out.push(int_to_field(self.phi_acc, 14));
        out.push(int_to_field(self.phi_jerk, 17));
        proof {
            assert(out@ =~= old(out)@ + self.slots());
        }
    }

    /// Reads a spline from the fields that start at `at`.
    fn from_fields(fields: &Vec<u32>, at: usize) -> (spline: Spline)
        requires
            fields_fit(fields@, at as int, Self::layout()),
        ensures
            spline.canonical(),
            fields@.subrange(at as int, at + 12) == spline.slots(),
    {
        assert(fields.len() == fields@.len());
        proof {
            lemma_fit(fields@, at as int, Self::layout());
            lemma2_to64();
        }
        let spline = Spline {
            x_pos: int_from_field(fields[at], 11),
            x_vel: int_from_field(fields[at + 1], 12),
            x_acc: int_from_field(fields[at + 2], 13),
            x_jerk: int_from_field(fields[at + 3], 15),
            y_pos: int_from_field(fields[at + 4], 11),
            y_vel: int_from_field(fields[at + 5], 12),
            y_acc: int_from_field(fields[at + 6], 13),
            y_jerk: int_from_field(fields[at + 7], 15),
            phi_pos: int_from_field(fields[at + 8], 9),
            phi_vel: int_from_field(fields[at + 9], 10),
            phi_acc: int_from_field(fields[at + 10], 14),
            phi_jerk: int_from_field(fields[at + 11], 17),
        };
        proof {
            assert(fields@.subrange(at as int, at + 12) =~= spline.slots());
        }
        spline
    }
}

/// Current target trajectory.
#[derive(Clone, Copy, Debug, PartialEq, Eq, Structural)]
pub enum Trajectory {
    Halt,
    Path(TrajectoryPath),
    GlobalSpline(Spline),
    LocalSpline(Spline),
}

impl Default for Trajectory {
    fn default() -> (t: Trajectory)
        ensures
            t == Trajectory::Halt,
    {
        Trajectory::Halt
    }
}

impl Trajectory {
    /// The number that stands for the kind of trajectory.
    pub open spec fn tag(&self) -> u32 {
        match self {
            Trajectory::Halt => 0,
            Trajectory::Path(_) => 1,
            Trajectory::GlobalSpline(_) => 2,
            Trajectory::LocalSpline(_) => 3,
        }
    }

    /// The fields of the trajectories of a kind.
    pub open spec fn layout_of(tag: u32) -> Seq<usize> {
        if tag == 1 {
            TrajectoryPath::layout()
        } else if tag == 2 || tag == 3 {
            Spline::layout()
        } else {
            Seq::empty()
        }
    }

    pub open spec fn slots(&self) -> Seq<u32> {
        match self {
            Trajectory::Halt => Seq::empty(),
            Trajectory::Path(p) => p.slots(),
            Trajectory::GlobalSpline(s) => s.slots(),
            Trajectory::LocalSpline(s) => s.slots(),
        }
    }

    /// The trajectory that is sent.
    pub open spec fn sent(&self) -> Trajectory {
        match self {
            Trajectory::Path(p) => Trajectory::Path(p.sent()),
            other => *other,
        }
    }

    pub open spec fn canonical(&self) -> bool {
        match self {
            Trajectory::Halt => true,
            Trajectory::Path(p) => p.canonical(),
            Trajectory::GlobalSpline(s) => s.canonical(),
            Trajectory::LocalSpline(s) => s.canonical(),
        }
    }

    pub open spec fn clamped(&self) -> Trajectory {
        match self {
            Trajectory::Halt => Trajectory::Halt,
            Trajectory::Path(p) => Trajectory::Path(p.clamped()),
            Trajectory::GlobalSpline(s) => Trajectory::GlobalSpline(s.clamped()),
            Trajectory::LocalSpline(s) => Trajectory::LocalSpline(s.clamped()),
        }
    }

    fn tag_field(&self) -> (tag: u32)
        ensures
            tag == self.tag(),
    {
        match self {
            Trajectory::Halt => 0,
            Trajectory::Path(_) => 1,
            Trajectory::GlobalSpline(_) => 2,
            Trajectory::LocalSpline(_) => 3,
        }
    }

    fn push_layout(tag: u32, out: &mut Vec<usize>)
        ensures
            final(out)@ == old(out)@ + Self::layout_of(tag),
    {
        if tag == 1 {
            TrajectoryPath::push_layout(out);
        } else if tag == 2 || tag == 3 {
            Spline::push_layout(out);
        }
        proof {
            assert(out@ =~= old(out)@ + Self::layout_of(tag));
        }
    }

    fn push_fields(&self, out: &mut Vec<u32>)
        ensures
            final(out)@ == old(out)@ + self.sent().slots(),
    {
        match self {
            Trajectory::Halt => {},
            Trajectory::Path(p) => p.push_fields(out),
            Trajectory::GlobalSpline(s) => s.push_fields(out),
            Trajectory::LocalSpline(s) => s.push_fields(out),
        }
        proof {
            assert(out@ =~= old(out)@ + self.sent().slots());
        }
    }

    /// Reads a trajectory of a known kind from the fields that start at `at`.
    fn from_fields(tag: u32, fields: &Vec<u32>, at: usize) -> (t: Trajectory)
        requires
            tag <= 3,
            fields_fit(fields@, at as int, Self::layout_of(tag)),
        ensures
            t.tag() == tag,
            t.canonical(),
            fields@.subrange(at as int, at + Self::layout_of(tag).len()) == t.slots(),
    {
        let t = if tag == 1 {
            Trajectory::Path(TrajectoryPath::from_fields(fields, at))
        } else if tag == 2 {
            Trajectory::GlobalSpline(Spline::from_fields(fields, at))
        } else if tag == 3 {
            Trajectory::LocalSpline(Spline::from_fields(fields, at))
        } else {
            Trajectory::Halt
        };
        proof {
            assert(fields@.subrange(at as int, at + Self::layout_of(tag).len()) =~= t.slots());
        }
        t
    }
}

/// Regular command for one robot, by codes.
#[derive(Clone, Copy, Debug, PartialEq, Eq, Structural)]
pub struct RegularCommandData {
    /// Radio system processing delay
    pub time_offset: i8,
    /// 8 bits for -1 to 1
    pub dribbler: i32,
    /// `0`: Disable kicker
    ///
    /// `1-255`: Enable kicker with set power. The full power is a shot speed of 10 m/s or a chip
    /// distance of 5 m.
    pub shot_power: u8,
    /// `false`: Flat kick, `true`: Chip
    pub chip: bool,
    /// `false`: Discharge kick/chip capacitors, `true`: Charge kick/chip capacitors
    pub charge: bool,
    /// `false`: Kick on break beam detection, `true`: Force kick as soon as the kick capacitors are
    /// charged
    pub force_kick: bool,
    pub standby: bool,
    /// `true`: eject SD card and turn off
    pub eject_sdcard: bool,
    pub has_detection: bool,
    /// Current x position, as detected by the vision. 11 bits for -8 m to 8 m
    pub detection_pos_x: i32,
    /// Current y position, as detected by the vision. 11 bits for -8 m to 8 m
    pub detection_pos_y: i32,
    /// Current orientation, as detected by the vision. 9 bits for -pi to pi
    pub detection_phi: i32,
    /// 7 bits
    pub unused: u8,
    pub trajectory: Trajectory,
}

impl Default for RegularCommandData {
    fn default() -> (d: RegularCommandData)
        ensures
            d == (RegularCommandData {
                time_offset: 0,
                dribbler: 0,
                shot_power: 0,
                chip: false,
                charge: false,
                force_kick: false,
                standby: false,
                eject_sdcard: false,
                has_detection: false,
                detection_pos_x: 0,
                detection_pos_y: 0,
                detection_phi: 0,
                unused: 0,
                trajectory: Trajectory::Halt,
            }),
    {
        RegularCommandData {
            time_offset: 0,
            dribbler: 0,
            shot_power: 0,
            chip: false,
            charge: false,
            force_kick: false,
            standby: false,
            eject_sdcard: false,
            has_detection: false,
            detection_pos_x: 0,
            detection_pos_y: 0,
            detection_phi: 0,
            unused: 0,
            trajectory: Trajectory::Halt,
        }
    }
}

impl RegularCommandData {
    /// The fields before the trajectory. The last one is the kind of the trajectory.
    pub open spec fn head_layout() -> Seq<usize> {
        seq![8usize, 8, 8, 1, 1, 1, 1, 1, 1, 11, 11, 9, 7, 4]
    }

    /// All fields of a command whose trajectory is of the given kind.
    pub open spec fn layout_of(tag: u32) -> Seq<usize> {
        Self::head_layout() + Trajectory::layout_of(tag)
    }

    pub open spec fn head_slots(&self) -> Seq<u32> {
        seq![
            signed(self.time_offset as i32, 8),
            signed(self.dribbler, 8),
            self.shot_power as u32,
            flag(self.chip),
            flag(self.charge),
            flag(self.force_kick),
            flag(self.standby),
            flag(self.eject_sdcard),
            flag(self.has_detection),
            signed(self.detection_pos_x, 11),
            signed(self.detection_pos_y, 11),
            signed(self.detection_phi, 9),
            self.unused as u32,
            self.trajectory.tag(),
        ]
    }

    /// The fields, each in its own place.
    pub open spec fn slots(&self) -> Seq<u32> {
        self.head_slots() + self.trajectory.slots()
    }

    /// The command that is sent.
    pub open spec fn sent(&self) -> RegularCommandData {
        RegularCommandData { trajectory: self.trajectory.sent(), ..*self }
    }

    /// All codes are within their ranges.
    pub open spec fn canonical(&self) -> bool {
        &&& signed_ok(self.dribbler, 8)
        &&& signed_ok(self.detection_pos_x, 11)
        &&& signed_ok(self.detection_pos_y, 11)
        &&& signed_ok(self.detection_phi, 9)
        &&& self.unused < 128
        &&& self.trajectory.canonical()
    }

    /// The command with all codes moved into their ranges.
    pub open spec fn clamped(&self) -> RegularCommandData {
        RegularCommandData {
            dribbler: signed_clamped(self.dribbler, 8),
            detection_pos_x: signed_clamped(self.detection_pos_x, 11),
            detection_pos_y: signed_clamped(self.detection_pos_y, 11),
            detection_phi: signed_clamped(self.detection_phi, 9),
            trajectory: self.trajectory.clamped(),
            ..*self
        }
    }

    fn head_layout_vec() -> (layout: Vec<usize>)
        ensures
            layout@ == Self::head_layout(),
    {
        let layout: Vec<usize> = vec![8, 8, 8, 1, 1, 1, 1, 1, 1, 11, 11, 9, 7, 4];
        proof {
            assert(layout@ =~= Self::head_layout());
        }
        layout
    }

    fn layout_vec(tag: u32) -> (layout: Vec<usize>)
        ensures
            layout@ == Self::layout_of(tag),
    {
        let mut layout: Vec<usize> = Self::head_layout_vec();
        Trajectory::push_layout(tag, &mut layout);
        layout
    }
}

impl RegularCommandData {
    /// Reads a command whose trajectory is of a known kind.
    fn from_fields(tag: u32, fields: &Vec<u32>) -> (v: RegularCommandData)
        requires
            tag <= 3,
            fields@.len() == 14 + Trajectory::layout_of(tag).len(),
            fields@[13] == tag,
            fields_fit(fields@, 0, Self::head_layout()),
            fields_fit(fields@, 14, Trajectory::layout_of(tag)),
        ensures
            v.canonical(),
            v.trajectory.tag() == tag,
            v.slots() == fields@,
    {
        let trajectory: Trajectory = Trajectory::from_fields(tag, fields, 14);
        proof {
            lemma_fit(fields@, 0, Self::head_layout());
            lemma2_to64();
        }
        let time_offset: i32 = int_from_field(fields[0], 8);
        let v = RegularCommandData {
            time_offset: time_offset as i8,
            dribbler: int_from_field(fields[1], 8),
            shot_power: fields[2] as u8,
            chip: fields[3] == 1,
            charge: fields[4] == 1,
            force_kick: fields[5] == 1,
            standby: fields[6] == 1,
            eject_sdcard: fields[7] == 1,
            has_detection: fields[8] == 1,
            detection_pos_x: int_from_field(fields[9], 11),
            detection_pos_y: int_from_field(fields[10], 11),
            detection_phi: int_from_field(fields[11], 9),
            unused: fields[12] as u8,
            trajectory,
        };
        proof {
            assert(fields@.subrange(0, 14) =~= v.head_slots());
            assert(fields@ =~= fields@.subrange(0, 14) + fields@.subrange(
                14,
                14 + Trajectory::layout_of(tag).len() as int,
            ));
        }
        v
    }
}

impl DekuPackedSize<28> for RegularCommandData {

}

impl PackBytes for RegularCommandData {
    open spec fn packable(&self) -> bool {
        self.unused < 128
    }

    open spec fn bytes(&self) -> Seq<u8> {
        bytes_of_bits(encode(self.sent().slots(), Self::layout_of(self.trajectory.tag())))
    }

    fn to_bytes(&self) -> (bytes: Vec<u8>) {
        let tag: u32 = self.trajectory.tag_field();
        let mut fields: Vec<u32> = Vec::new();
        fields.push(int_to_field(self.time_offset as i32, 8));
        fields.push(int_to_field(self.dribbler, 8));
        fields.push(self.shot_power as u32);
        fields.push(flag_field(self.chip));
        fields.push(flag_field(self.charge));
        fields.push(flag_field(self.force_kick));
        fields.push(flag_field(self.standby));
        fields.push(flag_field(self.eject_sdcard));
        fields.push(flag_field(self.has_detection));
        fields.push(int_to_field(self.detection_pos_x, 11));
        fields.push(int_to_field(self.detection_pos_y, 11));
        fields.push(int_to_field(self.detection_phi, 9));
        fields.push(self.unused as u32);
        fields.push(tag);
        proof {
            assert(fields@ =~= self.sent().head_slots());
        }
        self.trajectory.push_fields(&mut fields);
        let layout: Vec<usize> = Self::layout_vec(tag);
        write_fields(&fields, &layout)
    }
}

/// All fields that were read hold no more than their widths allow.
pub proof fn lemma_decoded_fit(bits: Seq<bool>, layout: Seq<usize>)
    requires
        layout_ok(layout),
        decode(bits, layout) is Ok,
    ensures
        fields_fit(decode(bits, layout)->Ok_0, 0, layout),
{
    let fields = decode(bits, layout)->Ok_0;
    assert forall|i: int| 0 <= i < layout.len() implies (fields[0 + i] as nat) < pow2(
        #[trigger] layout[i] as nat,
    ) by {
        lemma_field_bound(bits, layout, i);
    }
}

/// Fields that fit into two layouts together fit into each of them.
pub proof fn lemma_fit_split(fields: Seq<u32>, at: int, a: Seq<usize>, b: Seq<usize>)
    requires
        fields_fit(fields, at, a + b),
    ensures
        fields_fit(fields, at, a),
        fields_fit(fields, at + a.len(), b),
{
    let all = a + b;
    assert forall|i: int| 0 <= i < a.len() implies (fields[at + i] as nat) < pow2(
        #[trigger] a[i] as nat,
    ) by {
        assert(all[i] == a[i]);
    }
    assert forall|i: int| 0 <= i < b.len() implies (fields[at + a.len() + i] as nat) < pow2(
        #[trigger] b[i] as nat,
    ) by {
        assert(all[a.len() + i] == b[i]);
        assert(fields[at + (a.len() + i)] == fields[at + a.len() + i]);
    }
}

impl UnpackBytes for RegularCommandData {
    open spec fn unpack_error(bytes: Seq<u8>) -> Option<UnpackError> {
        let bits = bits_of_bytes(bytes);
        match decode(bits, Self::head_layout()) {
            Err(e) => Some(e),
            Ok(head) => if head[13] > 3 {
                Some(UnpackError::UnknownTag { tag: head[13] as u8 })
            } else {
                match decode(bits, Self::layout_of(head[13])) {
                    Err(e) => Some(e),
                    Ok(_) => None,
                }
            },
        }
    }

    open spec fn unpacked(&self, bytes: Seq<u8>) -> bool {
        &&& self.canonical()
        &&& decode(bits_of_bytes(bytes), Self::layout_of(self.trajectory.tag())) == Ok::<
            Seq<u32>,
            UnpackError,
        >(self.slots())
    }

    fn from_bytes(bytes: &[u8]) -> (r: Result<Self, UnpackError>) {
        let head_layout: Vec<usize> = Self::head_layout_vec();
        let head: Vec<u32> = match read_fields(bytes, &head_layout) {
            Ok(head) => head,
            Err(e) => return Err(e),
        };
        let tag: u32 = head[13];
        proof {
            lemma_field_bound(bits_of_bytes(bytes@), Self::head_layout(), 13);
            lemma2_to64();
        }
        if tag > 3 {
            return Err(UnpackError::UnknownTag { tag: tag as u8 });
        }
        let layout: Vec<usize> = Self::layout_vec(tag);
        let fields: Vec<u32> = match read_fields(bytes, &layout) {
            Ok(fields) => fields,
            Err(e) => return Err(e),
        };
        proof {
            lemma_decoded_fit(bits_of_bytes(bytes@), layout@);
            lemma_fit_split(fields@, 0, Self::head_layout(), Trajectory::layout_of(tag));
            lemma_fit(fields@, 0, Self::head_layout());
            lemma_same_field(bits_of_bytes(bytes@), Self::head_layout(), layout@, 13);
        }
        Ok(Self::from_fields(tag, &fields))
    }
}

/// A field that stands in two layouts after the same fields has the same value in both.
proof fn lemma_same_field(bits: Seq<bool>, a: Seq<usize>, b: Seq<usize>, i: int)
    requires
        0 <= i < a.len() <= b.len(),
        forall|k: int| 0 <= k <= i ==> a[k] == b[k],
        decode(bits, a) is Ok,
        decode(bits, b) is Ok,
    ensures
        decode(bits, a)->Ok_0[i] == decode(bits, b)->Ok_0[i],
{
    lemma_offset_prefix(a, b, i);
}

/// The fields of `layout` that start at `at` hold no more than their widths allow.
pub open spec fn fields_fit(fields: Seq<u32>, at: int, layout: Seq<usize>) -> bool {
    &&& 0 <= at
    &&& at + layout.len() <= fields.len()
    &&& forall|i: int|
        0 <= i < layout.len() ==> (fields[at + i] as nat) < pow2(#[trigger] layout[i] as nat)
}

/// [fields_fit] for each field of a short layout.
pub proof fn lemma_fit(fields: Seq<u32>, at: int, layout: Seq<usize>)
    requires
        fields_fit(fields, at, layout),
    ensures
        layout.len() > 0 ==> (fields[at] as nat) < pow2(layout[0] as nat),
        layout.len() > 1 ==> (fields[at + 1] as nat) < pow2(layout[1] as nat),
        layout.len() > 2 ==> (fields[at + 2] as nat) < pow2(layout[2] as nat),
        layout.len() > 3 ==> (fields[at + 3] as nat) < pow2(layout[3] as nat),
        layout.len() > 4 ==> (fields[at + 4] as nat) < pow2(layout[4] as nat),
        layout.len() > 5 ==> (fields[at + 5] as nat) < pow2(layout[5] as nat),
        layout.len() > 6 ==> (fields[at + 6] as nat) < pow2(layout[6] as nat),
        layout.len() > 7 ==> (fields[at + 7] as nat) < pow2(layout[7] as nat),
        layout.len() > 8 ==> (fields[at + 8] as nat) < pow2(layout[8] as nat),
        layout.len() > 9 ==> (fields[at + 9] as nat) < pow2(layout[9] as nat),
        layout.len() > 10 ==> (fields[at + 10] as nat) < pow2(layout[10] as nat),
        layout.len() > 11 ==> (fields[at + 11] as nat) < pow2(layout[11] as nat),
        layout.len() > 12 ==> (fields[at + 12] as nat) < pow2(layout[12] as nat),
        layout.len() > 13 ==> (fields[at + 13] as nat) < pow2(layout[13] as nat),
{
}

// ======== Laws of the command packet ========

/// The field of a signed code is smaller than its width allows.
pub proof fn lemma_signed_fits(y: i32, width: nat)
    requires
        0 < width < 32,
    ensures
        (signed(y, width) as nat) < pow2(width),
        int_field(y as int, width) == signed(y, width),
{
    law_int_field(y as int, width);
    lemma2_to64();
    vstd::arithmetic::power2::lemma_pow2_strictly_increases(width, 32);
}

/// The field of an unsigned code is smaller than its width allows.
pub proof fn lemma_unsigned_fits(y: u32, width: nat)
    requires
        0 < width < 32,
    ensures
        (unsigned(y, width) as nat) < pow2(width),
        clamp_uint(y as int, width) == unsigned(y, width),
{
    lemma_pow2_pos(width);
}

/// A signed field determines the code in its range.
pub proof fn lemma_signed_read(a: i32, b: i32, width: nat)
    requires
        0 < width < 32,
        signed_ok(a, width),
        signed(a, width) == signed(b, width),
    ensures
        a == signed_clamped(b, width),
{
    lemma_signed_fits(a, width);
    lemma_signed_fits(b, width);
    law_int_field(a as int, width);
    law_int_field(b as int, width);
}

/// An unsigned field determines the code in its range.
pub proof fn lemma_unsigned_read(a: u32, b: u32, width: nat)
    requires
        0 < width < 32,
        unsigned_ok(a, width),
        unsigned(a, width) == unsigned(b, width),
    ensures
        a == unsigned_clamped(b, width),
{
    lemma_unsigned_fits(a, width);
    lemma_unsigned_fits(b, width);
}

proof fn lemma_path_fits(p: TrajectoryPath)
    ensures
        values_fit(p.slots(), TrajectoryPath::layout()),
        offset(TrajectoryPath::layout(), 14) == 152,
{
    lemma_signed_fits(p.start_pos_x, 11);
    lemma_signed_fits(p.start_pos_y, 11);
    lemma_signed_fits(p.start_phi, 9);
    lemma_signed_fits(p.start_vel_x, 12);
    lemma_signed_fits(p.start_vel_y, 12);
    lemma_signed_fits(p.end_phi, 9);
    lemma_signed_fits(p.end_vel_x, 12);
    lemma_signed_fits(p.end_vel_y, 12);
    lemma_signed_fits(p.alpha, 15);
    lemma_unsigned_fits(p.t, 15);
    lemma_unsigned_fits(p.acceleration, 12);
    lemma_unsigned_fits(p.v_max, 12);
    lemma_unsigned_fits(p.slow_down_time, 9);
    lemma2_to64();
    reveal_with_fuel(offset, 15);
}

proof fn lemma_spline_fits(s: Spline)
    ensures
        values_fit(s.slots(), Spline::layout()),
        offset(Spline::layout(), 12) == 152,
{
    lemma_signed_fits(s.x_pos, 11);
    lemma_signed_fits(s.x_vel, 12);
    lemma_signed_fits(s.x_acc, 13);
    lemma_signed_fits(s.x_jerk, 15);
    lemma_signed_fits(s.y_pos, 11);
    lemma_signed_fits(s.y_vel, 12);
    lemma_signed_fits(s.y_acc, 13);
    lemma_signed_fits(s.y_jerk, 15);
    lemma_signed_fits(s.phi_pos, 9);
    lemma_signed_fits(s.phi_vel, 10);
    lemma_signed_fits(s.phi_acc, 14);
    lemma_signed_fits(s.phi_jerk, 17);
    reveal_with_fuel(offset, 13);
}

proof fn lemma_head_fits(c: RegularCommandData)
    requires
        c.packable(),
    ensures
        values_fit(c.head_slots(), RegularCommandData::head_layout()),
        offset(RegularCommandData::head_layout(), 14) == 72,
{
    lemma_signed_fits(c.time_offset as i32, 8);
    lemma_signed_fits(c.dribbler, 8);
    lemma_signed_fits(c.detection_pos_x, 11);
    lemma_signed_fits(c.detection_pos_y, 11);
    lemma_signed_fits(c.detection_phi, 9);
    lemma2_to64();
    reveal_with_fuel(offset, 15);
}

proof fn lemma_path_read(a: TrajectoryPath, b: TrajectoryPath)
    requires
        a.canonical(),
        a.slots() == b.slots(),
    ensures
        a == b.clamped(),
{
    let x = a.slots();
    let y = b.slots();
    assert(x[0] == y[0]);
    assert(x[1] == y[1]);
    assert(x[2] == y[2]);
    assert(x[3] == y[3]);
    assert(x[4] == y[4]);
    assert(x[5] == y[5]);
    assert(x[6] == y[6]);
    assert(x[7] == y[7]);
    assert(x[8] == y[8]);
    assert(x[9] == y[9]);
    assert(x[10] == y[10]);
    assert(x[11] == y[11]);
    assert(x[12] == y[12]);
    assert(x[13] == y[13]);
    lemma_signed_read(a.start_pos_x, b.start_pos_x, 11);
    lemma_signed_read(a.start_pos_y, b.start_pos_y, 11);
    lemma_signed_read(a.start_phi, b.start_phi, 9);
    lemma_signed_read(a.start_vel_x, b.start_vel_x, 12);
    lemma_signed_read(a.start_vel_y, b.start_vel_y, 12);
    lemma_signed_read(a.end_phi, b.end_phi, 9);
    lemma_signed_read(a.end_vel_x, b.end_vel_x, 12);
    lemma_signed_read(a.end_vel_y, b.end_vel_y, 12);
    lemma_signed_read(a.alpha, b.alpha, 15);
    lemma_unsigned_read(a.t, b.t, 15);
    lemma_unsigned_read(a.acceleration, b.acceleration, 12);
    lemma_unsigned_read(a.v_max, b.v_max, 12);
    lemma_unsigned_read(a.slow_down_time, b.slow_down_time, 9);
}

proof fn lemma_spline_read(a: Spline, b: Spline)
    requires
        a.canonical(),
        a.slots() == b.slots(),
    ensures
        a == b.clamped(),
{
    let x = a.slots();
    let y = b.slots();
    assert(x[0] == y[0]);
    assert(x[1] == y[1]);
    assert(x[2] == y[2]);
    assert(x[3] == y[3]);
    assert(x[4] == y[4]);
    assert(x[5] == y[5]);
    assert(x[6] == y[6]);
    assert(x[7] == y[7]);
    assert(x[8] == y[8]);
    assert(x[9] == y[9]);
    assert(x[10] == y[10]);
    assert(x[11] == y[11]);
    lemma_signed_read(a.x_pos, b.x_pos, 11);
    lemma_signed_read(a.x_vel, b.x_vel, 12);
    lemma_signed_read(a.x_acc, b.x_acc, 13);
    lemma_signed_read(a.x_jerk, b.x_jerk, 15);
    lemma_signed_read(a.y_pos, b.y_pos, 11);
    lemma_signed_read(a.y_vel, b.y_vel, 12);
    lemma_signed_read(a.y_acc, b.y_acc, 13);
    lemma_signed_read(a.y_jerk, b.y_jerk, 15);
    lemma_signed_read(a.phi_pos, b.phi_pos, 9);
    lemma_signed_read(a.phi_vel, b.phi_vel, 10);
    lemma_signed_read(a.phi_acc, b.phi_acc, 14);
    lemma_signed_read(a.phi_jerk, b.phi_jerk, 17);
}

proof fn lemma_head_read(a: RegularCommandData, b: RegularCommandData)
    requires
        a.canonical(),
        a.head_slots() == b.head_slots(),
        a.trajectory == b.trajectory.clamped(),
    ensures
        a == b.clamped(),
{
    let x = a.head_slots();
    let y = b.head_slots();
    assert(x[0] == y[0]);
    assert(x[1] == y[1]);
    assert(x[2] == y[2]);
    assert(x[3] == y[3]);
    assert(x[4] == y[4]);
    assert(x[5] == y[5]);
    assert(x[6] == y[6]);
    assert(x[7] == y[7]);
    assert(x[8] == y[8]);
    assert(x[9] == y[9]);
    assert(x[10] == y[10]);
    assert(x[11] == y[11]);
    assert(x[12] == y[12]);
    lemma2_to64();
    lemma_signed_read(a.time_offset as i32, b.time_offset as i32, 8);
    lemma_signed_read(a.dribbler, b.dribbler, 8);
    lemma_signed_read(a.detection_pos_x, b.detection_pos_x, 11);
    lemma_signed_read(a.detection_pos_y, b.detection_pos_y, 11);
    lemma_signed_read(a.detection_phi, b.detection_phi, 9);
}

/// The position of a field in the second of two layouts.
pub proof fn lemma_offset_concat(a: Seq<usize>, b: Seq<usize>, i: int)
    requires
        0 <= i <= b.len(),
    ensures
        offset(a + b, a.len() + i) == offset(a, a.len() as int) + offset(b, i),
    decreases i,
{
    if i == 0 {
        lemma_offset_prefix(a + b, a, a.len() as int);
    } else {
        lemma_offset_concat(a, b, i - 1);
    }
}

/// The fields of a command fit into its layout, which fills 9 bytes, or 28 with a moving
/// trajectory.
proof fn lemma_command_fits(c: RegularCommandData)
    requires
        c.packable(),
    ensures
        values_fit(c.slots(), RegularCommandData::layout_of(c.trajectory.tag())),
        offset(
            RegularCommandData::layout_of(c.trajectory.tag()),
            RegularCommandData::layout_of(c.trajectory.tag()).len() as int,
        ) == (if c.trajectory is Halt {
            72nat
        } else {
            224nat
        }),
{
    let head = RegularCommandData::head_layout();
    let tail = Trajectory::layout_of(c.trajectory.tag());
    lemma_head_fits(c);
    match c.trajectory {
        Trajectory::Halt => {
            reveal_with_fuel(offset, 1);
        },
        Trajectory::Path(p) => lemma_path_fits(p),
        Trajectory::GlobalSpline(s) => lemma_spline_fits(s),
        Trajectory::LocalSpline(s) => lemma_spline_fits(s),
    }
    lemma_offset_concat(head, tail, tail.len() as int);
    let values = c.slots();
    let layout = head + tail;
    assert forall|i: int| 0 <= i < layout.len() implies (#[trigger] values[i] as nat) < pow2(
        layout[i] as nat,
    ) by {
        if i < 14 {
            assert(values[i] == c.head_slots()[i]);
        } else {
            assert(values[i] == c.trajectory.slots()[i - 14]);
        }
    }
}

/// A packed command has 9 bytes, or 28 with a moving trajectory.
pub proof fn law_command_data_size(c: RegularCommandData)
    requires
        c.packable(),
    ensures
        c.bytes().len() == (if c.trajectory is Halt {
            9nat
        } else {
            28nat
        }),
{
    lemma_command_fits(c.sent());
    law_fields_round_trip(
        c.sent().slots(),
        RegularCommandData::layout_of(c.trajectory.tag()),
        Seq::empty(),
    );
}

/// A layout that can be read can be read in part.
proof fn lemma_decode_part(bits: Seq<bool>, a: Seq<usize>, b: Seq<usize>)
    requires
        decode(bits, a + b) is Ok,
    ensures
        decode(bits, a) is Ok,
{
    lemma_first_missing(a + b, bits.len(), 0);
    lemma_first_missing(a, bits.len(), 0);
    match first_missing(a, bits.len(), 0) {
        Some(k) => {
            lemma_offset_prefix(a, a + b, k);
            assert((a + b)[k] == a[k]);
        },
        None => {},
    }
}

/// What is read from a packed command is the command that was sent: the codes are moved into
/// their ranges, and a path carries its `end_vel_x` for both end velocities.
pub proof fn law_command_round_trip(
    c: RegularCommandData,
    rest: Seq<u8>,
    read: RegularCommandData,
)
    requires
        c.packable(),
        read.unpacked(c.bytes() + rest),
    ensures
        RegularCommandData::unpack_error(c.bytes() + rest) is None,
        read == c.sent().clamped(),
{
    lemma_command_decodes(c, rest);
    lemma_read_tag(bits_of_bytes(c.bytes() + rest), read);
    lemma_slots_read(read, c.sent());
}

/// A packed command can be read with its own layout.
proof fn lemma_command_decodes(c: RegularCommandData, rest: Seq<u8>)
    requires
        c.packable(),
    ensures
        ({
            let bits = bits_of_bytes(c.bytes() + rest);
            let head = decode(bits, RegularCommandData::head_layout());
            &&& head is Ok
            &&& head->Ok_0[13] == c.trajectory.tag()
            &&& decode(bits, RegularCommandData::layout_of(c.trajectory.tag())) == Ok::<
                Seq<u32>,
                UnpackError,
            >(c.sent().slots())
        }),
{
    let layout = RegularCommandData::layout_of(c.trajectory.tag());
    lemma_command_fits(c.sent());
    law_fields_round_trip(c.sent().slots(), layout, rest);
    let bits = bits_of_bytes(c.bytes() + rest);
    assert(decode(bits, layout) == Ok::<Seq<u32>, UnpackError>(c.sent().slots()));
    assert(c.sent().slots()[13] == c.trajectory.tag());
    lemma_head_field(bits, c.trajectory.tag());
}

proof fn lemma_head_field(bits: Seq<bool>, tag: u32)
    requires
        decode(bits, RegularCommandData::layout_of(tag)) is Ok,
    ensures
        decode(bits, RegularCommandData::head_layout()) is Ok,
        decode(bits, RegularCommandData::head_layout())->Ok_0[13] == decode(
            bits,
            RegularCommandData::layout_of(tag),
        )->Ok_0[13],
{
    let head = RegularCommandData::head_layout();
    let layout = RegularCommandData::layout_of(tag);
    lemma_decode_part(bits, head, Trajectory::layout_of(tag));
    assert forall|k: int| 0 <= k <= 13 implies head[k] == layout[k] by {}
    lemma_same_field(bits, head, layout, 13);
}

/// The kind of trajectory that was read is the one that the head announces.
proof fn lemma_read_tag(bits: Seq<bool>, read: RegularCommandData)
    requires
        decode(bits, RegularCommandData::layout_of(read.trajectory.tag())) == Ok::<
            Seq<u32>,
            UnpackError,
        >(read.slots()),
    ensures
        decode(bits, RegularCommandData::head_layout()) is Ok,
        decode(bits, RegularCommandData::head_layout())->Ok_0[13] == read.trajectory.tag(),
{
    lemma_head_field(bits, read.trajectory.tag());
    assert(read.slots()[13] == read.trajectory.tag());
}

/// The fields determine the command in its range.
proof fn lemma_slots_read(a: RegularCommandData, b: RegularCommandData)
    requires
        a.canonical(),
        a.slots() == b.slots(),
    ensures
        a == b.clamped(),
{
    assert(a.slots()[13] == a.trajectory.tag());
    assert(b.slots()[13] == b.trajectory.tag());
    assert(a.slots().take(14) =~= a.head_slots());
    assert(b.slots().take(14) =~= b.head_slots());
    assert(a.slots().skip(14) =~= a.trajectory.slots());
    assert(b.slots().skip(14) =~= b.trajectory.slots());
    match (a.trajectory, b.trajectory) {
        (Trajectory::Path(p), Trajectory::Path(q)) => lemma_path_read(p, q),
        (Trajectory::GlobalSpline(p), Trajectory::GlobalSpline(q)) => lemma_spline_read(p, q),
        (Trajectory::LocalSpline(p), Trajectory::LocalSpline(q)) => lemma_spline_read(p, q),
        _ => {},
    }
    lemma_head_read(a, b);
}

/// A command whose codes are within their ranges, and whose end velocities agree if it has a path,
/// is read back unchanged.
pub proof fn law_canonical_command_round_trip(
    c: RegularCommandData,
    rest: Seq<u8>,
    read: RegularCommandData,
)
    requires
        c.canonical(),
        c.trajectory matches Trajectory::Path(p) ==> p.end_vel_y == p.end_vel_x,
        read.unpacked(c.bytes() + rest),
    ensures
        RegularCommandData::unpack_error(c.bytes() + rest) is None,
        read == c,
{
    law_command_round_trip(c, rest, read);
}

} // verus!
