//! Where the parts of a command stand in its bytes.

use crate::packet::{
    flag, lemma_command_decodes, lemma_offset_concat, signed, signed_ok, unsigned, unsigned_ok,
    RegularCommandData, Spline, Trajectory, TrajectoryPath,
};
use crate::protocol::bits::{
    bits_of_bytes, decode, lemma_decodes, lemma_offset_prefix, offset, UnpackError,
};
use crate::protocol::deku_helpers::{PackBytes, UnpackBytes};
use crate::protocol::wire::{
    carries_number, carries_signed, digits_at, holds_flag, holds_number, holds_signed,
    lemma_field_digits,
};
use vstd::arithmetic::power2::{lemma2_to64, lemma_pow2_pos, lemma_pow2_unfold, pow2};
use vstd::prelude::*;

verus! {

// ======== Codes ========

pub proof fn lemma_carries_signed(bytes: Seq<u8>, from: nat, width: nat, y: i32)
    requires
        0 < width < 32,
        digits_at(bytes, from, width) == signed(y, width),
    ensures
        carries_signed(bytes, from, width, y as int),
        signed_ok(y, width) ==> holds_signed(bytes, from, width, y as int),
{
    crate::packet::lemma_signed_fits(y, width);
    lemma_pow2_unfold(width);
    lemma_pow2_pos((width - 1) as nat);
}

pub proof fn lemma_carries_number(bytes: Seq<u8>, from: nat, width: nat, y: u32)
    requires
        0 < width < 32,
        digits_at(bytes, from, width) == unsigned(y, width),
    ensures
        carries_number(bytes, from, width, y as nat),
        unsigned_ok(y, width) ==> holds_number(bytes, from, width, y as nat),
{
    crate::packet::lemma_unsigned_fits(y, width);
}

// ======== Offsets ========

proof fn lemma_head_offsets()
    ensures
        offset(RegularCommandData::head_layout(), 0) == 0,
        offset(RegularCommandData::head_layout(), 1) == 8,
        offset(RegularCommandData::head_layout(), 2) == 16,
        offset(RegularCommandData::head_layout(), 3) == 24,
        offset(RegularCommandData::head_layout(), 4) == 25,
        offset(RegularCommandData::head_layout(), 5) == 26,
        offset(RegularCommandData::head_layout(), 6) == 27,
        offset(RegularCommandData::head_layout(), 7) == 28,
        offset(RegularCommandData::head_layout(), 8) == 29,
        offset(RegularCommandData::head_layout(), 9) == 30,
        offset(RegularCommandData::head_layout(), 10) == 41,
        offset(RegularCommandData::head_layout(), 11) == 52,
        offset(RegularCommandData::head_layout(), 12) == 61,
        offset(RegularCommandData::head_layout(), 13) == 68,
        offset(RegularCommandData::head_layout(), 14) == 72,
{
    reveal_with_fuel(offset, 15);
}

proof fn lemma_path_offsets()
    ensures
        offset(TrajectoryPath::layout(), 0) == 0,
        offset(TrajectoryPath::layout(), 1) == 11,
        offset(TrajectoryPath::layout(), 2) == 22,
        offset(TrajectoryPath::layout(), 3) == 31,
        offset(TrajectoryPath::layout(), 4) == 43,
        offset(TrajectoryPath::layout(), 5) == 55,
        offset(TrajectoryPath::layout(), 6) == 64,
        offset(TrajectoryPath::layout(), 7) == 76,
        offset(TrajectoryPath::layout(), 8) == 88,
        offset(TrajectoryPath::layout(), 9) == 103,
        offset(TrajectoryPath::layout(), 10) == 118,
        offset(TrajectoryPath::layout(), 11) == 130,
        offset(TrajectoryPath::layout(), 12) == 142,
        offset(TrajectoryPath::layout(), 13) == 151,
{
    reveal_with_fuel(offset, 15);
}

proof fn lemma_spline_offsets()
    ensures
        offset(Spline::layout(), 0) == 0,
        offset(Spline::layout(), 1) == 11,
        offset(Spline::layout(), 2) == 23,
        offset(Spline::layout(), 3) == 36,
        offset(Spline::layout(), 4) == 51,
        offset(Spline::layout(), 5) == 62,
        offset(Spline::layout(), 6) == 74,
        offset(Spline::layout(), 7) == 87,
        offset(Spline::layout(), 8) == 102,
        offset(Spline::layout(), 9) == 111,
        offset(Spline::layout(), 10) == 121,
        offset(Spline::layout(), 11) == 135,
{
    reveal_with_fuel(offset, 13);
}

// ======== Digits ========

/// The bytes from which a command with these fields is read.
spec fn spells(bytes: Seq<u8>, c: RegularCommandData) -> bool {
    decode(bits_of_bytes(bytes), RegularCommandData::layout_of(c.trajectory.tag())) == Ok::<
        Seq<u32>,
        UnpackError,
    >(c.slots())
}

proof fn lemma_head_digit(bytes: Seq<u8>, c: RegularCommandData, i: int)
    requires
        spells(bytes, c),
        0 <= i < 14,
    ensures
        digits_at(
            bytes,
            offset(RegularCommandData::head_layout(), i),
            RegularCommandData::head_layout()[i] as nat,
        ) == c.head_slots()[i],
{
    let head = RegularCommandData::head_layout();
    let layout = RegularCommandData::layout_of(c.trajectory.tag());
    lemma_offset_prefix(head, layout, i);
    assert(layout[i] == head[i]);
    lemma_field_digits(bytes, layout, i);
    assert(c.slots()[i] == c.head_slots()[i]);
}

proof fn lemma_trajectory_digit(bytes: Seq<u8>, c: RegularCommandData, i: int)
    requires
        spells(bytes, c),
        0 <= i < Trajectory::layout_of(c.trajectory.tag()).len(),
        Trajectory::layout_of(c.trajectory.tag())[i] <= 32,
        Trajectory::layout_of(c.trajectory.tag()).len() == c.trajectory.slots().len(),
    ensures
        digits_at(
            bytes,
            72 + offset(Trajectory::layout_of(c.trajectory.tag()), i),
            Trajectory::layout_of(c.trajectory.tag())[i] as nat,
        ) == c.trajectory.slots()[i],
{
    let head = RegularCommandData::head_layout();
    let tail = Trajectory::layout_of(c.trajectory.tag());
    lemma_head_offsets();
    lemma_offset_concat(head, tail, i);
    assert((head + tail)[14 + i] == tail[i]);
    lemma_field_digits(bytes, head + tail, 14 + i);
    assert(c.slots()[14 + i] == c.trajectory.slots()[i]);
}

proof fn lemma_head_digits(bytes: Seq<u8>, c: RegularCommandData)
    requires
        spells(bytes, c),
    ensures
        digits_at(bytes, 0, 8) == c.head_slots()[0],
        digits_at(bytes, 8, 8) == c.head_slots()[1],
        digits_at(bytes, 16, 8) == c.head_slots()[2],
        digits_at(bytes, 24, 1) == c.head_slots()[3],
        digits_at(bytes, 25, 1) == c.head_slots()[4],
        digits_at(bytes, 26, 1) == c.head_slots()[5],
        digits_at(bytes, 27, 1) == c.head_slots()[6],
        digits_at(bytes, 28, 1) == c.head_slots()[7],
        digits_at(bytes, 29, 1) == c.head_slots()[8],
        digits_at(bytes, 30, 11) == c.head_slots()[9],
        digits_at(bytes, 41, 11) == c.head_slots()[10],
        digits_at(bytes, 52, 9) == c.head_slots()[11],
        digits_at(bytes, 61, 7) == c.head_slots()[12],
        digits_at(bytes, 68, 4) == c.head_slots()[13],
{
    lemma_head_offsets();
    lemma_head_digit(bytes, c, 0);
    lemma_head_digit(bytes, c, 1);
    lemma_head_digit(bytes, c, 2);
    lemma_head_digit(bytes, c, 3);
    lemma_head_digit(bytes, c, 4);
    lemma_head_digit(bytes, c, 5);
    lemma_head_digit(bytes, c, 6);
    lemma_head_digit(bytes, c, 7);
    lemma_head_digit(bytes, c, 8);
    lemma_head_digit(bytes, c, 9);
    lemma_head_digit(bytes, c, 10);
    lemma_head_digit(bytes, c, 11);
    lemma_head_digit(bytes, c, 12);
    lemma_head_digit(bytes, c, 13);
}

proof fn lemma_path_digits(bytes: Seq<u8>, c: RegularCommandData, p: TrajectoryPath)
    requires
        spells(bytes, c),
        c.trajectory == Trajectory::Path(p),
    ensures
        digits_at(bytes, 72, 11) == p.slots()[0],
        digits_at(bytes, 83, 11) == p.slots()[1],
        digits_at(bytes, 94, 9) == p.slots()[2],
        digits_at(bytes, 103, 12) == p.slots()[3],
        digits_at(bytes, 115, 12) == p.slots()[4],
        digits_at(bytes, 127, 9) == p.slots()[5],
        digits_at(bytes, 136, 12) == p.slots()[6],
        digits_at(bytes, 148, 12) == p.slots()[7],
        digits_at(bytes, 160, 15) == p.slots()[8],
        digits_at(bytes, 175, 15) == p.slots()[9],
        digits_at(bytes, 190, 12) == p.slots()[10],
        digits_at(bytes, 202, 12) == p.slots()[11],
        digits_at(bytes, 214, 9) == p.slots()[12],
        digits_at(bytes, 223, 1) == p.slots()[13],
{
    lemma_path_offsets();
    lemma_trajectory_digit(bytes, c, 0);
    lemma_trajectory_digit(bytes, c, 1);
    lemma_trajectory_digit(bytes, c, 2);
    lemma_trajectory_digit(bytes, c, 3);
    lemma_trajectory_digit(bytes, c, 4);
    lemma_trajectory_digit(bytes, c, 5);
    lemma_trajectory_digit(bytes, c, 6);
    lemma_trajectory_digit(bytes, c, 7);
    lemma_trajectory_digit(bytes, c, 8);
    lemma_trajectory_digit(bytes, c, 9);
    lemma_trajectory_digit(bytes, c, 10);
    lemma_trajectory_digit(bytes, c, 11);
    lemma_trajectory_digit(bytes, c, 12);
    lemma_trajectory_digit(bytes, c, 13);
}

proof fn lemma_spline_digits(bytes: Seq<u8>, c: RegularCommandData, s: Spline)
    requires
        spells(bytes, c),
        c.trajectory == Trajectory::GlobalSpline(s) || c.trajectory == Trajectory::LocalSpline(s),
    ensures
        digits_at(bytes, 72, 11) == s.slots()[0],
        digits_at(bytes, 83, 12) == s.slots()[1],
        digits_at(bytes, 95, 13) == s.slots()[2],
        digits_at(bytes, 108, 15) == s.slots()[3],
        digits_at(bytes, 123, 11) == s.slots()[4],
        digits_at(bytes, 134, 12) == s.slots()[5],
        digits_at(bytes, 146, 13) == s.slots()[6],
        digits_at(bytes, 159, 15) == s.slots()[7],
        digits_at(bytes, 174, 9) == s.slots()[8],
        digits_at(bytes, 183, 10) == s.slots()[9],
        digits_at(bytes, 193, 14) == s.slots()[10],
        digits_at(bytes, 207, 17) == s.slots()[11],
{
    lemma_spline_offsets();
    lemma_trajectory_digit(bytes, c, 0);
    lemma_trajectory_digit(bytes, c, 1);
    lemma_trajectory_digit(bytes, c, 2);
    lemma_trajectory_digit(bytes, c, 3);
    lemma_trajectory_digit(bytes, c, 4);
    lemma_trajectory_digit(bytes, c, 5);
    lemma_trajectory_digit(bytes, c, 6);
    lemma_trajectory_digit(bytes, c, 7);
    lemma_trajectory_digit(bytes, c, 8);
    lemma_trajectory_digit(bytes, c, 9);
    lemma_trajectory_digit(bytes, c, 10);
    lemma_trajectory_digit(bytes, c, 11);
}

// ======== Laws ========

/// Where the parts of a packed command stand, whatever follows it: each part has its own range of
/// binary digits, numbers are clamped to what fits, and signed numbers are in two's complement.
pub proof fn law_command_places(c: RegularCommandData, rest: Seq<u8>)
    requires
        c.packable(),
    ensures
        carries_signed(c.bytes() + rest, 0, 8, c.time_offset as int),
        carries_signed(c.bytes() + rest, 8, 8, c.dribbler as int),
        carries_number(c.bytes() + rest, 16, 8, c.shot_power as nat),
        holds_flag(c.bytes() + rest, 24, c.chip),
        holds_flag(c.bytes() + rest, 25, c.charge),
        holds_flag(c.bytes() + rest, 26, c.force_kick),
        holds_flag(c.bytes() + rest, 27, c.standby),
        holds_flag(c.bytes() + rest, 28, c.eject_sdcard),
        holds_flag(c.bytes() + rest, 29, c.has_detection),
        carries_signed(c.bytes() + rest, 30, 11, c.detection_pos_x as int),
        carries_signed(c.bytes() + rest, 41, 11, c.detection_pos_y as int),
        carries_signed(c.bytes() + rest, 52, 9, c.detection_phi as int),
        carries_number(c.bytes() + rest, 61, 7, c.unused as nat),
        holds_number(
            c.bytes() + rest,
            68,
            4,
            match c.trajectory {
                Trajectory::Halt => 0,
                Trajectory::Path(_) => 1,
                Trajectory::GlobalSpline(_) => 2,
                Trajectory::LocalSpline(_) => 3,
            },
        ),
{
    let b = c.bytes() + rest;
    lemma_command_decodes(c, rest);
    lemma_head_digits(b, c.sent());
    lemma2_to64();
    lemma_carries_signed(c.bytes() + rest, 0, 8, c.time_offset as i32);
    lemma_carries_signed(c.bytes() + rest, 8, 8, c.dribbler);
    lemma_carries_signed(c.bytes() + rest, 30, 11, c.detection_pos_x);
    lemma_carries_signed(c.bytes() + rest, 41, 11, c.detection_pos_y);
    lemma_carries_signed(c.bytes() + rest, 52, 9, c.detection_phi);
}

/// Where the parts of a path stand in a packed command. The place of the last velocity repeats the one
/// before it.
pub proof fn law_path_places(c: RegularCommandData, p: TrajectoryPath, rest: Seq<u8>)
    requires
        c.packable(),
        c.trajectory == Trajectory::Path(p),
    ensures
        carries_signed(c.bytes() + rest, 72, 11, p.start_pos_x as int),
        carries_signed(c.bytes() + rest, 83, 11, p.start_pos_y as int),
        carries_signed(c.bytes() + rest, 94, 9, p.start_phi as int),
        carries_signed(c.bytes() + rest, 103, 12, p.start_vel_x as int),
        carries_signed(c.bytes() + rest, 115, 12, p.start_vel_y as int),
        carries_signed(c.bytes() + rest, 127, 9, p.end_phi as int),
        carries_signed(c.bytes() + rest, 136, 12, p.end_vel_x as int),
        carries_signed(c.bytes() + rest, 148, 12, p.end_vel_x as int),
        carries_signed(c.bytes() + rest, 160, 15, p.alpha as int),
        carries_number(c.bytes() + rest, 175, 15, p.t as nat),
        carries_number(c.bytes() + rest, 190, 12, p.acceleration as nat),
        carries_number(c.bytes() + rest, 202, 12, p.v_max as nat),
        carries_number(c.bytes() + rest, 214, 9, p.slow_down_time as nat),
        holds_flag(c.bytes() + rest, 223, p.is_fast_endspeed),
{
    let b = c.bytes() + rest;
    lemma_command_decodes(c, rest);
    lemma_path_digits(b, c.sent(), p.sent());
    lemma2_to64();
    lemma_carries_signed(c.bytes() + rest, 72, 11, p.start_pos_x);
    lemma_carries_signed(c.bytes() + rest, 83, 11, p.start_pos_y);
    lemma_carries_signed(c.bytes() + rest, 94, 9, p.start_phi);
    lemma_carries_signed(c.bytes() + rest, 103, 12, p.start_vel_x);
    lemma_carries_signed(c.bytes() + rest, 115, 12, p.start_vel_y);
    lemma_carries_signed(c.bytes() + rest, 127, 9, p.end_phi);
    lemma_carries_signed(c.bytes() + rest, 136, 12, p.end_vel_x);
    lemma_carries_signed(c.bytes() + rest, 148, 12, p.end_vel_x);
    lemma_carries_signed(c.bytes() + rest, 160, 15, p.alpha);
    lemma_carries_number(c.bytes() + rest, 175, 15, p.t);
    lemma_carries_number(c.bytes() + rest, 190, 12, p.acceleration);
    lemma_carries_number(c.bytes() + rest, 202, 12, p.v_max);
    lemma_carries_number(c.bytes() + rest, 214, 9, p.slow_down_time);
}

/// Where the parts of a spline stand in a packed command.
pub proof fn law_spline_places(c: RegularCommandData, s: Spline, rest: Seq<u8>)
    requires
        c.packable(),
        c.trajectory == Trajectory::GlobalSpline(s) || c.trajectory == Trajectory::LocalSpline(s),
    ensures
        carries_signed(c.bytes() + rest, 72, 11, s.x_pos as int),
        carries_signed(c.bytes() + rest, 83, 12, s.x_vel as int),
        carries_signed(c.bytes() + rest, 95, 13, s.x_acc as int),
        carries_signed(c.bytes() + rest, 108, 15, s.x_jerk as int),
        carries_signed(c.bytes() + rest, 123, 11, s.y_pos as int),
        carries_signed(c.bytes() + rest, 134, 12, s.y_vel as int),
        carries_signed(c.bytes() + rest, 146, 13, s.y_acc as int),
        carries_signed(c.bytes() + rest, 159, 15, s.y_jerk as int),
        carries_signed(c.bytes() + rest, 174, 9, s.phi_pos as int),
        carries_signed(c.bytes() + rest, 183, 10, s.phi_vel as int),
        carries_signed(c.bytes() + rest, 193, 14, s.phi_acc as int),
        carries_signed(c.bytes() + rest, 207, 17, s.phi_jerk as int),
{
    let b = c.bytes() + rest;
    lemma_command_decodes(c, rest);
    lemma_spline_digits(b, c.sent(), s);
    lemma2_to64();
    lemma_carries_signed(c.bytes() + rest, 72, 11, s.x_pos);
    lemma_carries_signed(c.bytes() + rest, 83, 12, s.x_vel);
    lemma_carries_signed(c.bytes() + rest, 95, 13, s.x_acc);
    lemma_carries_signed(c.bytes() + rest, 108, 15, s.x_jerk);
    lemma_carries_signed(c.bytes() + rest, 123, 11, s.y_pos);
    lemma_carries_signed(c.bytes() + rest, 134, 12, s.y_vel);
    lemma_carries_signed(c.bytes() + rest, 146, 13, s.y_acc);
    lemma_carries_signed(c.bytes() + rest, 159, 15, s.y_jerk);
    lemma_carries_signed(c.bytes() + rest, 174, 9, s.phi_pos);
    lemma_carries_signed(c.bytes() + rest, 183, 10, s.phi_vel);
    lemma_carries_signed(c.bytes() + rest, 193, 14, s.phi_acc);
    lemma_carries_signed(c.bytes() + rest, 207, 17, s.phi_jerk);
}

/// Where the parts of a command were read from.
pub proof fn law_command_read_places(c: RegularCommandData, bytes: Seq<u8>)
    requires
        c.unpacked(bytes),
    ensures
        holds_signed(bytes, 0, 8, c.time_offset as int),
        holds_signed(bytes, 8, 8, c.dribbler as int),
        holds_number(bytes, 16, 8, c.shot_power as nat),
        holds_flag(bytes, 24, c.chip),
        holds_flag(bytes, 25, c.charge),
        holds_flag(bytes, 26, c.force_kick),
        holds_flag(bytes, 27, c.standby),
        holds_flag(bytes, 28, c.eject_sdcard),
        holds_flag(bytes, 29, c.has_detection),
        holds_signed(bytes, 30, 11, c.detection_pos_x as int),
        holds_signed(bytes, 41, 11, c.detection_pos_y as int),
        holds_signed(bytes, 52, 9, c.detection_phi as int),
        holds_number(bytes, 61, 7, c.unused as nat),
        holds_number(
            bytes,
            68,
            4,
            match c.trajectory {
                Trajectory::Halt => 0,
                Trajectory::Path(_) => 1,
                Trajectory::GlobalSpline(_) => 2,
                Trajectory::LocalSpline(_) => 3,
            },
        ),
{
    lemma_head_digits(bytes, c);
    lemma2_to64();
    lemma_carries_signed(bytes, 0, 8, c.time_offset as i32);
    lemma_carries_signed(bytes, 8, 8, c.dribbler);
    lemma_carries_signed(bytes, 30, 11, c.detection_pos_x);
    lemma_carries_signed(bytes, 41, 11, c.detection_pos_y);
    lemma_carries_signed(bytes, 52, 9, c.detection_phi);
}

/// Where the parts of a path were read from.
pub proof fn law_path_read_places(c: RegularCommandData, p: TrajectoryPath, bytes: Seq<u8>)
    requires
        c.unpacked(bytes),
        c.trajectory == Trajectory::Path(p),
    ensures
        holds_signed(bytes, 72, 11, p.start_pos_x as int),
        holds_signed(bytes, 83, 11, p.start_pos_y as int),
        holds_signed(bytes, 94, 9, p.start_phi as int),
        holds_signed(bytes, 103, 12, p.start_vel_x as int),
        holds_signed(bytes, 115, 12, p.start_vel_y as int),
        holds_signed(bytes, 127, 9, p.end_phi as int),
        holds_signed(bytes, 136, 12, p.end_vel_x as int),
        holds_signed(bytes, 148, 12, p.end_vel_y as int),
        holds_signed(bytes, 160, 15, p.alpha as int),
        holds_number(bytes, 175, 15, p.t as nat),
        holds_number(bytes, 190, 12, p.acceleration as nat),
        holds_number(bytes, 202, 12, p.v_max as nat),
        holds_number(bytes, 214, 9, p.slow_down_time as nat),
        holds_flag(bytes, 223, p.is_fast_endspeed),
{
    lemma_path_digits(bytes, c, p);
    lemma2_to64();
    lemma_carries_signed(bytes, 72, 11, p.start_pos_x);
    lemma_carries_signed(bytes, 83, 11, p.start_pos_y);
    lemma_carries_signed(bytes, 94, 9, p.start_phi);
    lemma_carries_signed(bytes, 103, 12, p.start_vel_x);
    lemma_carries_signed(bytes, 115, 12, p.start_vel_y);
    lemma_carries_signed(bytes, 127, 9, p.end_phi);
    lemma_carries_signed(bytes, 136, 12, p.end_vel_x);
    lemma_carries_signed(bytes, 148, 12, p.end_vel_y);
    lemma_carries_signed(bytes, 160, 15, p.alpha);
    lemma_carries_number(bytes, 175, 15, p.t);
    lemma_carries_number(bytes, 190, 12, p.acceleration);
    lemma_carries_number(bytes, 202, 12, p.v_max);
    lemma_carries_number(bytes, 214, 9, p.slow_down_time);
}

/// Where the parts of a spline were read from.
pub proof fn law_spline_read_places(c: RegularCommandData, s: Spline, bytes: Seq<u8>)
    requires
        c.unpacked(bytes),
        c.trajectory == Trajectory::GlobalSpline(s) || c.trajectory == Trajectory::LocalSpline(s),
    ensures
        holds_signed(bytes, 72, 11, s.x_pos as int),
        holds_signed(bytes, 83, 12, s.x_vel as int),
        holds_signed(bytes, 95, 13, s.x_acc as int),
        holds_signed(bytes, 108, 15, s.x_jerk as int),
        holds_signed(bytes, 123, 11, s.y_pos as int),
        holds_signed(bytes, 134, 12, s.y_vel as int),
        holds_signed(bytes, 146, 13, s.y_acc as int),
        holds_signed(bytes, 159, 15, s.y_jerk as int),
        holds_signed(bytes, 174, 9, s.phi_pos as int),
        holds_signed(bytes, 183, 10, s.phi_vel as int),
        holds_signed(bytes, 193, 14, s.phi_acc as int),
        holds_signed(bytes, 207, 17, s.phi_jerk as int),
{
    lemma_spline_digits(bytes, c, s);
    lemma2_to64();
    lemma_carries_signed(bytes, 72, 11, s.x_pos);
    lemma_carries_signed(bytes, 83, 12, s.x_vel);
    lemma_carries_signed(bytes, 95, 13, s.x_acc);
    lemma_carries_signed(bytes, 108, 15, s.x_jerk);
    lemma_carries_signed(bytes, 123, 11, s.y_pos);
    lemma_carries_signed(bytes, 134, 12, s.y_vel);
    lemma_carries_signed(bytes, 146, 13, s.y_acc);
    lemma_carries_signed(bytes, 159, 15, s.y_jerk);
    lemma_carries_signed(bytes, 174, 9, s.phi_pos);
    lemma_carries_signed(bytes, 183, 10, s.phi_vel);
    lemma_carries_signed(bytes, 193, 14, s.phi_acc);
    lemma_carries_signed(bytes, 207, 17, s.phi_jerk);
}

/// A command can be packed exactly if its unused bits fit. A command is read from 9 bytes if it
/// halts, and from 28 bytes if it moves. A kind of trajectory that is not known is refused.
pub proof fn law_command_complete(c: RegularCommandData, bytes: Seq<u8>)
    ensures
        c.packable() <==> c.unused < 128,
        RegularCommandData::unpack_error(bytes) is None <==> {
            &&& bytes.len() >= 9
            &&& digits_at(bytes, 68, 4) <= 3
            &&& digits_at(bytes, 68, 4) == 0 || bytes.len() >= 28
        },
        bytes.len() >= 9 && digits_at(bytes, 68, 4) > 3 ==> RegularCommandData::unpack_error(bytes)
            == Some(UnpackError::UnknownTag { tag: digits_at(bytes, 68, 4) as u8 }),
{
    let head = RegularCommandData::head_layout();
    let bits = bits_of_bytes(bytes);
    lemma_head_offsets();
    lemma_decodes(bits, head);
    if bytes.len() >= 9 {
        lemma_field_digits(bytes, head, 13);
        let tag = decode(bits, head)->Ok_0[13];
        lemma2_to64();
        if tag <= 3 {
            let tail = Trajectory::layout_of(tag);
            let layout = RegularCommandData::layout_of(tag);
            lemma_path_offsets();
            lemma_spline_offsets();
            reveal_with_fuel(offset, 1);
            lemma_offset_concat(head, tail, tail.len() as int);
            assert(offset(tail, tail.len() as int) == (if tag == 0 { 0nat } else { 152nat }));
            lemma_decodes(bits, layout);
        }
    }
}

// ======== Defaults ========

/// The default command does nothing: the robot halts, does not dribble, charge or kick, stays awake,
/// keeps its SD card, and is told no position.
pub proof fn law_default_command(c: RegularCommandData)
    requires
        call_ensures(RegularCommandData::default, (), c),
    ensures
        c.trajectory is Halt,
        c.time_offset == 0 && c.dribbler == 0 && c.shot_power == 0 && c.unused == 0,
        !c.chip && !c.charge && !c.force_kick,
        !c.standby && !c.eject_sdcard,
        !c.has_detection && c.detection_pos_x == 0 && c.detection_pos_y == 0 && c.detection_phi == 0,
{
}

} // verus!
